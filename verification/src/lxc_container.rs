//! Building the full record collection from the raw index body: one record
//! per line, with the whole build failing on the first malformed line.

use vstd::prelude::*;
use vstd::string::StrSliceExecFns;

use crate::lxc_image_metadata::fields_of;
use crate::lxc_image_metadata::parse_line;
use crate::lxc_image_metadata::LXCImageMetadata;
use crate::text::split_char;
use crate::text::split_str;
use crate::text::views_of;
use crate::Error;

verus! {

/// A raw line without its carriage return, if it carried one.
pub open spec fn strip_cr(l: Seq<char>) -> Seq<char> {
    if l.len() > 0 && l.last() == '\r' {
        l.drop_last()
    } else {
        l
    }
}

/// The lines of an index body: split at every newline, the carriage return
/// before a newline dropped, and the empty tail after a final newline
/// ignored.
pub open spec fn lines_of(s: Seq<char>) -> Seq<Seq<char>> {
    let parts = split_char(s, '\n');
    let kept = if parts.len() > 0 && parts.last().len() == 0 {
        parts.drop_last()
    } else {
        parts
    };
    kept.map_values(|l: Seq<char>| strip_cr(l))
}

pub struct LXCContainers;

impl LXCContainers {
    /// Parses every line of the raw index body into a record. The policy for
    /// malformed input is fail-fast: one malformed line fails the whole
    /// build, and no partial collection is ever handed out.
    pub fn build_collection(file_as_string: String) -> (r: Result<Vec<LXCImageMetadata>, Error>)
        ensures
            match r {
                Ok(v) => {
                    &&& v@.len() == lines_of(file_as_string@).len()
                    &&& forall|i: int|
                        0 <= i < v@.len() ==> parse_line(lines_of(file_as_string@)[i]) == Some(
                            fields_of(#[trigger] v@[i]),
                        )
                },
                Err(e) => e == Error::Parse && exists|i: int|
                    0 <= i < lines_of(file_as_string@).len() && parse_line(
                        #[trigger] lines_of(file_as_string@)[i],
                    ) is None,
            },
    {
        let parts = split_str(file_as_string.as_str(), '\n');
        let n_raw = parts.len();
        proof {
            assert(split_char(file_as_string@, '\n').len() == views_of(parts@).len());
        }
        let n = if n_raw > 0 && parts[n_raw - 1].as_str().unicode_len() == 0 {
            n_raw - 1
        } else {
            n_raw
        };
        proof {
            assert(views_of(parts@)[n_raw - 1] == parts@[n_raw - 1]@);
            assert(lines_of(file_as_string@).len() == n);
        }
        let mut out: Vec<LXCImageMetadata> = Vec::new();
        let mut i: usize = 0;
        while i < n
            invariant
                n <= n_raw == parts@.len(),
                views_of(parts@) == split_char(file_as_string@, '\n'),
                lines_of(file_as_string@).len() == n,
                forall|j: int|
                    0 <= j < n ==> lines_of(file_as_string@)[j] == strip_cr(#[trigger] parts@[j]@),
                0 <= i <= n,
                out@.len() == i,
                forall|j: int|
                    0 <= j < i ==> parse_line(lines_of(file_as_string@)[j]) == Some(
                        fields_of(#[trigger] out@[j]),
                    ),
            decreases n - i,
        {
            let raw = parts[i].as_str();
            let len = raw.unicode_len();
            let line = if len > 0 && raw.get_char(len - 1) == '\r' {
                raw.substring_char(0, len - 1)
            } else {
                raw
            };
            proof {
                assert(line@ == strip_cr(parts@[i as int]@));
            }
            match LXCImageMetadata::of_metadata(line) {
                Ok(m) => {
                    out.push(m);
                },
                Err(_) => {
                    return Err(Error::Parse);
                },
            }
            i = i + 1;
        }
        Ok(out)
    }
}

} // verus!
