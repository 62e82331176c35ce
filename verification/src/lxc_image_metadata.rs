//! One catalog record and the operations around it: parsing a raw index
//! line, looking fields up by name, and matching records against the
//! configured filters.

use vstd::prelude::*;
use vstd::string::StrSliceExecFns;
use vstd::string::StringExecFns;

use crate::config::ImageFilter;
use crate::config::present_fields;
use crate::text::drop_while;
use crate::text::drop_while_end;
use crate::text::split_char;
use crate::text::split_str;
use crate::text::str_eq;
use crate::text::trim_spec;
use crate::text::trim_str;
use crate::text::views_of;
use crate::Error;

verus! {

broadcast use vstd::string::group_string_axioms;

/// One mirrored image: the retention group key `(dist, release, arch,
/// type)`, the instance name, and the directory path the image lives under.
#[derive(Debug, PartialEq, Eq)]
pub struct LXCImageMetadata {
    pub dist: String,
    pub release: String,
    pub arch: String,
    pub type_: String,
    pub name: String,
    pub path: String,
}

impl Clone for LXCImageMetadata {
    fn clone(&self) -> (r: Self)
        ensures
            r == *self,
    {
        LXCImageMetadata {
            dist: self.dist.clone(),
            release: self.release.clone(),
            arch: self.arch.clone(),
            type_: self.type_.clone(),
            name: self.name.clone(),
            path: self.path.clone(),
        }
    }
}

pub open spec fn strip_leading_slashes(s: Seq<char>) -> Seq<char> {
    drop_while(s, |c: char| c == '/')
}

pub open spec fn strip_trailing_slashes(s: Seq<char>) -> Seq<char> {
    drop_while_end(s, |c: char| c == '/')
}

/// A parsed record's path: relative (no leading slashes) and terminated by
/// exactly one slash.
pub open spec fn normalize_path(s: Seq<char>) -> Seq<char> {
    strip_trailing_slashes(strip_leading_slashes(s)).push('/')
}

/// The six fields a record renders to, in index-line order.
pub open spec fn fields_of(m: LXCImageMetadata) -> Seq<Seq<char>> {
    seq![m.dist@, m.release@, m.arch@, m.type_@, m.name@, m.path@]
}

/// What parsing one raw index line yields: `None` unless the line holds
/// exactly six `;`-separated fields; otherwise the six fields, each trimmed
/// of edge whitespace, the last normalized into a relative slash-terminated
/// path.
pub open spec fn parse_line(s: Seq<char>) -> Option<Seq<Seq<char>>> {
    let parts = split_char(s, ';');
    if parts.len() == 6 {
        Some(
            seq![
                trim_spec(parts[0]),
                trim_spec(parts[1]),
                trim_spec(parts[2]),
                trim_spec(parts[3]),
                trim_spec(parts[4]),
                normalize_path(trim_spec(parts[5])),
            ],
        )
    } else {
        None
    }
}

/// Strips leading and trailing slashes and appends exactly one, as
/// `normalize_path` describes.
fn normalize_path_str(s: &str) -> (r: String)
    ensures
        r@ == normalize_path(s@),
{
    let n = s.unicode_len();
    let mut lo: usize = 0;
    while lo < n && s.get_char(lo) == '/'
        invariant
            n == s@.len(),
            0 <= lo <= n,
            forall|j: int| 0 <= j < lo ==> s@[j] == '/',
        decreases n - lo,
    {
        lo = lo + 1;
    }
    let mut hi: usize = n;
    while hi > lo && s.get_char(hi - 1) == '/'
        invariant
            n == s@.len(),
            lo <= hi <= n,
            forall|j: int| hi <= j < n ==> s@[j] == '/',
        decreases hi,
    {
        hi = hi - 1;
    }
    let core = s.substring_char(lo, hi);
    let mut r = core.to_owned();
    r.append("/");
    proof {
        let sl = |c: char| c == '/';
        crate::text::lemma_drop_while_skip(s@, sl, lo as int);
        let t = s@.skip(lo as int);
        if lo < n {
            assert(!sl(t[0]));
        }
        assert(strip_leading_slashes(s@) == t);
        crate::text::lemma_drop_while_end_take(t, sl, hi - lo);
        let u = t.take(hi - lo);
        if hi > lo {
            assert(!sl(u.last())) by {
                assert(u.last() == s@[hi - 1]);
            }
        }
        assert(strip_trailing_slashes(t) == u);
        assert(u =~= s@.subrange(lo as int, hi as int));
        reveal_strlit("/");
        assert(r@ =~= normalize_path(s@));
    }
    r
}

impl LXCImageMetadata {
    /// Parses one raw index line, as `parse_line` describes: exactly six
    /// `;`-separated fields are required, and a line with any other field
    /// count is a parse failure.
    pub fn of_metadata(input: &str) -> (r: Result<LXCImageMetadata, Error>)
        ensures
            match r {
                Ok(m) => parse_line(input@) == Some(fields_of(m)),
                Err(e) => e == Error::Parse && parse_line(input@) is None,
            },
    {
        let parts = split_str(input, ';');
        if parts.len() != 6 {
            proof {
                assert(split_char(input@, ';').len() == views_of(parts@).len());
            }
            return Err(Error::Parse);
        }
        let dist = trim_str(parts[0].as_str());
        let release = trim_str(parts[1].as_str());
        let arch = trim_str(parts[2].as_str());
        let type_ = trim_str(parts[3].as_str());
        let name = trim_str(parts[4].as_str());
        let path_trimmed = trim_str(parts[5].as_str());
        let path = normalize_path_str(path_trimmed.as_str());
        let m = LXCImageMetadata { dist, release, arch, type_, name, path };
        proof {
            assert(views_of(parts@)[0] == parts@[0]@);
            assert(views_of(parts@)[1] == parts@[1]@);
            assert(views_of(parts@)[2] == parts@[2]@);
            assert(views_of(parts@)[3] == parts@[3]@);
            assert(views_of(parts@)[4] == parts@[4]@);
            assert(views_of(parts@)[5] == parts@[5]@);
            assert(parse_line(input@) == Some(fields_of(m)));
        }
        Ok(m)
    }
}

/// What `get` answers for a field name: the record's value for one of the
/// four group-key fields, `None` for any other name.
pub open spec fn field_value(m: LXCImageMetadata, key: Seq<char>) -> Option<Seq<char>> {
    if key == "dist"@ {
        Some(m.dist@)
    } else if key == "release"@ {
        Some(m.release@)
    } else if key == "arch"@ {
        Some(m.arch@)
    } else if key == "type"@ {
        Some(m.type_@)
    } else {
        None
    }
}

impl LXCImageMetadata {
    /// Looks a group-key field up by name, as `field_value` describes.
    pub fn get(&self, idx: &str) -> (r: Option<String>)
        ensures
            match r {
                Some(v) => field_value(*self, idx@) == Some(v@),
                None => field_value(*self, idx@) is None,
            },
    {
        if str_eq(idx, "dist") {
            Some(self.dist.clone())
        } else if str_eq(idx, "release") {
            Some(self.release.clone())
        } else if str_eq(idx, "arch") {
            Some(self.arch.clone())
        } else if str_eq(idx, "type") {
            Some(self.type_.clone())
        } else {
            None
        }
    }
}

/// Whether a filter selects a record: every pair of the filter's
/// present-field projection must agree with the record.
pub open spec fn filter_matches(f: ImageFilter, m: LXCImageMetadata) -> bool {
    forall|i: int|
        0 <= i < present_fields(f).len() ==> field_value(
            m,
            (#[trigger] present_fields(f)[i]).0,
        ) == Some(present_fields(f)[i].1)
}

/// The projection-based match predicate, spelled out field by field: a
/// present field must equal the record's field, an absent one constrains
/// nothing.
pub proof fn lemma_filter_matches_fields(f: ImageFilter, m: LXCImageMetadata)
    ensures
        filter_matches(f, m) == {
            &&& (f.dist is Some ==> m.dist@ == (f.dist->0)@)
            &&& (f.release is Some ==> m.release@ == (f.release->0)@)
            &&& (f.arch is Some ==> m.arch@ == (f.arch->0)@)
            &&& (f.type_ is Some ==> m.type_@ == (f.type_->0)@)
        },
{
    reveal_strlit("dist");
    reveal_strlit("release");
    reveal_strlit("arch");
    reveal_strlit("type");
    assert("dist"@.len() == 4);
    assert("release"@.len() == 7);
    assert("arch"@.len() == 4);
    assert("type"@.len() == 4);
    assert("dist"@[0] == 'd');
    assert("arch"@[0] == 'a');
    assert("type"@[0] == 't');
    assert("dist"@ != "release"@);
    assert("dist"@ != "arch"@);
    assert("dist"@ != "type"@);
    assert("release"@ != "arch"@);
    assert("release"@ != "type"@);
    assert("arch"@ != "type"@);
    let pf = present_fields(f);
    let fieldwise = {
        &&& (f.dist is Some ==> m.dist@ == (f.dist->0)@)
        &&& (f.release is Some ==> m.release@ == (f.release->0)@)
        &&& (f.arch is Some ==> m.arch@ == (f.arch->0)@)
        &&& (f.type_ is Some ==> m.type_@ == (f.type_->0)@)
    };
    if filter_matches(f, m) {
        if f.dist is Some {
            assert(pf[0] == ("dist"@, (f.dist->0)@));
            assert(field_value(m, pf[0].0) == Some(pf[0].1));
        }
        if f.release is Some {
            let i = if f.dist is Some { 1int } else { 0int };
            assert(pf[i] == ("release"@, (f.release->0)@));
            assert(field_value(m, pf[i].0) == Some(pf[i].1));
        }
        if f.arch is Some {
            let i = (if f.dist is Some { 1int } else { 0int }) + (if f.release is Some {
                1int
            } else {
                0int
            });
            assert(pf[i] == ("arch"@, (f.arch->0)@));
            assert(field_value(m, pf[i].0) == Some(pf[i].1));
        }
        if f.type_ is Some {
            let i = (if f.dist is Some { 1int } else { 0int }) + (if f.release is Some {
                1int
            } else {
                0int
            }) + (if f.arch is Some { 1int } else { 0int });
            assert(pf[i] == ("type"@, (f.type_->0)@));
            assert(field_value(m, pf[i].0) == Some(pf[i].1));
        }
        assert(fieldwise);
    }
    if fieldwise {
        assert forall|i: int| 0 <= i < pf.len() implies field_value(
            m,
            (#[trigger] pf[i]).0,
        ) == Some(pf[i].1) by {
            assert(pf[i].0 == "dist"@ || pf[i].0 == "release"@ || pf[i].0 == "arch"@ || pf[i].0
                == "type"@);
        }
    }
}

/// A filter whose every field is a wildcard matches every record.
pub proof fn lemma_wildcard_filter_matches(f: ImageFilter, m: LXCImageMetadata)
    requires
        f.dist is None,
        f.release is None,
        f.arch is None,
        f.type_ is None,
    ensures
        filter_matches(f, m),
{
    assert(present_fields(f).len() == 0);
}

/// Whether a filter selects a record, as `filter_matches` describes.
pub fn matches_filter(f: &ImageFilter, m: &LXCImageMetadata) -> (r: bool)
    ensures
        r == filter_matches(*f, *m),
{
    proof {
        lemma_filter_matches_fields(*f, *m);
    }
    let dist_ok = match &f.dist {
        Some(v) => str_eq(v.as_str(), m.dist.as_str()),
        None => true,
    };
    let release_ok = match &f.release {
        Some(v) => str_eq(v.as_str(), m.release.as_str()),
        None => true,
    };
    let arch_ok = match &f.arch {
        Some(v) => str_eq(v.as_str(), m.arch.as_str()),
        None => true,
    };
    let type_ok = match &f.type_ {
        Some(v) => str_eq(v.as_str(), m.type_.as_str()),
        None => true,
    };
    dist_ok && release_ok && arch_ok && type_ok
}

/// The pairs one record contributes when matched against every filter in
/// order: one `(record, patch script)` pair per matching filter.
pub open spec fn pairs_for(m: LXCImageMetadata, fs: Seq<ImageFilter>) -> Seq<
    (LXCImageMetadata, Option<String>),
>
    decreases fs.len(),
{
    if fs.len() == 0 {
        Seq::empty()
    } else {
        (if filter_matches(fs[0], m) {
            seq![(m, fs[0].post_process)]
        } else {
            Seq::empty()
        }) + pairs_for(m, fs.drop_first())
    }
}

/// The full cross product: every record against every filter, records in
/// input order, filters in filter order within one record.
pub open spec fn match_pairs(ms: Seq<LXCImageMetadata>, fs: Seq<ImageFilter>) -> Seq<
    (LXCImageMetadata, Option<String>),
>
    decreases ms.len(),
{
    if ms.len() == 0 {
        Seq::empty()
    } else {
        pairs_for(ms[0], fs) + match_pairs(ms.drop_first(), fs)
    }
}

proof fn lemma_pairs_for_take(m: LXCImageMetadata, fs: Seq<ImageFilter>, j: int)
    requires
        0 <= j < fs.len(),
    ensures
        pairs_for(m, fs.take(j + 1)) == pairs_for(m, fs.take(j)) + (if filter_matches(fs[j], m) {
            seq![(m, fs[j].post_process)]
        } else {
            Seq::<(LXCImageMetadata, Option<String>)>::empty()
        }),
    decreases j,
{
    let delta = if filter_matches(fs[j], m) {
        seq![(m, fs[j].post_process)]
    } else {
        Seq::<(LXCImageMetadata, Option<String>)>::empty()
    };
    if j == 0 {
        assert(fs.take(0) =~= Seq::<ImageFilter>::empty());
        assert(fs.take(1).drop_first() =~= Seq::<ImageFilter>::empty());
        assert(pairs_for(m, fs.take(1)) =~= delta);
    } else {
        lemma_pairs_for_take(m, fs.drop_first(), j - 1);
        assert(fs.take(j + 1).drop_first() =~= fs.drop_first().take(j));
        assert(fs.take(j).drop_first() =~= fs.drop_first().take(j - 1));
        assert(fs.take(j + 1)[0] == fs[0]);
        assert(fs.take(j)[0] == fs[0]);
        assert(fs.drop_first()[j - 1] == fs[j]);
        assert(pairs_for(m, fs.take(j + 1)) =~= pairs_for(m, fs.take(j)) + delta);
    }
}

proof fn lemma_match_pairs_take(ms: Seq<LXCImageMetadata>, fs: Seq<ImageFilter>, i: int)
    requires
        0 <= i < ms.len(),
    ensures
        match_pairs(ms.take(i + 1), fs) == match_pairs(ms.take(i), fs) + pairs_for(ms[i], fs),
    decreases i,
{
    if i == 0 {
        assert(ms.take(0) =~= Seq::<LXCImageMetadata>::empty());
        assert(ms.take(1).drop_first() =~= Seq::<LXCImageMetadata>::empty());
        assert(ms.take(1)[0] == ms[0]);
        assert(match_pairs(Seq::<LXCImageMetadata>::empty(), fs) =~= Seq::<
            (LXCImageMetadata, Option<String>),
        >::empty());
        assert(match_pairs(ms.take(1), fs) =~= pairs_for(ms[0], fs));
    } else {
        lemma_match_pairs_take(ms.drop_first(), fs, i - 1);
        assert(ms.take(i + 1).drop_first() =~= ms.drop_first().take(i));
        assert(ms.take(i).drop_first() =~= ms.drop_first().take(i - 1));
        assert(ms.take(i + 1)[0] == ms[0]);
        assert(ms.take(i)[0] == ms[0]);
        assert(ms.drop_first()[i - 1] == ms[i]);
        assert(match_pairs(ms.take(i + 1), fs) =~= match_pairs(ms.take(i), fs) + pairs_for(
            ms[i],
            fs,
        ));
    }
}

/// Filtering against an empty filter list can never produce a pair.
pub proof fn lemma_empty_filters_no_pairs(ms: Seq<LXCImageMetadata>)
    ensures
        match_pairs(ms, Seq::empty()).len() == 0,
    decreases ms.len(),
{
    if ms.len() > 0 {
        lemma_empty_filters_no_pairs(ms.drop_first());
    }
}

/// Matches a list of records against the configured filters.
pub trait FilterBy {
    /// The records this collection holds, in order.
    spec fn records(&self) -> Seq<LXCImageMetadata>;

    /// Evaluates every record against every filter in order and returns one
    /// `(record, patch script)` pair per match. An empty result is not a
    /// valid outcome: it aborts the run with a selection failure.
    fn filter_by(&self, image_filters: Vec<ImageFilter>) -> (r: Result<
        Vec<(LXCImageMetadata, Option<String>)>,
        Error,
    >)
        ensures
            match r {
                Ok(v) => v@ == match_pairs(self.records(), image_filters@) && v@.len() > 0,
                Err(e) => e == Error::Selection && match_pairs(self.records(), image_filters@).len()
                    == 0,
            },
    ;
}

impl FilterBy for Vec<LXCImageMetadata> {
    open spec fn records(&self) -> Seq<LXCImageMetadata> {
        self@
    }

    fn filter_by(&self, image_filters: Vec<ImageFilter>) -> (r: Result<
        Vec<(LXCImageMetadata, Option<String>)>,
        Error,
    >) {
        let ms_len = self.len();
        let fs_len = image_filters.len();
        let mut out: Vec<(LXCImageMetadata, Option<String>)> = Vec::new();
        let mut i: usize = 0;
        proof {
            assert(self@.take(0) =~= Seq::<LXCImageMetadata>::empty());
        }
        while i < ms_len
            invariant
                ms_len == self@.len(),
                fs_len == image_filters@.len(),
                0 <= i <= ms_len,
                out@ == match_pairs(self@.take(i as int), image_filters@),
            decreases ms_len - i,
        {
            let mut j: usize = 0;
            proof {
                assert(image_filters@.take(0) =~= Seq::<ImageFilter>::empty());
                assert(out@ =~= match_pairs(self@.take(i as int), image_filters@) + pairs_for(
                    self@[i as int],
                    image_filters@.take(0),
                ));
            }
            while j < fs_len
                invariant
                    ms_len == self@.len(),
                    fs_len == image_filters@.len(),
                    0 <= i < ms_len,
                    0 <= j <= fs_len,
                    out@ == match_pairs(self@.take(i as int), image_filters@) + pairs_for(
                        self@[i as int],
                        image_filters@.take(j as int),
                    ),
                decreases fs_len - j,
            {
                if matches_filter(&image_filters[j], &self[i]) {
                    let m = self[i].clone();
                    let pp = match &image_filters[j].post_process {
                        Some(s) => Some(s.clone()),
                        None => None,
                    };
                    out.push((m, pp));
                }
                proof {
                    lemma_pairs_for_take(self@[i as int], image_filters@, j as int);
                    assert(out@ =~= match_pairs(self@.take(i as int), image_filters@) + pairs_for(
                        self@[i as int],
                        image_filters@.take(j + 1),
                    ));
                }
                j = j + 1;
            }
            proof {
                assert(image_filters@.take(fs_len as int) =~= image_filters@);
                lemma_match_pairs_take(self@, image_filters@, i as int);
                assert(out@ =~= match_pairs(self@.take(i + 1), image_filters@));
            }
            i = i + 1;
        }
        proof {
            assert(self@.take(ms_len as int) =~= self@);
        }
        if out.len() == 0 {
            Err(Error::Selection)
        } else {
            Ok(out)
        }
    }
}

} // verus!
