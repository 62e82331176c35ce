//! The retention scanner's verifiable side: recovering one image entry
//! from a published directory's path and modification time. The
//! surrounding program walks the published tree and hands each directory
//! here.

use vstd::prelude::*;
use vstd::string::StrSliceExecFns;

use crate::lxc_image_entries_cleanup::nonempty_segments;
use crate::lxc_image_entries_cleanup::path_segments;
use crate::lxc_image_entries_cleanup::ImageEntry;
use crate::lxc_image_metadata::LXCImageMetadata;
use crate::text::views_of;

verus! {

/// Recovers one image entry from a scanned directory path: the path's
/// last five segments are read as `dist/release/arch/type/name`, and the
/// record keeps the full path it was found under. A path with fewer
/// segments does not match the published shape and is excluded.
pub fn image_entry_of_path(path: &str, mtime: u128) -> (r: Option<ImageEntry>)
    ensures
        match r {
            Some(e) => {
                let segs = path_segments(path@);
                let n = segs.len() as int;
                &&& segs.len() >= 5
                &&& e.0.dist@ == segs[n - 5]
                &&& e.0.release@ == segs[n - 4]
                &&& e.0.arch@ == segs[n - 3]
                &&& e.0.type_@ == segs[n - 2]
                &&& e.0.name@ == segs[n - 1]
                &&& e.0.path@ == path@
                &&& e.1 == mtime
            },
            None => path_segments(path@).len() < 5,
        },
{
    let segs = nonempty_segments(path);
    let n = segs.len();
    if n < 5 {
        return None;
    }
    let m = LXCImageMetadata {
        dist: segs[n - 5].clone(),
        release: segs[n - 4].clone(),
        arch: segs[n - 3].clone(),
        type_: segs[n - 2].clone(),
        name: segs[n - 1].clone(),
        path: path.to_owned(),
    };
    proof {
        assert(views_of(segs@)[n - 5] == segs@[n - 5]@);
        assert(views_of(segs@)[n - 4] == segs@[n - 4]@);
        assert(views_of(segs@)[n - 3] == segs@[n - 3]@);
        assert(views_of(segs@)[n - 2] == segs@[n - 2]@);
        assert(views_of(segs@)[n - 1] == segs@[n - 1]@);
    }
    Some((m, mtime))
}

} // verus!
