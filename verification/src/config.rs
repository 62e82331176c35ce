//! Configuration data for one synchronization run: where images are mirrored
//! from, where they are published, which images are selected, and how the
//! patch step and the retention step behave.

use vstd::prelude::*;

verus! {

/// Verbosity of the run's logging; consumed by the surrounding program, not
/// by the pipeline itself.
#[derive(Debug, Clone, Copy, PartialEq, Eq, Structural)]
pub enum LogLevel {
    Critical,
    Error,
    Warning,
    Info,
    Debug,
    Trace,
}

/// Wall-clock limit for the patch script, in seconds.
pub type Timeout = u64;

/// Where the remote catalog lives: the metadata endpoint is `origin` joined
/// with `index_uri`, and per-file endpoints are `origin` joined with an
/// image's path and a file name.
pub struct TargetUrl {
    pub origin: String,
    pub index_uri: String,
}

/// A pattern selecting catalog images: a present field must equal the
/// record's field exactly, an absent field is a wildcard. A matching filter
/// may bind a patch script to its matches.
#[derive(Debug, PartialEq, Eq)]
pub struct ImageFilter {
    pub dist: Option<String>,
    pub release: Option<String>,
    pub arch: Option<String>,
    pub type_: Option<String>,
    pub post_process: Option<String>,
}

/// The ordered projection of a filter onto its present scalar fields, as
/// `(field name, required value)` pairs; the match predicate ranges over
/// exactly these pairs.
pub open spec fn present_fields(f: ImageFilter) -> Seq<(Seq<char>, Seq<char>)> {
    (if f.dist is Some {
        seq![("dist"@, (f.dist->0)@)]
    } else {
        Seq::empty()
    }) + (if f.release is Some {
        seq![("release"@, (f.release->0)@)]
    } else {
        Seq::empty()
    }) + (if f.arch is Some {
        seq![("arch"@, (f.arch->0)@)]
    } else {
        Seq::empty()
    }) + (if f.type_ is Some {
        seq![("type"@, (f.type_->0)@)]
    } else {
        Seq::empty()
    })
}

/// The projection holds one entry per present scalar field: filters with
/// `m` non-wildcard scalar fields project to exactly `m` pairs.
pub proof fn lemma_present_fields_count(f: ImageFilter)
    ensures
        present_fields(f).len() == (if f.dist is Some {
            1int
        } else {
            0int
        }) + (if f.release is Some {
            1int
        } else {
            0int
        }) + (if f.arch is Some {
            1int
        } else {
            0int
        }) + (if f.type_ is Some {
            1int
        } else {
            0int
        }),
{
}

fn clone_opt_string(o: &Option<String>) -> (r: Option<String>)
    ensures
        r == *o,
{
    match o {
        Some(s) => Some(s.clone()),
        None => None,
    }
}

impl Clone for ImageFilter {
    fn clone(&self) -> (r: Self)
        ensures
            r == *self,
    {
        ImageFilter {
            dist: clone_opt_string(&self.dist),
            release: clone_opt_string(&self.release),
            arch: clone_opt_string(&self.arch),
            type_: clone_opt_string(&self.type_),
            post_process: clone_opt_string(&self.post_process),
        }
    }
}

/// Walks a filter's present fields in order, handing out one
/// `(field name, required value)` pair per step.
pub struct ImageFilterIntoIterator {
    pub image_filter: ImageFilter,
    pub index: usize,
}

impl ImageFilter {
    pub fn into_iter(self) -> (r: ImageFilterIntoIterator)
        ensures
            r.image_filter == self,
            r.index == 0,
    {
        ImageFilterIntoIterator { image_filter: self, index: 0 }
    }
}

/// The views of a vector of string pairs.
pub open spec fn pair_views(v: Seq<(String, String)>) -> Seq<(Seq<char>, Seq<char>)> {
    v.map_values(|p: (String, String)| (p.0@, p.1@))
}

/// The present-field projection as owned pairs, in projection order.
pub fn present_fields_vec(f: &ImageFilter) -> (v: Vec<(String, String)>)
    ensures
        pair_views(v@) == present_fields(*f),
{
    let mut v: Vec<(String, String)> = Vec::new();
    if let Some(d) = &f.dist {
        v.push((String::from_str("dist"), d.clone()));
    }
    if let Some(d) = &f.release {
        v.push((String::from_str("release"), d.clone()));
    }
    if let Some(d) = &f.arch {
        v.push((String::from_str("arch"), d.clone()));
    }
    if let Some(d) = &f.type_ {
        v.push((String::from_str("type"), d.clone()));
    }
    proof {
        assert(pair_views(v@) =~~= present_fields(*f));
    }
    v
}

impl ImageFilterIntoIterator {
    /// Hands out the pair at the current position of the projection, or
    /// `None` once the projection is exhausted.
    pub fn next(&mut self) -> (r: Option<(String, String)>)
        ensures
            match r {
                Some(kv) => {
                    &&& old(self).index < present_fields(old(self).image_filter).len()
                    &&& (kv.0@, kv.1@) == present_fields(old(self).image_filter)[old(
                        self,
                    ).index as int]
                    &&& final(self).index == old(self).index + 1
                    &&& final(self).image_filter == old(self).image_filter
                },
                None => {
                    &&& old(self).index >= present_fields(old(self).image_filter).len()
                    &&& *final(self) == *old(self)
                },
            },
    {
        let fields = present_fields_vec(&self.image_filter);
        if self.index < fields.len() {
            let k = fields[self.index].0.clone();
            let v = fields[self.index].1.clone();
            self.index = self.index + 1;
            Some((k, v))
        } else {
            None
        }
    }
}

/// How a failed or timed-out patch script affects the image being published.
#[derive(Debug, Clone, Copy, PartialEq, Eq, Structural)]
pub enum PatchFailurePolicy {
    /// The image's publication is abandoned.
    Fail,
    /// The failure is reported and the image is published anyway.
    WarnAndContinue,
}

/// The fixed set of file names every selected image must provide.
pub type ImageFiles = Vec<String>;

/// Everything one synchronization run needs to know.
pub struct Repodata {
    /// Directory under which images are published.
    pub host_root_dir: String,
    /// Owner of the persisted index files.
    pub username: String,
    /// Where the remote catalog lives.
    pub target_url: TargetUrl,
    /// Filters selecting the images to mirror.
    pub image_filters: Vec<ImageFilter>,
    /// File names to download for each selected image.
    pub image_files: ImageFiles,
    /// How many images to retain per retention group.
    pub number_of_container_to_backup: usize,
    /// Wall-clock limit for the patch script, in seconds.
    pub patcher_timeout: Timeout,
    /// A script applied to every downloaded root-filesystem archive, beside
    /// any per-filter script.
    pub post_script_path: Option<String>,
    /// Whether a failed patch script abandons the image.
    pub patch_failure_policy: PatchFailurePolicy,
}

pub struct Config {
    pub log_level: LogLevel,
    pub repodata: Repodata,
}

impl Config {
    /// Checks a loaded configuration over and above what parsing enforces.
    /// Every parseable configuration is currently acceptable.
    pub fn validate(&self) -> (r: Result<(), crate::Error>)
        ensures
            r is Ok,
    {
        Ok(())
    }
}

} // verus!
