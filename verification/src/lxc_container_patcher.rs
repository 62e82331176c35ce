//! The patch step's command line: which script to run against a freshly
//! downloaded artifact, and with which arguments. The surrounding program
//! spawns the script and waits on it with the configured deadline; the
//! outcome is classified in `publish`.

use vstd::prelude::*;
use vstd::string::StringExecFns;

use crate::config::Timeout;
use crate::text::views_of;
use crate::Error;

verus! {

/// One pending patch invocation: the script, the artifact to patch, and
/// the wall-clock deadline the script runs under.
pub struct LCXContainerPatcher<'a> {
    pub path_to_script: Option<&'a String>,
    pub tempfile: &'a String,
    pub timeout: Timeout,
}

impl<'a> LCXContainerPatcher<'a> {
    pub fn of(path_to_script: &'a Option<String>, tempfile: &'a String, timeout: Timeout) -> (r:
        Self)
        ensures
            r.path_to_script is Some <==> path_to_script is Some,
            path_to_script is Some ==> r.path_to_script->0 == path_to_script->0,
            r.tempfile == tempfile,
            r.timeout == timeout,
    {
        LCXContainerPatcher { path_to_script: path_to_script.as_ref(), tempfile, timeout }
    }

    /// The exact argument list the script is spawned with: the artifact
    /// under `-path` and the three positional fields under `-d`, `-r` and
    /// `-a`. A missing script path or a missing field refuses the
    /// invocation.
    pub fn command_args(
        &self,
        dist: &Option<String>,
        release: &Option<String>,
        arch: &Option<String>,
    ) -> (r: Result<Vec<String>, Error>)
        ensures
            match r {
                Ok(v) => {
                    &&& self.path_to_script is Some
                    &&& dist is Some
                    &&& release is Some
                    &&& arch is Some
                    &&& views_of(v@) == seq![
                        "-path"@,
                        self.tempfile@,
                        "-d"@,
                        (dist->0)@,
                        "-r"@,
                        (release->0)@,
                        "-a"@,
                        (arch->0)@,
                    ]
                },
                Err(e) => e == Error::PatchFailure && (self.path_to_script is None || dist is None
                    || release is None || arch is None),
            },
    {
        if self.path_to_script.is_none() {
            return Err(Error::PatchFailure);
        }
        let (d, rel, a) = match (dist, release, arch) {
            (Some(d), Some(rel), Some(a)) => (d, rel, a),
            _ => {
                return Err(Error::PatchFailure);
            },
        };
        let mut v: Vec<String> = Vec::new();
        v.push(String::from_str("-path"));
        v.push(self.tempfile.clone());
        v.push(String::from_str("-d"));
        v.push(d.clone());
        v.push(String::from_str("-r"));
        v.push(rel.clone());
        v.push(String::from_str("-a"));
        v.push(a.clone());
        proof {
            assert(views_of(v@) =~~= seq![
                "-path"@,
                self.tempfile@,
                "-d"@,
                (dist->0)@,
                "-r"@,
                (release->0)@,
                "-a"@,
                (arch->0)@,
            ]);
        }
        Ok(v)
    }
}

} // verus!
