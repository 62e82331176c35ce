//! The per-image publish state machine: probing the final directory,
//! staging, downloading every required file, optional patching, one atomic
//! rename, and permissions. The machine only decides; the surrounding
//! program performs each requested action and reports its outcome back.

use vstd::prelude::*;

use crate::config::PatchFailurePolicy;
use crate::Error;

verus! {

/// Where one image's publication stands.
#[derive(Debug, Clone, Copy, PartialEq, Eq, Structural)]
pub enum PublishState {
    /// Probe whether the final directory already exists.
    CheckExists,
    /// Create a fresh staging directory outside the final tree.
    Stage,
    /// Fetch the required files one by one into the staging directory;
    /// `files_done` of them are already there.
    DownloadFiles { files_done: usize },
    /// Move the staging directory to the final path in one step.
    Rename,
    /// Set the published modes: files `0644`, the directory `0755`.
    SetPermissions,
    /// The image is fully published.
    Done,
    /// The final directory already existed; nothing was touched.
    Skipped,
    /// The image's publication was abandoned; the final path was never
    /// created.
    Failed,
}

/// What the surrounding program reports back after performing an action.
#[derive(Debug, Clone, Copy, PartialEq, Eq, Structural)]
pub enum PublishEvent {
    /// Whether the final directory exists.
    FinalDirExists(bool),
    /// Whether the staging directory was created.
    StagePrepared(bool),
    /// Whether one file was fetched into staging, patched as configured.
    FileFetched(bool),
    /// Whether the staging directory was moved to the final path.
    Renamed(bool),
    /// Whether the published modes were set.
    PermissionsSet(bool),
}

/// What the machine asks the surrounding program to do next.
#[derive(Debug, Clone, Copy, PartialEq, Eq, Structural)]
pub enum PublishAction {
    ProbeFinalDir,
    PrepareStaging,
    FetchFile { index: usize },
    RenameIntoPlace,
    ApplyPermissions,
}

/// The action each state requests, as `publish_action` returns it: only
/// `Rename` ever asks for the final path to be made visible.
pub open spec fn action_of(s: PublishState) -> Option<PublishAction> {
    match s {
        PublishState::CheckExists => Some(PublishAction::ProbeFinalDir),
        PublishState::Stage => Some(PublishAction::PrepareStaging),
        PublishState::DownloadFiles { files_done } => Some(
            PublishAction::FetchFile { index: files_done },
        ),
        PublishState::Rename => Some(PublishAction::RenameIntoPlace),
        PublishState::SetPermissions => Some(PublishAction::ApplyPermissions),
        PublishState::Done => None,
        PublishState::Skipped => None,
        PublishState::Failed => None,
    }
}

/// Whether an action writes to the final image path. Probing only reads
/// it; staging and fetching touch the staging directory alone; setting
/// permissions alters modes of an already complete image.
pub open spec fn makes_final_path_visible(a: PublishAction) -> bool {
    a is RenameIntoPlace
}

/// The machine's transition function, as `publish_step` computes it: an
/// event that does not answer the pending action abandons the image.
pub open spec fn spec_step(s: PublishState, e: PublishEvent, n_files: usize) -> PublishState {
    match (s, e) {
        (PublishState::CheckExists, PublishEvent::FinalDirExists(true)) => PublishState::Skipped,
        (PublishState::CheckExists, PublishEvent::FinalDirExists(false)) => PublishState::Stage,
        (PublishState::Stage, PublishEvent::StagePrepared(true)) => if n_files == 0 {
            PublishState::Rename
        } else {
            PublishState::DownloadFiles { files_done: 0 }
        },
        (PublishState::DownloadFiles { files_done }, PublishEvent::FileFetched(true)) => if files_done
            + 1 == n_files {
            PublishState::Rename
        } else {
            PublishState::DownloadFiles { files_done: (files_done + 1) as usize }
        },
        (PublishState::Rename, PublishEvent::Renamed(true)) => PublishState::SetPermissions,
        (PublishState::SetPermissions, PublishEvent::PermissionsSet(true)) => PublishState::Done,
        _ => PublishState::Failed,
    }
}

/// The machine's well-formedness against the required file count: a
/// download position never passes the file list.
pub open spec fn state_inv(s: PublishState, n_files: usize) -> bool {
    match s {
        PublishState::DownloadFiles { files_done } => files_done < n_files,
        _ => true,
    }
}

impl PublishState {
    /// The state every image starts in.
    pub fn initial() -> (r: PublishState)
        ensures
            r is CheckExists,
    {
        PublishState::CheckExists
    }
}

/// The action the given state requests, as `action_of` describes.
pub fn publish_action(s: &PublishState) -> (r: Option<PublishAction>)
    ensures
        r == action_of(*s),
{
    match s {
        PublishState::CheckExists => Some(PublishAction::ProbeFinalDir),
        PublishState::Stage => Some(PublishAction::PrepareStaging),
        PublishState::DownloadFiles { files_done } => Some(
            PublishAction::FetchFile { index: *files_done },
        ),
        PublishState::Rename => Some(PublishAction::RenameIntoPlace),
        PublishState::SetPermissions => Some(PublishAction::ApplyPermissions),
        PublishState::Done => None,
        PublishState::Skipped => None,
        PublishState::Failed => None,
    }
}

/// Advances the machine by one reported event, as `spec_step` describes.
pub fn publish_step(s: &PublishState, e: &PublishEvent, n_files: usize) -> (r: PublishState)
    requires
        state_inv(*s, n_files),
    ensures
        r == spec_step(*s, *e, n_files),
        state_inv(r, n_files),
{
    match (s, e) {
        (PublishState::CheckExists, PublishEvent::FinalDirExists(true)) => PublishState::Skipped,
        (PublishState::CheckExists, PublishEvent::FinalDirExists(false)) => PublishState::Stage,
        (PublishState::Stage, PublishEvent::StagePrepared(true)) => {
            if n_files == 0 {
                PublishState::Rename
            } else {
                PublishState::DownloadFiles { files_done: 0 }
            }
        },
        (PublishState::DownloadFiles { files_done }, PublishEvent::FileFetched(true)) => {
            if *files_done + 1 == n_files {
                PublishState::Rename
            } else {
                PublishState::DownloadFiles { files_done: *files_done + 1 }
            }
        },
        (PublishState::Rename, PublishEvent::Renamed(true)) => PublishState::SetPermissions,
        (PublishState::SetPermissions, PublishEvent::PermissionsSet(true)) => PublishState::Done,
        _ => PublishState::Failed,
    }
}

/// The state a run of the machine reaches from the start after the given
/// events.
pub open spec fn run_steps(events: Seq<PublishEvent>, n_files: usize) -> PublishState
    decreases events.len(),
{
    if events.len() == 0 {
        PublishState::CheckExists
    } else {
        spec_step(run_steps(events.drop_last(), n_files), events.last(), n_files)
    }
}

/// How many successful file fetches the given events report.
pub open spec fn successful_fetches(events: Seq<PublishEvent>) -> int
    decreases events.len(),
{
    if events.len() == 0 {
        0
    } else {
        successful_fetches(events.drop_last()) + if events.last() == PublishEvent::FileFetched(
            true,
        ) {
            1int
        } else {
            0int
        }
    }
}

/// How many files a state witnesses as already fetched.
pub open spec fn fetched_floor(s: PublishState, n_files: usize) -> int {
    match s {
        PublishState::DownloadFiles { files_done } => files_done as int,
        PublishState::Rename => n_files as int,
        PublishState::SetPermissions => n_files as int,
        PublishState::Done => n_files as int,
        _ => 0,
    }
}

/// Atomic publish, machine side: along any run, the machine is in a state
/// at or past `Rename` only after one successful fetch per required file
/// was reported, and `RenameIntoPlace` is the only action that makes the
/// final path visible. So however a run is cut short, the final path is
/// either untouched or carries every required file.
pub proof fn lemma_rename_needs_all_files(events: Seq<PublishEvent>, n_files: usize)
    ensures
        state_inv(run_steps(events, n_files), n_files),
        successful_fetches(events) >= fetched_floor(run_steps(events, n_files), n_files),
        action_of(run_steps(events, n_files)) == Some(PublishAction::RenameIntoPlace)
            ==> successful_fetches(events) >= n_files,
    decreases events.len(),
{
    if events.len() > 0 {
        lemma_rename_needs_all_files(events.drop_last(), n_files);
    }
}

/// Only the rename step makes the final path visible: every other action
/// works on the staging directory or reads.
pub proof fn lemma_only_rename_publishes(s: PublishState)
    ensures
        action_of(s) is Some && makes_final_path_visible(action_of(s).unwrap()) ==> s is Rename,
{
}

/// What the patch script's bounded execution came to.
#[derive(Debug, Clone, Copy, PartialEq, Eq, Structural)]
pub enum PatchOutcome {
    /// The script exited with status zero within the deadline.
    Succeeded,
    /// The script exited nonzero, or was ended by a signal, within the
    /// deadline.
    Failed,
    /// The deadline passed and the script was forcibly terminated.
    TimedOut,
}

/// Classifies what waiting on the patch script reported: a missed deadline
/// is a timeout, an exit status of zero is success, anything else is a
/// failure.
pub fn patch_outcome(timed_out: bool, exit_code: Option<i32>) -> (r: PatchOutcome)
    ensures
        r == (if timed_out {
            PatchOutcome::TimedOut
        } else if exit_code == Some(0i32) {
            PatchOutcome::Succeeded
        } else {
            PatchOutcome::Failed
        }),
{
    if timed_out {
        PatchOutcome::TimedOut
    } else {
        match exit_code {
            Some(code) => {
                if code == 0 {
                    PatchOutcome::Succeeded
                } else {
                    PatchOutcome::Failed
                }
            },
            None => PatchOutcome::Failed,
        }
    }
}

/// Applies the configured patch-failure policy: success always passes; a
/// failure or timeout abandons the image under `Fail`, and is reported but
/// tolerated under `WarnAndContinue`.
pub fn apply_patch_policy(outcome: PatchOutcome, policy: PatchFailurePolicy) -> (r: Result<
    (),
    Error,
>)
    ensures
        match r {
            Ok(_) => outcome is Succeeded || policy is WarnAndContinue,
            Err(e) => policy is Fail && ((outcome is TimedOut && e == Error::PatchTimeout) || (
            outcome is Failed && e == Error::PatchFailure)),
        },
{
    match outcome {
        PatchOutcome::Succeeded => Ok(()),
        PatchOutcome::TimedOut => {
            match policy {
                PatchFailurePolicy::Fail => Err(Error::PatchTimeout),
                PatchFailurePolicy::WarnAndContinue => Ok(()),
            }
        },
        PatchOutcome::Failed => {
            match policy {
                PatchFailurePolicy::Fail => Err(Error::PatchFailure),
                PatchFailurePolicy::WarnAndContinue => Ok(()),
            }
        },
    }
}

} // verus!
