//! The publish state machine, the patch outcome rules, the download
//! progress accounting, and the endpoint construction.

use lxc_tool::config::PatchFailurePolicy;
use lxc_tool::config::TargetUrl;
use lxc_tool::lxc_container_patcher::LCXContainerPatcher;
use lxc_tool::lxc_image_download::download_endpoint;
use lxc_tool::lxc_image_download::DownloadProgress;
use lxc_tool::lxc_image_metadata::LXCImageMetadata;
use lxc_tool::publish::apply_patch_policy;
use lxc_tool::publish::patch_outcome;
use lxc_tool::publish::publish_action;
use lxc_tool::publish::publish_step;
use lxc_tool::publish::PatchOutcome;
use lxc_tool::publish::PublishAction;
use lxc_tool::publish::PublishEvent;
use lxc_tool::publish::PublishState;
use lxc_tool::Error;

fn drive(events: &[PublishEvent], n_files: usize) -> (PublishState, Vec<PublishAction>) {
    let mut s = PublishState::initial();
    let mut actions = Vec::new();
    for e in events {
        if let Some(a) = publish_action(&s) {
            actions.push(a);
        }
        s = publish_step(&s, e, n_files);
    }
    (s, actions)
}

#[test]
fn full_run_publishes_after_every_file() {
    let events = [
        PublishEvent::FinalDirExists(false),
        PublishEvent::StagePrepared(true),
        PublishEvent::FileFetched(true),
        PublishEvent::FileFetched(true),
        PublishEvent::Renamed(true),
        PublishEvent::PermissionsSet(true),
    ];
    let (s, actions) = drive(&events, 2);
    assert_eq!(s, PublishState::Done);
    assert_eq!(
        actions,
        vec![
            PublishAction::ProbeFinalDir,
            PublishAction::PrepareStaging,
            PublishAction::FetchFile { index: 0 },
            PublishAction::FetchFile { index: 1 },
            PublishAction::RenameIntoPlace,
            PublishAction::ApplyPermissions,
        ]
    );
}

#[test]
fn existing_image_is_skipped_untouched() {
    let (s, actions) = drive(&[PublishEvent::FinalDirExists(true)], 2);
    assert_eq!(s, PublishState::Skipped);
    assert_eq!(actions, vec![PublishAction::ProbeFinalDir]);
    assert_eq!(publish_action(&s), None);
}

#[test]
fn failed_download_abandons_the_image_before_rename() {
    let events = [
        PublishEvent::FinalDirExists(false),
        PublishEvent::StagePrepared(true),
        PublishEvent::FileFetched(true),
        PublishEvent::FileFetched(false),
    ];
    let (s, actions) = drive(&events, 3);
    assert_eq!(s, PublishState::Failed);
    assert!(!actions.contains(&PublishAction::RenameIntoPlace));
}

#[test]
fn rename_is_requested_only_after_all_files() {
    let events = [
        PublishEvent::FinalDirExists(false),
        PublishEvent::StagePrepared(true),
        PublishEvent::FileFetched(true),
        PublishEvent::FileFetched(true),
        PublishEvent::FileFetched(true),
        PublishEvent::Renamed(true),
        PublishEvent::PermissionsSet(true),
    ];
    let (_, actions) = drive(&events, 3);
    let rename_at = actions.iter().position(|a| *a == PublishAction::RenameIntoPlace).unwrap();
    let fetches = actions[..rename_at]
        .iter()
        .filter(|a| matches!(a, PublishAction::FetchFile { .. }))
        .count();
    assert_eq!(fetches, 3);
}

#[test]
fn unanswered_probe_fails_the_image() {
    let (s, _) = drive(&[PublishEvent::Renamed(true)], 1);
    assert_eq!(s, PublishState::Failed);
}

#[test]
fn patch_outcomes_are_classified() {
    assert_eq!(patch_outcome(true, None), PatchOutcome::TimedOut);
    assert_eq!(patch_outcome(true, Some(0)), PatchOutcome::TimedOut);
    assert_eq!(patch_outcome(false, Some(0)), PatchOutcome::Succeeded);
    assert_eq!(patch_outcome(false, Some(2)), PatchOutcome::Failed);
    assert_eq!(patch_outcome(false, None), PatchOutcome::Failed);
}

#[test]
fn patch_policy_decides_the_failure_effect() {
    assert_eq!(apply_patch_policy(PatchOutcome::Succeeded, PatchFailurePolicy::Fail), Ok(()));
    assert_eq!(
        apply_patch_policy(PatchOutcome::TimedOut, PatchFailurePolicy::Fail),
        Err(Error::PatchTimeout)
    );
    assert_eq!(
        apply_patch_policy(PatchOutcome::Failed, PatchFailurePolicy::Fail),
        Err(Error::PatchFailure)
    );
    assert_eq!(
        apply_patch_policy(PatchOutcome::TimedOut, PatchFailurePolicy::WarnAndContinue),
        Ok(())
    );
    assert_eq!(
        apply_patch_policy(PatchOutcome::Failed, PatchFailurePolicy::WarnAndContinue),
        Ok(())
    );
}

#[test]
fn patcher_builds_the_exact_command_line() {
    let script = Some(String::from("/opt/patch.sh"));
    let tempfile = String::from("/tmp/rootfs.tar.xz");
    let patcher = LCXContainerPatcher::of(&script, &tempfile, 30);
    let args = patcher
        .command_args(
            &Some(String::from("ubuntu")),
            &Some(String::from("20.04")),
            &Some(String::from("amd64")),
        )
        .unwrap();
    assert_eq!(
        args,
        vec![
            String::from("-path"),
            String::from("/tmp/rootfs.tar.xz"),
            String::from("-d"),
            String::from("ubuntu"),
            String::from("-r"),
            String::from("20.04"),
            String::from("-a"),
            String::from("amd64"),
        ]
    );
}

#[test]
fn patcher_refuses_missing_script_or_field() {
    let tempfile = String::from("/tmp/f");
    let none_script: Option<String> = None;
    let p = LCXContainerPatcher::of(&none_script, &tempfile, 30);
    assert_eq!(
        p.command_args(&Some(String::from("d")), &Some(String::from("r")), &Some(String::from("a"))),
        Err(Error::PatchFailure)
    );
    let script = Some(String::from("/opt/p.sh"));
    let p = LCXContainerPatcher::of(&script, &tempfile, 30);
    assert_eq!(
        p.command_args(&Some(String::from("d")), &None, &Some(String::from("a"))),
        Err(Error::PatchFailure)
    );
}

#[test]
fn progress_requires_a_content_length() {
    assert!(DownloadProgress::of(Some(10)).is_ok());
    assert_eq!(DownloadProgress::of(None).unwrap_err(), Error::Network);
}

#[test]
fn progress_grows_monotonically_and_caps_at_total() {
    let mut p = DownloadProgress::of(Some(10)).unwrap();
    assert_eq!(p.downloaded, 0);
    p.advance(4);
    assert_eq!(p.downloaded, 4);
    p.advance(4);
    assert_eq!(p.downloaded, 8);
    assert!(!p.is_complete());
    p.advance(100);
    assert_eq!(p.downloaded, 10);
    assert!(p.is_complete());
    p.advance(1);
    assert_eq!(p.downloaded, 10);
}

#[test]
fn metadata_endpoint_joins_origin_and_index_uri() {
    let t = TargetUrl {
        origin: String::from("https://images.example.com/"),
        index_uri: String::from("meta/1.0/index-system"),
    };
    assert_eq!(
        t.metadata_endpoint().unwrap(),
        "https://images.example.com/meta/1.0/index-system"
    );
}

#[test]
fn invalid_origin_is_a_configuration_error() {
    let t = TargetUrl {
        origin: String::from("not a url"),
        index_uri: String::from("meta/1.0/index-system"),
    };
    assert_eq!(t.metadata_endpoint().unwrap_err(), Error::Configuration);
}

#[test]
fn download_endpoint_joins_origin_path_and_file() {
    let t = TargetUrl {
        origin: String::from("https://images.example.com/"),
        index_uri: String::from("meta/1.0/index-system"),
    };
    let m = LXCImageMetadata::of_metadata(
        "ubuntu;20.04;amd64;default;n;images/ubuntu/20.04/amd64/default/n/",
    )
    .unwrap();
    assert_eq!(
        download_endpoint(&t, &m, "rootfs.tar.xz").unwrap(),
        "https://images.example.com/images/ubuntu/20.04/amd64/default/n/rootfs.tar.xz"
    );
}
