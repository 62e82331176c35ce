//! One full synchronization played out over the pipeline's decisions:
//! five catalog records, two filters selecting three of them, publication
//! of the three, retention with one backup per group, and the final index.

use lxc_tool::config::ImageFilter;
use lxc_tool::lxc_container::LXCContainers;
use lxc_tool::lxc_image_entries_cleanup::approve_removal;
use lxc_tool::lxc_image_entries_cleanup::eviction_plan;
use lxc_tool::lxc_image_entries_cleanup::ImageEntry;
use lxc_tool::lxc_image_metadata::FilterBy;
use lxc_tool::lxc_image_metadata_entries_create::image_entry_of_path;
use lxc_tool::lxc_image_metadata_save::path_join;
use lxc_tool::lxc_image_metadata_save::save_index_content;
use lxc_tool::publish::publish_action;
use lxc_tool::publish::publish_step;
use lxc_tool::publish::PublishAction;
use lxc_tool::publish::PublishEvent;
use lxc_tool::publish::PublishState;

#[test]
fn five_records_two_filters_one_backup() {
    let root = "/srv/lxc";
    let body = "\
        ubuntu;20.04;amd64;default;20240101_07:42;/images/ubuntu/20.04/amd64/default/20240101_07:42/\n\
        ubuntu;20.04;amd64;default;20240102_07:42;/images/ubuntu/20.04/amd64/default/20240102_07:42/\n\
        alpine;3.19;amd64;default;20240101_13:00;/images/alpine/3.19/amd64/default/20240101_13:00/\n\
        debian;12;arm64;cloud;20240101_05:00;/images/debian/12/arm64/cloud/20240101_05:00/\n\
        fedora;39;amd64;default;20240103_01:00;/images/fedora/39/amd64/default/20240103_01:00/\n";
    let records = LXCContainers::build_collection(String::from(body)).unwrap();
    assert_eq!(records.len(), 5);

    let filters = vec![
        ImageFilter {
            dist: Some(String::from("ubuntu")),
            release: None,
            arch: None,
            type_: None,
            post_process: None,
        },
        ImageFilter {
            dist: Some(String::from("alpine")),
            release: None,
            arch: None,
            type_: None,
            post_process: None,
        },
    ];
    let selected = records.filter_by(filters).unwrap();
    assert_eq!(selected.len(), 3);

    // Publish each selected image: two required files, every step succeeds.
    let image_files = ["metadata.yaml", "rootfs.tar.xz"];
    let mut published: Vec<String> = Vec::new();
    for (m, _post_process) in &selected {
        let mut s = PublishState::initial();
        let mut fetched = 0usize;
        loop {
            let e = match publish_action(&s) {
                Some(PublishAction::ProbeFinalDir) => PublishEvent::FinalDirExists(false),
                Some(PublishAction::PrepareStaging) => PublishEvent::StagePrepared(true),
                Some(PublishAction::FetchFile { index }) => {
                    assert_eq!(index, fetched);
                    assert!(index < image_files.len());
                    fetched += 1;
                    PublishEvent::FileFetched(true)
                }
                Some(PublishAction::RenameIntoPlace) => {
                    assert_eq!(fetched, image_files.len());
                    published.push(path_join(root, m.path.as_str()));
                    PublishEvent::Renamed(true)
                }
                Some(PublishAction::ApplyPermissions) => PublishEvent::PermissionsSet(true),
                None => break,
            };
            s = publish_step(&s, &e, image_files.len());
        }
        assert_eq!(s, PublishState::Done);
    }
    assert_eq!(published.len(), 3);

    // Scan the published directories back into entries; the second ubuntu
    // image is the newer one.
    let mtimes: [u128; 3] = [100, 200, 300];
    let mut entries: Vec<ImageEntry> = Vec::new();
    for (i, dir) in published.iter().enumerate() {
        let dir = dir.trim_end_matches('/');
        let e = image_entry_of_path(dir, mtimes[i]).unwrap();
        entries.push(e);
    }

    // Retention: one backup per group removes the older ubuntu image only.
    let plan = eviction_plan(&entries, 1);
    let mut removed: Vec<&ImageEntry> = Vec::new();
    let mut retained: Vec<ImageEntry> = Vec::new();
    for g in &plan {
        for e in &g.removed {
            removed.push(e);
        }
        for e in &g.retained {
            retained.push(e.clone());
        }
    }
    assert_eq!(removed.len(), 1);
    assert_eq!(removed[0].0.name, "20240101_07:42");
    assert_eq!(retained.len(), 2);
    for e in &removed {
        assert!(approve_removal(root, e.0.path.as_str()));
    }

    // The persisted index lists the survivors sorted by name descending.
    let index = save_index_content(root, retained).unwrap();
    assert_eq!(
        index,
        "ubuntu;20.04;amd64;default;20240102_07:42;/images/ubuntu/20.04/amd64/default/20240102_07:42\n\
         alpine;3.19;amd64;default;20240101_13:00;/images/alpine/3.19/amd64/default/20240101_13:00\n"
    );
}
