//! The retention evictor: grouping, the keep-newest decision, and the
//! subtree safety check.

use lxc_tool::lxc_image_entries_cleanup::approve_removal;
use lxc_tool::lxc_image_entries_cleanup::eviction_plan;
use lxc_tool::lxc_image_entries_cleanup::sort_entries_by_mtime;
use lxc_tool::lxc_image_entries_cleanup::ImageEntry;
use lxc_tool::lxc_image_metadata::LXCImageMetadata;

fn entry(dist: &str, name: &str, mtime: u128) -> ImageEntry {
    (
        LXCImageMetadata {
            dist: String::from(dist),
            release: String::from("r"),
            arch: String::from("a"),
            type_: String::from("t"),
            name: String::from(name),
            path: format!("/srv/lxc/images/{}/r/a/t/{}", dist, name),
        },
        mtime,
    )
}

#[test]
fn oversized_group_keeps_the_newest() {
    let entries = vec![entry("u", "n1", 100), entry("u", "n2", 300), entry("u", "n3", 200)];
    let plan = eviction_plan(&entries, 1);
    assert_eq!(plan.len(), 1);
    assert_eq!(plan[0].removed.len(), 2);
    assert_eq!(plan[0].retained.len(), 1);
    assert_eq!(plan[0].retained[0].0.name, "n2");
    let mut removed_names: Vec<&str> = plan[0].removed.iter().map(|e| e.0.name.as_str()).collect();
    removed_names.sort();
    assert_eq!(removed_names, vec!["n1", "n3"]);
}

#[test]
fn group_within_count_is_untouched() {
    let entries = vec![entry("u", "n1", 100), entry("u", "n2", 300)];
    let plan = eviction_plan(&entries, 2);
    assert_eq!(plan.len(), 1);
    assert_eq!(plan[0].removed.len(), 0);
    assert_eq!(plan[0].retained.len(), 2);
}

#[test]
fn groups_are_pruned_independently() {
    let entries = vec![
        entry("u", "n1", 100),
        entry("d", "m1", 50),
        entry("u", "n2", 200),
        entry("d", "m2", 60),
        entry("d", "m3", 70),
    ];
    let plan = eviction_plan(&entries, 1);
    assert_eq!(plan.len(), 2);
    for g in &plan {
        let dist = if g.removed.is_empty() {
            g.retained[0].0.dist.clone()
        } else {
            g.removed[0].0.dist.clone()
        };
        if dist == "u" {
            assert_eq!(g.removed.len(), 1);
            assert_eq!(g.removed[0].0.name, "n1");
            assert_eq!(g.retained[0].0.name, "n2");
        } else {
            assert_eq!(g.removed.len(), 2);
            assert_eq!(g.retained[0].0.name, "m3");
        }
    }
}

#[test]
fn retention_count_zero_removes_whole_group() {
    let entries = vec![entry("u", "n1", 100), entry("u", "n2", 300)];
    let plan = eviction_plan(&entries, 0);
    assert_eq!(plan.len(), 1);
    assert_eq!(plan[0].removed.len(), 2);
    assert_eq!(plan[0].retained.len(), 0);
}

#[test]
fn no_entries_no_groups() {
    let entries: Vec<ImageEntry> = Vec::new();
    let plan = eviction_plan(&entries, 1);
    assert_eq!(plan.len(), 0);
}

#[test]
fn removed_entries_are_never_newer_than_retained() {
    let entries = vec![
        entry("u", "n1", 5),
        entry("u", "n2", 9),
        entry("u", "n3", 1),
        entry("u", "n4", 7),
    ];
    let plan = eviction_plan(&entries, 2);
    for r in &plan[0].removed {
        for s in &plan[0].retained {
            assert!(r.1 <= s.1);
        }
    }
}

#[test]
fn sorting_by_mtime_is_ascending_and_keeps_entries() {
    let entries = vec![entry("u", "n1", 9), entry("u", "n2", 1), entry("u", "n3", 5)];
    let sorted = sort_entries_by_mtime(entries);
    let times: Vec<u128> = sorted.iter().map(|e| e.1).collect();
    assert_eq!(times, vec![1, 5, 9]);
    let names: Vec<&str> = sorted.iter().map(|e| e.0.name.as_str()).collect();
    assert_eq!(names, vec!["n2", "n3", "n1"]);
}

#[test]
fn removal_under_root_is_approved() {
    assert!(approve_removal("/srv/lxc", "/srv/lxc/images/u/r/a/t/n"));
    assert!(approve_removal("/srv/lxc", "/srv/lxc"));
    assert!(approve_removal("/", "/srv"));
}

#[test]
fn removal_outside_root_is_refused() {
    assert!(!approve_removal("/srv/lxc", "/etc/passwd"));
    assert!(!approve_removal("/srv/lxc", "/srv"));
    assert!(!approve_removal("/srv/lxc", "/"));
}

#[test]
fn sibling_with_common_name_prefix_is_refused() {
    assert!(!approve_removal("/srv/lxc", "/srv/lxc-other/images"));
    assert!(!approve_removal("/a/b", "/a/bc"));
}
