//! The index writer: line rendering, ordering, the round trip with the
//! parser, and the index file's sibling paths.

use lxc_tool::lxc_image_entries_cleanup::ImageEntry;
use lxc_tool::lxc_image_metadata::LXCImageMetadata;
use lxc_tool::lxc_image_metadata_save::backup_index_path;
use lxc_tool::lxc_image_metadata_save::index_line;
use lxc_tool::lxc_image_metadata_save::ownership_ids;
use lxc_tool::lxc_image_metadata_save::path_join;
use lxc_tool::lxc_image_metadata_save::render_index;
use lxc_tool::lxc_image_metadata_save::save_index_content;
use lxc_tool::lxc_image_metadata_save::sort_entries_by_name_desc;
use lxc_tool::lxc_image_metadata_save::user_index_path;
use lxc_tool::Error;

fn entry(dist: &str, name: &str, mtime: u128) -> ImageEntry {
    (
        LXCImageMetadata {
            dist: String::from(dist),
            release: String::from("r"),
            arch: String::from("a"),
            type_: String::from("t"),
            name: String::from(name),
            path: format!("/srv/lxc/images/{}/r/a/t/{}", dist, name),
        },
        mtime,
    )
}

#[test]
fn renders_one_line_per_entry() {
    let entries = vec![entry("u", "n2", 2), entry("u", "n1", 1)];
    let s = render_index("/srv/lxc", &entries).unwrap();
    assert_eq!(s, "u;r;a;t;n2;/images/u/r/a/t/n2\nu;r;a;t;n1;/images/u/r/a/t/n1\n");
}

#[test]
fn render_fails_outside_root() {
    let entries = vec![entry("u", "n1", 1)];
    let r = render_index("/other/root", &entries);
    assert_eq!(r.unwrap_err(), Error::Filesystem);
}

#[test]
fn saved_index_is_sorted_by_name_descending() {
    let entries = vec![entry("u", "20240101", 1), entry("d", "20240103", 3), entry("x", "20240102", 2)];
    let s = save_index_content("/srv/lxc", entries).unwrap();
    assert_eq!(
        s,
        "d;r;a;t;20240103;/images/d/r/a/t/20240103\n\
         x;r;a;t;20240102;/images/x/r/a/t/20240102\n\
         u;r;a;t;20240101;/images/u/r/a/t/20240101\n"
    );
}

#[test]
fn sort_by_name_desc_orders_lexicographically() {
    let entries = vec![entry("u", "abc", 1), entry("u", "abd", 2), entry("u", "ab", 3)];
    let sorted = sort_entries_by_name_desc(entries);
    let names: Vec<&str> = sorted.iter().map(|e| e.0.name.as_str()).collect();
    assert_eq!(names, vec!["abd", "abc", "ab"]);
}

#[test]
fn index_line_strips_trailing_slash() {
    let m = LXCImageMetadata {
        dist: String::from("u"),
        release: String::from("r"),
        arch: String::from("a"),
        type_: String::from("t"),
        name: String::from("n"),
        path: String::from("unused"),
    };
    let line = index_line(&m, "images/u/r/a/t/n/");
    assert_eq!(line, "u;r;a;t;n;/images/u/r/a/t/n");
}

#[test]
fn written_line_parses_back_to_the_record() {
    let m = LXCImageMetadata::of_metadata("ubuntu;20.04;amd64;default;20240101_07:42;images/x/")
        .unwrap();
    let line = index_line(&m, m.path.as_str());
    let back = LXCImageMetadata::of_metadata(line.as_str()).unwrap();
    assert_eq!(back, m);
}

#[test]
fn record_set_round_trips_through_writer_and_parser() {
    let body = "u;r;a;t;n2;images/u/r/a/t/n2/\nu;r;a;t;n1;images/u/r/a/t/n1/\n";
    let records = lxc_tool::lxc_container::LXCContainers::build_collection(String::from(body))
        .unwrap();
    let entries: Vec<ImageEntry> = records
        .iter()
        .map(|m| {
            let mut abs = m.clone();
            abs.path = format!("/srv/{}", m.path);
            (abs, 0u128)
        })
        .collect();
    let rendered = save_index_content("/srv", entries).unwrap();
    let reparsed =
        lxc_tool::lxc_container::LXCContainers::build_collection(rendered).unwrap();
    assert_eq!(reparsed, records);
}

#[test]
fn backup_path_appends_when_no_extension() {
    assert_eq!(backup_index_path("/srv/meta/1.0/index"), "/srv/meta/1.0/index.7");
}

#[test]
fn backup_path_replaces_an_extension() {
    assert_eq!(backup_index_path("/srv/meta/index.txt"), "/srv/meta/index.7");
}

#[test]
fn backup_path_ignores_dots_in_directories() {
    assert_eq!(backup_index_path("/srv/meta.d/index"), "/srv/meta.d/index.7");
}

#[test]
fn path_join_inserts_separator() {
    assert_eq!(path_join("/srv/lxc", "meta/1.0/index"), "/srv/lxc/meta/1.0/index");
    assert_eq!(path_join("/srv/lxc/", "meta"), "/srv/lxc/meta");
    assert_eq!(path_join("/srv", "/abs/olute"), "/abs/olute");
}

#[test]
fn user_copy_lives_at_the_fixed_location() {
    assert_eq!(user_index_path("/srv/lxc"), "/srv/lxc/meta/1.0/index-user");
}

#[test]
fn unknown_username_is_an_ownership_error() {
    assert_eq!(ownership_ids(Some((1000, 1000))), Ok((1000, 1000)));
    assert_eq!(ownership_ids(None), Err(Error::Ownership));
}
