//! The metadata parser: one line in, one record out.

use lxc_tool::lxc_container::LXCContainers;
use lxc_tool::lxc_image_metadata::LXCImageMetadata;
use lxc_tool::Error;

#[test]
fn parses_six_fields() {
    let m = LXCImageMetadata::of_metadata(
        "ubuntu;20.04;amd64;default;20240101_07:42;/images/ubuntu/20.04/amd64/default/20240101_07:42/",
    )
    .unwrap();
    assert_eq!(m.dist, "ubuntu");
    assert_eq!(m.release, "20.04");
    assert_eq!(m.arch, "amd64");
    assert_eq!(m.type_, "default");
    assert_eq!(m.name, "20240101_07:42");
    assert_eq!(m.path, "images/ubuntu/20.04/amd64/default/20240101_07:42/");
}

#[test]
fn trims_field_whitespace() {
    let m = LXCImageMetadata::of_metadata(" alpine ;\t3.19; amd64 ;default ; n1 ; p/q ").unwrap();
    assert_eq!(m.dist, "alpine");
    assert_eq!(m.release, "3.19");
    assert_eq!(m.arch, "amd64");
    assert_eq!(m.type_, "default");
    assert_eq!(m.name, "n1");
    assert_eq!(m.path, "p/q/");
}

#[test]
fn appends_trailing_slash() {
    let m = LXCImageMetadata::of_metadata("a;b;c;d;e;x/y").unwrap();
    assert_eq!(m.path, "x/y/");
}

#[test]
fn strips_leading_and_extra_trailing_slashes() {
    let m = LXCImageMetadata::of_metadata("a;b;c;d;e;//x/y//").unwrap();
    assert_eq!(m.path, "x/y/");
}

#[test]
fn rejects_five_fields() {
    let r = LXCImageMetadata::of_metadata("a;b;c;d;e");
    assert_eq!(r.unwrap_err(), Error::Parse);
}

#[test]
fn rejects_seven_fields() {
    let r = LXCImageMetadata::of_metadata("a;b;c;d;e;f;g");
    assert_eq!(r.unwrap_err(), Error::Parse);
}

#[test]
fn rejects_empty_line() {
    let r = LXCImageMetadata::of_metadata("");
    assert_eq!(r.unwrap_err(), Error::Parse);
}

#[test]
fn get_returns_group_key_fields() {
    let m = LXCImageMetadata::of_metadata("a;b;c;d;e;f").unwrap();
    assert_eq!(m.get("dist"), Some(String::from("a")));
    assert_eq!(m.get("release"), Some(String::from("b")));
    assert_eq!(m.get("arch"), Some(String::from("c")));
    assert_eq!(m.get("type"), Some(String::from("d")));
    assert_eq!(m.get("name"), None);
    assert_eq!(m.get("path"), None);
    assert_eq!(m.get(""), None);
}

#[test]
fn builds_collection_line_per_record() {
    let text = String::from("a;b;c;d;e1;img1\na;b;c;d;e2;img2\n");
    let v = LXCContainers::build_collection(text).unwrap();
    assert_eq!(v.len(), 2);
    assert_eq!(v[0].name, "e1");
    assert_eq!(v[1].name, "e2");
    assert_eq!(v[1].path, "img2/");
}

#[test]
fn builds_collection_without_final_newline() {
    let text = String::from("a;b;c;d;e1;img1");
    let v = LXCContainers::build_collection(text).unwrap();
    assert_eq!(v.len(), 1);
}

#[test]
fn builds_collection_handles_crlf() {
    let text = String::from("a;b;c;d;e1;img1\r\na;b;c;d;e2;img2\r\n");
    let v = LXCContainers::build_collection(text).unwrap();
    assert_eq!(v.len(), 2);
    assert_eq!(v[0].path, "img1/");
}

#[test]
fn build_collection_fails_on_first_malformed_line() {
    let text = String::from("a;b;c;d;e1;img1\nbroken line\na;b;c;d;e2;img2\n");
    let r = LXCContainers::build_collection(text);
    assert_eq!(r.unwrap_err(), Error::Parse);
}

#[test]
fn build_collection_of_empty_body_is_empty() {
    let v = LXCContainers::build_collection(String::new()).unwrap();
    assert_eq!(v.len(), 0);
}
