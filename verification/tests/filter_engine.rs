//! The filter engine: present-field projection, matching, and the
//! cross-product selection.

use lxc_tool::config::ImageFilter;
use lxc_tool::lxc_image_metadata::matches_filter;
use lxc_tool::lxc_image_metadata::FilterBy;
use lxc_tool::lxc_image_metadata::LXCImageMetadata;
use lxc_tool::Error;

fn record(dist: &str, release: &str, arch: &str, type_: &str, name: &str) -> LXCImageMetadata {
    LXCImageMetadata {
        dist: String::from(dist),
        release: String::from(release),
        arch: String::from(arch),
        type_: String::from(type_),
        name: String::from(name),
        path: format!("images/{}/{}/{}/{}/{}/", dist, release, arch, type_, name),
    }
}

fn filter(
    dist: Option<&str>,
    release: Option<&str>,
    arch: Option<&str>,
    type_: Option<&str>,
) -> ImageFilter {
    ImageFilter {
        dist: dist.map(String::from),
        release: release.map(String::from),
        arch: arch.map(String::from),
        type_: type_.map(String::from),
        post_process: None,
    }
}

#[test]
fn projection_yields_one_pair_per_present_field() {
    let cases = [
        (filter(None, None, None, None), 0),
        (filter(Some("u"), None, None, None), 1),
        (filter(None, Some("20.04"), None, Some("t")), 2),
        (filter(Some("u"), Some("r"), Some("a"), None), 3),
        (filter(Some("u"), Some("r"), Some("a"), Some("t")), 4),
    ];
    for (f, expected) in cases {
        let mut it = f.into_iter();
        let mut n = 0;
        while let Some(_) = it.next() {
            n += 1;
        }
        assert_eq!(n, expected);
    }
}

#[test]
fn projection_pairs_come_in_field_order() {
    let f = filter(Some("u"), None, Some("amd64"), Some("default"));
    let mut it = f.into_iter();
    assert_eq!(
        it.next(),
        Some((String::from("dist"), String::from("u")))
    );
    assert_eq!(
        it.next(),
        Some((String::from("arch"), String::from("amd64")))
    );
    assert_eq!(
        it.next(),
        Some((String::from("type"), String::from("default")))
    );
    assert_eq!(it.next(), None);
    assert_eq!(it.next(), None);
}

#[test]
fn wildcard_filter_matches_any_record() {
    let f = filter(None, None, None, None);
    assert!(matches_filter(&f, &record("u", "r", "a", "t", "n")));
    assert!(matches_filter(&f, &record("x", "y", "z", "w", "v")));
}

#[test]
fn present_fields_must_match_exactly() {
    let f = filter(Some("ubuntu"), None, Some("amd64"), None);
    assert!(matches_filter(&f, &record("ubuntu", "20.04", "amd64", "default", "n")));
    assert!(!matches_filter(&f, &record("ubuntu", "20.04", "arm64", "default", "n")));
    assert!(!matches_filter(&f, &record("debian", "12", "amd64", "default", "n")));
}

#[test]
fn empty_filter_list_is_a_selection_error() {
    let records = vec![record("u", "r", "a", "t", "n")];
    let r = records.filter_by(Vec::new());
    assert_eq!(r.unwrap_err(), Error::Selection);
}

#[test]
fn zero_matches_is_a_selection_error() {
    let records = vec![record("u", "r", "a", "t", "n")];
    let filters = vec![filter(Some("other"), None, None, None)];
    let r = records.filter_by(filters);
    assert_eq!(r.unwrap_err(), Error::Selection);
}

#[test]
fn one_record_may_match_several_filters() {
    let records = vec![record("u", "r", "a", "t", "n")];
    let mut f1 = filter(Some("u"), None, None, None);
    f1.post_process = Some(String::from("/opt/patch-u.sh"));
    let f2 = filter(None, Some("r"), None, None);
    let pairs = records.filter_by(vec![f1, f2]).unwrap();
    assert_eq!(pairs.len(), 2);
    assert_eq!(pairs[0].0.name, "n");
    assert_eq!(pairs[0].1, Some(String::from("/opt/patch-u.sh")));
    assert_eq!(pairs[1].1, None);
}

#[test]
fn selection_is_the_cross_product_in_order() {
    let records = vec![
        record("u", "r", "a", "t", "n1"),
        record("d", "12", "a", "t", "n2"),
        record("u", "r", "a", "t", "n3"),
    ];
    let filters = vec![filter(Some("u"), None, None, None), filter(Some("d"), None, None, None)];
    let pairs = records.filter_by(filters).unwrap();
    let names: Vec<&str> = pairs.iter().map(|p| p.0.name.as_str()).collect();
    assert_eq!(names, vec!["n1", "n2", "n3"]);
}
