use wsize::catalog::build_catalog;
use wsize::records::{Bundle, MediaEntry};
use wsize::sidecar::ParseError;

fn bundle(name: &str, path: &str, size: u64, language: &str) -> Bundle {
    Bundle {
        name: name.to_string(),
        path: path.to_string(),
        size,
        language: language.to_string(),
        id: String::new(),
        category: String::new(),
        media: Vec::new(),
    }
}

fn media(name: &str, size: u64) -> MediaEntry {
    MediaEntry {
        name: name.to_string(),
        path: name.to_string(),
        language: String::new(),
        id: String::new(),
        category: "Media".to_string(),
        size,
    }
}

#[test]
fn zero_match_scan_is_empty_not_an_error() {
    let c = build_catalog(Vec::new());
    assert_eq!(c.bundles.len(), 0);
    assert_eq!(c.total_size, 0);
}

#[test]
fn bundles_are_sorted_by_path_and_sizes_add_up() {
    let c = build_catalog(vec![
        Ok(bundle("c.bnk", "/banks/c.bnk", 300, "en")),
        Ok(bundle("a.bnk", "/banks/a.bnk", 100, "en")),
        Ok(bundle("b.bnk", "/banks/b.bnk", 200, "fr")),
    ]);
    assert_eq!(c.bundles.len(), 3);
    assert_eq!(c.bundles[0].path, "/banks/a.bnk");
    assert_eq!(c.bundles[1].path, "/banks/b.bnk");
    assert_eq!(c.bundles[2].path, "/banks/c.bnk");
    assert_eq!(c.total_size, 600);
}

#[test]
fn scan_order_does_not_change_the_catalog() {
    let one = build_catalog(vec![
        Ok(bundle("a.bnk", "/a.bnk", 1, "en")),
        Ok(bundle("b.bnk", "/b.bnk", 2, "en")),
        Ok(bundle("c.bnk", "/c.bnk", 3, "en")),
    ]);
    let two = build_catalog(vec![
        Ok(bundle("c.bnk", "/c.bnk", 3, "en")),
        Ok(bundle("a.bnk", "/a.bnk", 1, "en")),
        Ok(bundle("b.bnk", "/b.bnk", 2, "en")),
    ]);
    assert_eq!(one.bundles.len(), two.bundles.len());
    for i in 0..one.bundles.len() {
        assert_eq!(one.bundles[i].path, two.bundles[i].path);
        assert_eq!(one.bundles[i].size, two.bundles[i].size);
    }
    assert_eq!(one.total_size, two.total_size);
}

#[test]
fn scanning_twice_yields_identical_catalogs() {
    let input = || {
        vec![
            Ok(bundle("b.bnk", "/b.bnk", 20, "fr")),
            Ok(bundle("a.bnk", "/a.bnk", 10, "en")),
        ]
    };
    let one = build_catalog(input());
    let two = build_catalog(input());
    assert_eq!(one.bundles.len(), two.bundles.len());
    for i in 0..one.bundles.len() {
        assert_eq!(one.bundles[i].path, two.bundles[i].path);
        assert_eq!(one.bundles[i].name, two.bundles[i].name);
        assert_eq!(one.bundles[i].size, two.bundles[i].size);
        assert_eq!(one.bundles[i].language, two.bundles[i].language);
    }
    assert_eq!(one.total_size, two.total_size);
}

#[test]
fn one_corrupted_sidecar_drops_only_that_bundle() {
    let c = build_catalog(vec![
        Ok(bundle("a.bnk", "/a.bnk", 1, "en")),
        Err(ParseError { path: "/bad.bnk".to_string() }),
        Ok(bundle("c.bnk", "/c.bnk", 3, "en")),
    ]);
    assert_eq!(c.bundles.len(), 2);
    assert_eq!(c.bundles[0].path, "/a.bnk");
    assert_eq!(c.bundles[1].path, "/c.bnk");
    assert_eq!(c.total_size, 4);
}

#[test]
fn duplicated_paths_are_deduplicated_keeping_the_first() {
    let c = build_catalog(vec![
        Ok(bundle("first", "/same.bnk", 11, "en")),
        Ok(bundle("second", "/same.bnk", 22, "fr")),
        Ok(bundle("other", "/other.bnk", 5, "en")),
    ]);
    assert_eq!(c.bundles.len(), 2);
    assert_eq!(c.bundles[0].path, "/other.bnk");
    assert_eq!(c.bundles[1].path, "/same.bnk");
    assert_eq!(c.bundles[1].name, "first");
    assert_eq!(c.bundles[1].size, 11);
    assert_eq!(c.total_size, 16);
}

#[test]
fn zero_sized_media_contribute_nothing_to_the_total() {
    let mut b = bundle("boss.bnk", "/boss.bnk", 4096, "en");
    b.media.push(media("one.wem", 0));
    b.media.push(media("two.wem", 0));
    b.media.push(media("three.wem", 0));
    let c = build_catalog(vec![Ok(b)]);
    assert_eq!(c.total_size, 4096);
}

#[test]
fn media_sizes_are_added_on_top_of_the_bundle_size() {
    let mut b = bundle("boss.bnk", "/boss.bnk", 100, "en");
    b.media.push(media("one.wem", 7));
    b.media.push(media("two.wem", 13));
    let c = build_catalog(vec![Ok(b)]);
    assert_eq!(c.total_size, 120);
}

#[test]
fn total_size_saturates_instead_of_wrapping() {
    let c = build_catalog(vec![
        Ok(bundle("a.bnk", "/a.bnk", u64::MAX, "en")),
        Ok(bundle("b.bnk", "/b.bnk", 5, "en")),
    ]);
    assert_eq!(c.total_size, u64::MAX);
}
