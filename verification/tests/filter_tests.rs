use wsize::catalog::build_catalog;
use wsize::filter_type::{Filter, LanguageFilter, MatchBank, NameFilter};
use wsize::match_data::{catalog_rows, MatchData};
use wsize::filter_type::{apply, apply_filters};
use wsize::records::{Bundle, MediaEntry};

fn bundle(name: &str, path: &str, size: u64, language: &str) -> Bundle {
    Bundle {
        name: name.to_string(),
        path: path.to_string(),
        size,
        language: language.to_string(),
        id: String::new(),
        category: String::new(),
        media: Vec::new(),
    }
}

fn row(name: &str, language: &str, asset_type: &str) -> MatchData {
    MatchData {
        asset_type: asset_type.to_string(),
        asset_name: name.to_string(),
        source_path: name.to_string(),
        language: language.to_string(),
        shor_id: String::new(),
        size: 0,
    }
}

#[test]
fn name_filter_default_configuration() {
    let f = NameFilter::new();
    assert_eq!(f.pattern, "*");
    assert!(!f.case_sensitive);
    assert!(!f.use_regex);
    assert!(f.filter_banks);
    assert!(f.filter_media);
}

#[test]
fn language_filter_starts_empty() {
    let f = LanguageFilter::new();
    assert_eq!(f.languages.len(), 0);
}

#[test]
fn filters_compose_with_and_semantics() {
    let catalog = build_catalog(vec![
        Ok(bundle("boss_intro", "/1", 1, "en")),
        Ok(bundle("boss_intro", "/2", 2, "fr")),
        Ok(bundle("ambient_01", "/3", 3, "en")),
    ]);
    let mut lang = LanguageFilter::new();
    lang.languages.push("en".to_string());
    let mut name = NameFilter::new();
    name.pattern = "boss_*".to_string();
    let filters = vec![Filter::Language(lang), Filter::Name(name)];
    let out = apply(&catalog, &filters);
    assert_eq!(out.len(), 1);
    assert_eq!(out[0].asset_name, "boss_intro");
    assert_eq!(out[0].language, "en");
}

#[test]
fn empty_language_set_matches_everything() {
    let f = LanguageFilter::new();
    assert!(f.matches(&row("x", "en", "")));
    assert!(f.matches(&row("x", "", "")));
}

#[test]
fn language_filter_accepts_members_only() {
    let mut f = LanguageFilter::new();
    f.languages.push("en".to_string());
    f.languages.push("fr".to_string());
    assert!(f.matches(&row("x", "en", "")));
    assert!(f.matches(&row("x", "fr", "")));
    assert!(!f.matches(&row("x", "de", "")));
    assert!(!f.matches(&row("x", "", "")));
}

#[test]
fn name_filter_is_case_insensitive_by_default() {
    let mut f = NameFilter::new();
    f.pattern = "BOSS_*".to_string();
    assert!(f.matches(&row("boss_intro", "en", "")));
    f.case_sensitive = true;
    assert!(!f.matches(&row("boss_intro", "en", "")));
    assert!(f.matches(&row("BOSS_intro", "en", "")));
}

#[test]
fn name_filter_wildcards() {
    let mut f = NameFilter::new();
    f.pattern = "a?c*".to_string();
    assert!(f.matches(&row("abc", "", "")));
    assert!(f.matches(&row("axc_tail", "", "")));
    assert!(!f.matches(&row("ac", "", "")));
    assert!(!f.matches(&row("abd", "", "")));
    f.pattern = "*".to_string();
    assert!(f.matches(&row("", "", "")));
    assert!(f.matches(&row("anything", "", "")));
}

#[test]
fn name_filter_granularity_flags() {
    let mut f = NameFilter::new();
    f.pattern = "boss_*".to_string();
    f.filter_banks = false;
    assert!(f.matches(&row("ambient", "", "")));
    assert!(!f.matches(&row("ambient", "", "Media")));
    f.filter_banks = true;
    f.filter_media = false;
    assert!(!f.matches(&row("ambient", "", "")));
    assert!(f.matches(&row("ambient", "", "Media")));
}

#[test]
fn zero_filters_keep_every_row() {
    let rows = vec![row("a", "en", ""), row("b", "fr", "Media")];
    let out = apply_filters(rows, &Vec::new());
    assert_eq!(out.len(), 2);
    assert_eq!(out[0].asset_name, "a");
    assert_eq!(out[1].asset_name, "b");
}

#[test]
fn catalog_rows_flatten_bundles_then_their_media() {
    let mut b = bundle("boss.bnk", "/boss.bnk", 100, "en");
    b.media.push(MediaEntry {
        name: "roar.wem".to_string(),
        path: "SFX/roar.wem".to_string(),
        language: "en".to_string(),
        id: "9001".to_string(),
        category: "Media".to_string(),
        size: 0,
    });
    let c = build_catalog(vec![Ok(b), Ok(bundle("amb.bnk", "/z_amb.bnk", 5, ""))]);
    let rows = catalog_rows(&c);
    assert_eq!(rows.len(), 3);
    assert_eq!(rows[0].asset_name, "boss.bnk");
    assert_eq!(rows[0].size, 100);
    assert_eq!(rows[1].asset_name, "roar.wem");
    assert_eq!(rows[1].asset_type, "Media");
    assert_eq!(rows[1].shor_id, "9001");
    assert_eq!(rows[2].asset_name, "amb.bnk");
}
