use wsize::sidecar::parse_bundle;

fn full_sidecar() -> &'static str {
    r#"{
        "SoundBanksInfo": {
            "Platform": "PS5",
            "SoundBanks": [
                {
                    "Id": "123",
                    "Type": "SoundBank",
                    "GUID": "{A-B-C}",
                    "Language": "en",
                    "ShortName": "boss",
                    "Path": "boss.bnk",
                    "Media": [
                        { "Id": "9001", "Language": "en", "ShortName": "roar.wem", "Path": "SFX/roar.wem" },
                        { "Id": "9002", "Language": "", "ShortName": "growl.wem", "Path": "SFX/growl.wem" }
                    ]
                }
            ]
        }
    }"#
}

#[test]
fn well_formed_sidecar_preserves_every_field() {
    let b = parse_bundle(
        "boss.bnk".to_string(),
        "/banks/boss.bnk".to_string(),
        4096,
        Some(full_sidecar()),
    )
    .unwrap();
    assert_eq!(b.name, "boss.bnk");
    assert_eq!(b.path, "/banks/boss.bnk");
    assert_eq!(b.size, 4096);
    assert_eq!(b.language, "en");
    assert_eq!(b.id, "123");
    assert_eq!(b.category, "SoundBank");
    assert_eq!(b.media.len(), 2);
    assert_eq!(b.media[0].name, "roar.wem");
    assert_eq!(b.media[0].path, "SFX/roar.wem");
    assert_eq!(b.media[0].language, "en");
    assert_eq!(b.media[0].id, "9001");
    assert_eq!(b.media[0].category, "Media");
    assert_eq!(b.media[0].size, 0);
    assert_eq!(b.media[1].name, "growl.wem");
    assert_eq!(b.media[1].language, "");
    assert_eq!(b.media[1].id, "9002");
}

#[test]
fn missing_sidecar_yields_plain_bundle() {
    let b = parse_bundle("amb.bnk".to_string(), "/banks/amb.bnk".to_string(), 777, None).unwrap();
    assert_eq!(b.name, "amb.bnk");
    assert_eq!(b.path, "/banks/amb.bnk");
    assert_eq!(b.size, 777);
    assert_eq!(b.language, "");
    assert_eq!(b.id, "");
    assert_eq!(b.category, "");
    assert_eq!(b.media.len(), 0);
}

#[test]
fn corrupt_sidecar_fails_with_the_bundle_path() {
    let r = parse_bundle(
        "bad.bnk".to_string(),
        "/banks/bad.bnk".to_string(),
        10,
        Some("{ not json at all"),
    );
    let e = r.err().unwrap();
    assert_eq!(e.path, "/banks/bad.bnk");
}

#[test]
fn missing_keys_degrade_to_empty() {
    let text = r#"{ "SoundBanksInfo": { "SoundBanks": [ { "ShortName": "x" } ] } }"#;
    let b = parse_bundle("x.bnk".to_string(), "/x.bnk".to_string(), 5, Some(text)).unwrap();
    assert_eq!(b.language, "");
    assert_eq!(b.id, "");
    assert_eq!(b.category, "");
    assert_eq!(b.media.len(), 0);
}

#[test]
fn wrong_shapes_degrade_to_empty() {
    let text = r#"{ "SoundBanksInfo": { "SoundBanks": [ { "Language": 5, "Id": null, "Type": [], "Media": {} } ] } }"#;
    let b = parse_bundle("y.bnk".to_string(), "/y.bnk".to_string(), 5, Some(text)).unwrap();
    assert_eq!(b.language, "");
    assert_eq!(b.id, "");
    assert_eq!(b.category, "");
    assert_eq!(b.media.len(), 0);
}

#[test]
fn malformed_media_entry_is_skipped_not_fatal() {
    let text = r#"{
        "SoundBanksInfo": {
            "SoundBanks": [
                {
                    "Language": "fr",
                    "Media": [
                        { "Id": "1", "Language": "fr", "Path": "only_path.wem" },
                        { "Id": "2", "Language": "fr", "ShortName": "ok.wem", "Path": "ok.wem" },
                        { "ShortName": "no_path.wem" }
                    ]
                }
            ]
        }
    }"#;
    let b = parse_bundle("z.bnk".to_string(), "/z.bnk".to_string(), 1, Some(text)).unwrap();
    assert_eq!(b.language, "fr");
    assert_eq!(b.media.len(), 1);
    assert_eq!(b.media[0].name, "ok.wem");
    assert_eq!(b.media[0].language, "fr");
}

#[test]
fn empty_soundbanks_array_degrades_to_empty() {
    let text = r#"{ "SoundBanksInfo": { "SoundBanks": [] } }"#;
    let b = parse_bundle("e.bnk".to_string(), "/e.bnk".to_string(), 9, Some(text)).unwrap();
    assert_eq!(b.language, "");
    assert_eq!(b.media.len(), 0);
    assert_eq!(b.size, 9);
}
