use addon_reconciler::catalog::{build_catalog_index, CatalogEntry, SubPath};
use addon_reconciler::discovery::{find_game_config, DiscoveryError, GameEntry};
use addon_reconciler::download::{download_cache_path, needs_download, ChecksumError};
use addon_reconciler::manifest::{parse_manifest_lines, ManifestError};
use addon_reconciler::reconcile::{compare_versions, reconcile};
use addon_reconciler::text::normalize_key;
use addon_reconciler::title::clean_title;

fn entry(id: u16, version: &str, checksum: &str, subs: Vec<(&str, &str)>) -> CatalogEntry {
    CatalogEntry {
        id,
        title: format!("Entry {}", id),
        version: version.to_string(),
        checksum: checksum.to_string(),
        sub_paths: subs
            .into_iter()
            .map(|(p, v)| SubPath { path: p.to_string(), version: v.to_string() })
            .collect(),
        nested_version: None,
    }
}

fn install(
    path: &str,
    version: Option<&str>,
    version_name: Option<&str>,
) -> addon_reconciler::manifest::InstalledAddon {
    addon_reconciler::manifest::InstalledAddon {
        title: path.to_string(),
        version: version.map(|s| s.to_string()),
        version_name: version_name.map(|s| s.to_string()),
        name: path.to_string(),
        path: normalize_key(path),
        is_library: false,
    }
}

#[test]
fn title_cleanup_scenario() {
    // A colored title with an embedded version cleans to the bare name.
    let lines = vec![
        "## Title: Foo Bar |cFFAA00v1.2.3|r".to_string(),
        "## AddOnVersion: 7".to_string(),
    ];
    let parsed = parse_manifest_lines(&lines, "FooBar").unwrap().unwrap();
    assert_eq!(parsed.title, "Foo Bar");
    assert_eq!(parsed.version, Some("7".to_string()));
    assert_eq!(parsed.version_name, None);
    assert_eq!(parsed.name, "FooBar");
    assert_eq!(parsed.path, "foobar");
    assert!(!parsed.is_library);
}

#[test]
fn title_cleanup_is_idempotent_on_examples() {
    for raw in [
        "Foo Bar |cFFAA00v1.2.3|r",
        "  My Addon v12.3  ",
        "|cFFAA00Colored|r Name 1.2",
        "Nothing to clean",
        "x||rr",
    ] {
        let once = clean_title(raw);
        let twice = clean_title(&once);
        assert_eq!(once, twice);
    }
}

#[test]
fn title_cleanup_examples() {
    assert_eq!(clean_title("Plain"), "Plain");
    assert_eq!(clean_title("Name |r"), "Name");
    assert_eq!(clean_title("Name v1.2.3"), "Name");
    assert_eq!(clean_title("Name 10.20.30.40"), "Name");
    // Four dot groups exceed the pattern and stay.
    assert_eq!(clean_title("Name 1.2.3.4.5"), "Name 1.2.3.4.5");
    // A version not preceded by a space stays.
    assert_eq!(clean_title("1.2.3"), "1.2.3");
    assert_eq!(clean_title("  padded  "), "padded");
    assert_eq!(clean_title("|cFFAA00Hue|r X"), "Hue X");
}

#[test]
fn manifest_data_file_is_not_installed() {
    let lines = vec![
        "## Title: Arkadius Trade Tools Data File".to_string(),
        "## Version: 1.0".to_string(),
    ];
    assert!(parse_manifest_lines(&lines, "attdata").unwrap().is_none());
}

#[test]
fn manifest_version_fields() {
    let lines = vec![
        "## Title: Thing".to_string(),
        "## Version: 2.1-rc".to_string(),
        "## AddOnVersion: 31".to_string(),
        "## IsLibrary: TRUE".to_string(),
        "## Author: Someone".to_string(),
        "DependsOn: OtherThing".to_string(),
    ];
    let parsed = parse_manifest_lines(&lines, "Thing Dir").unwrap().unwrap();
    assert_eq!(parsed.version_name, Some("2.1-rc".to_string()));
    assert_eq!(parsed.version, Some("31".to_string()));
    assert!(parsed.is_library);
    assert_eq!(parsed.path, "thingdir");
}

#[test]
fn manifest_bad_boolean_is_an_error() {
    let lines = vec!["## IsLibrary: maybe".to_string()];
    assert!(matches!(
        parse_manifest_lines(&lines, "x"),
        Err(ManifestError::InvalidBoolean)
    ));
    let missing = vec!["## IsLibrary:".to_string()];
    assert!(matches!(
        parse_manifest_lines(&missing, "x"),
        Err(ManifestError::InvalidBoolean)
    ));
}

#[test]
fn normalize_key_strips_and_folds() {
    assert_eq!(normalize_key("My Mod"), "mymod");
    assert_eq!(normalize_key(" FooBar "), "foobar");
    assert_eq!(normalize_key("AbC\td"), "abcd");
}

#[test]
fn tier_one_match_is_current() {
    // Matching machine versions decide alone, whatever the names say.
    let mut e = entry(42, "9.9", "00", vec![("foobar", "7")]);
    e.nested_version = Some("7".to_string());
    let a = install("foobar", Some("7"), Some("does not match"));
    assert!(compare_versions(&a, &e));
}

#[test]
fn tier_two_fallback_is_current() {
    let e = entry(42, "2.0", "00", vec![]);
    let a = install("foobar", Some("7"), Some("2.0"));
    // No nested version: the human version decides.
    assert!(compare_versions(&a, &e));
}

#[test]
fn no_tier_is_not_current() {
    let e = entry(42, "2.0", "00", vec![]);
    let a = install("foobar", None, None);
    assert!(!compare_versions(&a, &e));
}

#[test]
fn current_install_scenario() {
    // Catalog entry 42 with nested version "7"; the install carries "7".
    let entries = vec![entry(42, "ignored", "00", vec![("FooBar", "7")])];
    let (index, mismatched) = build_catalog_index(&entries);
    assert!(mismatched.is_empty());
    let installs = vec![install("foobar", Some("7"), None)];
    let report = reconcile(&installs, &index);
    assert!(report.outdated.is_empty());
    assert!(report.missing.is_empty());
    assert!(report.multi_outdated.is_empty());
}

#[test]
fn outdated_install_scenario() {
    // Same install, but the catalog now declares nested version "8".
    let entries = vec![entry(42, "ignored", "00", vec![("FooBar", "8")])];
    let (index, _) = build_catalog_index(&entries);
    let installs = vec![install("foobar", Some("7"), None)];
    let report = reconcile(&installs, &index);
    assert_eq!(report.outdated.len(), 1);
    assert_eq!(report.outdated[0].path, "foobar");
    assert_eq!(report.outdated[0].entry.id, 42);
    assert!(report.missing.is_empty());
    assert!(report.multi_outdated.is_empty());
}

#[test]
fn missing_upstream_scenario() {
    let entries = vec![entry(42, "1", "00", vec![("other", "1")])];
    let (index, _) = build_catalog_index(&entries);
    let installs = vec![install("foobar", Some("7"), None)];
    let report = reconcile(&installs, &index);
    assert!(report.outdated.is_empty());
    assert_eq!(report.missing, vec!["foobar".to_string()]);
    assert!(report.multi_outdated.is_empty());
}

#[test]
fn path_collision_scenario() {
    // Two catalog entries normalize to the same path key.
    let entries = vec![
        entry(1, "1.0", "00", vec![("My Mod", "5")]),
        entry(2, "2.0", "00", vec![("MyMod", "6")]),
    ];
    let (index, _) = build_catalog_index(&entries);
    let both = index.get(&"mymod".to_string()).expect("key must collide");
    assert_eq!(both.len(), 2);
    assert_eq!(both[0].id, 1);
    assert_eq!(both[1].id, 2);
    // Neither candidate matches: one multi-outdated event, no plan entry.
    let installs = vec![install("MyMod", Some("7"), None)];
    let report = reconcile(&installs, &index);
    assert!(report.outdated.is_empty());
    assert!(report.missing.is_empty());
    assert_eq!(report.multi_outdated, vec!["mymod".to_string()]);
}

#[test]
fn path_collision_any_match_is_current() {
    let entries = vec![
        entry(1, "1.0", "00", vec![("MyMod", "5")]),
        entry(2, "2.0", "00", vec![("MyMod", "6")]),
    ];
    let (index, _) = build_catalog_index(&entries);
    let installs = vec![install("MyMod", Some("6"), None)];
    let report = reconcile(&installs, &index);
    assert!(report.outdated.is_empty());
    assert!(report.multi_outdated.is_empty());
}

#[test]
fn nested_only_entries_are_orphaned() {
    // Every sub-path carries a separator: the entry is not indexed.
    let entries = vec![entry(9, "1", "00", vec![("deep/route", "1"), ("also/deep", "2")])];
    let (index, _) = build_catalog_index(&entries);
    assert!(index.get(&"deeproute".to_string()).is_none());
    assert!(index.get(&"deep/route".to_string()).is_none());
}

#[test]
fn nested_version_mismatch_is_reported() {
    let mut e = entry(7, "1", "00", vec![("Bare", "2")]);
    e.nested_version = Some("3".to_string());
    let entries = vec![e];
    let (index, mismatched) = build_catalog_index(&entries);
    assert_eq!(mismatched, vec![7u16]);
    // The entry is still indexed, its own nested version kept.
    let found = index.get(&"bare".to_string()).unwrap();
    assert_eq!(found[0].nested_version, Some("3".to_string()));
}

#[test]
fn checksum_roundtrip_skips_refetch() {
    // md5("abc") is well known; a matching digest means no fetch.
    let contents = b"abc".to_vec();
    let decision = needs_download(Some(&contents), "900150983cd24fb0d6963f7d28e17f72");
    assert_eq!(decision, Ok(false));
}

#[test]
fn checksum_mismatch_refetches() {
    let contents = b"abc".to_vec();
    // The digest of the empty input differs from md5("abc").
    let decision = needs_download(Some(&contents), "d41d8cd98f00b204e9800998ecf8427e");
    assert_eq!(decision, Ok(true));
}

#[test]
fn no_cached_file_always_fetches() {
    assert_eq!(needs_download(None, "not even hex"), Ok(true));
}

#[test]
fn malformed_checksum_is_an_error() {
    let contents = b"abc".to_vec();
    // Odd length.
    assert_eq!(
        needs_download(Some(&contents), "900150983cd24fb0d6963f7d28e17f7"),
        Err(ChecksumError::MalformedDigest)
    );
    // A non-hexadecimal character.
    assert_eq!(
        needs_download(Some(&contents), "g00150983cd24fb0d6963f7d28e17f72"),
        Err(ChecksumError::MalformedDigest)
    );
    // Too short for a sixteen-byte digest.
    assert_eq!(
        needs_download(Some(&contents), "900150983cd24fb0"),
        Err(ChecksumError::MalformedDigest)
    );
}

#[test]
fn cache_path_layout() {
    assert_eq!(
        download_cache_path(".cache/downloads", "FooBar", "FooBar-1.2.zip"),
        ".cache/downloads/FooBar/FooBar-1.2.zip"
    );
}

#[test]
fn game_config_lookup() {
    let games = vec![
        GameEntry { game_id: "WOW".to_string(), game_config: "w".to_string() },
        GameEntry { game_id: "ESO".to_string(), game_config: "e".to_string() },
    ];
    assert_eq!(find_game_config(&games, "ESO"), Ok("e".to_string()));
    assert_eq!(
        find_game_config(&games, "FFXIV"),
        Err(DiscoveryError::GameMissing)
    );
}
