use forever_addons::domain::addon::{AddonId, AddonKey, AddonSummary, Download};
use forever_addons::domain::expansion::Expansion;
use forever_addons::domain::folder::AddonFolder;
use forever_addons::domain::source_id::SourceId;
use forever_addons::domain::version::AddonVersion;

fn summary(expansions: Vec<Expansion>) -> AddonSummary {
    AddonSummary {
        id: AddonId::new(SourceId::CurseForge, AddonKey::new("6572").expect("non-empty key")),
        name: "Killshot".to_owned(),
        summary: String::new(),
        author: None,
        version: None,
        updated_at: None,
        icon_url: None,
        page_url: String::new(),
        categories: Vec::new(),
        downloads: None,
        expansions,
        download: Download::Brokered,
    }
}

#[test]
fn renders_an_addon_id_as_source_qualified() {
    assert_eq!(summary(Vec::new()).id.to_string(), "curseforge:6572");
}

#[test]
fn treats_a_blank_key_as_absent() {
    assert_eq!(AddonKey::new(" \n"), None);
}

#[test]
fn is_not_installable_when_the_archive_format_is_unsupported() {
    let mut addon = summary(vec![Expansion::Forever]);
    addon.download = Download::Unsupported {
        url: "https://example.com/x.7z".to_owned(),
        format: "7z".to_owned(),
    };

    assert!(!addon.is_installable());
    assert!(summary(Vec::new()).is_installable());
}

#[test]
fn is_not_installable_when_the_author_distributes_only_via_their_page() {
    let mut addon = summary(vec![Expansion::Forever]);
    addon.download = Download::External {
        url: "https://www.curseforge.com/wow/addons/details".to_owned(),
    };

    assert!(!addon.is_installable());
}

#[test]
fn accepts_an_ordinary_addon_folder_name() {
    let folder = AddonFolder::new("Bagnon").expect("plain name is valid");
    assert_eq!(folder.as_str(), "Bagnon");
}

#[test]
fn trims_surrounding_whitespace_from_archive_entries() {
    let folder = AddonFolder::new("  Details  ").expect("padded name is valid");
    assert_eq!(folder.as_str(), "Details");
}

#[test]
fn rejects_names_that_could_escape_the_addons_directory() {
    for name in ["..", ".", "../evil", "evil/nested", "evil\\nested", "   "] {
        assert!(AddonFolder::new(name).is_err(), "{name} should be rejected");
    }
}

#[test]
fn matches_folders_case_insensitively() {
    let installed = AddonFolder::new("WeakAuras").expect("valid");
    let archived = AddonFolder::new("weakauras").expect("valid");
    assert_eq!(installed.match_key(), archived.match_key());
}

#[test]
fn round_trips_every_source_through_its_slug() {
    for source in SourceId::ALL {
        assert_eq!(SourceId::from_slug(source.slug()), Some(source));
    }
}

#[test]
fn rejects_an_unknown_slug() {
    assert_eq!(SourceId::from_slug("wowinterface"), None);
}

fn version(raw: &str) -> AddonVersion {
    AddonVersion::new(raw).expect("test versions are non-empty")
}

#[test]
fn treats_a_blank_version_as_absent() {
    assert_eq!(AddonVersion::new("   "), None);
    assert_eq!(AddonVersion::new(""), None);
}

#[test]
fn matches_across_a_leading_v_prefix() {
    assert!(version("v1.16").matches(&version("1.16")));
    assert!(version("V2.13.3").matches(&version("2.13.3")));
}

#[test]
fn does_not_strip_a_v_that_starts_a_word() {
    assert!(!version("victory-1").matches(&version("ictory-1")));
}

#[test]
fn distinguishes_genuinely_different_versions() {
    assert!(!version("1.16").matches(&version("1.17")));
}

// Beyond the original's own cases.

#[test]
fn a_key_is_trimmed_and_ids_render_with_the_slug() {
    let key = AddonKey::new("  qN5mGYzr \t").expect("non-empty");
    assert_eq!(key.as_str(), "qN5mGYzr");
    let id = AddonId::new(SourceId::Wago, key);
    assert_eq!(id.to_string(), "wago:qN5mGYzr");
    let github = AddonId::new(SourceId::GitHub, AddonKey::new("a/b").expect("non-empty"));
    assert_eq!(github.to_string(), "github:a/b");
}

#[test]
fn every_source_has_a_name_a_site_and_a_key_rule() {
    assert_eq!(SourceId::CurseForge.display_name(), "CurseForge");
    assert_eq!(SourceId::Wago.display_name(), "Wago Addons");
    assert_eq!(SourceId::GitHub.display_name(), "GitHub");
    assert!(SourceId::CurseForge.requires_api_key());
    assert!(SourceId::Wago.requires_api_key());
    assert!(!SourceId::GitHub.requires_api_key());
    assert_eq!(SourceId::Wago.site_url(), "https://addons.wago.io/");
    assert_eq!(SourceId::all(), SourceId::ALL.to_vec());
}

#[test]
fn folder_errors_name_what_is_wrong() {
    assert_eq!(AddonFolder::new("").expect_err("empty").to_string(), "addon folder name is empty");
    assert_eq!(
        AddonFolder::new("a/b").expect_err("separator").to_string(),
        "addon folder name \"a/b\" contains a path separator"
    );
    assert_eq!(
        AddonFolder::new("..").expect_err("relative").to_string(),
        "addon folder name \"..\" is a relative path component"
    );
    assert_eq!(
        AddonFolder::new("bad\u{7}name").expect_err("control").to_string(),
        "addon folder name \"bad\\u{7}name\" contains a character WoW cannot load: '\\u{7}'"
    );
}

#[test]
fn version_matching_ignores_ascii_case_and_one_leading_v() {
    assert!(version("1.0-BETA").matches(&version("1.0-beta")));
    assert!(!version("vv1").matches(&version("1")));
    assert_eq!(version(" 2.0 ").as_str(), "2.0");
    assert_eq!(version("v3.1").to_string(), "v3.1");
}

#[test]
fn expansions_have_labels() {
    assert_eq!(Expansion::Forever.label(), "WoW Forever");
    assert_eq!(Expansion::Unknown("Midnight".to_owned()).label(), "Midnight");
    assert!(Expansion::Forever.is_forever());
    assert!(!Expansion::Unknown("x".to_owned()).is_forever());
}
