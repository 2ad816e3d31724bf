use forever_addons::domain::source_id::SourceId;
use forever_addons::error::AppError;
use forever_addons::source::{addon_id, html_to_text, missing_field, required_key, SourceAuth};

#[test]
fn a_saved_key_is_trimmed_before_use() {
    let auth = SourceAuth { curseforge_api_key: Some("  user-key  ".to_owned()), ..SourceAuth::default() };

    assert_eq!(auth.curseforge_key().expect("saved key resolves"), "user-key");
}

#[test]
fn a_missing_or_blank_key_names_the_source_and_the_fix() {
    for auth in [
        SourceAuth::default(),
        SourceAuth { curseforge_api_key: Some("   ".to_owned()), ..SourceAuth::default() },
    ] {
        let error = auth.curseforge_key().expect_err("no usable key");
        assert!(error.to_string().contains("API key"), "{}", error.to_string());

        let error = auth.wago_token().expect_err("no usable token");
        assert!(error.to_string().contains("Wago"), "{}", error.to_string());
    }
}

// Beyond the original's own cases.

#[test]
fn a_missing_key_error_names_its_source() {
    let error = required_key(&None, SourceId::Wago).expect_err("no key");
    assert!(matches!(error, AppError::MissingApiKey { source_id: SourceId::Wago }));
    assert_eq!(
        error.to_string(),
        "Wago Addons needs an API key before it can be queried; add one on the Sources screen"
    );
}

#[test]
fn html_fragments_become_single_spaced_text() {
    assert_eq!(html_to_text("   "), None);
    assert_eq!(html_to_text("<p>Quest  <b>objectives</b></p>\n<p>on the map</p>").as_deref(), Some("Quest objectives on the map"));
    assert_eq!(html_to_text("plain").as_deref(), Some("plain"));
}

#[test]
fn ids_are_built_from_trimmed_keys() {
    let id = addon_id(SourceId::CurseForge, " 42 ").expect("non-blank");
    assert_eq!(id.to_string(), "curseforge:42");
    assert!(addon_id(SourceId::CurseForge, "  ").is_none());
}

#[test]
fn a_shape_error_says_what_was_expected() {
    let error = missing_field(SourceId::GitHub, "https://x", "a release list", "eof".to_owned());
    assert_eq!(
        error.to_string(),
        "could not read GitHub response from https://x: expected a release list, eof"
    );
}

#[test]
fn a_page_count_header_is_read_as_a_number() {
    assert_eq!(forever_addons::source::header_number(" 18 "), Some(18));
    assert_eq!(forever_addons::source::header_number("many"), None);
    assert_eq!(forever_addons::source::header_number(""), None);
}
