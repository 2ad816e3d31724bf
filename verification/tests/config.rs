use forever_addons::config::{default_sources, settings_path, Settings};
use forever_addons::domain::source_id::SourceId;
use forever_addons::state::{normalize_secret, track_repo, untrack_repo};

#[test]
fn starts_with_every_source_enabled() {
    let settings = Settings::default();

    assert!(settings.client_path.is_none());
    for source in SourceId::ALL {
        assert!(settings.is_enabled(source), "{source:?} should be enabled");
    }
}

// Beyond the original's own cases.

#[test]
fn a_disabled_source_is_not_enabled() {
    let settings = Settings { enabled_sources: vec![SourceId::Wago], ..Settings::default() };
    assert!(settings.is_enabled(SourceId::Wago));
    assert!(!settings.is_enabled(SourceId::CurseForge));
    assert_eq!(default_sources(), SourceId::ALL.to_vec());
}

#[test]
fn settings_live_in_the_data_directory() {
    assert_eq!(settings_path("/data"), "/data/settings.json");
}

#[test]
fn a_blank_secret_is_stored_as_absent_and_a_padded_one_trimmed() {
    assert_eq!(normalize_secret(None), None);
    assert_eq!(normalize_secret(Some("   ".to_owned())), None);
    assert_eq!(normalize_secret(Some("  key \n".to_owned())), Some("key".to_owned()));
}

#[test]
fn tracking_a_repository_again_moves_it_to_the_end() {
    let repos = vec!["a/one".to_owned(), "B/Two".to_owned(), "c/three".to_owned()];
    let listed = track_repo(repos, "b/two".to_owned());
    assert_eq!(listed, vec!["a/one", "c/three", "b/two"]);
    let again = track_repo(listed.clone(), "b/two".to_owned());
    assert_eq!(again, listed);
}

#[test]
fn untracking_removes_every_case_variant() {
    let repos = vec!["a/one".to_owned(), "A/ONE".to_owned(), "c/three".to_owned()];
    assert_eq!(untrack_repo(repos, "a/One"), vec!["c/three"]);
}
