use forever_addons::catalog::Catalog;
use forever_addons::commands::{app_status, github_repo_request};
use forever_addons::config::Settings;
use forever_addons::domain::addon::{AddonId, AddonKey, AddonSummary, Download};
use forever_addons::domain::folder::AddonFolder;
use forever_addons::domain::source_id::SourceId;
use forever_addons::error::AppError;
use forever_addons::install::manifest::{InstalledRecord, Manifest};
use forever_addons::state::{configured_client, find_in_catalogs, previous_folders, recorded, source_auth, Catalogs};

fn catalog(source: SourceId, keys: &[&str]) -> Catalog {
    Catalog::new(
        source,
        keys.iter()
            .map(|key| AddonSummary {
                id: AddonId::new(source, AddonKey::new(key).expect("non-empty")),
                name: (*key).to_owned(),
                summary: String::new(),
                author: None,
                version: None,
                updated_at: None,
                icon_url: None,
                page_url: String::new(),
                categories: Vec::new(),
                downloads: None,
                expansions: Vec::new(),
                download: Download::Brokered,
            })
            .collect(),
    )
}

#[test]
fn keeps_one_catalog_per_source_in_source_order() {
    let mut catalogs = Catalogs::new();
    catalogs.insert(catalog(SourceId::GitHub, &["a/b"]));
    catalogs.insert(catalog(SourceId::CurseForge, &["1"]));
    catalogs.insert(catalog(SourceId::CurseForge, &["1", "2"]));
    let sources = catalogs.all().iter().map(|c| c.source).collect::<Vec<_>>();
    assert_eq!(sources, vec![SourceId::CurseForge, SourceId::GitHub]);
    assert_eq!(catalogs.get(SourceId::CurseForge).map(|c| c.addons.len()), Some(2));
    assert!(catalogs.get(SourceId::Wago).is_none());
    let enabled = catalogs.enabled(&[SourceId::GitHub, SourceId::Wago, SourceId::CurseForge]);
    let order = enabled.iter().map(|c| c.source).collect::<Vec<_>>();
    assert_eq!(order, vec![SourceId::GitHub, SourceId::CurseForge]);
}

#[test]
fn reports_each_source_with_its_key_and_catalog() {
    let mut catalogs = Catalogs::new();
    catalogs.insert(catalog(SourceId::Wago, &["x", "y"]));
    let settings = Settings {
        wago_token: Some("  token ".to_owned()),
        curseforge_api_key: Some("   ".to_owned()),
        github_repos: vec!["o/n".to_owned()],
        ..Settings::default()
    };
    let status = app_status(&settings, &catalogs, Some(Err("gone".to_owned())));
    assert!(!status.install_valid);
    assert_eq!(status.install_error.as_deref(), Some("gone"));
    assert_eq!(status.sources.len(), 3);
    assert!(!status.sources[0].api_key_configured);
    assert!(status.sources[1].api_key_configured);
    assert_eq!(status.sources[1].addon_count, 2);
    assert!(status.sources[1].fetched_at.is_some());
    assert_eq!(status.sources[2].tracked_repos, vec!["o/n"]);
    assert!(!status.sources[2].requires_api_key);
    assert_eq!(status.sources[0].name, "CurseForge");
    let ok = app_status(&settings, &catalogs, Some(Ok(())));
    assert!(ok.install_valid);
    assert!(!app_status(&settings, &catalogs, None).install_valid);
}

#[test]
fn a_repository_request_must_name_owner_and_repository() {
    assert_eq!(github_repo_request("https://github.com/o/n".to_owned()).expect("valid").as_str(), "o/n");
    let error = github_repo_request("nope".to_owned()).expect_err("not a repository");
    assert!(matches!(error, AppError::SourceShape { source_id: SourceId::GitHub, .. }));
}

#[test]
fn looks_up_what_commands_need() {
    let settings = Settings { client_path: Some("/wow".to_owned()), ..Settings::default() };
    assert_eq!(configured_client(&settings).expect("configured"), "/wow");
    assert!(matches!(configured_client(&Settings::default()), Err(AppError::NoInstallConfigured)));
    let auth = source_auth(&settings);
    assert!(auth.curseforge_api_key.is_none());

    let id = AddonId::new(SourceId::CurseForge, AddonKey::new("1").expect("non-empty"));
    let mut manifest = Manifest::new();
    assert!(previous_folders(&manifest, &id).is_empty());
    assert!(matches!(recorded(&manifest, &id), Err(AppError::NotInstalled { .. })));
    manifest.insert(InstalledRecord {
        id: id.clone(),
        name: "One".to_owned(),
        version: None,
        folders: vec![AddonFolder::new("One").expect("valid")],
        page_url: String::new(),
        installed_at: String::new(),
    });
    assert_eq!(previous_folders(&manifest, &id).len(), 1);
    assert_eq!(recorded(&manifest, &id).expect("recorded").name, "One");

    let catalogs = vec![catalog(SourceId::Wago, &["1"]), catalog(SourceId::CurseForge, &["1"])];
    assert_eq!(find_in_catalogs(&catalogs, &id).expect("listed").id, id);
    let missing = AddonId::new(SourceId::GitHub, AddonKey::new("z/z").expect("non-empty"));
    assert!(matches!(find_in_catalogs(&catalogs, &missing), Err(AppError::UnknownAddon { .. })));
}
