use forever_addons::catalog::Catalog;
use forever_addons::domain::addon::{AddonId, AddonKey, AddonSummary, Download};
use forever_addons::domain::folder::AddonFolder;
use forever_addons::domain::source_id::SourceId;
use forever_addons::domain::version::AddonVersion;
use forever_addons::install::manifest::{InstalledRecord, Manifest};
use forever_addons::view::{build, update_status, UpdateStatus};
use forever_addons::wow::scan::InstalledFolder;

fn addon_id(key: &str) -> AddonId {
    AddonId::new(SourceId::CurseForge, AddonKey::new(key).expect("non-empty"))
}

fn record(key: &str, version: Option<&str>, folders: &[&str]) -> InstalledRecord {
    InstalledRecord {
        id: addon_id(key),
        name: "Bagnon".to_owned(),
        version: version.and_then(AddonVersion::new),
        folders: folders.iter().map(|name| AddonFolder::new(*name).expect("valid folder")).collect(),
        page_url: String::new(),
        installed_at: "2026-09-04T10:00:00Z".to_owned(),
    }
}

fn scanned(names: &[&str]) -> Vec<InstalledFolder> {
    names
        .iter()
        .map(|name| InstalledFolder {
            folder: AddonFolder::new(*name).expect("valid folder"),
            title: None,
            version: None,
            author: None,
            notes: None,
            interface: None,
            loads_on_client: true,
        })
        .collect()
}

fn catalog(key: &str, version: Option<&str>) -> Catalog {
    catalog_with(key, version, None)
}

fn catalog_with(key: &str, version: Option<&str>, updated_at: Option<&str>) -> Catalog {
    Catalog::new(
        SourceId::CurseForge,
        vec![AddonSummary {
            id: addon_id(key),
            name: "Bagnon".to_owned(),
            summary: String::new(),
            author: None,
            version: version.and_then(AddonVersion::new),
            updated_at: updated_at.map(str::to_owned),
            icon_url: None,
            page_url: String::new(),
            categories: Vec::new(),
            downloads: None,
            expansions: Vec::new(),
            download: Download::Brokered,
        }],
    )
}

#[test]
fn separates_managed_addons_from_folders_the_user_added() {
    let mut manifest = Manifest::default();
    manifest.insert(record("1", Some("2.13.3"), &["Bagnon"]));

    let view = build(scanned(&["Bagnon", "MyOwnAddon"]), &manifest, &[]);

    assert_eq!(view.managed.len(), 1);
    assert_eq!(view.managed[0].record.id, addon_id("1"));
    assert_eq!(view.unmanaged.len(), 1);
    assert_eq!(view.unmanaged[0].folder.as_str(), "MyOwnAddon");
}

#[test]
fn reports_an_update_when_the_catalog_moved_ahead() {
    let mut manifest = Manifest::default();
    manifest.insert(record("1", Some("2.13.3"), &["Bagnon"]));

    let catalogs = [catalog("1", Some("2.14.0"))];
    let view = build(scanned(&["Bagnon"]), &manifest, &catalogs);

    assert_eq!(
        view.managed[0].update,
        UpdateStatus::Available { latest: AddonVersion::new("2.14.0").expect("non-empty") }
    );
}

#[test]
fn reports_up_to_date_across_a_v_prefix() {
    let mut manifest = Manifest::default();
    manifest.insert(record("1", Some("v2.13.3"), &["Bagnon"]));

    let catalogs = [catalog("1", Some("2.13.3"))];
    let view = build(scanned(&["Bagnon"]), &manifest, &catalogs);

    assert_eq!(view.managed[0].update, UpdateStatus::UpToDate);
}

#[test]
fn reports_unknown_when_a_source_publishes_neither_signal() {
    let mut manifest = Manifest::default();
    manifest.insert(record("1", None, &["Bagnon"]));

    let catalogs = [catalog("1", Some("2.14.0"))];
    let view = build(scanned(&["Bagnon"]), &manifest, &catalogs);

    assert_eq!(view.managed[0].update, UpdateStatus::Unknown);
}

#[test]
fn falls_back_to_the_source_changing_after_the_install() {
    let mut manifest = Manifest::default();
    manifest.insert(record("1", None, &["Bagnon"]));

    let catalogs = [catalog_with("1", None, Some("2026-09-12T00:00:00Z"))];
    let view = build(scanned(&["Bagnon"]), &manifest, &catalogs);

    assert_eq!(
        view.managed[0].update,
        UpdateStatus::SourceChanged { updated_at: "2026-09-12T00:00:00Z".to_owned() }
    );
}

#[test]
fn treats_a_source_untouched_since_the_install_as_current() {
    let mut manifest = Manifest::default();
    manifest.insert(record("1", None, &["Bagnon"]));

    let catalogs = [catalog_with("1", None, Some("2026-08-01T00:00:00Z"))];
    let view = build(scanned(&["Bagnon"]), &manifest, &catalogs);

    assert_eq!(view.managed[0].update, UpdateStatus::UpToDate);
}

#[test]
fn prefers_a_version_comparison_over_the_modification_date() {
    let mut manifest = Manifest::default();
    manifest.insert(record("1", Some("2.13.3"), &["Bagnon"]));

    let catalogs = [catalog_with("1", Some("2.13.3"), Some("2026-09-01T00:00:00Z"))];
    let view = build(scanned(&["Bagnon"]), &manifest, &catalogs);

    assert_eq!(view.managed[0].update, UpdateStatus::UpToDate);
}

#[test]
fn flags_a_managed_addon_whose_folders_were_deleted_by_hand() {
    let mut manifest = Manifest::default();
    manifest.insert(record("1", Some("2.13.3"), &["Bagnon"]));

    let view = build(Vec::new(), &manifest, &[]);

    assert!(!view.managed[0].present);
    assert!(view.managed[0].folders.is_empty());
}

#[test]
fn matches_recorded_folders_case_insensitively() {
    let mut manifest = Manifest::default();
    manifest.insert(record("1", None, &["Bagnon"]));

    let view = build(scanned(&["bagnon"]), &manifest, &[]);

    assert!(view.managed[0].present);
    assert!(view.unmanaged.is_empty());
}

// Beyond the original's own cases.

#[test]
fn a_source_change_at_the_install_instant_is_not_newer() {
    let rec = record("1", None, &["Bagnon"]);
    assert_eq!(update_status(&rec, None, Some("2026-09-04T10:00:00Z")), UpdateStatus::UpToDate);
    assert_eq!(update_status(&rec, None, None), UpdateStatus::Unknown);
}

#[test]
fn the_first_catalog_listing_an_addon_is_the_one_consulted() {
    let mut manifest = Manifest::default();
    manifest.insert(record("1", Some("1.0"), &["Bagnon"]));
    let catalogs = [catalog("1", Some("1.0")), catalog("1", Some("2.0"))];
    let view = build(scanned(&["Bagnon"]), &manifest, &catalogs);
    assert_eq!(view.managed[0].update, UpdateStatus::UpToDate);
}
