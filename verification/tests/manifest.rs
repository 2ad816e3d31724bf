use forever_addons::domain::addon::{AddonId, AddonKey};
use forever_addons::domain::folder::AddonFolder;
use forever_addons::domain::source_id::SourceId;
use forever_addons::domain::version::AddonVersion;
use forever_addons::install::manifest::{manifest_path, InstalledRecord, Manifest};

fn record(key: &str, folders: &[&str]) -> InstalledRecord {
    InstalledRecord {
        id: AddonId::new(SourceId::CurseForge, AddonKey::new(key).expect("non-empty")),
        name: "Bagnon".to_owned(),
        version: AddonVersion::new("2.13.3"),
        folders: folders.iter().map(|name| AddonFolder::new(*name).expect("valid folder")).collect(),
        page_url: "https://www.curseforge.com/wow/addons/bagnon".to_owned(),
        installed_at: "2026-09-04T10:00:00Z".to_owned(),
    }
}

#[test]
fn attributes_an_installed_folder_to_its_addon_case_insensitively() {
    let mut manifest = Manifest::default();
    manifest.insert(record("4857", &["Bagnon", "Bagnon_Config"]));

    let folder = AddonFolder::new("bagnon_config").expect("valid folder");
    let owner = manifest.owner_of(&folder).expect("folder is owned");

    assert_eq!(owner.id.to_string(), "curseforge:4857");
}

#[test]
fn reports_no_owner_for_a_hand_installed_folder() {
    let manifest = Manifest::default();
    let folder = AddonFolder::new("SomeoneElsesAddon").expect("valid folder");

    assert!(manifest.owner_of(&folder).is_none());
}

#[test]
fn replaces_a_record_when_an_addon_is_upgraded() {
    let mut manifest = Manifest::default();
    manifest.insert(record("4857", &["Bagnon"]));
    manifest.insert(record("4857", &["Bagnon", "Bagnon_Config"]));

    assert_eq!(manifest.records().len(), 1);
    assert_eq!(
        manifest
            .get(&AddonId::new(SourceId::CurseForge, AddonKey::new("4857").expect("non-empty")))
            .map(|found| found.folders.len()),
        Some(2)
    );
}

#[test]
fn a_new_manifest_is_empty() {
    assert_eq!(Manifest::default().records().len(), 0);
}

// Beyond the original's own cases.

#[test]
fn keeps_records_in_key_order_and_removes_one() {
    let mut manifest = Manifest::new();
    manifest.insert(record("9", &["Nine"]));
    manifest.insert(record("10", &["Ten"]));
    manifest.insert(record("1", &["One"]));
    let keys = manifest.records().iter().map(|r| r.id.to_string()).collect::<Vec<_>>();
    assert_eq!(keys, vec!["curseforge:1", "curseforge:10", "curseforge:9"]);

    let id = AddonId::new(SourceId::CurseForge, AddonKey::new("10").expect("non-empty"));
    let removed = manifest.remove(&id).expect("was recorded");
    assert_eq!(removed.folders[0].as_str(), "Ten");
    assert!(manifest.get(&id).is_none());
    assert!(manifest.remove(&id).is_none());
    assert_eq!(manifest.records().len(), 2);
}

#[test]
fn rebuilds_a_manifest_from_records() {
    let manifest = Manifest::from_records(vec![record("2", &["Two"]), record("1", &["One"]), record("2", &["Deux"])]);
    assert_eq!(manifest.records().len(), 2);
    let two = AddonId::new(SourceId::CurseForge, AddonKey::new("2").expect("non-empty"));
    assert_eq!(manifest.get(&two).map(|r| r.folders[0].as_str().to_owned()), Some("Deux".to_owned()));
}

#[test]
fn the_first_owner_in_key_order_wins() {
    let mut manifest = Manifest::new();
    manifest.insert(record("2", &["Shared"]));
    manifest.insert(record("1", &["shared"]));
    let folder = AddonFolder::new("SHARED").expect("valid");
    assert_eq!(manifest.owner_of(&folder).map(|r| r.id.to_string()), Some("curseforge:1".to_owned()));
}

#[test]
fn the_manifest_lives_in_the_data_directory() {
    assert_eq!(manifest_path("/data"), "/data/installed.json");
}
