use std::io::Write;

use forever_addons::domain::addon::{AddonId, AddonKey, AddonSummary, Download};
use forever_addons::domain::folder::AddonFolder;
use forever_addons::domain::source_id::SourceId;
use forever_addons::domain::version::AddonVersion;
use forever_addons::error::AppError;
use forever_addons::install::manifest::InstalledRecord;
use forever_addons::install::{
    check_installable, download_api_key, download_capacity, folders_to_clear, installed_record,
    is_curseforge_host, received_after, uninstall_paths,
};
use forever_addons::install::archive::{extraction_steps, read_archive};
use forever_addons::install::run::InstallRun;
use forever_addons::install::{InstallProgress, InstallStage};

fn summary(download: Download) -> AddonSummary {
    AddonSummary {
        id: AddonId::new(SourceId::CurseForge, AddonKey::new("4857").expect("non-empty")),
        name: "Bagnon".to_owned(),
        summary: String::new(),
        author: None,
        version: AddonVersion::new("1.0"),
        updated_at: None,
        icon_url: None,
        page_url: "https://p".to_owned(),
        categories: Vec::new(),
        downloads: None,
        expansions: Vec::new(),
        download,
    }
}

fn zip_bytes(entries: &[&str]) -> Vec<u8> {
    let mut writer = zip::ZipWriter::new(std::io::Cursor::new(Vec::new()));
    for entry in entries {
        writer.start_file(*entry, zip::write::SimpleFileOptions::default()).expect("fixture file");
        writer.write_all(b"x").expect("fixture body");
    }
    writer.finish().expect("fixture archive").into_inner()
}

#[test]
fn refuses_downloads_this_build_cannot_obtain() {
    let error = check_installable(&summary(Download::Unsupported { url: "u".to_owned(), format: "7z".to_owned() }))
        .expect_err("unsupported");
    assert!(matches!(error, AppError::UnsupportedArchive { .. }));
    let error = check_installable(&summary(Download::External { url: "u".to_owned() })).expect_err("external");
    assert!(matches!(error, AppError::ExternalDownloadOnly { .. }));
    assert!(check_installable(&summary(Download::Brokered)).is_ok());
    assert!(check_installable(&summary(Download::Direct { url: "u".to_owned() })).is_ok());
}

#[test]
fn sends_the_api_key_only_to_curseforge_hosts() {
    assert!(is_curseforge_host("https://edge.forgecdn.net/files/1/a.zip"));
    assert!(is_curseforge_host("https://api.curseforge.com/v1/mods"));
    assert!(is_curseforge_host("https://forgecdn.net?x"));
    assert!(!is_curseforge_host("http://edge.forgecdn.net/a.zip"));
    assert!(!is_curseforge_host("https://evilforgecdn.net/a.zip"));
    assert!(!is_curseforge_host("https://example.com/curseforge.com"));
    assert!(!is_curseforge_host("https://evil.com\\.forgecdn.net/x.zip"));
    assert!(!is_curseforge_host("https://evil.com\\@edge.forgecdn.net/x.zip"));
    assert_eq!(
        download_api_key(SourceId::CurseForge, "https://edge.forgecdn.net/a.zip", Some("  k ")),
        Some("k".to_owned())
    );
    assert_eq!(download_api_key(SourceId::Wago, "https://edge.forgecdn.net/a.zip", Some("k")), None);
    assert_eq!(download_api_key(SourceId::CurseForge, "https://example.com/a.zip", Some("k")), None);
}

#[test]
fn counts_received_bytes_and_caps_the_reservation() {
    assert_eq!(received_after(10, 5), 15);
    assert_eq!(download_capacity(None), 0);
    assert_eq!(download_capacity(Some(100)), 100);
    assert_eq!(download_capacity(Some(u64::MAX)), 16 * 1024 * 1024);
}

#[test]
fn an_upgrade_clears_the_previous_folders_first() {
    let (_, plan) = read_archive(zip_bytes(&["Bagnon/Bagnon.toc"]), &summary(Download::Brokered).id, "Bagnon")
        .expect("readable");
    let previous = vec![AddonFolder::new("Bagnon").expect("valid"), AddonFolder::new("Bagnon_Forever").expect("valid")];
    let cleared = folders_to_clear(&previous, &plan);
    let names = cleared.iter().map(|f| f.as_str()).collect::<Vec<_>>();
    assert_eq!(names, vec!["Bagnon", "Bagnon_Forever", "Bagnon"]);
}

#[test]
fn records_what_was_installed() {
    let s = summary(Download::Brokered);
    let record = installed_record(&s, vec![AddonFolder::new("Bagnon").expect("valid")], "2026-01-01T00:00:00Z".to_owned());
    assert_eq!(record.id.to_string(), "curseforge:4857");
    assert_eq!(record.version.as_ref().map(|v| v.as_str()), Some("1.0"));
    assert_eq!(record.installed_at, "2026-01-01T00:00:00Z");
}

#[test]
fn an_uninstall_touches_only_the_recorded_folders() {
    let record = InstalledRecord {
        id: AddonId::new(SourceId::Wago, AddonKey::new("x").expect("non-empty")),
        name: "X".to_owned(),
        version: None,
        folders: vec![AddonFolder::new("A").expect("valid"), AddonFolder::new("B").expect("valid")],
        page_url: String::new(),
        installed_at: String::new(),
    };
    assert_eq!(uninstall_paths("/wow/Interface/AddOns", &record), vec!["/wow/Interface/AddOns/A", "/wow/Interface/AddOns/B"]);
}

#[test]
fn reports_progress_in_install_order() {
    let addon = summary(Download::Direct { url: "https://edge.forgecdn.net/a.zip".to_owned() });
    assert!(matches!(
        InstallRun::start(&summary(Download::External { url: "u".to_owned() })),
        Err(AppError::ExternalDownloadOnly { .. })
    ));
    let (mut run, first) = InstallRun::start(&addon).expect("installable");
    let mut events: Vec<InstallProgress> = vec![first];
    events.push(run.downloaded(3, Some(5)));
    events.push(run.downloaded(2, Some(5)));
    assert_eq!(run.received(), 5);
    let (extraction, extracting) = run.extracting();
    events.push(extracting);

    let (_zip, plan) = read_archive(zip_bytes(&["Bagnon/Bagnon.toc", "Bagnon_Config/Bagnon_Config.toc"]), &addon.id, &addon.name)
        .expect("plans");
    let (installed, record) = extraction.installed(&plan, "2026-09-04T10:00:00Z".to_owned());
    events.push(installed);

    let bagnon = AddonFolder::new("Bagnon").expect("valid");
    let config = AddonFolder::new("Bagnon_Config").expect("valid");
    assert!(events.iter().all(|event| event.addon_id == addon.id));
    let stages: Vec<InstallStage> = events.into_iter().map(|event| event.stage).collect();
    assert_eq!(
        stages,
        vec![
            InstallStage::Resolving,
            InstallStage::Downloading { received: 3, total: Some(5) },
            InstallStage::Downloading { received: 5, total: Some(5) },
            InstallStage::Extracting,
            InstallStage::Installed { folders: vec![bagnon.clone(), config.clone()] },
        ]
    );
    assert_eq!(record.id, addon.id);
    assert_eq!(record.name, "Bagnon");
    assert_eq!(record.folders, vec![bagnon, config]);
    assert_eq!(record.installed_at, "2026-09-04T10:00:00Z");
}

#[test]
fn lists_each_planned_entry_with_the_path_it_is_written_to() {
    let addon = summary(Download::Brokered);
    let (mut zip, plan) = read_archive(
        zip_bytes(&["Bagnon-master/README.md", "Bagnon-master/Bagnon/Bagnon.toc", "Bagnon-master/Bagnon/main.lua"]),
        &addon.id,
        &addon.name,
    )
    .expect("plans");
    let steps = extraction_steps(&mut zip, &plan, "/wow/Interface/AddOns", &addon.id).expect("readable");
    let listed: Vec<(usize, &str, bool)> = steps.iter().map(|s| (s.index, s.path.as_str(), s.is_dir)).collect();
    assert_eq!(
        listed,
        vec![(1, "/wow/Interface/AddOns/Bagnon/Bagnon.toc", false), (2, "/wow/Interface/AddOns/Bagnon/main.lua", false)]
    );
}
