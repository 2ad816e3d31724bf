use std::io::{Cursor, Write};

use forever_addons::domain::addon::{AddonId, AddonKey};
use forever_addons::domain::source_id::SourceId;
use forever_addons::error::AppError;
use forever_addons::install::archive::{ends_with_toc, is_ignored, plan, read_archive, sanitize_folder_name, ArchivePlan};

fn addon_id() -> AddonId {
    AddonId::new(SourceId::CurseForge, AddonKey::new("4857").expect("non-empty key"))
}

fn zip_bytes(entries: &[&str]) -> Vec<u8> {
    let mut writer = zip::ZipWriter::new(Cursor::new(Vec::new()));
    for entry in entries {
        let options = zip::write::SimpleFileOptions::default();
        if let Some(dir) = entry.strip_suffix('/') {
            writer.add_directory(dir, options).expect("fixture dir");
            continue;
        }
        writer.start_file(*entry, options).expect("fixture file");
        writer.write_all(b"x").expect("fixture body");
    }
    writer.finish().expect("fixture archive").into_inner()
}

fn archive_of(entries: &[&str]) -> zip::ZipArchive<Cursor<Vec<u8>>> {
    zip::ZipArchive::new(Cursor::new(zip_bytes(entries))).expect("fixture archive reads back")
}

fn plan_of(entries: &[&str]) -> Result<ArchivePlan, AppError> {
    plan(&mut archive_of(entries), &addon_id(), "Bagnon")
}

fn folder_names(plan: &ArchivePlan) -> Vec<&str> {
    plan.folders().iter().map(|f| f.as_str()).collect()
}

#[test]
fn plans_an_archive_whose_addon_folders_sit_at_the_root() {
    let plan = plan_of(&["Bagnon/Bagnon.toc", "Bagnon/main.lua", "Bagnon_Config/Bagnon_Config.toc"])
        .expect("archive holds addons");

    assert_eq!(folder_names(&plan), vec!["Bagnon", "Bagnon_Config"]);
    assert_eq!(plan.destination("Bagnon/main.lua").as_deref(), Some("Bagnon/main.lua"));
}

#[test]
fn strips_the_wrapper_folder_a_github_archive_adds() {
    let plan = plan_of(&["Bagnon-master/README.md", "Bagnon-master/Bagnon/Bagnon.toc", "Bagnon-master/Bagnon/main.lua"])
        .expect("archive holds addons");

    assert_eq!(folder_names(&plan), vec!["Bagnon"]);
    assert_eq!(plan.destination("Bagnon-master/Bagnon/main.lua").as_deref(), Some("Bagnon/main.lua"));
}

#[test]
fn strips_every_level_above_the_shallowest_addon_folder() {
    let plan = plan_of(&["release/forever/Questie/Questie.toc", "release/forever/Questie/init.lua"])
        .expect("archive holds an addon");

    assert_eq!(folder_names(&plan), vec!["Questie"]);
    assert_eq!(plan.destination("release/forever/Questie/init.lua").as_deref(), Some("Questie/init.lua"));
}

#[test]
fn leaves_files_beside_the_wrapper_folder_uninstalled() {
    let plan = plan_of(&["Bagnon-master/README.md", "Bagnon-master/Bagnon/Bagnon.toc"]).expect("archive holds addons");

    assert_eq!(plan.destination("Bagnon-master/README.md"), None);
}

#[test]
fn wraps_loose_root_files_in_a_folder_named_for_the_addon() {
    let plan = plan_of(&["Bagnon.toc", "main.lua"]).expect("archive holds an addon");

    assert_eq!(folder_names(&plan), vec!["Bagnon"]);
    assert_eq!(plan.destination("main.lua").as_deref(), Some("Bagnon/main.lua"));
}

#[test]
fn ignores_folders_at_the_root_that_carry_no_toc() {
    let plan = plan_of(&["Bagnon/Bagnon.toc", "Screenshots/preview.png"]).expect("archive holds an addon");

    assert_eq!(folder_names(&plan), vec!["Bagnon"]);
    assert_eq!(plan.destination("Screenshots/preview.png"), None);
}

#[test]
fn does_not_treat_a_nested_library_toc_as_a_separate_addon() {
    let plan = plan_of(&["Bagnon/Bagnon.toc", "Bagnon/Libs/Ace3/Ace3.toc", "Bagnon/Libs/Ace3/Ace3.lua"])
        .expect("archive holds an addon");

    assert_eq!(folder_names(&plan), vec!["Bagnon"]);
    assert_eq!(plan.destination("Bagnon/Libs/Ace3/Ace3.lua").as_deref(), Some("Bagnon/Libs/Ace3/Ace3.lua"));
}

#[test]
fn drops_archiver_metadata_entries() {
    let plan = plan_of(&["Bagnon/Bagnon.toc", "__MACOSX/._Bagnon", "Bagnon/.DS_Store"]).expect("archive holds an addon");

    assert_eq!(plan.destination("__MACOSX/._Bagnon"), None);
    assert_eq!(plan.destination("Bagnon/.DS_Store"), None);
}

#[test]
fn rejects_an_archive_with_no_toc_at_all() {
    let error = plan_of(&["notes.txt", "images/preview.png"]).expect_err("no addon");
    assert!(matches!(error, AppError::ArchiveHasNoAddon { .. }), "{}", error.to_string());
}

#[test]
fn rejects_an_archive_entry_that_escapes_the_addons_directory() {
    let error = plan_of(&["../../evil.toc", "Bagnon/Bagnon.toc"]).expect_err("traversal is refused");
    assert!(matches!(error, AppError::ArchiveUnsafePath { .. }), "{}", error.to_string());
}

#[test]
fn matches_toc_extensions_case_insensitively() {
    let plan = plan_of(&["Questie/Questie.TOC"]).expect("archive holds an addon");
    assert_eq!(folder_names(&plan), vec!["Questie"]);
}

#[test]
fn sanitizes_a_catalog_name_into_a_loadable_folder_name() {
    assert_eq!(sanitize_folder_name("Details! DamageMeter"), "Details__DamageMeter");
    assert_eq!(sanitize_folder_name("../evil"), "evil");
}

// Beyond the original's own cases.

#[test]
fn bytes_that_are_not_a_zip_are_reported_as_unreadable() {
    let error = read_archive(b"not a zip".to_vec(), &addon_id(), "Bagnon").expect_err("garbage");
    assert!(matches!(error, AppError::ArchiveUnreadable { .. }), "{}", error.to_string());
}

#[test]
fn reads_and_plans_archive_bytes_in_one_step() {
    let (archive, plan) = read_archive(zip_bytes(&["Bagnon/Bagnon.toc", "Bagnon/main.lua"]), &addon_id(), "Bagnon")
        .expect("a readable addon archive");
    assert_eq!(archive.len(), 2);
    assert_eq!(folder_names(&plan), vec!["Bagnon"]);
}

#[test]
fn backslashes_read_as_slashes_and_junk_is_ignored() {
    let plan = plan_of(&["Bagnon/Bagnon.toc"]).expect("archive holds an addon");
    assert_eq!(plan.destination("Bagnon\\sub\\file.lua").as_deref(), Some("Bagnon/sub/file.lua"));
    assert!(is_ignored("Bagnon/Thumbs.db"));
    assert!(is_ignored(".git/config"));
    assert!(!is_ignored("Bagnon/main.lua"));
    assert!(ends_with_toc("A/B.Toc"));
    assert!(!ends_with_toc("A/B.toc.bak"));
}

#[test]
fn a_catalog_name_with_nothing_loadable_cannot_be_a_folder() {
    let error = plan(&mut archive_of(&["x.toc"]), &addon_id(), "!!!").expect_err("no usable folder name");
    assert!(matches!(error, AppError::ArchiveUnsafePath { .. }), "{}", error.to_string());
}

#[test]
fn writes_a_padded_folder_under_its_planned_trimmed_name() {
    let plan = plan_of(&[" Bagnon/Bagnon.toc", " Bagnon/x.lua"]).expect("plans");
    assert_eq!(folder_names(&plan), vec!["Bagnon"]);
    assert_eq!(plan.destination(" Bagnon/x.lua").as_deref(), Some("Bagnon/x.lua"));
    assert_eq!(plan.destination(" Bagnon").as_deref(), Some("Bagnon"));
}

#[test]
fn an_entry_whose_local_header_is_damaged_is_reported_as_unreadable() {
    let mut bytes = zip_bytes(&["Bagnon/Bagnon.toc", "Bagnon/main.lua"]);
    bytes[0] = b'X';
    let error = read_archive(bytes, &addon_id(), "Bagnon").expect_err("unreadable");
    assert!(matches!(error, AppError::ArchiveUnreadable { .. }));
}

#[test]
fn the_first_entry_in_archive_order_decides_between_unsafe_and_unreadable() {
    let mut bytes = zip_bytes(&["../escape.lua", "Bagnon/Bagnon.toc"]);
    let second = bytes
        .windows(4)
        .enumerate()
        .filter(|(_, w)| *w == b"PK\x03\x04")
        .map(|(at, _)| at)
        .nth(1)
        .expect("a second local header");
    bytes[second] = b'X';
    let error = read_archive(bytes, &addon_id(), "Bagnon").expect_err("refused");
    assert!(matches!(error, AppError::ArchiveUnsafePath { ref entry, .. } if entry == "../escape.lua"));
}
