use forever_addons::domain::folder::AddonFolder;
use forever_addons::wow::scan::{describe_folder, fallback_toc, preferred_toc_name, sort_by_folder_key};
use forever_addons::wow::toc::{InterfaceVersion, Toc};
use forever_addons::wow::{
    detect_install, install_roots_for_home, is_wow_executable_name, ClientDirectory, WowInstall,
};

fn client(names: &[&str], marker: bool) -> ClientDirectory {
    ClientDirectory {
        is_dir: true,
        entry_names: names.iter().map(|n| (*n).to_owned()).collect(),
        has_flavor_marker: marker,
    }
}

#[test]
fn opens_a_product_directory_holding_a_client() {
    let install = WowInstall::open("/games/wow/_classic_beta_".to_owned(), &client(&["WowB.exe", ".flavor.info"], true))
        .expect("a valid client");
    assert_eq!(install.root(), "/games/wow/_classic_beta_");
    assert_eq!(install.addons_dir(), "/games/wow/_classic_beta_/Interface/AddOns");
}

#[test]
fn accepts_any_wow_prefixed_executable_name() {
    assert!(WowInstall::open("/w".to_owned(), &client(&["wow.exe"], true)).is_ok());
    assert!(is_wow_executable_name("WowClassic.EXE"));
}

#[test]
fn rejects_a_directory_without_a_client_executable() {
    let error = WowInstall::open("/w".to_owned(), &client(&[".flavor.info"], true)).expect_err("no executable");
    assert!(error.to_string().contains("Wow*.exe"), "{}", error.to_string());
}

#[test]
fn rejects_a_directory_without_the_flavor_marker() {
    let error = WowInstall::open("/w".to_owned(), &client(&["WowB.exe"], false)).expect_err("no marker");
    assert!(error.to_string().contains(".flavor.info"), "{}", error.to_string());
}

#[test]
fn does_not_mistake_blizzard_error_for_the_client() {
    assert!(WowInstall::open("/w".to_owned(), &client(&["BlizzardError.exe"], true)).is_err());
    assert!(!is_wow_executable_name("WowError.exe"));
}

#[test]
fn rejects_a_path_that_is_not_a_directory() {
    let dir = ClientDirectory { is_dir: false, entry_names: Vec::new(), has_flavor_marker: false };
    let error = WowInstall::open("/nowhere".to_owned(), &dir).expect_err("not a directory");
    assert_eq!(
        error.to_string(),
        "/nowhere is not a World of Warcraft: Forever installation: the path is not a directory"
    );
}

#[test]
fn lists_the_likely_roots_home_first() {
    let roots = install_roots_for_home(Some("/home/ana".to_owned()));
    assert_eq!(roots.len(), 5);
    assert_eq!(roots[0], "/home/ana/Games/Battle.net/World of Warcraft/_classic_beta_");
    assert_eq!(roots[4], "C:\\Program Files\\World of Warcraft\\_classic_beta_");
    assert_eq!(install_roots_for_home(None).len(), 2);
}

#[test]
fn detects_the_first_candidate_that_validates() {
    let candidates = vec![
        ("/a".to_owned(), client(&["readme.txt"], true)),
        ("/b".to_owned(), client(&["WowB.exe"], true)),
        ("/c".to_owned(), client(&["Wow.exe"], true)),
    ];
    let found = detect_install(candidates).expect("one validates");
    assert_eq!(found.root(), "/b");
    assert!(detect_install(vec![("/a".to_owned(), client(&[], true))]).is_none());
}

#[test]
fn describes_each_folder_from_its_toc() {
    let toc = Toc::parse("## Interface: 16001\n## Title: Bagnon\n## Version: 2.13.3\n");
    let folder = describe_folder("Bagnon", Some(toc)).expect("valid folder");
    assert_eq!(folder.folder.as_str(), "Bagnon");
    assert_eq!(folder.title.as_deref(), Some("Bagnon"));
    assert!(folder.loads_on_client);
    assert_eq!(folder.interface, Some(InterfaceVersion::forever()));
}

#[test]
fn lists_a_folder_that_has_no_toc_at_all() {
    let folder = describe_folder("SharedMedia", None).expect("valid folder");
    assert_eq!(folder.folder.as_str(), "SharedMedia");
    assert_eq!(folder.title, None);
    assert!(folder.loads_on_client);
}

#[test]
fn flags_an_addon_built_for_a_different_client() {
    let toc = Toc::parse("## Interface: 110200\n## Title: Retail Only\n");
    let folder = describe_folder("RetailOnly", Some(toc)).expect("valid folder");
    assert!(!folder.loads_on_client);
    assert_eq!(folder.interface, Some(InterfaceVersion::new(110200)));
}

#[test]
fn accepts_a_comma_delimited_list_that_includes_forever() {
    let toc = Toc::parse("## Interface: 110200, 16001\n");
    let folder = describe_folder("Both", Some(toc)).expect("valid folder");
    assert!(folder.loads_on_client);
}

#[test]
fn finds_a_toc_whose_name_does_not_match_its_folder() {
    let folder = AddonFolder::new("Questie").expect("valid");
    assert_eq!(preferred_toc_name(&folder), "Questie.toc");
    let names = vec!["Questie.lua".to_owned(), "questie.TOC".to_owned(), "other.toc".to_owned()];
    assert_eq!(fallback_toc(&names), Some(1));
    assert_eq!(fallback_toc(&vec!["a.lua".to_owned()]), None);
}

#[test]
fn sorts_folders_case_insensitively() {
    let folders = ["zeta", "Alpha", "beta"]
        .iter()
        .map(|name| describe_folder(name, None).expect("valid"))
        .collect::<Vec<_>>();
    let sorted = sort_by_folder_key(folders);
    let names = sorted.iter().map(|f| f.folder.as_str().to_owned()).collect::<Vec<_>>();
    assert_eq!(names, vec!["Alpha", "beta", "zeta"]);
}

#[test]
fn skips_a_directory_name_that_is_not_a_folder_name() {
    assert!(describe_folder("..", None).is_none());
}
