use forever_addons::domain::addon::Download;
use forever_addons::domain::expansion::Expansion;
use forever_addons::source::curseforge::{
    classify, forever_index, page_url, pages_for, resolve_from_mod, resolve_from_summary, search_url, to_summary,
    Asset, Author, Category, File, FileIndex, Links, Mod, PageCursor, Resolution, FOREVER_VERSION_TYPE, PAGE_SIZE,
};

fn questie() -> Mod {
    Mod {
        id: 1032100,
        name: "Questie Forever".to_owned(),
        slug: "questie-forever".to_owned(),
        summary: "Quest objectives on the map, for WoW Forever.".to_owned(),
        links: Links {
            website_url: "https://www.curseforge.com/wow/addons/questie-forever".to_owned(),
            source_url: "https://github.com/Questie/Questie".to_owned(),
        },
        download_count: 152340,
        date_modified: "2026-09-19T10:02:11.123Z".to_owned(),
        allow_mod_distribution: Some(true),
        logo: Some(Asset {
            thumbnail_url: "https://media.forgecdn.net/avatars/thumb.png".to_owned(),
            url: String::new(),
        }),
        screenshots: vec![Asset { thumbnail_url: String::new(), url: "https://media.forgecdn.net/shot.png".to_owned() }],
        categories: vec![Category { name: "Quests & Leveling".to_owned() }],
        authors: vec![Author { name: "Aero".to_owned() }],
        latest_files: vec![
            File {
                id: 7001,
                file_date: "2026-09-18T20:00:00.000Z".to_owned(),
                download_url: Some("https://edge.forgecdn.net/files/7001/questie-forever.zip".to_owned()),
            },
            File { id: 7002, file_date: "2026-09-10T20:00:00.000Z".to_owned(), download_url: None },
        ],
        latest_files_indexes: vec![
            FileIndex { file_id: 7002, release_type: 2, game_version_type_id: Some(88568) },
            FileIndex { file_id: 7001, release_type: 1, game_version_type_id: Some(88568) },
            FileIndex { file_id: 6900, release_type: 1, game_version_type_id: Some(517) },
        ],
    }
}

#[test]
fn normalizes_a_mod_into_a_catalog_summary() {
    let summary = to_summary(&questie()).expect("mod has a forever file");

    assert_eq!(summary.id.to_string(), "curseforge:1032100");
    assert_eq!(summary.name, "Questie Forever");
    assert_eq!(summary.author.as_deref(), Some("Aero"));
    assert_eq!(summary.downloads, Some(152_340));
    assert_eq!(summary.categories, vec!["Quests & Leveling"]);
    assert_eq!(summary.expansions, vec![Expansion::Forever]);
    assert_eq!(summary.icon_url.as_deref(), Some("https://media.forgecdn.net/avatars/thumb.png"));
    assert_eq!(
        summary.download,
        Download::Direct { url: "https://edge.forgecdn.net/files/7001/questie-forever.zip".to_owned() }
    );
}

#[test]
fn prefers_the_stable_forever_release_over_a_newer_beta() {
    let summary = to_summary(&questie()).expect("mod has a forever file");

    assert_eq!(summary.updated_at.as_deref(), Some("2026-09-18T20:00:00.000Z"));
}

#[test]
fn skips_a_mod_with_no_forever_file_at_all() {
    let mut found = questie();
    found.latest_files_indexes.retain(|index| index.game_version_type_id != Some(FOREVER_VERSION_TYPE));

    assert!(to_summary(&found).is_none());
}

#[test]
fn keeps_a_distribution_blocked_mod_in_the_catalog_as_external() {
    let mut found = questie();
    found.allow_mod_distribution = Some(false);

    let summary = to_summary(&found).expect("mod stays in the catalog");

    assert!(!summary.is_installable());
    assert_eq!(
        summary.download,
        Download::External { url: "https://www.curseforge.com/wow/addons/questie-forever".to_owned() }
    );
}

#[test]
fn brokers_a_file_the_latest_files_list_no_longer_carries() {
    let mut found = questie();
    found.latest_files.clear();

    let summary = to_summary(&found).expect("mod stays in the catalog");
    assert_eq!(summary.download, Download::Brokered);
    assert!(summary.is_installable());
}

#[test]
fn falls_back_to_the_only_forever_file_when_no_stable_release_exists() {
    let mut found = questie();
    found.latest_files_indexes.retain(|index| index.file_id != 7001);

    let index = forever_index(&found).expect("the beta remains");
    assert_eq!(index.file_id, 7002);
}

#[test]
fn builds_a_page_url_from_the_slug_when_the_api_omits_the_link() {
    let mut found = questie();
    found.links.website_url = String::new();

    assert_eq!(page_url(&found), "https://www.curseforge.com/wow/addons/questie-forever");
}

#[test]
fn stays_within_the_apis_reachable_window() {
    assert_eq!(pages_for(898), 18);
    assert_eq!(pages_for(0), 1);
    assert_eq!(pages_for(1_000_000), 10_000 / PAGE_SIZE);
}

// Beyond the original's own cases.

#[test]
fn a_file_without_a_published_url_is_brokered() {
    let mut found = questie();
    found.latest_files[0].download_url = Some("   ".to_owned());
    assert_eq!(classify(&found), Download::Brokered);
}

#[test]
fn search_pages_step_by_fifty() {
    assert_eq!(
        search_url(3),
        "https://api.curseforge.com/v1/mods/search?gameId=1&classId=1&gameVersionTypeId=88568&sortField=2&sortOrder=desc&pageSize=50&index=150"
    );
}

#[test]
fn paging_stops_at_an_empty_page_or_the_last_counted_page() {
    let mut cursor = PageCursor::start();
    assert!(cursor.wants_page());
    assert!(cursor.record_page(50, 120));
    assert_eq!(cursor.total_pages, Some(3));
    assert!(cursor.record_page(50, 999_999));
    assert_eq!(cursor.total_pages, Some(3));
    assert!(!cursor.record_page(20, 120));
    assert_eq!(cursor.page, 3);
    let mut empty = PageCursor::start();
    assert!(!empty.record_page(0, 10));
    assert_eq!(empty, PageCursor::start());
}

#[test]
fn updated_at_falls_back_to_the_mod_date() {
    let mut found = questie();
    found.latest_files.clear();
    let summary = to_summary(&found).expect("mod stays");
    assert_eq!(summary.updated_at.as_deref(), Some("2026-09-19T10:02:11.123Z"));
}

#[test]
fn resolves_a_direct_download_afresh_from_the_refetched_mod() {
    let summary = to_summary(&questie()).expect("mod has a forever file");
    assert!(matches!(resolve_from_summary(&summary), Resolution::FetchMod));

    let mut fresh = questie();
    fresh.latest_files[0].download_url = Some("https://edge.forgecdn.net/files/7001/questie-forever-2.zip".to_owned());
    match resolve_from_mod(&summary, &fresh) {
        Resolution::Ready(url) => assert_eq!(url, "https://edge.forgecdn.net/files/7001/questie-forever-2.zip"),
        other => panic!("expected a fresh URL, got {other:?}"),
    }

    let mut blocked = summary.clone();
    blocked.download = Download::External { url: "https://example.com".to_owned() };
    assert!(matches!(resolve_from_summary(&blocked), Resolution::Failed(_)));
}
