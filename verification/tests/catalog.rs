use forever_addons::catalog::{accept_cached, cache_path, categories, search, Catalog, CatalogQuery};
use forever_addons::domain::addon::{AddonId, AddonKey, AddonSummary, Download};
use forever_addons::domain::expansion::Expansion;
use forever_addons::domain::source_id::SourceId;

fn addon(source: SourceId, key: &str, name: &str, author: &str, categories: &[&str], downloads: u64) -> AddonSummary {
    AddonSummary {
        id: AddonId::new(source, AddonKey::new(key).expect("non-empty")),
        name: name.to_owned(),
        summary: format!("{name} does things"),
        author: Some(author.to_owned()),
        version: None,
        updated_at: None,
        icon_url: None,
        page_url: String::new(),
        categories: categories.iter().map(|c| (*c).to_owned()).collect(),
        downloads: Some(downloads),
        expansions: vec![Expansion::Forever],
        download: Download::Brokered,
    }
}

fn catalogs() -> Vec<Catalog> {
    vec![
        Catalog::new(
            SourceId::CurseForge,
            vec![
                addon(SourceId::CurseForge, "1", "Bagnon", "Tuller", &["Inventory"], 500),
                addon(SourceId::CurseForge, "2", "Questie", "Aero", &["Quests"], 9_000),
            ],
        ),
        Catalog::new(
            SourceId::Wago,
            vec![addon(SourceId::Wago, "3", "Deadly Boss Mods", "Tandanu", &["Boss Encounters", "Combat"], 50_000)],
        ),
    ]
}

#[test]
fn returns_the_whole_catalog_for_an_empty_query() {
    let found = search(&catalogs(), &CatalogQuery::default());
    assert_eq!(found.len(), 3);
}

#[test]
fn orders_results_by_popularity() {
    let found = search(&catalogs(), &CatalogQuery::default());
    let names = found.iter().map(|a| a.name.as_str()).collect::<Vec<_>>();

    assert_eq!(names, vec!["Deadly Boss Mods", "Questie", "Bagnon"]);
}

#[test]
fn matches_text_against_name_summary_and_author() {
    for text in ["bagnon", "TULLER", "Bagnon does"] {
        let query = CatalogQuery { text: text.to_owned(), ..CatalogQuery::default() };
        let found = search(&catalogs(), &query);

        assert_eq!(found.len(), 1, "{text}");
        assert_eq!(found[0].name, "Bagnon");
    }
}

#[test]
fn requires_every_word_of_a_multi_word_query_to_match() {
    let query = CatalogQuery { text: "deadly bagnon".to_owned(), ..CatalogQuery::default() };

    assert!(search(&catalogs(), &query).is_empty());
}

#[test]
fn narrows_to_one_category() {
    let query = CatalogQuery { category: Some("boss encounters".to_owned()), ..CatalogQuery::default() };
    let found = search(&catalogs(), &query);

    assert_eq!(found.len(), 1);
    assert_eq!(found[0].name, "Deadly Boss Mods");
}

#[test]
fn narrows_to_one_source() {
    let query = CatalogQuery { sources: Some(vec![SourceId::Wago]), ..CatalogQuery::default() };
    let found = search(&catalogs(), &query);

    assert_eq!(found.len(), 1);
    assert_eq!(found[0].id.source, SourceId::Wago);
}

#[test]
fn lists_each_category_once_across_sources() {
    assert_eq!(categories(&catalogs()), vec!["Boss Encounters", "Combat", "Inventory", "Quests"]);
}

#[test]
fn rejects_a_cached_catalog_of_another_source() {
    let cached = catalogs().remove(0);
    assert_eq!(accept_cached(cached, SourceId::Wago), None);
}

// Beyond the original's own cases.

#[test]
fn a_cached_catalog_is_kept_for_its_own_source() {
    let cached = catalogs().remove(1);
    let kept = accept_cached(cached, SourceId::Wago).expect("same source");
    assert_eq!(kept.addons.len(), 1);
}

#[test]
fn caches_live_in_one_file_per_source() {
    assert_eq!(cache_path("/data", SourceId::CurseForge), "/data/catalog-curseforge.json");
    assert_eq!(cache_path("/data/", SourceId::GitHub), "/data/catalog-github.json");
}

#[test]
fn ties_in_popularity_fall_back_to_the_lowercased_name() {
    let catalogs = vec![Catalog::new(
        SourceId::CurseForge,
        vec![
            addon(SourceId::CurseForge, "1", "zebra", "a", &[], 10),
            addon(SourceId::CurseForge, "2", "Apple", "a", &[], 10),
            addon(SourceId::CurseForge, "3", "mango", "a", &[], 10),
        ],
    )];
    let names = search(&catalogs, &CatalogQuery::default())
        .iter()
        .map(|a| a.name.clone())
        .collect::<Vec<_>>();
    assert_eq!(names, vec!["Apple", "mango", "zebra"]);
}

#[test]
fn an_addon_without_a_download_count_sorts_as_zero() {
    let mut quiet = addon(SourceId::Wago, "9", "Quiet", "a", &[], 0);
    quiet.downloads = None;
    let catalogs = vec![Catalog::new(SourceId::Wago, vec![quiet, addon(SourceId::Wago, "8", "Loud", "a", &[], 1)])];
    let names = search(&catalogs, &CatalogQuery::default())
        .iter()
        .map(|a| a.name.clone())
        .collect::<Vec<_>>();
    assert_eq!(names, vec!["Loud", "Quiet"]);
}

#[test]
fn blank_text_matches_everything_and_categories_ignore_ascii_case_only() {
    let query = CatalogQuery { text: "   ".to_owned(), ..CatalogQuery::default() };
    assert_eq!(search(&catalogs(), &query).len(), 3);
    let query = CatalogQuery { category: Some("COMBAT".to_owned()), ..CatalogQuery::default() };
    assert!(query.matches(&catalogs()[1].addons[0]));
}

#[test]
fn categories_differing_only_in_case_are_listed_once() {
    let catalogs = vec![Catalog::new(
        SourceId::CurseForge,
        vec![
            addon(SourceId::CurseForge, "1", "A", "a", &["Combat", "combat"], 1),
            addon(SourceId::CurseForge, "2", "B", "a", &["COMBAT", "Bags"], 1),
        ],
    )];
    assert_eq!(categories(&catalogs), vec!["Bags", "Combat"]);
}

#[test]
fn finds_an_addon_by_id() {
    let catalog = catalogs().remove(0);
    let id = AddonId::new(SourceId::CurseForge, AddonKey::new("2").expect("non-empty"));
    assert_eq!(catalog.find(&id).map(|a| a.name.as_str()), Some("Questie"));
    let other = AddonId::new(SourceId::Wago, AddonKey::new("2").expect("non-empty"));
    assert!(catalog.find(&other).is_none());
}

#[test]
fn a_new_catalog_is_stamped_with_the_current_utc_instant() {
    let stamped = Catalog::new(SourceId::Wago, Vec::new());
    let at = &stamped.fetched_at;
    assert!(at.ends_with('Z') && at.contains('T') && at.len() >= 20, "{at}");
    assert!(at.as_str() > "2020-01-01T00:00:00Z", "{at}");
}

#[test]
fn lists_each_category_in_its_first_spelling_across_catalogs() {
    let catalogs = vec![
        Catalog::new(SourceId::Wago, vec![addon(SourceId::Wago, "w", "W", "a", &["bAgS", "Map"], 1)]),
        Catalog::new(
            SourceId::CurseForge,
            vec![addon(SourceId::CurseForge, "1", "A", "a", &["Bags", "MAP", "Auction"], 1)],
        ),
    ];
    assert_eq!(categories(&catalogs), vec!["Auction", "bAgS", "Map"]);
}
