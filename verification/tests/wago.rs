use forever_addons::domain::addon::Download;
use forever_addons::domain::expansion::Expansion;
use forever_addons::source::wago::{best_release, bearer, document_url, to_summary, AddonDocument, ListedAddon, Release, ReleaseMap};

fn release(label: &str, created_at: &str, link: &str) -> Release {
    Release { label: label.to_owned(), created_at: created_at.to_owned(), download_link: link.to_owned() }
}

fn foreveraura() -> ListedAddon {
    let mut releases = ReleaseMap::new();
    releases.insert(
        "stable".to_owned(),
        release(
            "1.2.0",
            "2026-09-17T08:00:00Z",
            "https://addons.wago.io/api/external/addons/qN5mGYzr/download/stable?token=abc",
        ),
    );
    releases.insert(
        "beta".to_owned(),
        release(
            "1.3.0-beta1",
            "2026-09-19T08:00:00Z",
            "https://addons.wago.io/api/external/addons/qN5mGYzr/download/beta?token=def",
        ),
    );
    ListedAddon {
        id: "qN5mGYzr".to_owned(),
        display_name: "ForeverAuras".to_owned(),
        summary: "A WeakAuras replacement for WoW Forever.".to_owned(),
        thumbnail_image: Some("https://media.wago.io/thumb/foreveraura.png".to_owned()),
        authors: vec!["Stanzilla".to_owned()],
        download_count: 48211,
        website_url: "https://addons.wago.io/addons/foreverauras".to_owned(),
        releases,
    }
}

#[test]
fn normalizes_a_listing_row_into_a_catalog_summary() {
    let summary = to_summary(&foreveraura()).expect("row has a release");

    assert_eq!(summary.id.to_string(), "wago:qN5mGYzr");
    assert_eq!(summary.name, "ForeverAuras");
    assert_eq!(summary.author.as_deref(), Some("Stanzilla"));
    assert_eq!(summary.downloads, Some(48_211));
    assert_eq!(summary.expansions, vec![Expansion::Forever]);
    assert_eq!(summary.download, Download::Brokered);
}

#[test]
fn prefers_the_stable_release_over_a_newer_beta() {
    let summary = to_summary(&foreveraura()).expect("row has a release");

    assert_eq!(summary.version.as_ref().map(|version| version.as_str()), Some("1.2.0"));
    assert_eq!(summary.updated_at.as_deref(), Some("2026-09-17T08:00:00Z"));
}

#[test]
fn falls_back_to_the_newest_prerelease_when_nothing_is_stable() {
    let mut listed = foreveraura();
    listed.releases.remove("stable");

    let release = best_release(&listed.releases).expect("the beta remains");
    assert_eq!(release.label, "1.3.0-beta1");
}

#[test]
fn skips_a_row_that_lists_no_release_at_all() {
    let mut listed = foreveraura();
    listed.releases.clear();

    assert!(to_summary(&listed).is_none());
}

#[test]
fn reads_the_release_map_under_either_spelling_of_the_detail_field() {
    let mut typo = ReleaseMap::new();
    typo.insert("stable".to_owned(), release("1.0", "2026-09-01T00:00:00Z", "https://x/1.zip"));
    let with_typo = AddonDocument {
        description: String::new(),
        website: String::new(),
        gallery: Vec::new(),
        recent_release: typo,
        recent_releases: ReleaseMap::new(),
    };
    let mut spelled = ReleaseMap::new();
    spelled.insert("stable".to_owned(), release("2.0", "2026-09-01T00:00:00Z", "https://x/2.zip"));
    let without = AddonDocument {
        description: String::new(),
        website: String::new(),
        gallery: Vec::new(),
        recent_release: ReleaseMap::new(),
        recent_releases: spelled,
    };

    assert_eq!(best_release(with_typo.releases()).map(|release| release.label.as_str()), Some("1.0"));
    assert_eq!(best_release(without.releases()).map(|release| release.label.as_str()), Some("2.0"));
}

// Beyond the original's own cases.

#[test]
fn of_equally_new_releases_the_last_in_key_order_wins() {
    let mut releases = ReleaseMap::new();
    releases.insert("alpha".to_owned(), release("a", "2026-01-02", "x"));
    releases.insert("beta".to_owned(), release("b", "2026-01-02", "y"));
    releases.insert("aaa".to_owned(), release("c", "2026-01-01", "z"));
    assert_eq!(best_release(&releases).map(|r| r.label.as_str()), Some("b"));
    assert_eq!(releases.len(), 3);
}

#[test]
fn inserting_under_an_existing_key_replaces_it() {
    let mut releases = ReleaseMap::new();
    releases.insert("stable".to_owned(), release("1", "d", "l"));
    releases.insert("stable".to_owned(), release("2", "d", "l"));
    assert_eq!(releases.len(), 1);
    assert_eq!(releases.get("stable").map(|r| r.label.as_str()), Some("2"));
    assert_eq!(releases.remove("stable").map(|r| r.label), Some("2".to_owned()));
    assert!(releases.is_empty());
}

#[test]
fn a_row_without_a_website_links_to_its_wago_page() {
    let mut listed = foreveraura();
    listed.website_url = "  ".to_owned();
    let summary = to_summary(&listed).expect("row has a release");
    assert_eq!(summary.page_url, "https://addons.wago.io/addons/qN5mGYzr");
}

#[test]
fn requests_carry_the_token_and_the_game_version() {
    assert_eq!(bearer("t0k"), "Bearer t0k");
    assert_eq!(document_url("abc"), "https://addons.wago.io/api/external/addons/abc?game_version=forever");
}
