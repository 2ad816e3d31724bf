use forever_addons::domain::addon::Download;
use forever_addons::source::github::{
    best_release, releases_api_url, repo_api_url, to_summary, total_pages, Asset, Owner, Release, Repo, RepoSlug,
};

fn repo() -> Repo {
    Repo {
        full_name: "RevoltLive85/ForeverGuide".to_owned(),
        description: Some("A leveling guide engine for WoW Forever.".to_owned()),
        html_url: "https://github.com/RevoltLive85/ForeverGuide".to_owned(),
        owner: Owner {
            login: "RevoltLive85".to_owned(),
            avatar_url: "https://avatars.githubusercontent.com/u/1".to_owned(),
        },
    }
}

fn release(tag: &str, prerelease: bool, assets: &[&str]) -> Release {
    Release {
        tag_name: tag.to_owned(),
        name: Some(tag.to_owned()),
        prerelease,
        draft: false,
        published_at: "2026-09-18T12:00:00Z".to_owned(),
        html_url: format!("https://github.com/RevoltLive85/ForeverGuide/releases/{tag}"),
        body: Some("Changelog".to_owned()),
        assets: assets
            .iter()
            .map(|name| Asset {
                name: (*name).to_owned(),
                browser_download_url: format!("https://github.com/dl/{name}"),
                download_count: 10,
            })
            .collect(),
    }
}

#[test]
fn parses_a_slug_out_of_the_shapes_people_paste() {
    for raw in [
        "RevoltLive85/ForeverGuide",
        "https://github.com/RevoltLive85/ForeverGuide",
        "https://github.com/RevoltLive85/ForeverGuide.git",
        "https://github.com/RevoltLive85/ForeverGuide/releases/tag/v1.0",
        "  github.com/RevoltLive85/ForeverGuide  ",
    ] {
        assert_eq!(
            RepoSlug::parse(raw).map(|slug| slug.as_str().to_owned()),
            Some("RevoltLive85/ForeverGuide".to_owned()),
            "{raw}"
        );
    }
}

#[test]
fn rejects_strings_that_are_not_a_repository() {
    for raw in ["", "just-an-owner", "https://gitlab.com/a/b", "a/b; rm -rf"] {
        assert_eq!(RepoSlug::parse(raw), None, "{raw:?}");
    }
}

#[test]
fn normalizes_a_repo_and_release_into_a_catalog_summary() {
    let slug = RepoSlug::parse("RevoltLive85/ForeverGuide").expect("valid");
    let releases = [release("v1.4.0", false, &["ForeverGuide-v1.4.0.zip"])];

    let summary = to_summary(&slug, &repo(), best_release(&releases));

    assert_eq!(summary.id.to_string(), "github:RevoltLive85/ForeverGuide");
    assert_eq!(summary.name, "ForeverGuide");
    assert_eq!(summary.author.as_deref(), Some("RevoltLive85"));
    assert_eq!(summary.version.as_ref().map(|version| version.as_str()), Some("v1.4.0"));
    assert_eq!(
        summary.download,
        Download::Direct { url: "https://github.com/dl/ForeverGuide-v1.4.0.zip".to_owned() }
    );
}

#[test]
fn prefers_a_full_release_over_a_newer_prerelease() {
    let releases = [
        release("v1.5.0-beta", true, &["ForeverGuide-v1.5.0-beta.zip"]),
        release("v1.4.0", false, &["ForeverGuide-v1.4.0.zip"]),
    ];

    assert_eq!(best_release(&releases).map(|release| release.tag_name.as_str()), Some("v1.4.0"));
}

#[test]
fn accepts_a_prerelease_when_nothing_else_is_published() {
    let releases = [release("v1.5.0-beta", true, &["x.zip"])];

    assert_eq!(best_release(&releases).map(|release| release.tag_name.as_str()), Some("v1.5.0-beta"));
}

#[test]
fn skips_nolib_zips_when_a_full_archive_exists() {
    let releases = [release("v1.4.0", false, &["ForeverGuide-v1.4.0-nolib.zip", "ForeverGuide-v1.4.0.zip"])];
    let summary = to_summary(&RepoSlug::parse("RevoltLive85/ForeverGuide").expect("valid"), &repo(), best_release(&releases));

    assert_eq!(
        summary.download,
        Download::Direct { url: "https://github.com/dl/ForeverGuide-v1.4.0.zip".to_owned() }
    );
}

#[test]
fn keeps_a_release_without_zip_assets_as_explicitly_unsupported() {
    let releases = [release("v1.4.0", false, &["ForeverGuide.tar.gz"])];
    let summary = to_summary(&RepoSlug::parse("RevoltLive85/ForeverGuide").expect("valid"), &repo(), best_release(&releases));

    assert!(!summary.is_installable());
}

#[test]
fn keeps_a_repo_with_no_releases_in_the_catalog_as_uninstallable() {
    let summary = to_summary(&RepoSlug::parse("RevoltLive85/ForeverGuide").expect("valid"), &repo(), None);

    assert!(!summary.is_installable());
    assert_eq!(summary.version, None);
}

// Beyond the original's own cases.

#[test]
fn drafts_are_never_chosen() {
    let mut draft = release("v2.0", false, &["a.zip"]);
    draft.draft = true;
    let releases = [draft, release("v1.0", true, &["b.zip"])];
    assert_eq!(best_release(&releases).map(|r| r.tag_name.as_str()), Some("v1.0"));
    let mut only_draft = release("v3", false, &["c.zip"]);
    only_draft.draft = true;
    assert!(best_release(&[only_draft]).is_none());
}

#[test]
fn a_nolib_zip_is_used_when_it_is_the_only_zip() {
    let releases = [release("v1", false, &["Addon-NOLIB.ZIP"])];
    let summary = to_summary(&RepoSlug::parse("a/b").expect("valid"), &repo(), best_release(&releases));
    assert_eq!(summary.download, Download::Direct { url: "https://github.com/dl/Addon-NOLIB.ZIP".to_owned() });
    assert_eq!(summary.downloads, Some(10));
}

#[test]
fn urls_are_built_from_the_slug() {
    let slug = RepoSlug::parse("github.com/o/n.git.git").expect("valid");
    assert_eq!(slug.as_str(), "o/n");
    assert_eq!(repo_api_url(&slug), "https://api.github.com/repos/o/n");
    assert_eq!(releases_api_url(&slug), "https://api.github.com/repos/o/n/releases?per_page=10");
}

#[test]
fn progress_counts_one_page_per_repository() {
    assert_eq!(total_pages(0), 1);
    assert_eq!(total_pages(4), 4);
}
