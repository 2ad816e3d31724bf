//! GitHub releases: the escape hatch for Forever addons that ship on GitHub
//! before (or instead of) the addon stores.
//!
//! Unlike the other sources there is no site-wide catalog: the user tracks
//! repositories by hand, and this source's "catalog" is the latest suitable
//! release of each tracked repository.
//!
//! Only uploaded `.zip` release assets are installed: packager-built addon
//! zips have correct folder layouts. A release with no such asset is kept as
//! an explicitly unsupported download rather than guessing at the source
//! archive, whose root folder is named after the commit and would never load.

use vstd::prelude::*;

use crate::domain::addon::{AddonDetail, AddonSummary, Download};
use crate::domain::expansion::Expansion;
use crate::domain::source_id::SourceId;
use crate::domain::version::AddonVersion;
use crate::error::AppError;
use crate::picking::{first_where, lemma_first_where_at, lemma_first_where_none};
use crate::source::addon_id;
use crate::text::{
    append_chars, append_str, ascii_lower_chars, ascii_lower_seq, chars_of, contains_chars,
    contains_seq, ends_with_chars, has_prefix, has_suffix, is_ascii_alnum, is_space,
    last_index_of, rfind_char, slice_chars, split_chars, split_on, starts_with_chars, string_of,
    trim, trim_start, trim_str,
};

verus! {

/// Where GitHub-hosted repository text starts once a pasted URL's host is
/// dropped.
pub open spec fn slug_body(t: Seq<char>) -> Seq<char> {
    if has_prefix(t, "https://github.com/"@) {
        t.skip("https://github.com/"@.len() as int)
    } else if has_prefix(t, "github.com/"@) {
        t.skip("github.com/"@.len() as int)
    } else {
        t
    }
}

/// The non-empty pieces between slashes.
pub open spec fn path_parts(s: Seq<char>) -> Seq<Seq<char>> {
    split_on(s, '/').filter(|p: Seq<char>| p.len() > 0)
}

/// `str::trim_end_matches` with a string pattern: every trailing copy of
/// `p` removed.
pub open spec fn trim_end_matches(s: Seq<char>, p: Seq<char>) -> Seq<char>
    decreases s.len(),
{
    if p.len() > 0 && has_suffix(s, p) {
        trim_end_matches(s.take(s.len() - p.len()), p)
    } else {
        s
    }
}

/// A character GitHub allows in an owner or repository name.
pub open spec fn slug_char(c: char) -> bool {
    is_ascii_alnum(c) || c == '-' || c == '_' || c == '.'
}

/// A usable owner or repository name.
pub open spec fn slug_part_ok(s: Seq<char>) -> bool {
    s.len() > 0 && forall|i: int| 0 <= i < s.len() ==> slug_char(#[trigger] s[i])
}

/// What `RepoSlug::parse` reads out of pasted text: `owner/name`.
pub open spec fn parse_slug(raw: Seq<char>) -> Option<Seq<char>> {
    let parts = path_parts(slug_body(trim(raw)));
    if parts.len() < 2 {
        None
    } else {
        let owner = parts[0];
        let name = trim_end_matches(parts[1], ".git"@);
        if slug_part_ok(owner) && slug_part_ok(name) {
            Some(owner + seq!['/'] + name)
        } else {
            None
        }
    }
}

/// A slug's text: `owner/name`, each part a run of allowed characters.
pub open spec fn slug_shape(s: Seq<char>) -> bool {
    &&& s.len() > 0
    &&& s[0] != '/'
    &&& forall|i: int| 0 <= i < s.len() ==> slug_char(#[trigger] s[i]) || s[i] == '/'
}

/// A tracked repository, validated into `owner/name` form.
#[derive(Debug, PartialEq, Eq)]
pub struct RepoSlug(String);

impl View for RepoSlug {
    type V = Seq<char>;

    closed spec fn view(&self) -> Seq<char> {
        self.0@
    }
}

impl RepoSlug {
    #[verifier::type_invariant]
    closed spec fn shaped(self) -> bool {
        slug_shape(self.0@)
    }

    /// Accepts `owner/name`, a full `https://github.com/owner/name` URL, or
    /// either with trailing paths (`/releases`, `.git`) pasted along.
    pub fn parse(raw: &str) -> (r: Option<RepoSlug>)
        ensures
            match r {
                Some(slug) => parse_slug(raw@) == Some(slug@),
                None => parse_slug(raw@) is None,
            },
    {
        let trimmed = trim_str(raw);
        let long_prefix = chars_of("https://github.com/");
        let short_prefix = chars_of("github.com/");
        let body = if starts_with_chars(trimmed.as_slice(), long_prefix.as_slice()) {
            slice_chars(trimmed.as_slice(), long_prefix.len(), trimmed.len())
        } else if starts_with_chars(trimmed.as_slice(), short_prefix.as_slice()) {
            slice_chars(trimmed.as_slice(), short_prefix.len(), trimmed.len())
        } else {
            trimmed
        };
        assert(body@ == slug_body(trim(raw@)));
        let pieces = split_chars(body.as_slice(), '/');
        let ghost all = split_on(body@, '/');
        let ghost nonempty = |p: Seq<char>| p.len() > 0;
        let mut parts: Vec<Vec<char>> = Vec::new();
        let mut i: usize = 0;
        proof {
            reveal(Seq::filter);
            assert(all.take(0) =~= Seq::<Seq<char>>::empty());
        }
        while i < pieces.len()
            invariant
                i <= pieces@.len(),
                pieces@.len() == all.len(),
                forall|k: int| 0 <= k < pieces@.len() ==> #[trigger] pieces@[k]@ == all[k],
                nonempty == (|p: Seq<char>| p.len() > 0),
                parts@.len() == all.take(i as int).filter(nonempty).len(),
                forall|k: int|
                    0 <= k < parts@.len() ==> #[trigger] parts@[k]@ == all.take(i as int).filter(
                        nonempty,
                    )[k],
            decreases pieces.len() - i,
        {
            proof {
                assert(all.take(i + 1) =~= all.take(i as int).push(all[i as int]));
                all.take(i as int).lemma_filter_push(all[i as int], nonempty);
            }
            if pieces[i].len() > 0 {
                let piece = slice_chars(pieces[i].as_slice(), 0, pieces[i].len());
                assert(piece@ =~= all[i as int]);
                parts.push(piece);
            }
            i += 1;
        }
        assert(all.take(all.len() as int) =~= all);
        if parts.len() < 2 {
            return None;
        }
        let owner = slice_chars(parts[0].as_slice(), 0, parts[0].len());
        let name = strip_git_suffixes(parts[1].as_slice());
        assert(owner@ =~= path_parts(slug_body(trim(raw@)))[0]);
        if !slug_part_valid(owner.as_slice()) || !slug_part_valid(name.as_slice()) {
            return None;
        }
        let mut text = owner;
        text.push('/');
        append_chars(&mut text, name.as_slice());
        assert(text@ =~= path_parts(slug_body(trim(raw@)))[0] + seq!['/'] + trim_end_matches(
            path_parts(slug_body(trim(raw@)))[1],
            ".git"@,
        ));
        Some(RepoSlug(string_of(text.as_slice())))
    }

    pub fn as_str(&self) -> (r: &str)
        ensures
            r@ == self@,
    {
        self.0.as_str()
    }
}

/// `trim_end_matches(s, ".git")`.
fn strip_git_suffixes(s: &[char]) -> (r: Vec<char>)
    ensures
        r@ == trim_end_matches(s@, ".git"@),
{
    let suffix = chars_of(".git");
    proof {
        reveal_strlit(".git");
    }
    let mut cur = slice_chars(s, 0, s.len());
    assert(cur@ =~= s@);
    while ends_with_chars(cur.as_slice(), suffix.as_slice())
        invariant
            suffix@ == ".git"@,
            suffix@.len() == 4,
            trim_end_matches(cur@, ".git"@) == trim_end_matches(s@, ".git"@),
        decreases cur@.len(),
    {
        let n = cur.len() - suffix.len();
        cur = slice_chars(cur.as_slice(), 0, n);
    }
    cur
}

/// Whether every character is one GitHub allows in a name, and there is one.
fn slug_part_valid(s: &[char]) -> (r: bool)
    ensures
        r == slug_part_ok(s@),
{
    if s.len() == 0 {
        return false;
    }
    let mut i: usize = 0;
    while i < s.len()
        invariant
            i <= s.len(),
            forall|k: int| 0 <= k < i ==> slug_char(#[trigger] s@[k]),
        decreases s.len() - i,
    {
        let c = s[i];
        let ok = ('0' <= c && c <= '9') || ('A' <= c && c <= 'Z') || ('a' <= c && c <= 'z') || c == '-'
            || c == '_' || c == '.';
        if !ok {
            assert(!slug_char(s@[i as int]));
            return false;
        }
        i += 1;
    }
    true
}

/// A slug's text is its own trimmed text: it starts and ends with no
/// whitespace.
proof fn lemma_slug_is_trimmed(s: Seq<char>)
    requires
        slug_shape(s),
    ensures
        trim(s) == s,
        trim(s).len() > 0,
{
    assert(slug_char(s[0]) || s[0] == '/');
    assert(!is_space(s[0]));
    assert(trim_start(s) == s);
    assert(slug_char(s[s.len() - 1]) || s[s.len() - 1] == '/');
    assert(!is_space(s.last()));
}

/// The subset of a repository document this application reads.
#[derive(Debug)]
pub struct Repo {
    pub full_name: String,
    pub description: Option<String>,
    pub html_url: String,
    pub owner: Owner,
}

#[derive(Debug)]
pub struct Owner {
    pub login: String,
    pub avatar_url: String,
}

#[derive(Debug)]
pub struct Release {
    pub tag_name: String,
    pub name: Option<String>,
    pub prerelease: bool,
    pub draft: bool,
    pub published_at: String,
    pub html_url: String,
    pub body: Option<String>,
    pub assets: Vec<Asset>,
}

#[derive(Debug)]
pub struct Asset {
    pub name: String,
    pub browser_download_url: String,
    pub download_count: u64,
}

/// A published full release.
pub open spec fn is_full_release(r: Release) -> bool {
    !r.draft && !r.prerelease
}

/// A published release, full or pre-.
pub open spec fn is_published(r: Release) -> bool {
    !r.draft
}

/// The release to install: the first published full release in the list
/// GitHub returns (newest first), else the first published prerelease.
pub open spec fn best_release_index(releases: Seq<Release>) -> Option<int> {
    match first_where(releases, |r: Release| is_full_release(r)) {
        Some(i) => Some(i),
        None => first_where(releases, |r: Release| is_published(r)),
    }
}

/// The newest non-draft release, preferring full releases but accepting a
/// prerelease: beta-era Forever addons often publish nothing else.
pub fn best_release(releases: &[Release]) -> (r: Option<&Release>)
    ensures
        match r {
            Some(rel) => best_release_index(releases@) matches Some(i) && *rel == releases@[i],
            None => best_release_index(releases@) is None,
        },
{
    let ghost full = |r: Release| is_full_release(r);
    let ghost published = |r: Release| is_published(r);
    let mut i: usize = 0;
    while i < releases.len()
        invariant
            i <= releases@.len(),
            full == (|r: Release| is_full_release(r)),
            forall|j: int| 0 <= j < i ==> !full(#[trigger] releases@[j]),
        decreases releases.len() - i,
    {
        if !releases[i].draft && !releases[i].prerelease {
            proof {
                lemma_first_where_at(releases@, full, i as int);
            }
            return Some(&releases[i]);
        }
        i += 1;
    }
    proof {
        lemma_first_where_none(releases@, full);
    }
    let mut k: usize = 0;
    while k < releases.len()
        invariant
            k <= releases@.len(),
            first_where(releases@, |r: Release| is_full_release(r)) is None,
            published == (|r: Release| is_published(r)),
            forall|j: int| 0 <= j < k ==> !published(#[trigger] releases@[j]),
        decreases releases.len() - k,
    {
        if !releases[k].draft {
            proof {
                lemma_first_where_at(releases@, published, k as int);
            }
            return Some(&releases[k]);
        }
        k += 1;
    }
    proof {
        lemma_first_where_none(releases@, published);
    }
    None
}

/// An uploaded `.zip` asset, whatever the case of its extension.
pub open spec fn is_zip_asset(a: Asset) -> bool {
    has_suffix(ascii_lower_seq(a.name@), ".zip"@)
}

/// A `.zip` asset that is not a `nolib` variant.
pub open spec fn is_full_zip_asset(a: Asset) -> bool {
    is_zip_asset(a) && !contains_seq(ascii_lower_seq(a.name@), "nolib"@)
}

/// The asset to install: the first full zip, else the first zip of any kind.
pub open spec fn chosen_asset_index(assets: Seq<Asset>) -> Option<int> {
    match first_where(assets, |a: Asset| is_full_zip_asset(a)) {
        Some(i) => Some(i),
        None => first_where(assets, |a: Asset| is_zip_asset(a)),
    }
}

/// What `classify` makes of a release.
pub open spec fn classified(release: Release, repo: Repo, d: Download) -> bool {
    match chosen_asset_index(release.assets@) {
        Some(i) => d matches Download::Direct { url } && url@ == release.assets@[i].browser_download_url@,
        None => d matches Download::Unsupported { url, format } && url@ == (if release.html_url@.len()
            == 0 {
            repo.html_url@
        } else {
            release.html_url@
        }) && format@ == "release without a zip asset"@,
    }
}

/// Whether an asset name ends in `.zip`, and whether it names a `nolib`
/// variant, ignoring ASCII case.
fn zip_kind(a: &Asset) -> (r: (bool, bool))
    ensures
        r.0 == is_zip_asset(*a),
        r.1 == contains_seq(ascii_lower_seq(a.name@), "nolib"@),
{
    let name = chars_of(a.name.as_str());
    let lowered = ascii_lower_chars(name.as_slice());
    let zip = chars_of(".zip");
    let nolib = chars_of("nolib");
    (ends_with_chars(lowered.as_slice(), zip.as_slice()), contains_chars(lowered.as_slice(), nolib.as_slice()))
}

/// Where the first full `.zip` asset sits.
fn first_full_zip(assets: &[Asset]) -> (r: Option<usize>)
    ensures
        match r {
            Some(i) => i < assets@.len() && first_where(assets@, |a: Asset| is_full_zip_asset(a)) == Some(i as int),
            None => first_where(assets@, |a: Asset| is_full_zip_asset(a)) is None,
        },
{
    let ghost full = |a: Asset| is_full_zip_asset(a);
    let mut i: usize = 0;
    while i < assets.len()
        invariant
            i <= assets@.len(),
            full == (|a: Asset| is_full_zip_asset(a)),
            forall|j: int| 0 <= j < i ==> !full(#[trigger] assets@[j]),
        decreases assets.len() - i,
    {
        let (is_zip, is_nolib) = zip_kind(&assets[i]);
        if is_zip && !is_nolib {
            proof {
                lemma_first_where_at(assets@, full, i as int);
            }
            return Some(i);
        }
        i += 1;
    }
    proof {
        lemma_first_where_none(assets@, full);
    }
    None
}

/// Where the first `.zip` asset of any kind sits.
fn first_zip(assets: &[Asset]) -> (r: Option<usize>)
    ensures
        match r {
            Some(i) => i < assets@.len() && first_where(assets@, |a: Asset| is_zip_asset(a)) == Some(i as int),
            None => first_where(assets@, |a: Asset| is_zip_asset(a)) is None,
        },
{
    let ghost zip = |a: Asset| is_zip_asset(a);
    let mut i: usize = 0;
    while i < assets.len()
        invariant
            i <= assets@.len(),
            zip == (|a: Asset| is_zip_asset(a)),
            forall|j: int| 0 <= j < i ==> !zip(#[trigger] assets@[j]),
        decreases assets.len() - i,
    {
        let (is_zip, _) = zip_kind(&assets[i]);
        if is_zip {
            proof {
                lemma_first_where_at(assets@, zip, i as int);
            }
            return Some(i);
        }
        i += 1;
    }
    proof {
        lemma_first_where_none(assets@, zip);
    }
    None
}

/// The release's installable archive: a packager-style `.zip` asset, skipping
/// `nolib` variants when a full one exists.
pub fn classify(release: &Release, repo: &Repo) -> (r: Download)
    ensures
        classified(*release, *repo, r),
{
    let chosen = match first_full_zip(release.assets.as_slice()) {
        Some(i) => Some(i),
        None => first_zip(release.assets.as_slice()),
    };
    match chosen {
        Some(i) => Download::Direct { url: release.assets[i].browser_download_url.clone() },
        None => {
            let url = if release.html_url.as_str().is_empty() {
                repo.html_url.clone()
            } else {
                release.html_url.clone()
            };
            Download::Unsupported { url, format: "release without a zip asset".to_owned() }
        },
    }
}

/// The downloads of every asset of a release, added up.
pub open spec fn total_downloads(assets: Seq<Asset>) -> int
    decreases assets.len(),
{
    if assets.len() == 0 {
        0
    } else {
        total_downloads(assets.drop_last()) + assets.last().download_count
    }
}

/// The release's download count, `None` where it does not fit in a `u64`.
pub fn sum_downloads(assets: &[Asset]) -> (r: Option<u64>)
    ensures
        match r {
            Some(n) => n == total_downloads(assets@),
            None => total_downloads(assets@) > u64::MAX,
        },
{
    let mut total: u64 = 0;
    let mut i: usize = 0;
    assert(assets@.take(0) =~= Seq::<Asset>::empty());
    while i < assets.len()
        invariant
            i <= assets@.len(),
            total == total_downloads(assets@.take(i as int)),
        decreases assets.len() - i,
    {
        assert(assets@.take(i + 1).drop_last() =~= assets@.take(i as int));
        match total.checked_add(assets[i].download_count) {
            Some(n) => total = n,
            None => {
                proof {
                    lemma_total_downloads_grows(assets@, i as int + 1);
                }
                return None;
            },
        }
        i += 1;
    }
    assert(assets@.take(assets@.len() as int) =~= assets@);
    Some(total)
}

proof fn lemma_total_downloads_grows(assets: Seq<Asset>, n: int)
    requires
        0 <= n <= assets.len(),
    ensures
        total_downloads(assets.take(n)) <= total_downloads(assets),
    decreases assets.len(),
{
    if n < assets.len() {
        lemma_total_downloads_grows(assets.drop_last(), n);
        assert(assets.drop_last().take(n) =~= assets.take(n));
    } else {
        assert(assets.take(n) =~= assets);
    }
}

/// The last path segment of a `owner/name` full name.
pub open spec fn last_segment(s: Seq<char>) -> Seq<char> {
    match last_index_of(s, '/') {
        Some(i) => s.skip(i + 1),
        None => s,
    }
}

/// The catalog row for a tracked repository and its chosen release.
pub open spec fn github_summary(r: AddonSummary, slug: Seq<char>, repo: Repo, release: Option<Release>) -> bool {
    &&& r.id.source == SourceId::GitHub
    &&& r.id.key@ == slug
    &&& r.name@ == (if last_segment(repo.full_name@).len() > 0 {
        last_segment(repo.full_name@)
    } else {
        slug
    })
    &&& r.summary@ == (match repo.description {
        Some(d) => d@,
        None => Seq::empty(),
    })
    &&& r.author == (if repo.owner.login@.len() > 0 {
        Some(repo.owner.login)
    } else {
        None
    })
    &&& r.icon_url == (if repo.owner.avatar_url@.len() > 0 {
        Some(repo.owner.avatar_url)
    } else {
        None
    })
    &&& r.categories@.len() == 0
    &&& r.expansions@ == seq![Expansion::Forever]
    &&& match release {
        Some(rel) => {
            &&& (r.version is Some <==> trim(rel.tag_name@).len() > 0)
            &&& (r.version matches Some(v) ==> v@ == trim(rel.tag_name@))
            &&& r.updated_at == (if rel.published_at@.len() > 0 {
                Some(rel.published_at)
            } else {
                None
            })
            &&& r.page_url == (if rel.html_url@.len() > 0 {
                rel.html_url
            } else {
                repo.html_url
            })
            &&& r.downloads == Some(total_downloads(rel.assets@) as u64)
            &&& classified(rel, repo, r.download)
        },
        None => {
            &&& r.version is None
            &&& r.updated_at is None
            &&& r.page_url == repo.html_url
            &&& r.downloads is None
            &&& r.download matches Download::Unsupported { url, format } && url == repo.html_url
                && format@ == "no release"@
        },
    }
}

/// The catalog row for a tracked repository and its chosen release.
pub fn to_summary(slug: &RepoSlug, repo: &Repo, release: Option<&Release>) -> (r: AddonSummary)
    requires
        release matches Some(rel) ==> total_downloads(rel.assets@) <= u64::MAX,
    ensures
        github_summary(
            r,
            slug@,
            *repo,
            match release {
                Some(rel) => Some(*rel),
                None => None,
            },
        ),
{
    proof {
        use_type_invariant(slug);
        lemma_slug_is_trimmed(slug@);
    }
    let id = match addon_id(SourceId::GitHub, slug.as_str()) {
        Some(id) => id,
        None => vstd::pervasive::unreached(),
    };
    let full_name = chars_of(repo.full_name.as_str());
    let tail = match rfind_char(full_name.as_slice(), '/') {
        Some(i) => slice_chars(full_name.as_slice(), i + 1, full_name.len()),
        None => full_name,
    };
    let name = if tail.len() > 0 {
        string_of(tail.as_slice())
    } else {
        slug.as_str().to_owned()
    };
    let summary = match &repo.description {
        Some(d) => d.clone(),
        None => String::new(),
    };
    let author = if repo.owner.login.as_str().is_empty() {
        None
    } else {
        Some(repo.owner.login.clone())
    };
    let icon_url = if repo.owner.avatar_url.as_str().is_empty() {
        None
    } else {
        Some(repo.owner.avatar_url.clone())
    };
    let mut expansions: Vec<Expansion> = Vec::new();
    expansions.push(Expansion::Forever);
    assert(expansions@ =~= seq![Expansion::Forever]);
    match release {
        Some(rel) => {
            let version = AddonVersion::new(rel.tag_name.as_str());
            let updated_at = if rel.published_at.as_str().is_empty() {
                None
            } else {
                Some(rel.published_at.clone())
            };
            let page_url = if rel.html_url.as_str().is_empty() {
                repo.html_url.clone()
            } else {
                rel.html_url.clone()
            };
            let downloads = match sum_downloads(rel.assets.as_slice()) {
                Some(n) => n,
                None => vstd::pervasive::unreached(),
            };
            let download = classify(rel, repo);
            AddonSummary {
                id,
                name,
                summary,
                author,
                version,
                updated_at,
                icon_url,
                page_url,
                categories: Vec::new(),
                downloads: Some(downloads),
                expansions,
                download,
            }
        },
        None => AddonSummary {
            id,
            name,
            summary,
            author,
            version: None,
            updated_at: None,
            icon_url,
            page_url: repo.html_url.clone(),
            categories: Vec::new(),
            downloads: None,
            expansions,
            download: Download::Unsupported {
                url: repo.html_url.clone(),
                format: "no release".to_owned(),
            },
        },
    }
}

/// Asset URLs are stable, so the catalog's direct URL is used as-is; any
/// other kind of download is refused with the reason.
pub fn resolve_archive_url(summary: &AddonSummary) -> (r: Result<String, AppError>)
    ensures
        match summary.download {
            Download::Direct { url } => r matches Ok(u) && u == url,
            Download::Unsupported { format, .. } => r matches Err(AppError::UnsupportedArchive {
                addon_id,
                format: f,
            }) && addon_id == summary.id && f == format,
            Download::External { .. } => r == Err::<String, AppError>(
                AppError::ExternalDownloadOnly { addon_id: summary.id },
            ),
            Download::Brokered => r == Err::<String, AppError>(
                AppError::NoForeverDownload { addon_id: summary.id },
            ),
        },
{
    match &summary.download {
        Download::Direct { url } => Ok(url.clone()),
        Download::Unsupported { format, .. } => Err(
            AppError::UnsupportedArchive { addon_id: summary.id.clone(), format: format.clone() },
        ),
        Download::External { .. } => Err(AppError::ExternalDownloadOnly { addon_id: summary.id.clone() }),
        Download::Brokered => Err(AppError::NoForeverDownload { addon_id: summary.id.clone() }),
    }
}

/// The repository's page on GitHub.
pub fn repository_page(slug: &RepoSlug) -> (r: String)
    ensures
        r@ == "https://github.com/"@ + slug@,
{
    let mut v = chars_of("https://github.com/");
    append_str(&mut v, slug.as_str());
    string_of(v.as_slice())
}

/// The API document for a repository.
pub fn repo_api_url(slug: &RepoSlug) -> (r: String)
    ensures
        r@ == "https://api.github.com/repos/"@ + slug@,
{
    let mut v = chars_of("https://api.github.com/repos/");
    append_str(&mut v, slug.as_str());
    string_of(v.as_slice())
}

/// The API listing of a repository's ten newest releases.
pub fn releases_api_url(slug: &RepoSlug) -> (r: String)
    ensures
        r@ == "https://api.github.com/repos/"@ + slug@ + "/releases?per_page=10"@,
{
    let mut v = chars_of("https://api.github.com/repos/");
    append_str(&mut v, slug.as_str());
    append_str(&mut v, "/releases?per_page=10");
    string_of(v.as_slice())
}

/// The detail page's long description: the release notes when there are
/// any, else the catalog summary.
pub open spec fn detail_description(summary: AddonSummary, release: Option<Release>) -> Seq<char> {
    match release {
        Some(rel) => match rel.body {
            Some(b) if trim(b@).len() > 0 => trim(b@),
            _ => summary.summary@,
        },
        None => summary.summary@,
    }
}

/// The addon's page: release notes, and a link to the repository.
pub fn detail(summary: &AddonSummary, slug: &RepoSlug, release: Option<&Release>) -> (r: AddonDetail)
    ensures
        crate::domain::addon::same_summary(*summary, r.summary),
        r.description@ == detail_description(
            *summary,
            match release {
                Some(rel) => Some(*rel),
                None => None,
            },
        ),
        r.website_url matches Some(w) && w@ == "https://github.com/"@ + slug@,
        r.screenshots@.len() == 0,
{
    let body: Option<Vec<char>> = match release {
        Some(rel) => match &rel.body {
            Some(b) => Some(trim_str(b.as_str())),
            None => None,
        },
        None => None,
    };
    let description = match body {
        Some(t) => if t.len() > 0 {
            string_of(t.as_slice())
        } else {
            summary.summary.clone()
        },
        None => summary.summary.clone(),
    };
    AddonDetail {
        summary: summary.clone(),
        description,
        website_url: Some(repository_page(slug)),
        screenshots: Vec::new(),
    }
}

/// How many pages a refresh of this many tracked repositories reports: one
/// per repository, at least one, and no more than a `u32` holds.
pub fn total_pages(repos: usize) -> (r: u32)
    ensures
        r == (if repos == 0 {
            1
        } else if repos > u32::MAX {
            u32::MAX as int
        } else {
            repos as int
        }),
{
    if repos == 0 {
        1
    } else if repos > 0xffff_ffffusize {
        0xffff_ffffu32
    } else {
        repos as u32
    }
}

/// The page number reported once the repository at `index` is done.
pub fn page_after(index: usize) -> (r: u32)
    ensures
        r == (if index + 1 > u32::MAX {
            u32::MAX as int
        } else {
            index + 1
        }),
{
    if index >= 0xffff_ffffusize {
        0xffff_ffffu32
    } else {
        (index + 1) as u32
    }
}

/// The release offered is the newest full release: the first in GitHub's
/// newest-first list that is neither a draft nor a prerelease.
pub proof fn law_first_full_release_is_offered(releases: Seq<Release>, j: int)
    requires
        0 <= j < releases.len(),
        !releases[j].draft && !releases[j].prerelease,
        forall|k: int| 0 <= k < j ==> (#[trigger] releases[k]).draft || releases[k].prerelease,
    ensures
        best_release_index(releases) == Some(j),
{
    lemma_first_where_at(releases, |r: Release| is_full_release(r), j);
}

/// With no full release at all, the newest prerelease that is not a draft
/// is offered.
pub proof fn law_newest_prerelease_when_no_full_release(releases: Seq<Release>, j: int)
    requires
        forall|k: int| 0 <= k < releases.len() ==> (#[trigger] releases[k]).draft || releases[k].prerelease,
        0 <= j < releases.len(),
        !releases[j].draft,
        forall|k: int| 0 <= k < j ==> (#[trigger] releases[k]).draft,
    ensures
        best_release_index(releases) == Some(j),
{
    lemma_first_where_none(releases, |r: Release| is_full_release(r));
    lemma_first_where_at(releases, |r: Release| is_published(r), j);
}

/// Nothing is offered when every release is a draft.
pub proof fn law_nothing_offered_from_drafts_alone(releases: Seq<Release>)
    requires
        forall|k: int| 0 <= k < releases.len() ==> (#[trigger] releases[k]).draft,
    ensures
        best_release_index(releases) is None,
{
    lemma_first_where_none(releases, |r: Release| is_full_release(r));
    lemma_first_where_none(releases, |r: Release| is_published(r));
}

} // verus!
