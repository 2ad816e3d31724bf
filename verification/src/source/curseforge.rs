//! CurseForge (<https://www.curseforge.com/wow>), queried for World of
//! Warcraft: Forever addons through its official Core API.
//!
//! The API requires a per-user key (free, from console.curseforge.com).
//! Mod authors can opt out of API distribution; those mods stay in the catalog
//! as [`Download::External`] with their page reachable, rather than vanishing.

use vstd::prelude::*;

use crate::domain::addon::{same_summary, AddonDetail, AddonSummary, Download, Screenshot};
use crate::domain::expansion::Expansion;
use crate::domain::source_id::SourceId;
use crate::error::AppError;
use crate::picking::{first_where, lemma_first_where_at, lemma_first_where_none};
use crate::source::{addon_id, html_to_text, plain_text_of};
use crate::text::{
    append_chars, append_str, chars_of, decimal, decimal_chars, lemma_decimal_trimmed, string_of,
    trim, trim_str,
};

verus! {

/// CurseForge's version-type id for World of Warcraft: Forever.
pub const FOREVER_VERSION_TYPE: u64 = 88568;

/// A stable release, in CurseForge's release-type numbering (2 beta, 3 alpha).
pub const RELEASE: u8 = 1;

/// Mods per search page.
pub const PAGE_SIZE: u32 = 50;

/// The API refuses `index + pageSize` beyond 10 000; everything reachable
/// below that is 200 pages.
pub const MAX_PAGES: u32 = 200;

/// The subset of a CurseForge mod this application reads.
#[derive(Debug)]
pub struct Mod {
    pub id: u64,
    pub name: String,
    pub slug: String,
    pub summary: String,
    pub links: Links,
    pub download_count: u64,
    pub date_modified: String,
    /// `Some(false)` when the author forbids API distribution; their files
    /// then carry no `downloadUrl` either.
    pub allow_mod_distribution: Option<bool>,
    pub logo: Option<Asset>,
    pub screenshots: Vec<Asset>,
    pub categories: Vec<Category>,
    pub authors: Vec<Author>,
    pub latest_files: Vec<File>,
    pub latest_files_indexes: Vec<FileIndex>,
}

#[derive(Debug)]
pub struct Links {
    pub website_url: String,
    pub source_url: String,
}

#[derive(Debug)]
pub struct Asset {
    pub thumbnail_url: String,
    pub url: String,
}

#[derive(Debug)]
pub struct Category {
    pub name: String,
}

#[derive(Debug)]
pub struct Author {
    pub name: String,
}

#[derive(Debug)]
pub struct File {
    pub id: u64,
    pub file_date: String,
    pub download_url: Option<String>,
}

/// One row of `latestFilesIndexes`: the per-game-version pointer into
/// `latestFiles`, which is how a mod names its Forever build.
#[derive(Debug, Clone, Copy, PartialEq, Eq, Structural)]
pub struct FileIndex {
    pub file_id: u64,
    pub release_type: u8,
    pub game_version_type_id: Option<u64>,
}

/// The trimmed text, unless nothing is left of it.
pub open spec fn non_empty_text(raw: Seq<char>) -> Option<Seq<char>> {
    if trim(raw).len() > 0 {
        Some(trim(raw))
    } else {
        None
    }
}

/// The trimmed text, unless nothing is left of it.
pub fn non_empty(raw: &str) -> (r: Option<String>)
    ensures
        match r {
            Some(t) => non_empty_text(raw@) == Some(t@),
            None => non_empty_text(raw@) is None,
        },
{
    let t = trim_str(raw);
    if t.len() > 0 {
        Some(string_of(t.as_slice()))
    } else {
        None
    }
}

pub open spec fn opt_view(o: Option<String>) -> Option<Seq<char>> {
    match o {
        Some(s) => Some(s@),
        None => None,
    }
}

/// A file index for the Forever client.
pub open spec fn is_forever(index: FileIndex) -> bool {
    index.game_version_type_id == Some(FOREVER_VERSION_TYPE)
}

/// A stable release for the Forever client.
pub open spec fn is_forever_release(index: FileIndex) -> bool {
    is_forever(index) && index.release_type == RELEASE
}

/// The mod's newest Forever file, preferring a stable release over a beta or
/// alpha the way CurseForge's own install button does: the first Forever
/// index when it is a release, else the first Forever release, else that
/// first Forever index.
pub open spec fn forever_index_of(indexes: Seq<FileIndex>) -> Option<int> {
    match first_where(indexes, |x: FileIndex| is_forever(x)) {
        None => None,
        Some(f) => if indexes[f].release_type == RELEASE {
            Some(f)
        } else {
            match first_where(indexes, |x: FileIndex| is_forever_release(x)) {
                Some(i) => Some(i),
                None => Some(f),
            }
        },
    }
}

/// The mod's newest Forever file index.
pub fn forever_index(found: &Mod) -> (r: Option<FileIndex>)
    ensures
        match r {
            Some(x) => forever_index_of(found.latest_files_indexes@) matches Some(i) && x
                == found.latest_files_indexes@[i],
            None => forever_index_of(found.latest_files_indexes@) is None,
        },
{
    let indexes = &found.latest_files_indexes;
    let i = match first_forever(indexes) {
        Some(i) => i,
        None => {
            return None;
        },
    };
    let first = indexes[i];
    if first.release_type == RELEASE {
        return Some(first);
    }
    match first_forever_release(indexes) {
        Some(k) => Some(indexes[k]),
        None => Some(first),
    }
}

/// Where the first stable Forever file index sits.
fn first_forever_release(indexes: &Vec<FileIndex>) -> (r: Option<usize>)
    ensures
        match r {
            Some(i) => i < indexes@.len() && first_where(indexes@, |x: FileIndex| is_forever_release(x))
                == Some(i as int),
            None => first_where(indexes@, |x: FileIndex| is_forever_release(x)) is None,
        },
{
    let ghost release = |x: FileIndex| is_forever_release(x);
    let mut k: usize = 0;
    while k < indexes.len()
        invariant
            k <= indexes@.len(),
            release == (|x: FileIndex| is_forever_release(x)),
            forall|j: int| 0 <= j < k ==> !release(#[trigger] indexes@[j]),
        decreases indexes.len() - k,
    {
        if indexes[k].game_version_type_id == Some(FOREVER_VERSION_TYPE) && indexes[k].release_type == RELEASE {
            proof {
                lemma_first_where_at(indexes@, release, k as int);
            }
            return Some(k);
        }
        k += 1;
    }
    proof {
        lemma_first_where_none(indexes@, release);
    }
    None
}

/// Where the first Forever file index sits.
fn first_forever(indexes: &Vec<FileIndex>) -> (r: Option<usize>)
    ensures
        match r {
            Some(i) => i < indexes@.len() && first_where(indexes@, |x: FileIndex| is_forever(x)) == Some(
                i as int,
            ),
            None => first_where(indexes@, |x: FileIndex| is_forever(x)) is None,
        },
{
    let ghost forever = |x: FileIndex| is_forever(x);
    let mut i: usize = 0;
    while i < indexes.len()
        invariant
            i <= indexes@.len(),
            forever == (|x: FileIndex| is_forever(x)),
            forall|j: int| 0 <= j < i ==> !forever(#[trigger] indexes@[j]),
        decreases indexes.len() - i,
    {
        if indexes[i].game_version_type_id == Some(FOREVER_VERSION_TYPE) {
            proof {
                lemma_first_where_at(indexes@, forever, i as int);
            }
            return Some(i);
        }
        i += 1;
    }
    proof {
        lemma_first_where_none(indexes@, forever);
    }
    None
}

/// Where the file a Forever index points at sits in `latestFiles`.
pub open spec fn file_position(files: Seq<File>, file_id: u64) -> Option<int> {
    first_where(files, |f: File| f.id == file_id)
}

fn find_file(files: &Vec<File>, file_id: u64) -> (r: Option<usize>)
    ensures
        match r {
            Some(k) => k < files@.len() && file_position(files@, file_id) == Some(k as int),
            None => file_position(files@, file_id) is None,
        },
{
    let ghost wanted = |f: File| f.id == file_id;
    let mut k: usize = 0;
    while k < files.len()
        invariant
            k <= files@.len(),
            wanted == (|f: File| f.id == file_id),
            forall|j: int| 0 <= j < k ==> !wanted(#[trigger] files@[j]),
        decreases files.len() - k,
    {
        if files[k].id == file_id {
            proof {
                lemma_first_where_at(files@, wanted, k as int);
            }
            return Some(k);
        }
        k += 1;
    }
    proof {
        lemma_first_where_none(files@, wanted);
    }
    None
}

/// The mod's page: the link the API gives, else one built from the slug.
pub open spec fn page_url_of(found: Mod) -> Seq<char> {
    match non_empty_text(found.links.website_url@) {
        Some(u) => u,
        None => "https://www.curseforge.com/wow/addons/"@ + found.slug@,
    }
}

pub fn page_url(found: &Mod) -> (r: String)
    ensures
        r@ == page_url_of(*found),
{
    match non_empty(found.links.website_url.as_str()) {
        Some(u) => u,
        None => {
            let mut v = chars_of("https://www.curseforge.com/wow/addons/");
            append_str(&mut v, found.slug.as_str());
            string_of(v.as_slice())
        },
    }
}

/// How the mod's Forever build is obtained.
pub open spec fn mod_download(found: Mod, d: Download) -> bool {
    if found.allow_mod_distribution == Some(false) {
        d matches Download::External { url } && url@ == page_url_of(found)
    } else {
        match forever_index_of(found.latest_files_indexes@) {
            None => d matches Download::External { url } && url@ == page_url_of(found),
            Some(i) => match file_position(found.latest_files@, found.latest_files_indexes@[i].file_id) {
                Some(k) => match found.latest_files@[k].download_url {
                    Some(u) if trim(u@).len() > 0 => d == (Download::Direct { url: u }),
                    _ => d is Brokered,
                },
                None => d is Brokered,
            },
        }
    }
}

/// The mod can only be downloaded from its page: its author opted out of
/// API distribution, or it has no Forever file.
pub open spec fn distribution_refused(found: Mod) -> bool {
    found.allow_mod_distribution == Some(false) || forever_index_of(found.latest_files_indexes@) is None
}

/// How the mod's Forever build is obtained: a direct link, a link to mint
/// at install time, or only the mod's page.
pub fn classify(found: &Mod) -> (r: Download)
    ensures
        mod_download(*found, r),
{
    if found.allow_mod_distribution == Some(false) {
        return Download::External { url: page_url(found) };
    }
    let index = match forever_index(found) {
        Some(index) => index,
        None => {
            return Download::External { url: page_url(found) };
        },
    };
    match find_file(&found.latest_files, index.file_id) {
        Some(k) => match &found.latest_files[k].download_url {
            Some(url) => {
                let t = trim_str(url.as_str());
                if t.len() > 0 {
                    Download::Direct { url: url.clone() }
                } else {
                    Download::Brokered
                }
            },
            None => Download::Brokered,
        },
        None => Download::Brokered,
    }
}

/// The non-blank category names, trimmed, in order.
pub open spec fn category_names(cats: Seq<Category>) -> Seq<Seq<char>>
    decreases cats.len(),
{
    if cats.len() == 0 {
        Seq::empty()
    } else {
        match non_empty_text(cats.last().name@) {
            Some(n) => category_names(cats.drop_last()).push(n),
            None => category_names(cats.drop_last()),
        }
    }
}

fn names_of(cats: &Vec<Category>) -> (r: Vec<String>)
    ensures
        r@.map_values(|s: String| s@) == category_names(cats@),
{
    let mut out: Vec<String> = Vec::new();
    let mut i: usize = 0;
    assert(cats@.take(0) =~= Seq::<Category>::empty());
    while i < cats.len()
        invariant
            i <= cats@.len(),
            out@.map_values(|s: String| s@) == category_names(cats@.take(i as int)),
        decreases cats.len() - i,
    {
        assert(cats@.take(i + 1).drop_last() =~= cats@.take(i as int));
        match non_empty(cats[i].name.as_str()) {
            Some(n) => {
                out.push(n);
                assert(out@.map_values(|s: String| s@) =~= category_names(cats@.take(i as int)).push(
                    out@.last()@,
                ));
            },
            None => {},
        }
        i += 1;
    }
    assert(cats@.take(cats@.len() as int) =~= cats@);
    out
}

/// The catalog row CurseForge's data describes, when the mod has a Forever
/// file.
pub open spec fn mod_summary(found: Mod, r: AddonSummary) -> bool {
    let index = forever_index_of(found.latest_files_indexes@)->Some_0;
    let file = file_position(found.latest_files@, found.latest_files_indexes@[index].file_id);
    &&& r.id.source == SourceId::CurseForge
    &&& r.id.key@ == decimal(found.id as nat)
    &&& r.name@ == trim(found.name@)
    &&& r.summary@ == trim(found.summary@)
    &&& opt_view(r.author) == (if found.authors@.len() > 0 {
        non_empty_text(found.authors@[0].name@)
    } else {
        None
    })
    &&& r.version is None
    &&& opt_view(r.updated_at) == (match file {
        Some(k) if non_empty_text(found.latest_files@[k].file_date@) is Some => non_empty_text(
            found.latest_files@[k].file_date@,
        ),
        _ => non_empty_text(found.date_modified@),
    })
    &&& opt_view(r.icon_url) == (match found.logo {
        Some(logo) => match non_empty_text(logo.thumbnail_url@) {
            Some(t) => Some(t),
            None => non_empty_text(logo.url@),
        },
        None => None,
    })
    &&& r.page_url@ == page_url_of(found)
    &&& r.categories@.map_values(|s: String| s@) == category_names(found.categories@)
    &&& r.downloads == Some(found.download_count)
    &&& r.expansions@ == seq![Expansion::Forever]
    &&& mod_download(found, r.download)
}

/// The catalog row for a mod; `None` for a mod with no Forever file index,
/// which the search filter should prevent but a filter is a weaker statement
/// than a published file.
pub fn to_summary(found: &Mod) -> (r: Option<AddonSummary>)
    ensures
        r is Some <==> forever_index_of(found.latest_files_indexes@) is Some,
        r matches Some(s) ==> mod_summary(*found, s),
{
    let index = match forever_index(found) {
        Some(index) => index,
        None => {
            return None;
        },
    };
    let digits = decimal_chars(found.id);
    let key_text = string_of(digits.as_slice());
    proof {
        lemma_decimal_trimmed(found.id as nat);
    }
    let id = match addon_id(SourceId::CurseForge, key_text.as_str()) {
        Some(id) => id,
        None => vstd::pervasive::unreached(),
    };
    let file = find_file(&found.latest_files, index.file_id);
    let author = if found.authors.len() > 0 {
        non_empty(found.authors[0].name.as_str())
    } else {
        None
    };
    let from_file = match file {
        Some(k) => non_empty(found.latest_files[k].file_date.as_str()),
        None => None,
    };
    let updated_at = match from_file {
        Some(d) => Some(d),
        None => non_empty(found.date_modified.as_str()),
    };
    let icon_url = match &found.logo {
        Some(logo) => match non_empty(logo.thumbnail_url.as_str()) {
            Some(t) => Some(t),
            None => non_empty(logo.url.as_str()),
        },
        None => None,
    };
    let name = string_of(trim_str(found.name.as_str()).as_slice());
    let summary = string_of(trim_str(found.summary.as_str()).as_slice());
    let mut expansions: Vec<Expansion> = Vec::new();
    expansions.push(Expansion::Forever);
    assert(expansions@ =~= seq![Expansion::Forever]);
    Some(
        AddonSummary {
            id,
            name,
            summary,
            author,
            version: None,
            updated_at,
            icon_url,
            page_url: page_url(found),
            categories: names_of(&found.categories),
            downloads: Some(found.download_count),
            expansions,
            download: classify(found),
        },
    )
}

/// How many search pages the API can reach for this many matches: at least
/// one, at most the 10 000-mod window.
pub open spec fn pages_for_count(total_count: u64) -> int {
    let reachable = if total_count > 10_000 {
        10_000int
    } else {
        total_count as int
    };
    let pages = (reachable + PAGE_SIZE - 1) / (PAGE_SIZE as int);
    if pages < 1 {
        1
    } else {
        pages
    }
}

pub fn pages_for(total_count: u64) -> (r: u32)
    ensures
        r == pages_for_count(total_count),
        1 <= r <= MAX_PAGES,
{
    let reachable: u32 = if total_count > 10_000 {
        10_000
    } else {
        total_count as u32
    };
    let pages = (reachable + PAGE_SIZE - 1) / PAGE_SIZE;
    if pages < 1 {
        1
    } else {
        pages
    }
}

/// The search URL for one page of Forever addons, most downloaded first.
pub fn search_url(page: u32) -> (r: String)
    requires
        page * PAGE_SIZE <= u32::MAX,
    ensures
        r@ == "https://api.curseforge.com/v1/mods/search?gameId=1&classId=1&gameVersionTypeId=88568&sortField=2&sortOrder=desc&pageSize=50&index="@
            + decimal((page * PAGE_SIZE) as nat),
{
    let index = page * PAGE_SIZE;
    let mut v = chars_of(
        "https://api.curseforge.com/v1/mods/search?gameId=1&classId=1&gameVersionTypeId=88568&sortField=2&sortOrder=desc&pageSize=50&index=",
    );
    let digits = decimal_chars(index as u64);
    append_chars(&mut v, digits.as_slice());
    string_of(v.as_slice())
}

/// Where a catalog refresh has got to.
#[derive(Debug, Clone, Copy, PartialEq, Eq, Structural)]
pub struct PageCursor {
    /// How many pages have been read.
    pub page: u32,
    /// Known once the first page reports the match count.
    pub total_pages: Option<u32>,
}

impl PageCursor {
    /// Before the first page.
    pub fn start() -> (r: PageCursor)
        ensures
            r.page == 0,
            r.total_pages is None,
    {
        PageCursor { page: 0, total_pages: None }
    }

    /// Whether the next page is inside the window the API serves.
    pub fn wants_page(&self) -> (r: bool)
        ensures
            r == (self.page < MAX_PAGES),
    {
        self.page < MAX_PAGES
    }

    /// Records a page that held `rows` mods out of `total_count` matches, and
    /// says whether to ask for another. An empty page ends the walk and
    /// leaves the cursor as it was.
    pub fn record_page(&mut self, rows: usize, total_count: u64) -> (more: bool)
        requires
            old(self).page < MAX_PAGES,
        ensures
            rows == 0 ==> !more && *final(self) == *old(self),
            rows > 0 ==> final(self).page == old(self).page + 1,
            rows > 0 ==> final(self).total_pages == (match old(self).total_pages {
                Some(t) => Some(t),
                None => Some(pages_for_count(total_count) as u32),
            }),
            rows > 0 ==> more == (final(self).page < final(self).total_pages->Some_0),
    {
        if rows == 0 {
            return false;
        }
        let total = match self.total_pages {
            Some(t) => t,
            None => pages_for(total_count),
        };
        self.total_pages = Some(total);
        self.page = self.page + 1;
        !(self.page >= total)
    }
}

/// The API document for a mod.
pub fn mod_url(key: &str) -> (r: String)
    ensures
        r@ == "https://api.curseforge.com/v1/mods/"@ + key@,
{
    let mut v = chars_of("https://api.curseforge.com/v1/mods/");
    append_str(&mut v, key);
    string_of(v.as_slice())
}

/// The API document holding a mod's long description.
pub fn description_url(key: &str) -> (r: String)
    ensures
        r@ == "https://api.curseforge.com/v1/mods/"@ + key@ + "/description"@,
{
    let mut v = chars_of("https://api.curseforge.com/v1/mods/");
    append_str(&mut v, key);
    append_str(&mut v, "/description");
    string_of(v.as_slice())
}

/// The endpoint that mints a download link for one file.
pub fn download_link_url(key: &str, file_id: u64) -> (r: String)
    ensures
        r@ == "https://api.curseforge.com/v1/mods/"@ + key@ + "/files/"@ + decimal(file_id as nat)
            + "/download-url"@,
{
    let mut v = chars_of("https://api.curseforge.com/v1/mods/");
    append_str(&mut v, key);
    append_str(&mut v, "/files/");
    let digits = decimal_chars(file_id);
    append_chars(&mut v, digits.as_slice());
    append_str(&mut v, "/download-url");
    string_of(v.as_slice())
}

/// The non-blank screenshot URLs, trimmed, in order.
pub open spec fn screenshot_urls(shots: Seq<Asset>) -> Seq<Seq<char>>
    decreases shots.len(),
{
    if shots.len() == 0 {
        Seq::empty()
    } else {
        match non_empty_text(shots.last().url@) {
            Some(u) => screenshot_urls(shots.drop_last()).push(u),
            None => screenshot_urls(shots.drop_last()),
        }
    }
}

/// The detail page from the mod document and its description HTML: the
/// description as plain text, else the catalog summary.
pub fn detail(summary: &AddonSummary, found: &Mod, description_html: &str) -> (r: AddonDetail)
    ensures
        same_summary(*summary, r.summary),
        r.description@ == (match plain_text_of(description_html@) {
            Some(t) if t.len() > 0 => t,
            _ => summary.summary@,
        }),
        opt_view(r.website_url) == non_empty_text(found.links.source_url@),
        r.screenshots@.map_values(|s: Screenshot| s.url@) == screenshot_urls(found.screenshots@),
{
    let description = match html_to_text(description_html) {
        Some(t) => if t.as_str().is_empty() {
            summary.summary.clone()
        } else {
            t
        },
        None => summary.summary.clone(),
    };
    let mut shots: Vec<Screenshot> = Vec::new();
    let mut i: usize = 0;
    assert(found.screenshots@.take(0) =~= Seq::<Asset>::empty());
    while i < found.screenshots.len()
        invariant
            i <= found.screenshots@.len(),
            shots@.map_values(|s: Screenshot| s.url@) == screenshot_urls(found.screenshots@.take(i as int)),
        decreases found.screenshots.len() - i,
    {
        assert(found.screenshots@.take(i + 1).drop_last() =~= found.screenshots@.take(i as int));
        match non_empty(found.screenshots[i].url.as_str()) {
            Some(url) => {
                shots.push(Screenshot { url });
                assert(shots@.map_values(|s: Screenshot| s.url@) =~= screenshot_urls(
                    found.screenshots@.take(i as int),
                ).push(shots@.last().url@));
            },
            None => {},
        }
        i += 1;
    }
    assert(found.screenshots@.take(found.screenshots@.len() as int) =~= found.screenshots@);
    AddonDetail {
        summary: summary.clone(),
        description,
        website_url: non_empty(found.links.source_url.as_str()),
        screenshots: shots,
    }
}

/// What resolving a download needs next.
#[derive(Debug)]
pub enum Resolution {
    /// The URL to download.
    Ready(String),
    /// The download cannot be had.
    Failed(AppError),
    /// The mod must be fetched afresh: its file list may have moved since
    /// the catalog was refreshed.
    FetchMod,
    /// The file must have a link minted for it.
    MintLink(u64),
}

/// The first step of resolving a download, from the catalog entry alone.
/// The catalog's file list can be stale by install time, so an installable
/// entry always has its mod fetched afresh; only a refusal is final here.
pub fn resolve_from_summary(summary: &AddonSummary) -> (r: Resolution)
    ensures
        match summary.download {
            Download::Direct { .. } => r is FetchMod,
            Download::External { .. } => r matches Resolution::Failed(
                AppError::ExternalDownloadOnly { addon_id },
            ) && addon_id == summary.id,
            Download::Unsupported { format, .. } => r matches Resolution::Failed(
                AppError::UnsupportedArchive { addon_id, format: f },
            ) && addon_id == summary.id && f == format,
            Download::Brokered => r is FetchMod,
        },
{
    match &summary.download {
        Download::Direct { .. } => Resolution::FetchMod,
        Download::External { .. } => Resolution::Failed(
            AppError::ExternalDownloadOnly { addon_id: summary.id.clone() },
        ),
        Download::Unsupported { format, .. } => Resolution::Failed(
            AppError::UnsupportedArchive { addon_id: summary.id.clone(), format: format.clone() },
        ),
        Download::Brokered => Resolution::FetchMod,
    }
}

/// The next step once the mod has been fetched afresh.
pub fn resolve_from_mod(summary: &AddonSummary, found: &Mod) -> (r: Resolution)
    ensures
        !(r is FetchMod),
        match r {
            Resolution::Ready(u) => mod_download(*found, Download::Direct { url: u }),
            Resolution::Failed(AppError::ExternalDownloadOnly { addon_id }) => addon_id == summary.id
                && distribution_refused(*found),
            Resolution::Failed(AppError::NoForeverDownload { addon_id }) => addon_id == summary.id
                && mod_download(*found, Download::Brokered) && forever_index_of(
                found.latest_files_indexes@,
            ) is None,
            Resolution::MintLink(file_id) => mod_download(*found, Download::Brokered) && (
            forever_index_of(found.latest_files_indexes@) matches Some(i) && file_id
                == found.latest_files_indexes@[i].file_id),
            _ => false,
        },
{
    match classify(found) {
        Download::Direct { url } => Resolution::Ready(url),
        Download::External { .. } => Resolution::Failed(
            AppError::ExternalDownloadOnly { addon_id: summary.id.clone() },
        ),
        Download::Unsupported { .. } => vstd::pervasive::unreached(),
        Download::Brokered => match forever_index(found) {
            Some(index) => Resolution::MintLink(index.file_id),
            None => Resolution::Failed(AppError::NoForeverDownload { addon_id: summary.id.clone() }),
        },
    }
}

/// The last step: the minted link, unless it came back blank.
pub fn resolve_from_link(summary: &AddonSummary, link: &str) -> (r: Result<String, AppError>)
    ensures
        match non_empty_text(link@) {
            Some(t) => r matches Ok(u) && u@ == t,
            None => r == Err::<String, AppError>(AppError::ExternalDownloadOnly { addon_id: summary.id }),
        },
{
    match non_empty(link) {
        Some(t) => Ok(t),
        None => Err(AppError::ExternalDownloadOnly { addon_id: summary.id.clone() }),
    }
}

/// A mod whose author refused API distribution stays in the catalog but is
/// never installable: this application does not fetch it behind the
/// author's back.
pub proof fn law_refused_distribution_is_never_installable(found: Mod, summary: AddonSummary)
    requires
        found.allow_mod_distribution == Some(false),
        mod_summary(found, summary),
    ensures
        !crate::domain::addon::installable(summary.download),
        summary.download matches Download::External { url } && url@ == page_url_of(found),
{
}

} // verus!
