//! Wago Addons (<https://addons.wago.io/>), queried for World of Warcraft:
//! Forever addons.
//!
//! Wago's external API authenticates with a personal access token that any
//! Wago account can generate in its settings. The API has no "list
//! everything" endpoint, so the catalog is the `popular` listing for the
//! Forever game version. Download links expire, so downloads are always
//! brokered: the addon is re-fetched at install time for a fresh link.

use vstd::prelude::*;

use crate::domain::addon::{same_summary, AddonDetail, AddonSummary, Download, Screenshot};
use crate::domain::expansion::Expansion;
use crate::domain::source_id::SourceId;
use crate::domain::version::AddonVersion;
use crate::error::AppError;
use crate::picking::{first_where, lemma_first_where_at, lemma_first_where_none};
use crate::source::curseforge::{non_empty, non_empty_text, opt_view};
use crate::source::{addon_id, html_to_text, plain_text_of};
use crate::text::{
    append_str, chars_eq, chars_le, chars_of, lemma_seq_le_antisymmetric, lemma_seq_le_total,
    lemma_seq_le_transitive, seq_le, string_of, trim,
};

verus! {

/// One release of an addon, under a stability label.
#[derive(Debug, PartialEq, Eq)]
pub struct Release {
    /// The version, as the author labelled it.
    pub label: String,
    /// ISO date-time.
    pub created_at: String,
    pub download_link: String,
}

impl Clone for Release {
    fn clone(&self) -> (r: Self)
        ensures
            r == *self,
    {
        Release {
            label: self.label.clone(),
            created_at: self.created_at.clone(),
            download_link: self.download_link.clone(),
        }
    }
}

pub open spec fn key_lt(a: Seq<char>, b: Seq<char>) -> bool {
    seq_le(a, b) && a != b
}

/// Entries in strictly ascending key order, so each key once.
pub open spec fn keys_ascending(s: Seq<(Seq<char>, Release)>) -> bool {
    forall|i: int, j: int| 0 <= i < j < s.len() ==> key_lt((#[trigger] s[i]).0, (#[trigger] s[j]).0)
}

/// Releases keyed by stability (`stable`, `beta`, `alpha`), in key order.
#[derive(Debug, PartialEq, Eq)]
pub struct ReleaseMap {
    entries: Vec<(String, Release)>,
}

/// The entries with their keys as text.
pub open spec fn entry_views(v: Seq<(String, Release)>) -> Seq<(Seq<char>, Release)> {
    v.map_values(|e: (String, Release)| (e.0@, e.1))
}

impl View for ReleaseMap {
    type V = Seq<(Seq<char>, Release)>;

    closed spec fn view(&self) -> Seq<(Seq<char>, Release)> {
        entry_views(self.entries@)
    }
}

/// The entries as a map from key to release.
pub open spec fn as_release_map(s: Seq<(Seq<char>, Release)>) -> Map<Seq<char>, Release> {
    Map::new(
        |k: Seq<char>| exists|i: int| 0 <= i < s.len() && (#[trigger] s[i]).0 == k,
        |k: Seq<char>| s[choose|i: int| 0 <= i < s.len() && (#[trigger] s[i]).0 == k].1,
    )
}

impl ReleaseMap {
    /// No release at all.
    pub fn new() -> (r: ReleaseMap)
        ensures
            r@.len() == 0,
            r.wf(),
    {
        let r = ReleaseMap { entries: Vec::new() };
        assert(r@ =~= Seq::<(Seq<char>, Release)>::empty());
        r
    }

    /// Keys strictly ascending.
    pub open spec fn wf(&self) -> bool {
        keys_ascending(self@)
    }

    pub fn len(&self) -> (r: usize)
        ensures
            r == self@.len(),
    {
        self.entries.len()
    }

    pub fn is_empty(&self) -> (r: bool)
        ensures
            r == (self@.len() == 0),
    {
        self.entries.len() == 0
    }

    /// The release at a position in key order.
    pub fn release_at(&self, i: usize) -> (r: &Release)
        requires
            i < self@.len(),
        ensures
            *r == self@[i as int].1,
    {
        &self.entries[i].1
    }

    /// Where a key sits, or where it would be inserted.
    fn position(&self, key: &str) -> (r: Result<usize, usize>)
        requires
            self.wf(),
        ensures
            r matches Ok(i) ==> i < self@.len() && self@[i as int].0 == key@,
            r matches Err(i) ==> i <= self@.len() && (forall|j: int|
                0 <= j < i ==> key_lt((#[trigger] self@[j]).0, key@)) && (forall|j: int|
                i <= j < self@.len() ==> key_lt(key@, (#[trigger] self@[j]).0)),
    {
        let ghost s = self@;
        let wanted = chars_of(key);
        let mut i: usize = 0;
        while i < self.entries.len()
            invariant
                i <= s.len(),
                s == self@,
                s == entry_views(self.entries@),
                keys_ascending(s),
                wanted@ == key@,
                forall|j: int| 0 <= j < i ==> key_lt((#[trigger] s[j]).0, key@),
            decreases self.entries.len() - i,
        {
            let here = chars_of(self.entries[i].0.as_str());
            assert(here@ == s[i as int].0);
            if chars_eq(here.as_slice(), wanted.as_slice()) {
                return Ok(i);
            }
            if !chars_le(here.as_slice(), wanted.as_slice()) {
                proof {
                    lemma_seq_le_total(here@, wanted@);
                    assert forall|j: int| i <= j < s.len() implies key_lt(key@, (#[trigger] s[j]).0) by {
                        if j > i {
                            assert(key_lt(s[i as int].0, s[j].0));
                            lemma_seq_le_transitive(key@, s[i as int].0, s[j].0);
                            if key@ == s[j].0 {
                                lemma_seq_le_antisymmetric(s[i as int].0, key@);
                            }
                        }
                    }
                }
                return Err(i);
            }
            i += 1;
        }
        Err(i)
    }

    /// The release filed under a key.
    pub fn get(&self, key: &str) -> (r: Option<&Release>)
        requires
            self.wf(),
        ensures
            match r {
                Some(rel) => first_where(self@, |e: (Seq<char>, Release)| e.0 == key@) matches Some(i)
                    && *rel == self@[i].1,
                None => first_where(self@, |e: (Seq<char>, Release)| e.0 == key@) is None,
            },
    {
        let ghost is_key = |e: (Seq<char>, Release)| e.0 == key@;
        match self.position(key) {
            Ok(i) => {
                proof {
                    assert forall|j: int| 0 <= j < i implies !is_key(#[trigger] self@[j]) by {
                        assert(key_lt(self@[j].0, self@[i as int].0));
                    }
                    lemma_first_where_at(self@, is_key, i as int);
                }
                Some(&self.entries[i].1)
            },
            Err(_) => {
                proof {
                    lemma_first_where_none(self@, is_key);
                }
                None
            },
        }
    }

    /// Files a release under a key, replacing what was there.
    pub fn insert(&mut self, key: String, release: Release)
        requires
            old(self).wf(),
        ensures
            final(self).wf(),
            as_release_map(final(self)@) == as_release_map(old(self)@).insert(key@, release),
    {
        let ghost s = self@;
        let ghost k = key@;
        match self.position(key.as_str()) {
            Ok(i) => {
                self.entries.set(i, (key, release));
                proof {
                    let t = self@;
                    assert(t =~= s.update(i as int, (k, release)));
                    assert forall|a: int, b: int| 0 <= a < b < t.len() implies key_lt(
                        (#[trigger] t[a]).0,
                        (#[trigger] t[b]).0,
                    ) by {
                        assert(key_lt(s[a].0, s[b].0));
                    }
                    lemma_map_after_update(s, i as int, k, release);
                }
            },
            Err(i) => {
                self.entries.insert(i, (key, release));
                proof {
                    let t = self@;
                    assert(t =~= s.insert(i as int, (k, release)));
                    assert forall|a: int, b: int| 0 <= a < b < t.len() implies key_lt(
                        (#[trigger] t[a]).0,
                        (#[trigger] t[b]).0,
                    ) by {
                        if a < i && b < i {
                            assert(key_lt(s[a].0, s[b].0));
                        } else if a < i && b == i {
                        } else if a < i && b > i {
                            assert(key_lt(s[a].0, s[b - 1].0));
                        } else if a == i {
                            assert(key_lt(k, s[b - 1].0));
                        } else {
                            assert(key_lt(s[a - 1].0, s[b - 1].0));
                        }
                    }
                    lemma_map_after_insert(s, i as int, k, release);
                }
            },
        }
    }

    /// Drops the release filed under a key, handing it back.
    pub fn remove(&mut self, key: &str) -> (r: Option<Release>)
        requires
            old(self).wf(),
        ensures
            final(self).wf(),
            as_release_map(final(self)@) == as_release_map(old(self)@).remove(key@),
            r is Some <==> as_release_map(old(self)@).contains_key(key@),
            r matches Some(rel) ==> rel == as_release_map(old(self)@)[key@],
    {
        let ghost s = self@;
        let ghost k = key@;
        match self.position(key) {
            Ok(i) => {
                proof {
                    lemma_map_lookup(s, i as int);
                }
                let (_, removed) = self.entries.remove(i);
                proof {
                    let t = self@;
                    assert(t =~= s.remove(i as int));
                    assert forall|a: int, b: int| 0 <= a < b < t.len() implies key_lt(
                        (#[trigger] t[a]).0,
                        (#[trigger] t[b]).0,
                    ) by {
                        if b < i {
                            assert(key_lt(s[a].0, s[b].0));
                        } else if a < i {
                            assert(key_lt(s[a].0, s[b + 1].0));
                        } else {
                            assert(key_lt(s[a + 1].0, s[b + 1].0));
                        }
                    }
                    lemma_map_after_remove(s, i as int);
                }
                Some(removed)
            },
            Err(i) => {
                proof {
                    assert(!as_release_map(s).contains_key(k)) by {
                        if as_release_map(s).contains_key(k) {
                            let w = choose|j: int| 0 <= j < s.len() && (#[trigger] s[j]).0 == k;
                            if w < i {
                                assert(key_lt(s[w].0, k));
                            } else {
                                assert(key_lt(k, s[w].0));
                            }
                        }
                    }
                    assert(as_release_map(s).remove(k) =~= as_release_map(s));
                }
                None
            },
        }
    }

    /// Drops every release.
    pub fn clear(&mut self)
        ensures
            final(self)@.len() == 0,
            final(self).wf(),
    {
        self.entries.clear();
        assert(self@ =~= Seq::<(Seq<char>, Release)>::empty());
    }
}

proof fn lemma_map_lookup(s: Seq<(Seq<char>, Release)>, i: int)
    requires
        keys_ascending(s),
        0 <= i < s.len(),
    ensures
        as_release_map(s).contains_key(s[i].0),
        as_release_map(s)[s[i].0] == s[i].1,
{
    let k = s[i].0;
    assert(exists|j: int| 0 <= j < s.len() && (#[trigger] s[j]).0 == k);
    let w = choose|j: int| 0 <= j < s.len() && (#[trigger] s[j]).0 == k;
    assert(w == i) by {
        if w < i {
            assert(key_lt(s[w].0, s[i].0));
        }
        if w > i {
            assert(key_lt(s[i].0, s[w].0));
        }
    }
}

proof fn lemma_map_after_update(s: Seq<(Seq<char>, Release)>, i: int, k: Seq<char>, rel: Release)
    requires
        keys_ascending(s),
        keys_ascending(s.update(i, (k, rel))),
        0 <= i < s.len(),
        s[i].0 == k,
    ensures
        as_release_map(s.update(i, (k, rel))) == as_release_map(s).insert(k, rel),
{
    let t = s.update(i, (k, rel));
    assert forall|key: Seq<char>| #[trigger] as_release_map(t).contains_key(key) <==> as_release_map(
        s,
    ).insert(k, rel).contains_key(key) by {
        if as_release_map(s).contains_key(key) {
            let w = choose|j: int| 0 <= j < s.len() && (#[trigger] s[j]).0 == key;
            assert(t[w].0 == key);
        }
        if as_release_map(t).contains_key(key) {
            let w = choose|j: int| 0 <= j < t.len() && (#[trigger] t[j]).0 == key;
            assert(s[w].0 == key);
        }
    }
    assert forall|key: Seq<char>| #[trigger] as_release_map(t).contains_key(key) implies as_release_map(t)[key]
        == as_release_map(s).insert(k, rel)[key] by {
        let w = choose|j: int| 0 <= j < t.len() && (#[trigger] t[j]).0 == key;
        lemma_map_lookup(t, w);
        if w != i {
            lemma_map_lookup(s, w);
        }
    }
    assert(as_release_map(t) =~= as_release_map(s).insert(k, rel));
}

proof fn lemma_map_after_insert(s: Seq<(Seq<char>, Release)>, i: int, k: Seq<char>, rel: Release)
    requires
        keys_ascending(s),
        0 <= i <= s.len(),
        keys_ascending(s.insert(i, (k, rel))),
    ensures
        as_release_map(s.insert(i, (k, rel))) == as_release_map(s).insert(k, rel),
{
    let t = s.insert(i, (k, rel));
    assert forall|key: Seq<char>| #[trigger] as_release_map(t).contains_key(key) <==> as_release_map(
        s,
    ).insert(k, rel).contains_key(key) by {
        if as_release_map(s).contains_key(key) {
            let w = choose|j: int| 0 <= j < s.len() && (#[trigger] s[j]).0 == key;
            if w < i {
                assert(t[w].0 == key);
            } else {
                assert(t[w + 1].0 == key);
            }
        }
        if key == k {
            assert(t[i].0 == key);
        }
        if as_release_map(t).contains_key(key) {
            let w = choose|j: int| 0 <= j < t.len() && (#[trigger] t[j]).0 == key;
            if w < i {
                assert(s[w].0 == key);
            } else if w > i {
                assert(s[w - 1].0 == key);
            }
        }
    }
    assert forall|key: Seq<char>| #[trigger] as_release_map(t).contains_key(key) implies as_release_map(t)[key]
        == as_release_map(s).insert(k, rel)[key] by {
        let w = choose|j: int| 0 <= j < t.len() && (#[trigger] t[j]).0 == key;
        lemma_map_lookup(t, w);
        if w < i {
            assert(key_lt(t[w].0, t[i].0));
            lemma_map_lookup(s, w);
        } else if w > i {
            assert(key_lt(t[i].0, t[w].0));
            lemma_map_lookup(s, w - 1);
        }
    }
    assert(as_release_map(t) =~= as_release_map(s).insert(k, rel));
}

proof fn lemma_map_after_remove(s: Seq<(Seq<char>, Release)>, i: int)
    requires
        keys_ascending(s),
        keys_ascending(s.remove(i)),
        0 <= i < s.len(),
    ensures
        as_release_map(s.remove(i)) == as_release_map(s).remove(s[i].0),
{
    let t = s.remove(i);
    let k = s[i].0;
    assert forall|key: Seq<char>| #[trigger] as_release_map(t).contains_key(key) <==> as_release_map(
        s,
    ).remove(k).contains_key(key) by {
        if as_release_map(s).contains_key(key) && key != k {
            let w = choose|j: int| 0 <= j < s.len() && (#[trigger] s[j]).0 == key;
            if w < i {
                assert(t[w].0 == key);
            } else {
                assert(w != i);
                assert(t[w - 1].0 == key);
            }
        }
        if as_release_map(t).contains_key(key) {
            let w = choose|j: int| 0 <= j < t.len() && (#[trigger] t[j]).0 == key;
            if w < i {
                assert(s[w].0 == key);
                assert(key_lt(s[w].0, s[i].0));
            } else {
                assert(s[w + 1].0 == key);
                assert(key_lt(s[i].0, s[w + 1].0));
            }
        }
    }
    assert forall|key: Seq<char>| #[trigger] as_release_map(t).contains_key(key) implies as_release_map(t)[key]
        == as_release_map(s).remove(k)[key] by {
        let w = choose|j: int| 0 <= j < t.len() && (#[trigger] t[j]).0 == key;
        lemma_map_lookup(t, w);
        if w < i {
            lemma_map_lookup(s, w);
        } else {
            lemma_map_lookup(s, w + 1);
        }
    }
    assert(as_release_map(t) =~= as_release_map(s).remove(k));
}

/// The position of the newest release by creation time; of several equally
/// new, the last in key order.
pub open spec fn newest_position(entries: Seq<(Seq<char>, Release)>) -> Option<int>
    decreases entries.len(),
{
    if entries.len() == 0 {
        None
    } else {
        match newest_position(entries.drop_last()) {
            None => Some(entries.len() - 1),
            Some(m) => if seq_le(entries[m].1.created_at@, entries.last().1.created_at@) {
                Some(entries.len() - 1)
            } else {
                Some(m)
            },
        }
    }
}

/// The release to install: the stable one when there is one, else the newest.
pub open spec fn best_release_position(entries: Seq<(Seq<char>, Release)>) -> Option<int> {
    match first_where(entries, |e: (Seq<char>, Release)| e.0 == "stable"@) {
        Some(i) => Some(i),
        None => newest_position(entries),
    }
}

proof fn lemma_newest_in_range(entries: Seq<(Seq<char>, Release)>)
    ensures
        newest_position(entries) is None <==> entries.len() == 0,
        newest_position(entries) matches Some(m) ==> 0 <= m < entries.len(),
    decreases entries.len(),
{
    if entries.len() > 0 {
        lemma_newest_in_range(entries.drop_last());
    }
}

/// The stable release when there is one, else the newest of what exists:
/// beta-era Forever addons often publish only alphas.
pub fn best_release(releases: &ReleaseMap) -> (r: Option<&Release>)
    requires
        releases.wf(),
    ensures
        match r {
            Some(rel) => best_release_position(releases@) matches Some(i) && 0 <= i < releases@.len()
                && *rel == releases@[i].1,
            None => best_release_position(releases@) is None,
        },
{
    if let Some(stable) = releases.get("stable") {
        proof {
            let is_key = |e: (Seq<char>, Release)| e.0 == "stable"@;
            crate::picking::lemma_first_where_some(releases@, is_key);
        }
        return Some(stable);
    }
    let ghost s = releases@;
    let n = releases.len();
    if n == 0 {
        return None;
    }
    let mut best: usize = 0;
    let mut best_date = chars_of(releases.release_at(0).created_at.as_str());
    let mut i: usize = 1;
    assert(s.take(1).drop_last() =~= s.take(0));
    assert(newest_position(s.take(0)) is None);
    assert(newest_position(s.take(1)) == Some(0int));
    while i < n
        invariant
            1 <= i <= n,
            n == s.len(),
            s == releases@,
            newest_position(s.take(i as int)) == Some(best as int),
            best < i,
            best_date@ == s[best as int].1.created_at@,
        decreases n - i,
    {
        let date = chars_of(releases.release_at(i).created_at.as_str());
        assert(s.take(i + 1).drop_last() =~= s.take(i as int));
        assert(s.take(i + 1).last() == s[i as int]);
        if chars_le(best_date.as_slice(), date.as_slice()) {
            best = i;
            best_date = date;
        }
        i += 1;
    }
    assert(s.take(n as int) =~= s);
    Some(releases.release_at(best))
}

/// One row of the `popular` or `_search` listings.
#[derive(Debug)]
pub struct ListedAddon {
    pub id: String,
    pub display_name: String,
    pub summary: String,
    pub thumbnail_image: Option<String>,
    pub authors: Vec<String>,
    pub download_count: u64,
    pub website_url: String,
    pub releases: ReleaseMap,
}

/// The `/addons/{id}` detail document.
#[derive(Debug)]
pub struct AddonDocument {
    pub description: String,
    /// The author's own site, distinct from `website_url` (the Wago page).
    pub website: String,
    pub gallery: Vec<String>,
    /// The detail route spells the release map `recent_release`; other routes
    /// use `recent_releases`. Both are accepted.
    pub recent_release: ReleaseMap,
    pub recent_releases: ReleaseMap,
}

impl AddonDocument {
    /// The release map, under whichever spelling carries one.
    pub fn releases(&self) -> (r: &ReleaseMap)
        ensures
            *r == (if self.recent_release@.len() == 0 {
                self.recent_releases
            } else {
                self.recent_release
            }),
    {
        if self.recent_release.is_empty() {
            &self.recent_releases
        } else {
            &self.recent_release
        }
    }
}

/// The catalog row a listing row describes.
pub open spec fn listed_summary(listed: ListedAddon, r: AddonSummary) -> bool {
    let rel = listed.releases@[best_release_position(listed.releases@)->Some_0].1;
    &&& r.id.source == SourceId::Wago
    &&& r.id.key@ == trim(listed.id@)
    &&& r.name@ == trim(listed.display_name@)
    &&& r.summary@ == trim(listed.summary@)
    &&& opt_view(r.author) == (if listed.authors@.len() > 0 {
        non_empty_text(listed.authors@[0]@)
    } else {
        None
    })
    &&& (r.version is Some <==> trim(rel.label@).len() > 0)
    &&& (r.version matches Some(v) ==> v@ == trim(rel.label@))
    &&& opt_view(r.updated_at) == non_empty_text(rel.created_at@)
    &&& opt_view(r.icon_url) == (match listed.thumbnail_image {
        Some(t) => non_empty_text(t@),
        None => None,
    })
    &&& r.page_url@ == (match non_empty_text(listed.website_url@) {
        Some(u) => u,
        None => "https://addons.wago.io/addons/"@ + listed.id@,
    })
    &&& r.categories@.len() == 0
    &&& r.downloads == Some(listed.download_count)
    &&& r.expansions@ == seq![Expansion::Forever]
    &&& r.download is Brokered
}

/// The catalog row for a listing row; `None` for rows this application
/// cannot key on or that list no release for the Forever game version.
pub fn to_summary(listed: &ListedAddon) -> (r: Option<AddonSummary>)
    requires
        listed.releases.wf(),
    ensures
        r is Some <==> (trim(listed.id@).len() > 0 && best_release_position(listed.releases@) is Some),
        r matches Some(s) ==> listed_summary(*listed, s),
{
    let id = match addon_id(SourceId::Wago, listed.id.as_str()) {
        Some(id) => id,
        None => {
            return None;
        },
    };
    let release = match best_release(&listed.releases) {
        Some(release) => release,
        None => {
            return None;
        },
    };
    let author = if listed.authors.len() > 0 {
        non_empty(listed.authors[0].as_str())
    } else {
        None
    };
    let icon_url = match &listed.thumbnail_image {
        Some(t) => non_empty(t.as_str()),
        None => None,
    };
    let page_url = match non_empty(listed.website_url.as_str()) {
        Some(u) => u,
        None => {
            let mut v = chars_of("https://addons.wago.io/addons/");
            append_str(&mut v, listed.id.as_str());
            string_of(v.as_slice())
        },
    };
    let mut expansions: Vec<Expansion> = Vec::new();
    expansions.push(Expansion::Forever);
    assert(expansions@ =~= seq![Expansion::Forever]);
    Some(
        AddonSummary {
            id,
            name: string_of(crate::text::trim_str(listed.display_name.as_str()).as_slice()),
            summary: string_of(crate::text::trim_str(listed.summary.as_str()).as_slice()),
            author,
            version: AddonVersion::new(release.label.as_str()),
            updated_at: non_empty(release.created_at.as_str()),
            icon_url,
            page_url,
            categories: Vec::new(),
            downloads: Some(listed.download_count),
            expansions,
            download: Download::Brokered,
        },
    )
}

/// The download link of the release to install, unless there is none.
pub fn resolve_archive_url(summary: &AddonSummary, document: &AddonDocument) -> (r: Result<String, AppError>)
    requires
        document.recent_release.wf(),
        document.recent_releases.wf(),
    ensures
        ({
            let map = if document.recent_release@.len() == 0 {
                document.recent_releases@
            } else {
                document.recent_release@
            };
            match best_release_position(map) {
                Some(i) => match non_empty_text(map[i].1.download_link@) {
                    Some(link) => r matches Ok(u) && u@ == link,
                    None => r == Err::<String, AppError>(AppError::NoForeverDownload { addon_id: summary.id }),
                },
                None => r == Err::<String, AppError>(AppError::NoForeverDownload { addon_id: summary.id }),
            }
        }),
{
    let link = match best_release(document.releases()) {
        Some(release) => non_empty(release.download_link.as_str()),
        None => None,
    };
    match link {
        Some(url) => Ok(url),
        None => Err(AppError::NoForeverDownload { addon_id: summary.id.clone() }),
    }
}

/// The non-blank gallery URLs, trimmed, in order.
pub open spec fn gallery_urls(gallery: Seq<String>) -> Seq<Seq<char>>
    decreases gallery.len(),
{
    if gallery.len() == 0 {
        Seq::empty()
    } else {
        match non_empty_text(gallery.last()@) {
            Some(u) => gallery_urls(gallery.drop_last()).push(u),
            None => gallery_urls(gallery.drop_last()),
        }
    }
}

/// The detail page from the addon document: its description as plain text,
/// else the catalog summary.
pub fn detail(summary: &AddonSummary, document: &AddonDocument) -> (r: AddonDetail)
    ensures
        same_summary(*summary, r.summary),
        r.description@ == (match plain_text_of(document.description@) {
            Some(t) if t.len() > 0 => t,
            _ => summary.summary@,
        }),
        opt_view(r.website_url) == non_empty_text(document.website@),
        r.screenshots@.map_values(|s: Screenshot| s.url@) == gallery_urls(document.gallery@),
{
    let description = match html_to_text(document.description.as_str()) {
        Some(t) => if t.as_str().is_empty() {
            summary.summary.clone()
        } else {
            t
        },
        None => summary.summary.clone(),
    };
    let mut shots: Vec<Screenshot> = Vec::new();
    let mut i: usize = 0;
    assert(document.gallery@.take(0) =~= Seq::<String>::empty());
    while i < document.gallery.len()
        invariant
            i <= document.gallery@.len(),
            shots@.map_values(|s: Screenshot| s.url@) == gallery_urls(document.gallery@.take(i as int)),
        decreases document.gallery.len() - i,
    {
        assert(document.gallery@.take(i + 1).drop_last() =~= document.gallery@.take(i as int));
        match non_empty(document.gallery[i].as_str()) {
            Some(url) => {
                shots.push(Screenshot { url });
                assert(shots@.map_values(|s: Screenshot| s.url@) =~= gallery_urls(
                    document.gallery@.take(i as int),
                ).push(shots@.last().url@));
            },
            None => {},
        }
        i += 1;
    }
    assert(document.gallery@.take(document.gallery@.len() as int) =~= document.gallery@);
    AddonDetail {
        summary: summary.clone(),
        description,
        website_url: non_empty(document.website.as_str()),
        screenshots: shots,
    }
}

/// The listing of popular Forever addons.
pub fn popular_url() -> (r: String)
    ensures
        r@ == "https://addons.wago.io/api/external/addons/popular?game_version=forever"@,
{
    "https://addons.wago.io/api/external/addons/popular?game_version=forever".to_owned()
}

/// The detail document for an addon.
pub fn document_url(key: &str) -> (r: String)
    ensures
        r@ == "https://addons.wago.io/api/external/addons/"@ + key@ + "?game_version=forever"@,
{
    let mut v = chars_of("https://addons.wago.io/api/external/addons/");
    append_str(&mut v, key);
    append_str(&mut v, "?game_version=forever");
    string_of(v.as_slice())
}

/// The `authorization` header's value for a token.
pub fn bearer(token: &str) -> (r: String)
    ensures
        r@ == "Bearer "@ + token@,
{
    let mut v = chars_of("Bearer ");
    append_str(&mut v, token);
    string_of(v.as_slice())
}

} // verus!
