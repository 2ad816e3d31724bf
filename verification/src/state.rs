//! The application's shared state and the rules for changing it: saved
//! credentials, tracked repositories, and the loaded catalogs.

use vstd::prelude::*;

use crate::catalog::{copied, same_catalog, Catalog};
use crate::config::Settings;
use crate::domain::addon::{AddonId, AddonSummary};
use crate::domain::folder::AddonFolder;
use crate::domain::source_id::SourceId;
use crate::error::AppError;
use crate::install::manifest::{same_record, InstalledRecord, Manifest};
use crate::source::SourceAuth;
use crate::text::{chars_of, eq_ignore_ascii_case, eq_ignore_ascii_case_chars, string_of, trim, trim_str};
use crate::view::{find_published, published};

verus! {

/// `None` for an absent or blank secret, the trimmed value otherwise.
pub fn normalize_secret(raw: Option<String>) -> (r: Option<String>)
    ensures
        match raw {
            Some(v) if trim(v@).len() > 0 => r matches Some(t) && t@ == trim(v@),
            _ => r is None,
        },
{
    match raw {
        Some(value) => {
            let t = trim_str(value.as_str());
            if t.len() > 0 {
                Some(string_of(t.as_slice()))
            } else {
                None
            }
        },
        None => None,
    }
}

/// The tracked repositories, as text.
pub open spec fn repo_texts(repos: Seq<String>) -> Seq<Seq<char>> {
    repos.map_values(|r: String| r@)
}

/// The repositories other than `slug`, compared ignoring ASCII case, in
/// their order.
pub open spec fn other_repos(repos: Seq<Seq<char>>, slug: Seq<char>) -> Seq<Seq<char>> {
    repos.filter(|r: Seq<char>| !eq_ignore_ascii_case(r, slug))
}

/// Drops every repository matching `slug`, ignoring ASCII case.
pub fn untrack_repo(repos: Vec<String>, slug: &str) -> (r: Vec<String>)
    ensures
        repo_texts(r@) == other_repos(repo_texts(repos@), slug@),
{
    let ghost keep = |r: Seq<char>| !eq_ignore_ascii_case(r, slug@);
    let ghost all = repo_texts(repos@);
    let wanted = chars_of(slug);
    let mut out: Vec<String> = Vec::new();
    let mut i: usize = 0;
    proof {
        reveal(Seq::filter);
        assert(all.take(0) =~= Seq::<Seq<char>>::empty());
        assert(repo_texts(out@) =~= Seq::<Seq<char>>::empty());
    }
    while i < repos.len()
        invariant
            i <= repos@.len(),
            all == repo_texts(repos@),
            wanted@ == slug@,
            keep == (|r: Seq<char>| !eq_ignore_ascii_case(r, slug@)),
            repo_texts(out@) == all.take(i as int).filter(keep),
        decreases repos.len() - i,
    {
        proof {
            assert(all.take(i + 1) =~= all.take(i as int).push(all[i as int]));
            all.take(i as int).lemma_filter_push(all[i as int], keep);
        }
        let here = chars_of(repos[i].as_str());
        if !eq_ignore_ascii_case_chars(here.as_slice(), wanted.as_slice()) {
            let ghost before = out@;
            out.push(repos[i].clone());
            assert(repo_texts(out@) =~= repo_texts(before).push(all[i as int]));
        }
        i += 1;
    }
    assert(all.take(all.len() as int) =~= all);
    out
}

/// Tracks a repository. Re-adding an already tracked repository moves it to
/// the end rather than duplicating it.
pub fn track_repo(repos: Vec<String>, slug: String) -> (r: Vec<String>)
    ensures
        repo_texts(r@) == other_repos(repo_texts(repos@), slug@).push(slug@),
{
    let ghost text = slug@;
    let mut out = untrack_repo(repos, slug.as_str());
    let ghost before = out@;
    out.push(slug);
    assert(repo_texts(out@) =~= repo_texts(before).push(text));
    out
}

/// After tracking a repository, it is listed exactly once, last, and nothing
/// else listed matches it.
pub proof fn law_tracking_lists_a_repo_once(repos: Seq<Seq<char>>, slug: Seq<char>)
    ensures
        other_repos(repos, slug).push(slug).last() == slug,
        forall|i: int|
            0 <= i < other_repos(repos, slug).len() ==> !eq_ignore_ascii_case(
                #[trigger] other_repos(repos, slug)[i],
                slug,
            ),
{
    let keep = |r: Seq<char>| !eq_ignore_ascii_case(r, slug);
    assert forall|i: int| 0 <= i < other_repos(repos, slug).len() implies !eq_ignore_ascii_case(
        #[trigger] other_repos(repos, slug)[i],
        slug,
    ) by {
        repos.lemma_filter_pred(keep, i);
    }
}

/// Tracking a repository twice lists what tracking it once does.
pub proof fn law_tracking_twice_is_tracking_once(repos: Seq<Seq<char>>, slug: Seq<char>)
    ensures
        other_repos(other_repos(repos, slug).push(slug), slug).push(slug) == other_repos(repos, slug).push(
            slug,
        ),
{
    let keep = |r: Seq<char>| !eq_ignore_ascii_case(r, slug);
    let once = other_repos(repos, slug);
    other_repos_idempotent(repos, slug);
    once.lemma_filter_push(slug, keep);
}

proof fn other_repos_idempotent(repos: Seq<Seq<char>>, slug: Seq<char>)
    ensures
        other_repos(other_repos(repos, slug), slug) == other_repos(repos, slug),
    decreases repos.len(),
{
    let keep = |r: Seq<char>| !eq_ignore_ascii_case(r, slug);
    reveal(Seq::filter);
    if repos.len() > 0 {
        other_repos_idempotent(repos.drop_last(), slug);
        let init = other_repos(repos.drop_last(), slug);
        if keep(repos.last()) {
            init.lemma_filter_push(repos.last(), keep);
        }
    }
}

/// After untracking a repository nothing listed matches it.
pub proof fn law_untracking_removes_every_match(repos: Seq<Seq<char>>, slug: Seq<char>, i: int)
    requires
        0 <= i < other_repos(repos, slug).len(),
    ensures
        !eq_ignore_ascii_case(other_repos(repos, slug)[i], slug),
{
    repos.lemma_filter_pred(|r: Seq<char>| !eq_ignore_ascii_case(r, slug), i);
}

/// Where a source sorts among the loaded catalogs: declaration order.
pub open spec fn source_rank(s: SourceId) -> int {
    match s {
        SourceId::CurseForge => 0,
        SourceId::Wago => 1,
        SourceId::GitHub => 2,
    }
}

fn rank(s: SourceId) -> (r: u8)
    ensures
        r == source_rank(s),
{
    match s {
        SourceId::CurseForge => 0,
        SourceId::Wago => 1,
        SourceId::GitHub => 2,
    }
}

/// At most one catalog per source, in source order.
pub open spec fn by_source(s: Seq<Catalog>) -> bool {
    forall|i: int, j: int|
        0 <= i < j < s.len() ==> source_rank((#[trigger] s[i]).source) < source_rank((#[trigger] s[j]).source)
}

/// The catalog of a source, if one is loaded.
pub open spec fn catalog_for(s: Seq<Catalog>, source: SourceId) -> Option<Catalog> {
    if exists|i: int| 0 <= i < s.len() && (#[trigger] s[i]).source == source {
        Some(s[choose|i: int| 0 <= i < s.len() && (#[trigger] s[i]).source == source])
    } else {
        None
    }
}

/// The loaded catalogs, one per source.
#[derive(Debug)]
pub struct Catalogs {
    list: Vec<Catalog>,
}

impl View for Catalogs {
    type V = Seq<Catalog>;

    closed spec fn view(&self) -> Seq<Catalog> {
        self.list@
    }
}

proof fn lemma_catalog_at(s: Seq<Catalog>, i: int)
    requires
        by_source(s),
        0 <= i < s.len(),
    ensures
        catalog_for(s, s[i].source) == Some(s[i]),
{
    let w = choose|j: int| 0 <= j < s.len() && (#[trigger] s[j]).source == s[i].source;
    assert(w == i) by {
        if w < i {
            assert(source_rank(s[w].source) < source_rank(s[i].source));
        }
        if w > i {
            assert(source_rank(s[i].source) < source_rank(s[w].source));
        }
    }
}

proof fn lemma_replace_catalog(before: Seq<Catalog>, i: int, c: Catalog)
    requires
        by_source(before),
        0 <= i < before.len(),
        before[i].source == c.source,
    ensures
        by_source(before.update(i, c)),
        catalog_for(before.update(i, c), c.source) == Some(c),
        forall|s: SourceId| s != c.source ==> #[trigger] catalog_for(before.update(i, c), s) == catalog_for(before, s),
{
    let t = before.update(i, c);
    assert forall|a: int, b: int| 0 <= a < b < t.len() implies source_rank((#[trigger] t[a]).source)
        < source_rank((#[trigger] t[b]).source) by {
        assert(source_rank(before[a].source) < source_rank(before[b].source));
    }
    lemma_catalog_at(t, i);
    assert forall|s: SourceId| s != c.source implies #[trigger] catalog_for(t, s) == catalog_for(before, s) by {
        if exists|k: int| 0 <= k < before.len() && (#[trigger] before[k]).source == s {
            let k = choose|k: int| 0 <= k < before.len() && (#[trigger] before[k]).source == s;
            lemma_catalog_at(before, k);
            assert(t[k] == before[k]);
            lemma_catalog_at(t, k);
        }
        if exists|k: int| 0 <= k < t.len() && (#[trigger] t[k]).source == s {
            let k = choose|k: int| 0 <= k < t.len() && (#[trigger] t[k]).source == s;
            assert(before[k].source == s);
        }
    }
}

proof fn lemma_insert_catalog(before: Seq<Catalog>, i: int, c: Catalog)
    requires
        by_source(before),
        0 <= i <= before.len(),
        forall|j: int| 0 <= j < i ==> source_rank((#[trigger] before[j]).source) < source_rank(c.source),
        i < before.len() ==> source_rank(before[i].source) > source_rank(c.source),
    ensures
        by_source(before.insert(i, c)),
        catalog_for(before.insert(i, c), c.source) == Some(c),
        forall|s: SourceId| s != c.source ==> #[trigger] catalog_for(before.insert(i, c), s) == catalog_for(before, s),
{
    let t = before.insert(i, c);
    assert forall|a: int, b: int| 0 <= a < b < t.len() implies source_rank((#[trigger] t[a]).source)
        < source_rank((#[trigger] t[b]).source) by {
        if a < i && b < i {
            assert(source_rank(before[a].source) < source_rank(before[b].source));
        } else if a < i && b == i {
        } else if a < i && b > i {
            assert(source_rank(before[a].source) < source_rank(before[b - 1].source));
        } else if a == i {
            if b - 1 > i {
                assert(source_rank(before[i].source) < source_rank(before[b - 1].source));
            }
        } else {
            assert(source_rank(before[a - 1].source) < source_rank(before[b - 1].source));
        }
    }
    lemma_catalog_at(t, i);
    assert forall|s: SourceId| s != c.source implies #[trigger] catalog_for(t, s) == catalog_for(before, s) by {
        if exists|k: int| 0 <= k < before.len() && (#[trigger] before[k]).source == s {
            let k = choose|k: int| 0 <= k < before.len() && (#[trigger] before[k]).source == s;
            lemma_catalog_at(before, k);
            if k < i {
                assert(t[k] == before[k]);
                lemma_catalog_at(t, k);
            } else {
                assert(t[k + 1] == before[k]);
                lemma_catalog_at(t, k + 1);
            }
        }
        if exists|k: int| 0 <= k < t.len() && (#[trigger] t[k]).source == s {
            let k = choose|k: int| 0 <= k < t.len() && (#[trigger] t[k]).source == s;
            if k < i {
                assert(before[k].source == s);
            } else if k > i {
                assert(before[k - 1].source == s);
            }
        }
    }
}

impl Catalogs {
    /// No catalog loaded.
    pub fn new() -> (r: Catalogs)
        ensures
            r@.len() == 0,
            r.wf(),
    {
        Catalogs { list: Vec::new() }
    }

    pub open spec fn wf(&self) -> bool {
        by_source(self@)
    }

    /// Every loaded catalog, in source order.
    pub fn all(&self) -> (r: &[Catalog])
        ensures
            r@ == self@,
    {
        self.list.as_slice()
    }

    /// The loaded catalog of a source.
    pub fn get(&self, source: SourceId) -> (r: Option<&Catalog>)
        requires
            self.wf(),
        ensures
            match r {
                Some(c) => catalog_for(self@, source) == Some(*c),
                None => catalog_for(self@, source) is None,
            },
    {
        let mut i: usize = 0;
        while i < self.list.len()
            invariant
                i <= self@.len(),
                self.wf(),
                forall|j: int| 0 <= j < i ==> (#[trigger] self@[j]).source != source,
            decreases self.list.len() - i,
        {
            if self.list[i].source == source {
                proof {
                    lemma_catalog_at(self@, i as int);
                }
                return Some(&self.list[i]);
            }
            i += 1;
        }
        None
    }

    /// Loads a source's catalog, replacing any earlier one of that source.
    pub fn insert(&mut self, catalog: Catalog)
        requires
            old(self).wf(),
        ensures
            final(self).wf(),
            catalog_for(final(self)@, catalog.source) == Some(catalog),
            forall|s: SourceId| s != catalog.source ==> #[trigger] catalog_for(final(self)@, s) == catalog_for(old(self)@, s),
    {
        let ghost before = self@;
        let ghost c = catalog;
        let r = rank(catalog.source);
        let mut i: usize = 0;
        while i < self.list.len() && rank(self.list[i].source) < r
            invariant
                i <= before.len(),
                self@ == before,
                by_source(before),
                r == source_rank(c.source),
                forall|j: int| 0 <= j < i ==> source_rank((#[trigger] before[j]).source) < r,
            decreases self.list.len() - i,
        {
            i += 1;
        }
        proof {
            if i < before.len() {
                assert(source_rank(before[i as int].source) >= r);
            }
        }
        if i < self.list.len() && self.list[i].source == catalog.source {
            self.list.set(i, catalog);
            proof {
                lemma_replace_catalog(before, i as int, c);
            }
        } else {
            self.list.insert(i, catalog);
            proof {
                lemma_insert_catalog(before, i as int, c);
            }
        }
    }

    /// The catalogs of the enabled sources, in the order the user arranged
    /// them; a source with no loaded catalog is skipped.
    pub fn enabled(&self, sources: &[SourceId]) -> (r: Vec<Catalog>)
        requires
            self.wf(),
        ensures
            r@.len() == enabled_catalogs(self@, sources@).len(),
            forall|i: int|
                0 <= i < r@.len() ==> same_catalog(enabled_catalogs(self@, sources@)[i], #[trigger] r@[i]),
    {
        let mut out: Vec<Catalog> = Vec::new();
        let mut i: usize = 0;
        assert(sources@.take(0) =~= Seq::<SourceId>::empty());
        while i < sources.len()
            invariant
                i <= sources@.len(),
                self.wf(),
                out@.len() == enabled_catalogs(self@, sources@.take(i as int)).len(),
                forall|k: int|
                    0 <= k < out@.len() ==> same_catalog(
                        enabled_catalogs(self@, sources@.take(i as int))[k],
                        #[trigger] out@[k],
                    ),
            decreases sources.len() - i,
        {
            assert(sources@.take(i + 1).drop_last() =~= sources@.take(i as int));
            match self.get(sources[i]) {
                Some(c) => {
                    out.push(c.clone());
                },
                None => {},
            }
            i += 1;
        }
        assert(sources@.take(sources@.len() as int) =~= sources@);
        out
    }
}

/// The loaded catalogs of these sources, in this order.
pub open spec fn enabled_catalogs(loaded: Seq<Catalog>, sources: Seq<SourceId>) -> Seq<Catalog>
    decreases sources.len(),
{
    if sources.len() == 0 {
        Seq::empty()
    } else {
        match catalog_for(loaded, sources.last()) {
            Some(c) => enabled_catalogs(loaded, sources.drop_last()).push(c),
            None => enabled_catalogs(loaded, sources.drop_last()),
        }
    }
}

/// The per-source settings requests need, read fresh so a just-saved value
/// applies.
pub fn source_auth(settings: &Settings) -> (r: SourceAuth)
    ensures
        r.curseforge_api_key == settings.curseforge_api_key,
        r.wago_token == settings.wago_token,
        r.github_repos@ == settings.github_repos@,
{
    SourceAuth {
        curseforge_api_key: settings.curseforge_api_key.clone(),
        wago_token: settings.wago_token.clone(),
        github_repos: settings.github_repos.clone(),
    }
}

/// The configured client path, or the error saying none is configured yet.
pub fn configured_client(settings: &Settings) -> (r: Result<String, AppError>)
    ensures
        match settings.client_path {
            Some(p) => r matches Ok(q) && q == p,
            None => r == Err::<String, AppError>(AppError::NoInstallConfigured),
        },
{
    match &settings.client_path {
        Some(p) => Ok(p.clone()),
        None => Err(AppError::NoInstallConfigured),
    }
}

/// The folders the manifest recorded for an addon, so an upgrade can clear
/// folders the new archive no longer ships; none for a first install.
pub fn previous_folders(manifest: &Manifest, id: &AddonId) -> (r: Vec<AddonFolder>)
    requires
        manifest.wf(),
    ensures
        manifest@.contains_key(crate::domain::addon::id_text(*id)) ==> r@ == manifest@[crate::domain::addon::id_text(*id)].folders@,
        !manifest@.contains_key(crate::domain::addon::id_text(*id)) ==> r@.len() == 0,
{
    match manifest.get(id) {
        Some(record) => {
            let folders = record.folders.clone();
            assert(folders@ =~= record.folders@);
            folders
        },
        None => Vec::new(),
    }
}

/// The record of an installed addon, or the error saying it is not installed.
pub fn recorded(manifest: &Manifest, id: &AddonId) -> (r: Result<InstalledRecord, AppError>)
    requires
        manifest.wf(),
    ensures
        manifest@.contains_key(crate::domain::addon::id_text(*id)) ==> (r matches Ok(rec) && same_record(
            manifest@[crate::domain::addon::id_text(*id)],
            rec,
        )),
        !manifest@.contains_key(crate::domain::addon::id_text(*id)) ==> r == Err::<InstalledRecord, AppError>(
            AppError::NotInstalled { addon_id: *id },
        ),
{
    match manifest.get(id) {
        Some(record) => Ok(record.clone()),
        None => Err(AppError::NotInstalled { addon_id: id.clone() }),
    }
}

/// The catalog entry for an addon, from the first catalog listing it, or the
/// error saying no catalog does.
pub fn find_in_catalogs(catalogs: &[Catalog], id: &AddonId) -> (r: Result<AddonSummary, AppError>)
    ensures
        match published(catalogs@, *id) {
            Some(a) => r matches Ok(s) && copied(a, s),
            None => r == Err::<AddonSummary, AppError>(AppError::UnknownAddon { addon_id: *id }),
        },
{
    match find_published(catalogs, id) {
        Some(a) => Ok(a.clone()),
        None => Err(AppError::UnknownAddon { addon_id: id.clone() }),
    }
}

} // verus!
