//! What the command surface answers with: the application's status, and the
//! checks a request passes before any work is done.

use vstd::prelude::*;

use crate::catalog::Catalog;
use crate::config::Settings;
use crate::domain::source_id::{all_sources, display_name_of, SourceId};
use crate::error::AppError;
use crate::source::github::{parse_slug, RepoSlug};
use crate::state::{catalog_for, Catalogs};
use crate::text::{trim, trim_str};

verus! {

/// Emitted while a catalog refresh walks a source's pages.
pub const CATALOG_PROGRESS_EVENT: &'static str = "catalog:progress";

/// Emitted while an addon downloads and extracts.
pub const INSTALL_PROGRESS_EVENT: &'static str = "install:progress";

/// What the shell renders before anything is loaded: which client is
/// configured, which sources are on, and how fresh each catalog is.
#[derive(Debug)]
pub struct AppStatus {
    pub client_path: Option<String>,
    /// False when a path is configured but no longer holds a client.
    pub install_valid: bool,
    pub install_error: Option<String>,
    pub sources: Vec<SourceStatus>,
}

#[derive(Debug)]
pub struct SourceStatus {
    pub id: SourceId,
    pub name: &'static str,
    pub site_url: &'static str,
    pub enabled: bool,
    pub requires_api_key: bool,
    /// Only meaningful when `requires_api_key`: whether a key is saved.
    pub api_key_configured: bool,
    pub addon_count: usize,
    /// RFC 3339, or `None` when this source has never been refreshed.
    pub fetched_at: Option<String>,
    /// The repositories the user tracks: only ever non-empty for GitHub.
    pub tracked_repos: Vec<String>,
}

/// The credential saved for a source, if it takes one.
pub open spec fn saved_key(settings: Settings, id: SourceId) -> Option<String> {
    match id {
        SourceId::CurseForge => settings.curseforge_api_key,
        SourceId::Wago => settings.wago_token,
        SourceId::GitHub => None,
    }
}

/// `s` is the status row for source `id`.
pub open spec fn status_row(s: SourceStatus, id: SourceId, settings: Settings, loaded: Seq<Catalog>) -> bool {
    &&& s.id == id
    &&& s.name@ == display_name_of(id)
    &&& s.enabled == settings.enabled_sources@.contains(id)
    &&& s.requires_api_key == (id != SourceId::GitHub)
    &&& s.api_key_configured == (id != SourceId::GitHub && (saved_key(settings, id) matches Some(k)
        && trim(k@).len() > 0))
    &&& s.addon_count == (match catalog_for(loaded, id) {
        Some(c) => c.addons@.len(),
        None => 0,
    })
    &&& s.fetched_at == (match catalog_for(loaded, id) {
        Some(c) => Some(c.fetched_at),
        None => None,
    })
    &&& s.tracked_repos@ == (if id == SourceId::GitHub {
        settings.github_repos@
    } else {
        Seq::empty()
    })
}

/// The status row for one source.
pub fn source_status(settings: &Settings, catalogs: &Catalogs, id: SourceId) -> (r: SourceStatus)
    requires
        catalogs.wf(),
    ensures
        status_row(r, id, *settings, catalogs@),
{
    let key = match id {
        SourceId::CurseForge => &settings.curseforge_api_key,
        SourceId::Wago => &settings.wago_token,
        SourceId::GitHub => &None,
    };
    let key_saved = match key {
        Some(k) => trim_str(k.as_str()).len() > 0,
        None => false,
    };
    let found = catalogs.get(id);
    let addon_count = match found {
        Some(c) => c.addons.len(),
        None => 0,
    };
    let fetched_at = match found {
        Some(c) => Some(c.fetched_at.clone()),
        None => None,
    };
    let tracked_repos = match id {
        SourceId::GitHub => settings.github_repos.clone(),
        _ => Vec::new(),
    };
    assert(tracked_repos@ =~= (if id == SourceId::GitHub {
        settings.github_repos@
    } else {
        Seq::empty()
    }));
    SourceStatus {
        id,
        name: id.display_name(),
        site_url: id.site_url(),
        enabled: settings.is_enabled(id),
        requires_api_key: id.requires_api_key(),
        api_key_configured: id.requires_api_key() && key_saved,
        addon_count,
        fetched_at,
        tracked_repos,
    }
}

/// The whole status. `install_check` is what opening the configured client
/// gave: `None` when no path is configured, else the reason it failed, if
/// it did.
pub fn app_status(settings: &Settings, catalogs: &Catalogs, install_check: Option<Result<(), String>>) -> (r: AppStatus)
    requires
        catalogs.wf(),
    ensures
        r.client_path == settings.client_path,
        r.install_valid == (install_check matches Some(Ok(_))),
        r.install_error == (match install_check {
            Some(Err(e)) => Some(e),
            _ => None,
        }),
        r.sources@.len() == all_sources().len(),
        forall|i: int|
            0 <= i < r.sources@.len() ==> status_row(#[trigger] r.sources@[i], all_sources()[i], *settings, catalogs@),
{
    let (install_valid, install_error) = match install_check {
        None => (false, None),
        Some(Ok(())) => (true, None),
        Some(Err(e)) => (false, Some(e)),
    };
    let ids = SourceId::all();
    let mut sources: Vec<SourceStatus> = Vec::new();
    let mut i: usize = 0;
    while i < ids.len()
        invariant
            i <= ids@.len(),
            ids@ == all_sources(),
            catalogs.wf(),
            sources@.len() == i,
            forall|k: int| 0 <= k < i ==> status_row(#[trigger] sources@[k], all_sources()[k], *settings, catalogs@),
        decreases ids.len() - i,
    {
        sources.push(source_status(settings, catalogs, ids[i]));
        i += 1;
    }
    AppStatus { client_path: settings.client_path.clone(), install_valid, install_error, sources }
}

/// Reads the repository a user asked to track, or refuses it with the shape
/// it expected.
pub fn github_repo_request(repo: String) -> (r: Result<RepoSlug, AppError>)
    ensures
        match parse_slug(repo@) {
            Some(s) => r matches Ok(slug) && slug@ == s,
            None => r matches Err(AppError::SourceShape { source_id, url, expected, reason }) && source_id
                == SourceId::GitHub && url == repo && expected@ == "an owner/name repository or a github.com URL"@
                && reason@ == "could not read an owner and repository name out of it"@,
        },
{
    match RepoSlug::parse(repo.as_str()) {
        Some(slug) => Ok(slug),
        None => Err(
            AppError::SourceShape {
                source_id: SourceId::GitHub,
                url: repo,
                expected: "an owner/name repository or a github.com URL",
                reason: "could not read an owner and repository name out of it".to_owned(),
            },
        ),
    }
}

} // verus!
