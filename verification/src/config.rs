//! Persisted user settings.

use vstd::prelude::*;

use crate::domain::source_id::{all_sources, SourceId};
use crate::wow::{join_path, path_join};

verus! {

/// What the application remembers between launches.
#[derive(Debug, PartialEq, Eq)]
pub struct Settings {
    /// The client's product directory, as the user chose it. Stored
    /// unvalidated: a drive that is not mounted yet should not erase the
    /// setting.
    pub client_path: Option<String>,
    /// Sources the user wants in the catalog, in display order.
    pub enabled_sources: Vec<SourceId>,
    /// The user's key for the official CurseForge API; the CurseForge source
    /// cannot be queried without one.
    pub curseforge_api_key: Option<String>,
    /// The user's Wago Addons access token (self-serve, from account
    /// settings); the Wago source cannot be queried without one.
    pub wago_token: Option<String>,
    /// GitHub repositories tracked by hand as `owner/name`, in the order the
    /// user added them.
    pub github_repos: Vec<String>,
}

/// `b` carries exactly the data of `a`.
pub open spec fn same_settings(a: Settings, b: Settings) -> bool {
    &&& a.client_path == b.client_path
    &&& a.enabled_sources@ == b.enabled_sources@
    &&& a.curseforge_api_key == b.curseforge_api_key
    &&& a.wago_token == b.wago_token
    &&& a.github_repos@ == b.github_repos@
}

impl Clone for Settings {
    fn clone(&self) -> (r: Self)
        ensures
            same_settings(*self, r),
    {
        Settings {
            client_path: self.client_path.clone(),
            enabled_sources: self.enabled_sources.clone(),
            curseforge_api_key: self.curseforge_api_key.clone(),
            wago_token: self.wago_token.clone(),
            github_repos: self.github_repos.clone(),
        }
    }
}

impl Default for Settings {
    fn default() -> (r: Self)
        ensures
            r.client_path is None,
            r.enabled_sources@ == all_sources(),
            r.curseforge_api_key is None,
            r.wago_token is None,
            r.github_repos@.len() == 0,
    {
        Settings {
            client_path: None,
            enabled_sources: default_sources(),
            curseforge_api_key: None,
            wago_token: None,
            github_repos: Vec::new(),
        }
    }
}

/// Every source, which is what a first launch enables.
pub fn default_sources() -> (r: Vec<SourceId>)
    ensures
        r@ == all_sources(),
{
    SourceId::all()
}

impl Settings {
    pub fn is_enabled(&self, source: SourceId) -> (r: bool)
        ensures
            r == self.enabled_sources@.contains(source),
    {
        let mut k: usize = 0;
        while k < self.enabled_sources.len()
            invariant
                k <= self.enabled_sources@.len(),
                forall|j: int| 0 <= j < k ==> self.enabled_sources@[j] != source,
            decreases self.enabled_sources.len() - k,
        {
            if self.enabled_sources[k] == source {
                assert(self.enabled_sources@[k as int] == source);
                return true;
            }
            k += 1;
        }
        false
    }
}

/// Where the settings live inside the application's data directory.
pub fn settings_path(data_dir: &str) -> (r: String)
    ensures
        r@ == path_join(data_dir@, "settings.json"@),
{
    join_path(data_dir, "settings.json")
}

} // verus!
