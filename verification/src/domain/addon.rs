//! Addon identities and the shapes sources describe addons in.

use vstd::prelude::*;

use crate::domain::expansion::Expansion;
use crate::domain::source_id::{slug_of, SourceId};
use crate::domain::version::AddonVersion;
use crate::text::{chars_of, string_of, trim, trimmed_string};

verus! {

/// A source-local identifier, trimmed and non-empty, opaque to everything but
/// the source that minted it: a mod id on CurseForge, an addon id on Wago,
/// `owner/name` on GitHub.
#[derive(Debug, PartialEq, Eq, Hash, PartialOrd, Ord)]
pub struct AddonKey(String);

impl View for AddonKey {
    type V = Seq<char>;

    closed spec fn view(&self) -> Seq<char> {
        self.0@
    }
}

impl Clone for AddonKey {
    fn clone(&self) -> (r: Self)
        ensures
            r == *self,
    {
        AddonKey(self.0.clone())
    }
}

impl AddonKey {
    /// `None` for a blank key; otherwise the trimmed text.
    pub fn new(raw: &str) -> (r: Option<AddonKey>)
        ensures
            r is Some <==> trim(raw@).len() > 0,
            r matches Some(k) ==> k@ == trim(raw@),
    {
        let trimmed = trimmed_string(raw);
        if trimmed.as_str().is_empty() {
            None
        } else {
            Some(AddonKey(trimmed))
        }
    }

    pub fn as_str(&self) -> (r: &str)
        ensures
            r@ == self@,
    {
        self.0.as_str()
    }

    pub fn to_string(&self) -> (r: String)
        ensures
            r@ == self@,
    {
        self.0.clone()
    }

    pub fn same_key(&self, other: &AddonKey) -> (r: bool)
        ensures
            r == (self@ == other@),
    {
        self.0 == other.0
    }
}

/// An addon's identity across the whole application: which source, and which
/// addon within it. Two sources hosting "Bagnon" are two distinct addons.
#[derive(Debug, PartialEq, Eq, Hash, PartialOrd, Ord)]
pub struct AddonId {
    pub source: SourceId,
    pub key: AddonKey,
}

impl Clone for AddonId {
    fn clone(&self) -> (r: Self)
        ensures
            r == *self,
    {
        AddonId { source: self.source, key: self.key.clone() }
    }
}

/// `source:key`, the rendered form of an id.
pub open spec fn id_text(id: AddonId) -> Seq<char> {
    slug_of(id.source) + seq![':'] + id.key@
}

/// Two ids name one addon.
pub open spec fn same_addon(a: AddonId, b: AddonId) -> bool {
    a.source == b.source && a.key@ == b.key@
}

impl AddonId {
    pub fn new(source: SourceId, key: AddonKey) -> (r: AddonId)
        ensures
            r.source == source,
            r.key == key,
    {
        AddonId { source, key }
    }

    /// Renders the id as `source:key`, e.g. `curseforge:6572`.
    pub fn to_string(&self) -> (r: String)
        ensures
            r@ == id_text(*self),
    {
        let mut v = chars_of(self.source.slug());
        v.push(':');
        let key = chars_of(self.key.as_str());
        let mut i: usize = 0;
        let ghost head = v@;
        while i < key.len()
            invariant
                i <= key.len(),
                v@ == head + key@.take(i as int),
            decreases key.len() - i,
        {
            v.push(key[i]);
            i += 1;
            assert(v@ =~= head + key@.take(i as int));
        }
        assert(key@.take(key.len() as int) =~= key@);
        assert(v@ =~= id_text(*self));
        string_of(v.as_slice())
    }

    pub fn same_id(&self, other: &AddonId) -> (r: bool)
        ensures
            r == same_addon(*self, *other),
    {
        self.source == other.source && self.key.same_key(&other.key)
    }
}

/// Rendering is faithful: two ids render alike exactly when they name one
/// addon.
pub proof fn law_rendered_ids_identify_addons(a: AddonId, b: AddonId)
    ensures
        id_text(a) == id_text(b) <==> same_addon(a, b),
{
    reveal_strlit("curseforge");
    reveal_strlit("wago");
    reveal_strlit("github");
    if id_text(a) == id_text(b) {
        let la = slug_of(a.source).len() as int;
        let lb = slug_of(b.source).len() as int;
        assert(id_text(a)[la] == ':');
        assert(id_text(b)[lb] == ':');
        if a.source != b.source {
            assert(id_text(a)[0] == slug_of(a.source)[0]);
            assert(id_text(b)[0] == slug_of(b.source)[0]);
            assert(id_text(a)[1] == slug_of(a.source)[1]);
            assert(id_text(b)[1] == slug_of(b.source)[1]);
        }
        assert(a.source == b.source);
        assert(a.key@ =~= id_text(a).skip(la + 1));
        assert(b.key@ =~= id_text(b).skip(lb + 1));
    }
}

/// How the archive for an addon is obtained.
#[derive(Debug, PartialEq, Eq)]
pub enum Download {
    /// A stable archive URL the source publishes in its own data.
    Direct { url: String },
    /// The source issues a short-lived URL bound to the requesting client, so
    /// it can only be resolved at install time.
    Brokered,
    /// The source publishes an archive in a format this build cannot open.
    Unsupported { url: String, format: String },
    /// The author distributes downloads only through the source's website.
    External { url: String },
}

impl Clone for Download {
    fn clone(&self) -> (r: Self)
        ensures
            r == *self,
    {
        match self {
            Download::Direct { url } => Download::Direct { url: url.clone() },
            Download::Brokered => Download::Brokered,
            Download::Unsupported { url, format } => Download::Unsupported {
                url: url.clone(),
                format: format.clone(),
            },
            Download::External { url } => Download::External { url: url.clone() },
        }
    }
}

#[derive(Debug, PartialEq, Eq)]
pub struct Screenshot {
    pub url: String,
}

impl Clone for Screenshot {
    fn clone(&self) -> (r: Self)
        ensures
            r == *self,
    {
        Screenshot { url: self.url.clone() }
    }
}

/// One catalog row: everything the browse list renders, and nothing that costs
/// an extra request to obtain.
#[derive(Debug, PartialEq, Eq)]
pub struct AddonSummary {
    pub id: AddonId,
    pub name: String,
    pub summary: String,
    pub author: Option<String>,
    pub version: Option<AddonVersion>,
    /// When the source last changed this addon, RFC 3339 in UTC.
    pub updated_at: Option<String>,
    pub icon_url: Option<String>,
    pub page_url: String,
    pub categories: Vec<String>,
    pub downloads: Option<u64>,
    /// Every game the source lists this addon under, unrecognised labels
    /// included.
    pub expansions: Vec<Expansion>,
    pub download: Download,
}

/// `b` carries exactly the data of `a`.
pub open spec fn same_summary(a: AddonSummary, b: AddonSummary) -> bool {
    &&& a.id == b.id
    &&& a.name == b.name
    &&& a.summary == b.summary
    &&& a.author == b.author
    &&& a.version == b.version
    &&& a.updated_at == b.updated_at
    &&& a.icon_url == b.icon_url
    &&& a.page_url == b.page_url
    &&& a.categories@ == b.categories@
    &&& a.downloads == b.downloads
    &&& a.expansions@ == b.expansions@
    &&& a.download == b.download
}

impl Clone for AddonSummary {
    fn clone(&self) -> (r: Self)
        ensures
            same_summary(*self, r),
    {
        AddonSummary {
            id: self.id.clone(),
            name: self.name.clone(),
            summary: self.summary.clone(),
            author: self.author.clone(),
            version: self.version.clone(),
            updated_at: self.updated_at.clone(),
            icon_url: self.icon_url.clone(),
            page_url: self.page_url.clone(),
            categories: self.categories.clone(),
            downloads: self.downloads,
            expansions: self.expansions.clone(),
            download: self.download.clone(),
        }
    }
}

/// Whether this build can obtain the addon's archive.
pub open spec fn installable(d: Download) -> bool {
    !(d is Unsupported || d is External)
}

impl AddonSummary {
    /// False when the archive cannot be obtained by this build: an archive
    /// format it cannot open, or an author who only distributes via their page.
    pub fn is_installable(&self) -> (r: bool)
        ensures
            r == installable(self.download),
    {
        match self.download {
            Download::Unsupported { .. } | Download::External { .. } => false,
            Download::Direct { .. } | Download::Brokered => true,
        }
    }
}

/// A catalog row plus the fields that require visiting the addon's own page.
#[derive(Debug, PartialEq, Eq)]
pub struct AddonDetail {
    pub summary: AddonSummary,
    pub description: String,
    pub website_url: Option<String>,
    pub screenshots: Vec<Screenshot>,
}

} // verus!
