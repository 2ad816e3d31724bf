//! Projections the UI renders: what is installed, where it came from, and
//! whether the source has something newer.

use vstd::prelude::*;

use crate::catalog::{first_with_id, Catalog};
use crate::domain::addon::{AddonId, AddonSummary};
use crate::domain::folder::folder_key;
use crate::domain::version::{has_v_mark, versions_match, AddonVersion};
use crate::text::eq_ignore_ascii_case;
use crate::install::manifest::{
    first_owner, lemma_first_owner, owns_key, same_record, InstalledRecord, Manifest,
};
use crate::text::{chars_le, chars_of, seq_le};
use crate::wow::scan::InstalledFolder;

verus! {

/// Whether a source offers a newer build than the one on disk.
///
/// Versions are the clearest answer but not always available. Every source
/// does publish when it last changed an addon, so a source change after the
/// install date is the fallback signal.
#[derive(Debug, PartialEq, Eq)]
pub enum UpdateStatus {
    UpToDate,
    Available { latest: AddonVersion },
    /// No versions to compare, but the source published a change after this
    /// copy was installed.
    SourceChanged { updated_at: String },
    /// Neither signal is available: the catalog has not been refreshed, or the
    /// source publishes neither a version nor a modification date. Saying so is
    /// more useful than claiming an addon is current.
    Unknown,
}

impl Clone for UpdateStatus {
    fn clone(&self) -> (r: Self)
        ensures
            r == *self,
    {
        match self {
            UpdateStatus::UpToDate => UpdateStatus::UpToDate,
            UpdateStatus::Available { latest } => UpdateStatus::Available { latest: latest.clone() },
            UpdateStatus::SourceChanged { updated_at } => UpdateStatus::SourceChanged {
                updated_at: updated_at.clone(),
            },
            UpdateStatus::Unknown => UpdateStatus::Unknown,
        }
    }
}

/// `status` is what an addon installed as `record` shows, given the version
/// the source publishes and when the source last changed it. A version
/// comparison wins over dates; timestamps are RFC 3339 in UTC, so they order
/// as text.
pub open spec fn status_is(
    status: UpdateStatus,
    record: InstalledRecord,
    latest: Option<AddonVersion>,
    source_updated: Option<Seq<char>>,
) -> bool {
    match (record.version, latest) {
        (Some(installed), Some(l)) => if versions_match(installed@, l@) {
            status is UpToDate
        } else {
            status == (UpdateStatus::Available { latest: l })
        },
        _ => match source_updated {
            None => status is Unknown,
            Some(u) => if !seq_le(u, record.installed_at@) {
                status matches UpdateStatus::SourceChanged { updated_at } && updated_at@ == u
            } else {
                status is UpToDate
            },
        },
    }
}

/// One addon this application installed.
#[derive(Debug, PartialEq, Eq)]
pub struct ManagedAddon {
    pub record: InstalledRecord,
    /// The recorded folders as they are on disk right now.
    pub folders: Vec<InstalledFolder>,
    /// False once a user has deleted the folders by hand.
    pub present: bool,
    pub update: UpdateStatus,
}

/// The installed tab: managed addons, plus whatever else is in the directory.
#[derive(Debug, PartialEq, Eq)]
pub struct InstalledView {
    pub managed: Vec<ManagedAddon>,
    /// Folders no record claims: addons the user unpacked themselves. They are
    /// listed so the view matches the directory, and never touched.
    pub unmanaged: Vec<InstalledFolder>,
}

impl Default for InstalledView {
    fn default() -> (r: Self)
        ensures
            r.managed@.len() == 0,
            r.unmanaged@.len() == 0,
    {
        InstalledView { managed: Vec::new(), unmanaged: Vec::new() }
    }
}

/// The entry the first catalog that lists this addon publishes for it.
pub open spec fn published(catalogs: Seq<Catalog>, id: AddonId) -> Option<AddonSummary>
    decreases catalogs.len(),
{
    if catalogs.len() == 0 {
        None
    } else {
        match first_with_id(catalogs[0].addons@, id) {
            Some(i) => Some(catalogs[0].addons@[i]),
            None => published(catalogs.drop_first(), id),
        }
    }
}

pub open spec fn published_version(p: Option<AddonSummary>) -> Option<AddonVersion> {
    match p {
        Some(a) => a.version,
        None => None,
    }
}

pub open spec fn published_change(p: Option<AddonSummary>) -> Option<Seq<char>> {
    match p {
        Some(a) => match a.updated_at {
            Some(u) => Some(u@),
            None => None,
        },
        None => None,
    }
}

/// The scanned folders a record owns, matched on folder key.
pub open spec fn folders_of(record: InstalledRecord, scanned: Seq<InstalledFolder>) -> Seq<InstalledFolder> {
    scanned.filter(|f: InstalledFolder| owns_key(record, folder_key(f.folder@)))
}

/// The scanned folders no record owns.
pub open spec fn unclaimed(records: Seq<InstalledRecord>, scanned: Seq<InstalledFolder>) -> Seq<InstalledFolder> {
    scanned.filter(|f: InstalledFolder| first_owner(records, folder_key(f.folder@)) is None)
}

/// `m` is the installed tab's row for `record`.
pub open spec fn managed_row(
    m: ManagedAddon,
    record: InstalledRecord,
    scanned: Seq<InstalledFolder>,
    catalogs: Seq<Catalog>,
) -> bool {
    &&& same_record(record, m.record)
    &&& m.folders@ == folders_of(record, scanned)
    &&& m.present == (m.folders@.len() > 0)
    &&& status_is(
        m.update,
        record,
        published_version(published(catalogs, record.id)),
        published_change(published(catalogs, record.id)),
    )
}

/// Joins the AddOns directory, the manifest, and the catalogs into one view.
pub fn build(scanned: Vec<InstalledFolder>, manifest: &Manifest, catalogs: &[Catalog]) -> (r: InstalledView)
    ensures
        r.managed@.len() == manifest.records_seq().len(),
        forall|i: int|
            0 <= i < r.managed@.len() ==> managed_row(
                #[trigger] r.managed@[i],
                manifest.records_seq()[i],
                scanned@,
                catalogs@,
            ),
        r.unmanaged@ == unclaimed(manifest.records_seq(), scanned@),
{
    let records = manifest.records();
    let mut managed: Vec<ManagedAddon> = Vec::new();
    let mut i: usize = 0;
    while i < records.len()
        invariant
            i <= records@.len(),
            records@ == manifest.records_seq(),
            managed@.len() == i,
            forall|k: int|
                0 <= k < i ==> managed_row(#[trigger] managed@[k], records@[k], scanned@, catalogs@),
        decreases records.len() - i,
    {
        let row = managed_addon(&records[i], scanned.as_slice(), catalogs);
        managed.push(row);
        i += 1;
    }
    let ghost s = scanned@;
    let ghost pred = |f: InstalledFolder| first_owner(manifest.records_seq(), folder_key(f.folder@)) is None;
    let mut unmanaged: Vec<InstalledFolder> = Vec::new();
    let mut rest = scanned;
    let n = rest.len();
    let mut j: usize = 0;
    proof {
        reveal(Seq::filter);
        assert(s.take(0) =~= Seq::<InstalledFolder>::empty());
    }
    while j < n
        invariant
            j <= n,
            n == s.len(),
            rest@ == s.skip(j as int),
            pred == (|f: InstalledFolder| first_owner(manifest.records_seq(), folder_key(f.folder@)) is None),
            unmanaged@ == s.take(j as int).filter(pred),
        decreases n - j,
    {
        let found = rest.remove(0);
        assert(found == s[j as int]);
        assert(s.take(j + 1) =~= s.take(j as int).push(found));
        assert(rest@ =~= s.skip(j + 1));
        proof {
            s.take(j as int).lemma_filter_push(found, pred);
        }
        if manifest.owner_of(&found.folder).is_none() {
            unmanaged.push(found);
        }
        j += 1;
    }
    assert(s.take(n as int) =~= s);
    InstalledView { managed, unmanaged }
}

/// The installed tab's row for one record.
pub fn managed_addon(record: &InstalledRecord, scanned: &[InstalledFolder], catalogs: &[Catalog]) -> (r: ManagedAddon)
    ensures
        managed_row(r, *record, scanned@, catalogs@),
{
    let ghost pred = |f: InstalledFolder| owns_key(*record, folder_key(f.folder@));
    let mut folders: Vec<InstalledFolder> = Vec::new();
    let mut i: usize = 0;
    proof {
        reveal(Seq::filter);
        assert(scanned@.take(0) =~= Seq::<InstalledFolder>::empty());
    }
    while i < scanned.len()
        invariant
            i <= scanned@.len(),
            pred == (|f: InstalledFolder| owns_key(*record, folder_key(f.folder@))),
            folders@ == scanned@.take(i as int).filter(pred),
        decreases scanned.len() - i,
    {
        let found = &scanned[i];
        assert(scanned@.take(i + 1) =~= scanned@.take(i as int).push(*found));
        proof {
            scanned@.take(i as int).lemma_filter_push(*found, pred);
        }
        if owns_folder(record, found) {
            folders.push(found.clone());
        }
        i += 1;
    }
    assert(scanned@.take(scanned@.len() as int) =~= scanned@);
    let entry = find_published(catalogs, &record.id);
    let latest: Option<&AddonVersion> = match entry {
        Some(a) => a.version.as_ref(),
        None => None,
    };
    let changed: Option<&str> = match entry {
        Some(a) => match &a.updated_at {
            Some(u) => Some(u.as_str()),
            None => None,
        },
        None => None,
    };
    let update = update_status(record, latest, changed);
    let present = folders.len() > 0;
    ManagedAddon { update, present, folders, record: record.clone() }
}

/// Whether a record owns this scanned folder, matched on folder key.
fn owns_folder(record: &InstalledRecord, found: &InstalledFolder) -> (r: bool)
    ensures
        r == owns_key(*record, folder_key(found.folder@)),
{
    let mut k: usize = 0;
    while k < record.folders.len()
        invariant
            k <= record.folders@.len(),
            forall|j: int|
                0 <= j < k ==> folder_key((#[trigger] record.folders@[j])@) != folder_key(found.folder@),
        decreases record.folders.len() - k,
    {
        if record.folders[k].same_folder(&found.folder) {
            return true;
        }
        k += 1;
    }
    false
}

/// The entry the first catalog listing this addon publishes for it.
pub fn find_published<'a>(catalogs: &'a [Catalog], id: &AddonId) -> (r: Option<&'a AddonSummary>)
    ensures
        match r {
            Some(a) => published(catalogs@, *id) == Some(*a),
            None => published(catalogs@, *id) is None,
        },
{
    let mut c: usize = 0;
    assert(catalogs@.subrange(0, catalogs@.len() as int) =~= catalogs@);
    while c < catalogs.len()
        invariant
            c <= catalogs@.len(),
            published(catalogs@, *id) == published(catalogs@.subrange(c as int, catalogs@.len() as int), *id),
        decreases catalogs.len() - c,
    {
        let ghost rest = catalogs@.subrange(c as int, catalogs@.len() as int);
        assert(rest[0] == catalogs@[c as int]);
        assert(rest.drop_first() =~= catalogs@.subrange(c + 1, catalogs@.len() as int));
        if let Some(found) = catalogs[c].find(id) {
            return Some(found);
        }
        c += 1;
    }
    None
}

/// What an addon installed as `record` shows, given what the source publishes.
pub fn update_status(
    record: &InstalledRecord,
    latest: Option<&AddonVersion>,
    source_updated: Option<&str>,
) -> (r: UpdateStatus)
    ensures
        status_is(
            r,
            *record,
            match latest {
                Some(v) => Some(*v),
                None => None,
            },
            match source_updated {
                Some(u) => Some(u@),
                None => None,
            },
        ),
{
    if let (Some(installed), Some(latest)) = (record.version.as_ref(), latest) {
        if installed.matches(latest) {
            return UpdateStatus::UpToDate;
        } else {
            return UpdateStatus::Available { latest: latest.clone() };
        }
    }
    let source_updated = match source_updated {
        Some(u) => u,
        None => {
            return UpdateStatus::Unknown;
        },
    };
    let changed = chars_of(source_updated);
    let installed_at = chars_of(record.installed_at.as_str());
    if !chars_le(changed.as_slice(), installed_at.as_slice()) {
        return UpdateStatus::SourceChanged { updated_at: source_updated.to_owned() };
    }
    UpdateStatus::UpToDate
}

/// Every folder on disk shows up in the installed tab: under the addon that
/// owns it, or among the folders the user added.
pub proof fn law_every_folder_is_listed(
    records: Seq<InstalledRecord>,
    scanned: Seq<InstalledFolder>,
    f: int,
)
    requires
        0 <= f < scanned.len(),
    ensures
        unclaimed(records, scanned).contains(scanned[f]) || exists|i: int|
            0 <= i < records.len() && #[trigger] folders_of(records[i], scanned).contains(scanned[f]),
{
    let key = folder_key(scanned[f].folder@);
    let unowned = |x: InstalledFolder| first_owner(records, folder_key(x.folder@)) is None;
    match first_owner(records, key) {
        None => {
            scanned.lemma_filter_contains(unowned, f);
        },
        Some(i) => {
            let owned = |x: InstalledFolder| owns_key(records[i], folder_key(x.folder@));
            let o = choose|o: int| 0 <= o < records.len() && owns_key(#[trigger] records[o], key);
            lemma_first_owner(records, key, o);
            scanned.lemma_filter_contains(owned, f);
            assert(folders_of(records[i], scanned).contains(scanned[f]));
        },
    }
}

/// A folder the user added is never attributed to a managed addon.
pub proof fn law_unclaimed_folders_have_no_owner(
    records: Seq<InstalledRecord>,
    scanned: Seq<InstalledFolder>,
    k: int,
    i: int,
)
    requires
        0 <= k < unclaimed(records, scanned).len(),
        0 <= i < records.len(),
    ensures
        !folders_of(records[i], scanned).contains(unclaimed(records, scanned)[k]),
{
    let unowned = |x: InstalledFolder| first_owner(records, folder_key(x.folder@)) is None;
    let owned = |x: InstalledFolder| owns_key(records[i], folder_key(x.folder@));
    let f = unclaimed(records, scanned)[k];
    scanned.lemma_filter_pred(unowned, k);
    if folders_of(records[i], scanned).contains(f) {
        let j = choose|j: int| 0 <= j < folders_of(records[i], scanned).len() && folders_of(records[i], scanned)[j] == f;
        scanned.lemma_filter_pred(owned, j);
        assert(owns_key(records[i], folder_key(f.folder@)));
        assert(exists|w: int| 0 <= w < records.len() && owns_key(#[trigger] records[w], folder_key(f.folder@)));
    }
}

/// With both an installed and a published version, an addon is up to date
/// exactly when the two texts agree ignoring ASCII case, at most one leading
/// `v` or `V` before a digit set aside from each; otherwise the published
/// version is offered as an update.
pub proof fn law_differing_versions_offer_an_update(
    status: UpdateStatus,
    record: InstalledRecord,
    latest: AddonVersion,
    source_updated: Option<Seq<char>>,
)
    requires
        status_is(status, record, Some(latest), source_updated),
        record.version is Some,
    ensures
        status is UpToDate || status == (UpdateStatus::Available { latest }),
        status is UpToDate <==> exists|i: int, j: int|
            0 <= i <= 1 && 0 <= j <= 1 && (i == 1 ==> has_v_mark(record.version->Some_0@)) && (j == 1
                ==> has_v_mark(latest@)) && #[trigger] eq_ignore_ascii_case(
                record.version->Some_0@.skip(i),
                latest@.skip(j),
            ),
{
    crate::domain::version::law_versions_match_when_texts_agree_but_for_a_leading_v(
        record.version->Some_0@,
        latest@,
    );
}

} // verus!
