//! Installing, upgrading, and removing addons in the client's AddOns
//! directory: which downloads can be installed, where an archive's files go,
//! which folders an upgrade or an uninstall clears, and what is recorded.

pub mod archive;
pub mod manifest;
pub mod run;

use vstd::prelude::*;

use crate::domain::addon::{installable, AddonId, AddonSummary, Download};
use crate::domain::folder::AddonFolder;
use crate::domain::source_id::SourceId;
use crate::error::AppError;
use crate::install::archive::{destination_of, folder_views, ArchivePlan};
use crate::install::manifest::InstalledRecord;
use crate::picking::{first_where, lemma_first_where_at, lemma_first_where_none};
use crate::text::{chars_eq, chars_of, ends_with_chars, has_prefix, has_suffix, string_of, trim, trim_str};
use crate::wow::{join_path, path_join};

verus! {

/// Where an install has got to, for the UI's progress bar.
#[derive(Debug, PartialEq, Eq)]
pub enum InstallStage {
    /// Asking the source for a download URL.
    Resolving,
    Downloading {
        received: u64,
        /// Absent when the server sends no `Content-Length`.
        total: Option<u64>,
    },
    Extracting,
    Installed { folders: Vec<AddonFolder> },
}

#[derive(Debug, PartialEq, Eq)]
pub struct InstallProgress {
    pub addon_id: AddonId,
    pub stage: InstallStage,
}

/// The error an install stops with before any request, for a download this
/// build cannot obtain.
pub open spec fn refusal_of(summary: AddonSummary, r: Result<(), AppError>) -> bool {
    match summary.download {
        Download::Unsupported { format, .. } => r matches Err(AppError::UnsupportedArchive { addon_id, format: f })
            && addon_id == summary.id && f == format,
        Download::External { .. } => r == Err::<(), AppError>(AppError::ExternalDownloadOnly { addon_id: summary.id }),
        _ => r is Ok,
    }
}

/// Refuses, before anything is downloaded, an addon whose archive this build
/// cannot obtain.
pub fn check_installable(summary: &AddonSummary) -> (r: Result<(), AppError>)
    ensures
        refusal_of(*summary, r),
        r is Ok <==> installable(summary.download),
{
    match &summary.download {
        Download::Unsupported { format, .. } => Err(
            AppError::UnsupportedArchive { addon_id: summary.id.clone(), format: format.clone() },
        ),
        Download::External { .. } => Err(AppError::ExternalDownloadOnly { addon_id: summary.id.clone() }),
        Download::Direct { .. } | Download::Brokered => Ok(()),
    }
}

/// A character that ends a URL's host. A backslash counts: URL parsers read
/// it as `/` in an `https` URL, so the host really ends there.
pub open spec fn ends_host(c: char) -> bool {
    c == '/' || c == '?' || c == '#' || c == '\\'
}

/// The host of an `https://` URL, or `None` for any other scheme.
pub open spec fn https_host(url: Seq<char>) -> Option<Seq<char>> {
    if !has_prefix(url, "https://"@) {
        None
    } else {
        let rest = url.skip("https://"@.len() as int);
        match first_where(rest, |c: char| ends_host(c)) {
            Some(i) => Some(rest.take(i)),
            None => Some(rest),
        }
    }
}

/// One of CurseForge's own hosts: its API and its forgecdn download CDN.
pub open spec fn curseforge_host(host: Seq<char>) -> bool {
    ||| host == "curseforge.com"@
    ||| has_suffix(host, ".curseforge.com"@)
    ||| host == "forgecdn.net"@
    ||| has_suffix(host, ".forgecdn.net"@)
}

/// True for URLs on CurseForge's own hosts, the only places the user's API
/// key may be sent.
pub fn is_curseforge_host(url: &str) -> (r: bool)
    ensures
        r == (https_host(url@) matches Some(h) && curseforge_host(h)),
{
    let chars = chars_of(url);
    let scheme = chars_of("https://");
    if !crate::text::starts_with_chars(chars.as_slice(), scheme.as_slice()) {
        return false;
    }
    let rest = crate::text::slice_chars(chars.as_slice(), scheme.len(), chars.len());
    let i = host_end(rest.as_slice());
    proof {
        if first_where(rest@, |c: char| ends_host(c)) is None {
            assert(rest@.take(i as int) =~= rest@);
        }
    }
    let host = crate::text::slice_chars(rest.as_slice(), 0, i);
    let bare = chars_of("curseforge.com");
    let sub = chars_of(".curseforge.com");
    let cdn = chars_of("forgecdn.net");
    let cdn_sub = chars_of(".forgecdn.net");
    chars_eq(host.as_slice(), bare.as_slice()) || ends_with_chars(host.as_slice(), sub.as_slice())
        || chars_eq(host.as_slice(), cdn.as_slice()) || ends_with_chars(host.as_slice(), cdn_sub.as_slice())
}

/// Where the host ends in what follows `https://`.
fn host_end(rest: &[char]) -> (r: usize)
    ensures
        r <= rest@.len(),
        match first_where(rest@, |c: char| ends_host(c)) {
            Some(i) => r == i,
            None => r == rest@.len(),
        },
{
    let ghost stop = |c: char| ends_host(c);
    let mut i: usize = 0;
    while i < rest.len()
        invariant
            i <= rest@.len(),
            stop == (|c: char| ends_host(c)),
            forall|j: int| 0 <= j < i ==> !stop(#[trigger] rest@[j]),
        decreases rest.len() - i,
    {
        let c = rest[i];
        if c == '/' || c == '?' || c == '#' || c == '\\' {
            proof {
                lemma_first_where_at(rest@, stop, i as int);
            }
            return i;
        }
        i += 1;
    }
    proof {
        lemma_first_where_none(rest@, stop);
    }
    i
}

/// The user's CurseForge key may be sent with this download.
pub open spec fn key_may_go_to(source: SourceId, url: Seq<char>) -> bool {
    source == SourceId::CurseForge && (https_host(url) matches Some(h) && curseforge_host(h))
}

/// The `x-api-key` header value a download request carries: the trimmed
/// key, on CurseForge downloads from CurseForge's own hosts only, so the key
/// cannot leak to a third-party download server.
pub fn download_api_key(source: SourceId, url: &str, key: Option<&str>) -> (r: Option<String>)
    ensures
        match r {
            Some(v) => key_may_go_to(source, url@) && (key matches Some(k) && v@ == trim(k@)),
            None => !(key_may_go_to(source, url@) && key is Some),
        },
{
    if source == SourceId::CurseForge && is_curseforge_host(url) {
        match key {
            Some(k) => Some(string_of(trim_str(k).as_slice())),
            None => None,
        }
    } else {
        None
    }
}

/// The byte count after one more chunk of a download.
pub fn received_after(received: u64, chunk_len: usize) -> (r: u64)
    requires
        received + chunk_len <= u64::MAX,
    ensures
        r == received + chunk_len,
{
    received + chunk_len as u64
}

/// How much room to reserve for a download: the announced size, capped at
/// 16 MiB so a lying header cannot reserve the machine's memory.
pub fn download_capacity(total: Option<u64>) -> (r: usize)
    ensures
        r == (match total {
            Some(t) => if t < 16 * 1024 * 1024 {
                t as int
            } else {
                16 * 1024 * 1024int
            },
            None => 0int,
        }),
{
    match total {
        Some(t) => if t < 16 * 1024 * 1024 {
            t as usize
        } else {
            16 * 1024 * 1024
        },
        None => 0,
    }
}

/// The folders an install clears before extracting: the addon's previous
/// folders first, so an upgrade that renames or drops a folder does not leave
/// the old one loading alongside the new, then every folder the archive
/// brings.
pub fn folders_to_clear(previous: &[AddonFolder], plan: &ArchivePlan) -> (r: Vec<AddonFolder>)
    ensures
        folder_views(r@) == folder_views(previous@) + plan@.folders,
{
    let mut out: Vec<AddonFolder> = Vec::new();
    let mut i: usize = 0;
    while i < previous.len()
        invariant
            i <= previous@.len(),
            folder_views(out@) == folder_views(previous@.take(i as int)),
        decreases previous.len() - i,
    {
        let ghost before = out@;
        out.push(previous[i].clone());
        assert(out@ == before.push(previous@[i as int]));
        assert(previous@.take(i + 1) =~= previous@.take(i as int).push(previous@[i as int]));
        assert(folder_views(before.push(previous@[i as int])) =~= folder_views(before).push(previous@[i as int]@));
        assert(folder_views(previous@.take(i as int).push(previous@[i as int])) =~= folder_views(previous@.take(i as int)).push(previous@[i as int]@));
        i += 1;
    }
    assert(previous@.take(previous@.len() as int) =~= previous@);
    let ours = plan.folders();
    let mut k: usize = 0;
    while k < ours.len()
        invariant
            k <= ours@.len(),
            folder_views(ours@) == plan@.folders,
            folder_views(out@) == folder_views(previous@) + folder_views(ours@.take(k as int)),
        decreases ours.len() - k,
    {
        let ghost before = out@;
        out.push(ours[k].clone());
        assert(out@ == before.push(ours@[k as int]));
        assert(ours@.take(k + 1) =~= ours@.take(k as int).push(ours@[k as int]));
        assert(folder_views(before.push(ours@[k as int])) =~= folder_views(before).push(ours@[k as int]@));
        assert(folder_views(ours@.take(k as int).push(ours@[k as int])) =~= folder_views(ours@.take(k as int)).push(ours@[k as int]@));
        assert(folder_views(out@) =~= folder_views(previous@) + folder_views(ours@.take(k + 1)));
        k += 1;
    }
    assert(ours@.take(ours@.len() as int) =~= ours@);
    out
}

/// Where one addon folder lives: one validated folder name deep inside the
/// AddOns directory, the only place a delete ever reaches.
pub fn folder_path(addons_dir: &str, folder: &AddonFolder) -> (r: String)
    ensures
        r@ == path_join(addons_dir@, folder@),
{
    join_path(addons_dir, folder.as_str())
}

/// Where an archive entry is written, or `None` for an entry the plan
/// leaves out.
pub fn entry_path(addons_dir: &str, plan: &ArchivePlan, entry: &str) -> (r: Option<String>)
    ensures
        match destination_of(plan@, entry@) {
            Some(d) => r matches Some(p) && p@ == path_join(addons_dir@, d),
            None => r is None,
        },
{
    match plan.destination(entry) {
        Some(relative) => Some(join_path(addons_dir, relative.as_str())),
        None => None,
    }
}

/// The directories an uninstall removes: exactly the folders this
/// application recorded for the addon, so an addon the user unpacked by hand
/// into the same directory is never caught.
pub fn uninstall_paths(addons_dir: &str, record: &InstalledRecord) -> (r: Vec<String>)
    ensures
        r@.len() == record.folders@.len(),
        forall|i: int|
            0 <= i < r@.len() ==> (#[trigger] r@[i])@ == path_join(addons_dir@, record.folders@[i]@),
{
    let mut out: Vec<String> = Vec::new();
    let mut i: usize = 0;
    while i < record.folders.len()
        invariant
            i <= record.folders@.len(),
            out@.len() == i,
            forall|k: int| 0 <= k < i ==> (#[trigger] out@[k])@ == path_join(addons_dir@, record.folders@[k]@),
        decreases record.folders.len() - i,
    {
        out.push(folder_path(addons_dir, &record.folders[i]));
        i += 1;
    }
    out
}

/// The record an install leaves: what the catalog said of the addon, the
/// folders now on disk, and when.
pub fn installed_record(summary: &AddonSummary, folders: Vec<AddonFolder>, installed_at: String) -> (r: InstalledRecord)
    ensures
        r.id == summary.id,
        r.name == summary.name,
        r.version == summary.version,
        r.folders@ == folders@,
        r.page_url == summary.page_url,
        r.installed_at == installed_at,
{
    InstalledRecord {
        id: summary.id.clone(),
        name: summary.name.clone(),
        version: summary.version.clone(),
        folders,
        page_url: summary.page_url.clone(),
        installed_at,
    }
}

/// A progress report for one addon.
pub fn progress(addon_id: &AddonId, stage: InstallStage) -> (r: InstallProgress)
    ensures
        r.addon_id == *addon_id,
        r.stage == stage,
{
    InstallProgress { addon_id: addon_id.clone(), stage }
}

} // verus!
