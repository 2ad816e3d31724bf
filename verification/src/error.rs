//! Every failure the application boundary can report to the UI.

use vstd::prelude::*;

use crate::domain::addon::{id_text, AddonId};
use crate::domain::source_id::{display_name_of, SourceId};
use crate::text::{append_chars, append_str, decimal, decimal_chars, string_of};

verus! {

/// Every failure the application boundary can report to the UI.
///
/// Variants carry the identifying context a user or a bug report needs: which
/// source, which addon, which path. [`AppError::to_string`] renders what
/// reaches the frontend, so it reads as a sentence. Paths are carried as the
/// text the user sees.
#[derive(Debug)]
pub enum AppError {
    NoInstallConfigured,
    InvalidInstall { path: String, reason: String },
    SourceRequest { source_id: SourceId, url: String, reason: String },
    SourceStatus { source_id: SourceId, url: String, status: u16 },
    SourceShape { source_id: SourceId, url: String, expected: &'static str, reason: String },
    MissingApiKey { source_id: SourceId },
    NoForeverDownload { addon_id: AddonId },
    ExternalDownloadOnly { addon_id: AddonId },
    UnsupportedArchive { addon_id: AddonId, format: String },
    UnknownAddon { addon_id: AddonId },
    ArchiveHasNoAddon { addon_id: AddonId },
    ArchiveUnsafePath { addon_id: AddonId, entry: String },
    ArchiveUnreadable { addon_id: AddonId, reason: String },
    NotInstalled { addon_id: AddonId },
    Io { action: &'static str, path: String, reason: String },
    Persist { action: &'static str, path: String, reason: String },
}

/// The sentence an error renders as.
pub open spec fn message_of(e: AppError) -> Seq<char> {
    match e {
        AppError::NoInstallConfigured => "no World of Warcraft: Forever installation is configured yet"@,
        AppError::InvalidInstall { path, reason } => path@
            + " is not a World of Warcraft: Forever installation: "@ + reason@,
        AppError::SourceRequest { source_id, url, reason } => display_name_of(source_id)
            + " request to "@ + url@ + " failed: "@ + reason@,
        AppError::SourceStatus { source_id, url, status } => display_name_of(source_id)
            + " returned HTTP "@ + decimal(status as nat) + " for "@ + url@,
        AppError::SourceShape { source_id, url, expected, reason } => "could not read "@
            + display_name_of(source_id) + " response from "@ + url@ + ": expected "@ + expected@
            + ", "@ + reason@,
        AppError::MissingApiKey { source_id } => display_name_of(source_id)
            + " needs an API key before it can be queried; add one on the Sources screen"@,
        AppError::NoForeverDownload { addon_id } => id_text(addon_id)
            + " offers no download for World of Warcraft: Forever"@,
        AppError::ExternalDownloadOnly { addon_id } => id_text(addon_id)
            + "'s author distributes downloads only through the source's website; open the addon's page to download it"@,
        AppError::UnsupportedArchive { addon_id, format } => id_text(addon_id)
            + " is published as a ."@ + format@
            + " archive, which this application cannot open; download it from the source's page instead"@,
        AppError::UnknownAddon { addon_id } => id_text(addon_id)
            + " is not in the catalog; refresh the catalog and try again"@,
        AppError::ArchiveHasNoAddon { addon_id } => "the archive for "@ + id_text(addon_id)
            + " contains no addon folder with a .toc file"@,
        AppError::ArchiveUnsafePath { addon_id, entry } => "the archive for "@ + id_text(addon_id)
            + " contains an unsafe path: "@ + entry@,
        AppError::ArchiveUnreadable { addon_id, reason } => "the archive for "@ + id_text(addon_id)
            + " is not a readable zip: "@ + reason@,
        AppError::NotInstalled { addon_id } => id_text(addon_id) + " is not installed"@,
        AppError::Io { action, path, reason } => "could not "@ + action@ + " "@ + path@ + ": "@
            + reason@,
        AppError::Persist { action, path, reason } => "could not "@ + action@ + " "@ + path@
            + ": "@ + reason@,
    }
}

fn append_id(v: &mut Vec<char>, id: &AddonId)
    ensures
        final(v)@ == old(v)@ + id_text(*id),
{
    let text = id.to_string();
    append_str(v, text.as_str());
}

impl AppError {
    /// The sentence the frontend shows.
    pub fn to_string(&self) -> (r: String)
        ensures
            r@ == message_of(*self),
    {
        let mut v: Vec<char> = Vec::new();
        match self {
            AppError::NoInstallConfigured => {
                append_str(&mut v, "no World of Warcraft: Forever installation is configured yet");
            },
            AppError::InvalidInstall { path, reason } => {
                append_str(&mut v, path.as_str());
                append_str(&mut v, " is not a World of Warcraft: Forever installation: ");
                append_str(&mut v, reason.as_str());
            },
            AppError::SourceRequest { source_id, url, reason } => {
                append_str(&mut v, source_id.display_name());
                append_str(&mut v, " request to ");
                append_str(&mut v, url.as_str());
                append_str(&mut v, " failed: ");
                append_str(&mut v, reason.as_str());
            },
            AppError::SourceStatus { source_id, url, status } => {
                append_str(&mut v, source_id.display_name());
                append_str(&mut v, " returned HTTP ");
                let digits = decimal_chars(*status as u64);
                append_chars(&mut v, digits.as_slice());
                append_str(&mut v, " for ");
                append_str(&mut v, url.as_str());
            },
            AppError::SourceShape { source_id, url, expected, reason } => {
                append_str(&mut v, "could not read ");
                append_str(&mut v, source_id.display_name());
                append_str(&mut v, " response from ");
                append_str(&mut v, url.as_str());
                append_str(&mut v, ": expected ");
                append_str(&mut v, expected);
                append_str(&mut v, ", ");
                append_str(&mut v, reason.as_str());
            },
            AppError::MissingApiKey { source_id } => {
                append_str(&mut v, source_id.display_name());
                append_str(
                    &mut v,
                    " needs an API key before it can be queried; add one on the Sources screen",
                );
            },
            AppError::NoForeverDownload { addon_id } => {
                append_id(&mut v, addon_id);
                append_str(&mut v, " offers no download for World of Warcraft: Forever");
            },
            AppError::ExternalDownloadOnly { addon_id } => {
                append_id(&mut v, addon_id);
                append_str(
                    &mut v,
                    "'s author distributes downloads only through the source's website; open the addon's page to download it",
                );
            },
            AppError::UnsupportedArchive { addon_id, format } => {
                append_id(&mut v, addon_id);
                append_str(&mut v, " is published as a .");
                append_str(&mut v, format.as_str());
                append_str(
                    &mut v,
                    " archive, which this application cannot open; download it from the source's page instead",
                );
            },
            AppError::UnknownAddon { addon_id } => {
                append_id(&mut v, addon_id);
                append_str(&mut v, " is not in the catalog; refresh the catalog and try again");
            },
            AppError::ArchiveHasNoAddon { addon_id } => {
                append_str(&mut v, "the archive for ");
                append_id(&mut v, addon_id);
                append_str(&mut v, " contains no addon folder with a .toc file");
            },
            AppError::ArchiveUnsafePath { addon_id, entry } => {
                append_str(&mut v, "the archive for ");
                append_id(&mut v, addon_id);
                append_str(&mut v, " contains an unsafe path: ");
                append_str(&mut v, entry.as_str());
            },
            AppError::ArchiveUnreadable { addon_id, reason } => {
                append_str(&mut v, "the archive for ");
                append_id(&mut v, addon_id);
                append_str(&mut v, " is not a readable zip: ");
                append_str(&mut v, reason.as_str());
            },
            AppError::NotInstalled { addon_id } => {
                append_id(&mut v, addon_id);
                append_str(&mut v, " is not installed");
            },
            AppError::Io { action, path, reason } => {
                append_str(&mut v, "could not ");
                append_str(&mut v, action);
                append_str(&mut v, " ");
                append_str(&mut v, path.as_str());
                append_str(&mut v, ": ");
                append_str(&mut v, reason.as_str());
            },
            AppError::Persist { action, path, reason } => {
                append_str(&mut v, "could not ");
                append_str(&mut v, action);
                append_str(&mut v, " ");
                append_str(&mut v, path.as_str());
                append_str(&mut v, ": ");
                append_str(&mut v, reason.as_str());
            },
        }
        assert(v@ =~= message_of(*self));
        string_of(v.as_slice())
    }

    /// An I/O failure on `path` while doing `action`, with the failure's own
    /// words as the reason.
    pub fn io(action: &'static str, path: String, reason: String) -> (r: AppError)
        ensures
            r == (AppError::Io { action, path, reason }),
    {
        AppError::Io { action, path, reason }
    }
}

} // verus!
