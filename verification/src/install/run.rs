//! The progress an install reports, in the order the UI relies on: the URL is
//! resolved first, then any number of download reports, then extraction, and
//! last the folders installed. Each phase is a type of its own, so a step can
//! only be taken from the phase it follows.

use vstd::prelude::*;

use crate::domain::addon::{same_summary, AddonId, AddonSummary};
use crate::domain::folder::AddonFolder;
use crate::error::AppError;
use crate::install::archive::{folder_views, ArchivePlan};
use crate::install::manifest::InstalledRecord;
use crate::install::{check_installable, installed_record, progress, refusal_of, InstallProgress, InstallStage};

verus! {

/// `next` may be reported right after `prev`.
pub open spec fn follows(prev: InstallStage, next: InstallStage) -> bool {
    match next {
        InstallStage::Resolving => false,
        InstallStage::Downloading { .. } => prev is Resolving || prev is Downloading,
        InstallStage::Extracting => prev is Resolving || prev is Downloading,
        InstallStage::Installed { .. } => prev is Extracting,
    }
}

/// Reports in install order: `Resolving` first, then each report one that may
/// follow the one before it, so `Downloading` reports come before
/// `Extracting`, and `Installed` comes right after `Extracting`, last.
pub open spec fn in_install_order(reports: Seq<InstallStage>) -> bool {
    &&& reports.len() > 0
    &&& reports[0] is Resolving
    &&& forall|i: int| 0 < i < reports.len() ==> follows(reports[i - 1], #[trigger] reports[i])
}

/// An install that has reported `Resolving` and is receiving its archive.
pub struct InstallRun {
    summary: AddonSummary,
    received: u64,
    reported: Ghost<Seq<InstallStage>>,
}

/// An install whose archive has arrived and is being extracted.
pub struct Extraction {
    summary: AddonSummary,
    reported: Ghost<Seq<InstallStage>>,
}

impl InstallRun {
    #[verifier::type_invariant]
    closed spec fn run_order(self) -> bool {
        &&& in_install_order(self.reported@)
        &&& (self.reported@.last() is Resolving || self.reported@.last() is Downloading)
    }

    /// The addon being installed, as the catalog described it.
    pub closed spec fn addon(self) -> AddonSummary {
        self.summary
    }

    /// The bytes received so far.
    pub closed spec fn received_so_far(self) -> u64 {
        self.received
    }

    /// Every report made so far, in order.
    pub closed spec fn reported(self) -> Seq<InstallStage> {
        self.reported@
    }

    /// Starts installing an addon: refuses, before anything is requested, a
    /// download this build cannot obtain; otherwise reports `Resolving`.
    pub fn start(summary: &AddonSummary) -> (r: Result<(InstallRun, InstallProgress), AppError>)
        ensures
            refusal_of(
                *summary,
                match r {
                    Ok(_) => Ok(()),
                    Err(e) => Err(e),
                },
            ),
            r matches Ok((run, event)) ==> {
                &&& same_summary(*summary, run.addon())
                &&& run.received_so_far() == 0
                &&& event.addon_id == summary.id
                &&& event.stage is Resolving
                &&& run.reported() == seq![event.stage]
                &&& in_install_order(run.reported())
            },
    {
        match check_installable(summary) {
            Ok(()) => {},
            Err(e) => {
                return Err(e);
            },
        }
        let event = progress(&summary.id, InstallStage::Resolving);
        let reported: Ghost<Seq<InstallStage>> = Ghost(Seq::<InstallStage>::empty().push(InstallStage::Resolving));
        let run = InstallRun { summary: summary.clone(), received: 0, reported };
        Ok((run, event))
    }

    /// The bytes received so far.
    pub fn received(&self) -> (r: u64)
        ensures
            r == self.received_so_far(),
    {
        self.received
    }

    /// One more chunk of the archive has arrived: reports the running total.
    pub fn downloaded(&mut self, chunk_len: usize, total: Option<u64>) -> (event: InstallProgress)
        requires
            old(self).received_so_far() + chunk_len <= u64::MAX,
        ensures
            final(self).addon() == old(self).addon(),
            final(self).received_so_far() == old(self).received_so_far() + chunk_len,
            event.addon_id == old(self).addon().id,
            event.stage == (InstallStage::Downloading { received: final(self).received_so_far(), total }),
            final(self).reported() == old(self).reported().push(event.stage),
            in_install_order(final(self).reported()),
    {
        proof {
            use_type_invariant(&*self);
        }
        let received = crate::install::received_after(self.received, chunk_len);
        let event = progress(&self.summary.id, InstallStage::Downloading { received, total });
        let ghost before = self.reported@;
        let reported: Ghost<Seq<InstallStage>> = Ghost(before.push(event.stage));
        self.received = received;
        self.reported = reported;
        proof {
            assert(self.reported@[before.len() as int] == event.stage);
            assert forall|i: int| 0 < i < self.reported@.len() implies follows(
                self.reported@[i - 1],
                #[trigger] self.reported@[i],
            ) by {
                if i < before.len() {
                    assert(self.reported@[i] == before[i]);
                    assert(self.reported@[i - 1] == before[i - 1]);
                }
            }
        }
        event
    }

    /// The archive has arrived: reports `Extracting`.
    pub fn extracting(self) -> (r: (Extraction, InstallProgress))
        ensures
            r.0.addon() == self.addon(),
            r.1.addon_id == self.addon().id,
            r.1.stage is Extracting,
            r.0.reported() == self.reported().push(r.1.stage),
            in_install_order(r.0.reported()),
    {
        proof {
            use_type_invariant(&self);
        }
        let event = progress(&self.summary.id, InstallStage::Extracting);
        let ghost before = self.reported@;
        let reported: Ghost<Seq<InstallStage>> = Ghost(before.push(event.stage));
        let next = Extraction { summary: self.summary, reported };
        proof {
            assert forall|i: int| 0 < i < next.reported@.len() implies follows(
                next.reported@[i - 1],
                #[trigger] next.reported@[i],
            ) by {
                if i < before.len() {
                    assert(next.reported@[i] == before[i]);
                    assert(next.reported@[i - 1] == before[i - 1]);
                }
            }
        }
        (next, event)
    }
}

impl Extraction {
    #[verifier::type_invariant]
    closed spec fn extraction_order(self) -> bool {
        &&& in_install_order(self.reported@)
        &&& self.reported@.last() is Extracting
    }

    /// The addon being installed, as the catalog described it.
    pub closed spec fn addon(self) -> AddonSummary {
        self.summary
    }

    /// Every report made so far, in order.
    pub closed spec fn reported(self) -> Seq<InstallStage> {
        self.reported@
    }

    /// The archive is on disk: reports `Installed` with the plan's folders,
    /// and gives the record to keep, which names those same folders.
    pub fn installed(self, plan: &ArchivePlan, installed_at: String) -> (r: (InstallProgress, InstalledRecord))
        ensures
            r.0.addon_id == self.addon().id,
            r.0.stage matches InstallStage::Installed { folders } && folder_views(folders@) == plan@.folders,
            in_install_order(self.reported().push(r.0.stage)),
            r.1.id == self.addon().id,
            r.1.name == self.addon().name,
            r.1.version == self.addon().version,
            folder_views(r.1.folders@) == plan@.folders,
            r.1.page_url == self.addon().page_url,
            r.1.installed_at == installed_at,
    {
        proof {
            use_type_invariant(&self);
        }
        let event = progress(&self.summary.id, InstallStage::Installed { folders: owned_folders(plan) });
        let record = installed_record(&self.summary, owned_folders(plan), installed_at);
        proof {
            let before = self.reported@;
            let after = before.push(event.stage);
            assert forall|i: int| 0 < i < after.len() implies follows(after[i - 1], #[trigger] after[i]) by {
                if i < before.len() {
                    assert(after[i] == before[i]);
                    assert(after[i - 1] == before[i - 1]);
                }
            }
        }
        (event, record)
    }
}

/// The plan's folders, as a list of their own.
fn owned_folders(plan: &ArchivePlan) -> (r: Vec<AddonFolder>)
    ensures
        folder_views(r@) == plan@.folders,
{
    let ours = plan.folders();
    let mut out: Vec<AddonFolder> = Vec::new();
    let mut k: usize = 0;
    while k < ours.len()
        invariant
            k <= ours@.len(),
            folder_views(ours@) == plan@.folders,
            folder_views(out@) == folder_views(ours@.take(k as int)),
        decreases ours.len() - k,
    {
        let ghost before = out@;
        out.push(ours[k].clone());
        assert(out@ == before.push(ours@[k as int]));
        assert(ours@.take(k + 1) =~= ours@.take(k as int).push(ours@[k as int]));
        assert(folder_views(before.push(ours@[k as int])) =~= folder_views(before).push(ours@[k as int]@));
        assert(folder_views(ours@.take(k as int).push(ours@[k as int])) =~= folder_views(ours@.take(k as int)).push(
            ours@[k as int]@,
        ));
        k += 1;
    }
    assert(ours@.take(ours@.len() as int) =~= ours@);
    out
}

} // verus!
