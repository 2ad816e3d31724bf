//! The record of what this application installed.
//!
//! WoW itself keeps no provenance: a folder under `Interface/AddOns` says
//! nothing about where it came from. The manifest is what lets an upgrade
//! replace exactly the folders an addon owns, and an uninstall delete exactly
//! those and nothing a user dropped in by hand.

use vstd::prelude::*;

use crate::domain::addon::{id_text, same_addon, AddonId};
use crate::domain::folder::{folder_key, AddonFolder};
use crate::domain::version::AddonVersion;
use crate::text::{
    chars_eq, chars_le, chars_of, is_ascii_digit, lemma_seq_le_antisymmetric, lemma_seq_le_total,
    lemma_seq_le_transitive, seq_le,
};
use crate::wow::join_path;

verus! {

/// One installed addon, as this application installed it.
#[derive(Debug, PartialEq, Eq)]
pub struct InstalledRecord {
    pub id: AddonId,
    pub name: String,
    pub version: Option<AddonVersion>,
    /// Every folder the archive placed under `Interface/AddOns`.
    pub folders: Vec<AddonFolder>,
    pub page_url: String,
    /// RFC 3339, in UTC.
    pub installed_at: String,
}

/// `b` carries exactly the data of `a`.
pub open spec fn same_record(a: InstalledRecord, b: InstalledRecord) -> bool {
    &&& a.id == b.id
    &&& a.name == b.name
    &&& a.version == b.version
    &&& a.folders@ == b.folders@
    &&& a.page_url == b.page_url
    &&& a.installed_at == b.installed_at
}

impl Clone for InstalledRecord {
    fn clone(&self) -> (r: Self)
        ensures
            same_record(*self, r),
    {
        InstalledRecord {
            id: self.id.clone(),
            name: self.name.clone(),
            version: self.version.clone(),
            folders: self.folders.clone(),
            page_url: self.page_url.clone(),
            installed_at: self.installed_at.clone(),
        }
    }
}

/// The key a record is filed under: its rendered id.
pub open spec fn record_key(r: InstalledRecord) -> Seq<char> {
    id_text(r.id)
}

pub open spec fn key_lt(a: Seq<char>, b: Seq<char>) -> bool {
    seq_le(a, b) && a != b
}

/// Records filed in strictly ascending key order, so each key once.
pub open spec fn strictly_ordered(s: Seq<InstalledRecord>) -> bool {
    forall|i: int, j: int|
        0 <= i < j < s.len() ==> key_lt(record_key(#[trigger] s[i]), record_key(#[trigger] s[j]))
}

/// The records as a map from key to record.
pub open spec fn as_map(s: Seq<InstalledRecord>) -> Map<Seq<char>, InstalledRecord> {
    Map::new(
        |k: Seq<char>| exists|i: int| 0 <= i < s.len() && record_key(#[trigger] s[i]) == k,
        |k: Seq<char>| s[choose|i: int| 0 <= i < s.len() && record_key(#[trigger] s[i]) == k],
    )
}

/// The manifest file's contents, keyed by rendered [`AddonId`], in key order
/// so the file has a stable order and diffs cleanly.
#[derive(Debug, PartialEq, Eq)]
pub struct Manifest {
    addons: Vec<InstalledRecord>,
}

impl View for Manifest {
    type V = Map<Seq<char>, InstalledRecord>;

    closed spec fn view(&self) -> Map<Seq<char>, InstalledRecord> {
        as_map(self.addons@)
    }
}

/// Whether a record owns a folder with this key.
pub open spec fn owns_key(r: InstalledRecord, key: Seq<char>) -> bool {
    exists|k: int| 0 <= k < r.folders@.len() && folder_key((#[trigger] r.folders@[k])@) == key
}

/// The first record, in key order, owning a folder with this key.
pub open spec fn first_owner(s: Seq<InstalledRecord>, key: Seq<char>) -> Option<int> {
    if exists|i: int| 0 <= i < s.len() && owns_key(#[trigger] s[i], key) {
        Some(
            choose|i: int|
                0 <= i < s.len() && owns_key(#[trigger] s[i], key) && forall|j: int|
                    0 <= j < i ==> !owns_key(#[trigger] s[j], key),
        )
    } else {
        None
    }
}

/// When some record owns a folder key, the first owner owns it and no
/// earlier record does.
pub proof fn lemma_first_owner(s: Seq<InstalledRecord>, key: Seq<char>, i: int)
    requires
        0 <= i < s.len(),
        owns_key(s[i], key),
    ensures
        first_owner(s, key) matches Some(w) && 0 <= w <= i && owns_key(s[w], key) && forall|j: int|
            0 <= j < w ==> !owns_key(#[trigger] s[j], key),
    decreases i,
{
    if exists|j: int| 0 <= j < i && owns_key(#[trigger] s[j], key) {
        let j = choose|j: int| 0 <= j < i && owns_key(#[trigger] s[j], key);
        lemma_first_owner(s, key, j);
    } else {
        assert(0 <= i < s.len() && owns_key(s[i], key) && forall|j: int|
            0 <= j < i ==> !owns_key(#[trigger] s[j], key));
        let w = choose|w: int|
            0 <= w < s.len() && owns_key(#[trigger] s[w], key) && forall|j: int|
                0 <= j < w ==> !owns_key(#[trigger] s[j], key);
        assert(w == i) by {
            if w < i {
                assert(owns_key(s[w], key));
            }
            if w > i {
                assert(!owns_key(s[i], key));
            }
        }
    }
}

/// The records filed one after another into an empty manifest.
pub open spec fn filed(s: Seq<InstalledRecord>) -> Map<Seq<char>, InstalledRecord>
    decreases s.len(),
{
    if s.len() == 0 {
        Map::empty()
    } else {
        filed(s.drop_last()).insert(record_key(s.last()), s.last())
    }
}

impl Default for Manifest {
    fn default() -> (r: Self)
        ensures
            r@ == Map::<Seq<char>, InstalledRecord>::empty(),
            r.wf(),
            r.records_seq().len() == 0,
    {
        Manifest::new()
    }
}

proof fn lemma_map_lookup(s: Seq<InstalledRecord>, i: int)
    requires
        strictly_ordered(s),
        0 <= i < s.len(),
    ensures
        as_map(s).contains_key(record_key(s[i])),
        as_map(s)[record_key(s[i])] == s[i],
{
    let k = record_key(s[i]);
    assert(exists|j: int| 0 <= j < s.len() && record_key(#[trigger] s[j]) == k);
    let w = choose|j: int| 0 <= j < s.len() && record_key(#[trigger] s[j]) == k;
    assert(w == i) by {
        if w < i {
            assert(key_lt(record_key(s[w]), record_key(s[i])));
        }
        if w > i {
            assert(key_lt(record_key(s[i]), record_key(s[w])));
        }
    }
}

impl Manifest {
    /// No record at all.
    pub fn new() -> (r: Manifest)
        ensures
            r@ == Map::<Seq<char>, InstalledRecord>::empty(),
            r.wf(),
            r.records_seq().len() == 0,
    {
        let m = Manifest { addons: Vec::new() };
        assert(m@ =~= Map::<Seq<char>, InstalledRecord>::empty());
        m
    }

    /// The records in key order.
    pub closed spec fn records_seq(&self) -> Seq<InstalledRecord> {
        self.addons@
    }

    /// Well-formed: records in strictly ascending key order.
    pub closed spec fn wf(&self) -> bool {
        strictly_ordered(self.addons@)
    }

    /// A manifest is its records read as a map, and it is well-formed
    /// exactly when those records are in strictly ascending key order: each
    /// record is filed once, under its own key.
    pub proof fn lemma_records_are_the_map(&self)
        ensures
            self@ == as_map(self.records_seq()),
            self.wf() == strictly_ordered(self.records_seq()),
            self.wf() ==> forall|i: int|
                0 <= i < self.records_seq().len() ==> #[trigger] self@[record_key(self.records_seq()[i])]
                    == self.records_seq()[i] && self@.contains_key(record_key(self.records_seq()[i])),
    {
        if self.wf() {
            assert forall|i: int| 0 <= i < self.records_seq().len() implies #[trigger] self@[record_key(
                self.records_seq()[i],
            )] == self.records_seq()[i] && self@.contains_key(record_key(self.records_seq()[i])) by {
                lemma_map_lookup(self.addons@, i);
            }
        }
    }

    /// A manifest holding these records, each filed in turn, so a later
    /// record of the same addon replaces an earlier one; this is how a
    /// manifest read back from disk is rebuilt.
    pub fn from_records(records: Vec<InstalledRecord>) -> (r: Manifest)
        ensures
            r.wf(),
            r@ == filed(records@),
            r@.dom() == records@.map_values(|x: InstalledRecord| record_key(x)).to_set(),
            r@ == as_map(r.records_seq()),
            strictly_ordered(r.records_seq()),
    {
        let mut m = Manifest::new();
        let mut i: usize = 0;
        let ghost keys = records@.map_values(|x: InstalledRecord| record_key(x));
        let n = records.len();
        let mut rest = records;
        let ghost all = rest@;
        while i < n
            invariant
                n == all.len(),
                keys == all.map_values(|x: InstalledRecord| record_key(x)),
                rest@.len() + i == all.len(),
                forall|k: int| 0 <= k < rest@.len() ==> #[trigger] rest@[k] == all[i + k],
                m.wf(),
                m@ == filed(all.take(i as int)),
                m@.dom() == keys.take(i as int).to_set(),
            decreases n - i,
        {
            let record = rest.remove(0);
            assert(record == all[i as int]);
            m.insert(record);
            assert(all.take(i + 1).drop_last() =~= all.take(i as int));
            assert(keys.take(i + 1) =~= keys.take(i as int).push(keys[i as int]));
            assert(m@.dom() =~= keys.take(i + 1).to_set()) by {
                keys.take(i as int).lemma_push_to_set_commute(keys[i as int]);
            }
            i += 1;
        }
        assert(keys.take(all.len() as int) =~= keys);
        assert(all.take(all.len() as int) =~= all);
        m
    }

    /// The record filed under this addon's rendered id.
    pub fn get(&self, id: &AddonId) -> (r: Option<&InstalledRecord>)
        requires
            self.wf(),
        ensures
            r is Some <==> self@.contains_key(id_text(*id)),
            r matches Some(rec) ==> *rec == self@[id_text(*id)],
    {
        match self.position(id) {
            Ok(i) => {
                proof {
                    lemma_map_lookup(self.addons@, i as int);
                }
                Some(&self.addons[i])
            },
            Err(_) => None,
        }
    }

    /// Files a record under its rendered id, replacing any earlier record of
    /// the same addon: in place when the addon was there, else at the spot
    /// that keeps key order.
    pub fn insert(&mut self, record: InstalledRecord)
        requires
            old(self).wf(),
        ensures
            final(self).wf(),
            final(self)@ == old(self)@.insert(record_key(record), record),
            old(self)@.contains_key(record_key(record)) ==> exists|j: int|
                0 <= j < old(self).records_seq().len() && final(self).records_seq() == old(
                    self,
                ).records_seq().update(j, record),
            !old(self)@.contains_key(record_key(record)) ==> exists|j: int|
                0 <= j <= old(self).records_seq().len() && final(self).records_seq() == old(
                    self,
                ).records_seq().insert(j, record),
            final(self).records_seq().len() == old(self).records_seq().len() + (if old(
                self,
            )@.contains_key(record_key(record)) {
                0int
            } else {
                1int
            }),
    {
        let id = record.id.clone();
        let ghost s = self.addons@;
        let ghost k = record_key(record);
        match self.position(&id) {
            Ok(i) => {
                self.addons.set(i, record);
                proof {
                    let t = self.addons@;
                    assert(t == s.update(i as int, record));
                    assert(self.records_seq() == old(self).records_seq().update(i as int, record));
                    lemma_map_lookup(s, i as int);
                    assert(old(self)@.contains_key(record_key(record)));
                    assert forall|a: int, b: int| 0 <= a < b < t.len() implies key_lt(
                        record_key(#[trigger] t[a]),
                        record_key(#[trigger] t[b]),
                    ) by {
                        assert(key_lt(record_key(s[a]), record_key(s[b])));
                    }
                    assert(self@ =~= as_map(s).insert(k, record)) by {
                        assert forall|key: Seq<char>| #[trigger] self@.contains_key(key) <==> as_map(
                            s,
                        ).insert(k, record).contains_key(key) by {
                            if as_map(s).contains_key(key) {
                                let w = choose|j: int| 0 <= j < s.len() && record_key(#[trigger] s[j]) == key;
                                if w == i {
                                    assert(record_key(t[w]) == key);
                                } else {
                                    assert(record_key(t[w]) == key);
                                }
                            }
                            if self@.contains_key(key) {
                                let w = choose|j: int| 0 <= j < t.len() && record_key(#[trigger] t[j]) == key;
                                if w != i {
                                    assert(record_key(s[w]) == key);
                                }
                            }
                        }
                        assert forall|key: Seq<char>| #[trigger] self@.contains_key(key) implies self@[key]
                            == as_map(s).insert(k, record)[key] by {
                            let w = choose|j: int| 0 <= j < t.len() && record_key(#[trigger] t[j]) == key;
                            lemma_map_lookup(t, w);
                            if w != i {
                                lemma_map_lookup(s, w);
                            }
                        }
                    }
                }
            },
            Err(i) => {
                self.addons.insert(i, record);
                proof {
                    let t = self.addons@;
                    assert(t == s.insert(i as int, record));
                    assert(self.records_seq() == old(self).records_seq().insert(i as int, record));
                    assert(!old(self)@.contains_key(record_key(record)));
                    assert forall|a: int, b: int| 0 <= a < b < t.len() implies key_lt(
                        record_key(#[trigger] t[a]),
                        record_key(#[trigger] t[b]),
                    ) by {
                        if a < i && b < i {
                            assert(key_lt(record_key(s[a]), record_key(s[b])));
                        } else if a < i && b == i {
                        } else if a < i && b > i {
                            assert(key_lt(record_key(s[a]), record_key(s[b - 1])));
                        } else if a == i {
                            assert(key_lt(k, record_key(s[b - 1])));
                        } else {
                            assert(key_lt(record_key(s[a - 1]), record_key(s[b - 1])));
                        }
                    }
                    assert(self@ =~= as_map(s).insert(k, record)) by {
                        assert forall|key: Seq<char>| #[trigger] self@.contains_key(key) <==> as_map(
                            s,
                        ).insert(k, record).contains_key(key) by {
                            if as_map(s).contains_key(key) {
                                let w = choose|j: int| 0 <= j < s.len() && record_key(#[trigger] s[j]) == key;
                                if w < i {
                                    assert(record_key(t[w]) == key);
                                } else {
                                    assert(record_key(t[w + 1]) == key);
                                }
                            }
                            if key == k {
                                assert(record_key(t[i as int]) == key);
                            }
                            if self@.contains_key(key) {
                                let w = choose|j: int| 0 <= j < t.len() && record_key(#[trigger] t[j]) == key;
                                if w < i {
                                    assert(record_key(s[w]) == key);
                                } else if w > i {
                                    assert(record_key(s[w - 1]) == key);
                                }
                            }
                        }
                        assert forall|key: Seq<char>| #[trigger] self@.contains_key(key) implies self@[key]
                            == as_map(s).insert(k, record)[key] by {
                            let w = choose|j: int| 0 <= j < t.len() && record_key(#[trigger] t[j]) == key;
                            lemma_map_lookup(t, w);
                            if w < i {
                                lemma_map_lookup(s, w);
                            } else if w > i {
                                lemma_map_lookup(s, w - 1);
                            }
                        }
                    }
                }
            },
        }
    }

    /// Drops the record filed under this addon's rendered id, handing it back.
    pub fn remove(&mut self, id: &AddonId) -> (r: Option<InstalledRecord>)
        requires
            old(self).wf(),
        ensures
            final(self).wf(),
            final(self)@ == old(self)@.remove(id_text(*id)),
            r is Some <==> old(self)@.contains_key(id_text(*id)),
            r matches Some(rec) ==> rec == old(self)@[id_text(*id)],
            r is Some ==> exists|j: int|
                0 <= j < old(self).records_seq().len() && record_key(old(self).records_seq()[j]) == id_text(
                    *id,
                ) && final(self).records_seq() == old(self).records_seq().remove(j),
            r is None ==> final(self).records_seq() == old(self).records_seq(),
            final(self).records_seq().len() == old(self).records_seq().len() - (if r is Some {
                1int
            } else {
                0int
            }),
    {
        let ghost s = self.addons@;
        let ghost k = id_text(*id);
        match self.position(id) {
            Ok(i) => {
                proof {
                    lemma_map_lookup(s, i as int);
                }
                let removed = self.addons.remove(i);
                proof {
                    let t = self.addons@;
                    assert(t == s.remove(i as int));
                    assert(self.records_seq() == old(self).records_seq().remove(i as int));
                    assert forall|a: int, b: int| 0 <= a < b < t.len() implies key_lt(
                        record_key(#[trigger] t[a]),
                        record_key(#[trigger] t[b]),
                    ) by {
                        if b < i {
                            assert(key_lt(record_key(s[a]), record_key(s[b])));
                        } else if a < i {
                            assert(key_lt(record_key(s[a]), record_key(s[b + 1])));
                        } else {
                            assert(key_lt(record_key(s[a + 1]), record_key(s[b + 1])));
                        }
                    }
                    assert(self@ =~= as_map(s).remove(k)) by {
                        assert forall|key: Seq<char>| #[trigger] self@.contains_key(key) <==> as_map(
                            s,
                        ).remove(k).contains_key(key) by {
                            if as_map(s).contains_key(key) && key != k {
                                let w = choose|j: int| 0 <= j < s.len() && record_key(#[trigger] s[j]) == key;
                                if w < i {
                                    assert(record_key(t[w]) == key);
                                } else {
                                    assert(w != i);
                                    assert(record_key(t[w - 1]) == key);
                                }
                            }
                            if self@.contains_key(key) {
                                let w = choose|j: int| 0 <= j < t.len() && record_key(#[trigger] t[j]) == key;
                                if w < i {
                                    assert(record_key(s[w]) == key);
                                    assert(key_lt(record_key(s[w]), record_key(s[i as int])));
                                } else {
                                    assert(record_key(s[w + 1]) == key);
                                    assert(key_lt(record_key(s[i as int]), record_key(s[w + 1])));
                                }
                            }
                        }
                        assert forall|key: Seq<char>| #[trigger] self@.contains_key(key) implies self@[key]
                            == as_map(s).remove(k)[key] by {
                            let w = choose|j: int| 0 <= j < t.len() && record_key(#[trigger] t[j]) == key;
                            lemma_map_lookup(t, w);
                            if w < i {
                                lemma_map_lookup(s, w);
                            } else {
                                lemma_map_lookup(s, w + 1);
                            }
                        }
                    }
                }
                Some(removed)
            },
            Err(_) => {
                assert(as_map(s).remove(k) =~= as_map(s));
                None
            },
        }
    }

    /// The records, in key order.
    pub fn records(&self) -> (r: &[InstalledRecord])
        ensures
            r@ == self.records_seq(),
    {
        self.addons.as_slice()
    }

    /// Which addon owns a given folder, matched on folder key, so the
    /// installed list can attribute a folder on disk to the catalog entry it
    /// came from. The first owner in key order wins.
    pub fn owner_of(&self, folder: &AddonFolder) -> (r: Option<&InstalledRecord>)
        ensures
            r is Some <==> first_owner(self.records_seq(), folder_key(folder@)) is Some,
            r matches Some(rec) ==> *rec == self.records_seq()[first_owner(self.records_seq(), folder_key(folder@))->Some_0],
    {
        let ghost key = folder_key(folder@);
        let ghost s = self.addons@;
        let mut i: usize = 0;
        while i < self.addons.len()
            invariant
                i <= s.len(),
                s == self.addons@,
                key == folder_key(folder@),
                forall|j: int| 0 <= j < i ==> !owns_key(#[trigger] s[j], key),
            decreases self.addons.len() - i,
        {
            if record_owns(&self.addons[i], folder) {
                let ghost w = choose|w: int|
                    0 <= w < s.len() && owns_key(#[trigger] s[w], key) && forall|j: int|
                        0 <= j < w ==> !owns_key(#[trigger] s[j], key);
                assert(w == i) by {
                    if w < i {
                        assert(!owns_key(s[w], key));
                    }
                    if w > i {
                        assert(!owns_key(s[i as int], key));
                    }
                }
                return Some(&self.addons[i]);
            }
            i += 1;
        }
        None
    }

    /// `Ok(i)` when the record for `id` sits at `i`, `Err(i)` for the place
    /// it would be inserted to keep key order.
    fn position(&self, id: &AddonId) -> (r: Result<usize, usize>)
        requires
            self.wf(),
        ensures
            r matches Ok(i) ==> i < self.addons@.len() && record_key(self.addons@[i as int])
                == id_text(*id),
            r matches Err(i) ==> i <= self.addons@.len() && (forall|j: int|
                0 <= j < i ==> key_lt(record_key(#[trigger] self.addons@[j]), id_text(*id))) && (
            forall|j: int|
                i <= j < self.addons@.len() ==> key_lt(
                    id_text(*id),
                    record_key(#[trigger] self.addons@[j]),
                )),
            r is Err ==> !as_map(self.addons@).contains_key(id_text(*id)),
    {
        let ghost s = self.addons@;
        let ghost k = id_text(*id);
        let key_text = id.to_string();
        let key = chars_of(key_text.as_str());
        assert(key@ == k);
        let mut i: usize = 0;
        while i < self.addons.len()
            invariant
                i <= s.len(),
                s == self.addons@,
                strictly_ordered(s),
                k == id_text(*id),
                key@ == k,
                forall|j: int| 0 <= j < i ==> key_lt(record_key(#[trigger] s[j]), k),
            decreases self.addons.len() - i,
        {
            let here_text = self.addons[i].id.to_string();
            let here = chars_of(here_text.as_str());
            assert(here@ == record_key(s[i as int]));
            if chars_eq(here.as_slice(), key.as_slice()) {
                return Ok(i);
            }
            if !chars_le(here.as_slice(), key.as_slice()) {
                proof {
                    lemma_seq_le_total(here@, key@);
                    assert forall|j: int| i <= j < s.len() implies key_lt(k, record_key(#[trigger] s[j])) by {
                        if j > i {
                            assert(key_lt(record_key(s[i as int]), record_key(s[j])));
                            lemma_seq_le_transitive(k, record_key(s[i as int]), record_key(s[j]));
                            if k == record_key(s[j]) {
                                lemma_seq_le_antisymmetric(record_key(s[i as int]), k);
                            }
                        }
                    }
                    assert(!as_map(s).contains_key(k)) by {
                        if as_map(s).contains_key(k) {
                            let w = choose|j: int| 0 <= j < s.len() && record_key(#[trigger] s[j]) == k;
                            if w < i {
                                assert(key_lt(record_key(s[w]), k));
                            } else {
                                assert(key_lt(k, record_key(s[w])));
                            }
                        }
                    }
                }
                return Err(i);
            }
            i += 1;
        }
        assert(!as_map(s).contains_key(k)) by {
            if as_map(s).contains_key(k) {
                let w = choose|j: int| 0 <= j < s.len() && record_key(#[trigger] s[j]) == k;
                assert(key_lt(record_key(s[w]), k));
            }
        }
        Err(i)
    }
}

/// Whether a record owns a folder matching this one on folder key.
fn record_owns(record: &InstalledRecord, folder: &AddonFolder) -> (r: bool)
    ensures
        r == owns_key(*record, folder_key(folder@)),
{
    let mut k: usize = 0;
    while k < record.folders.len()
        invariant
            k <= record.folders@.len(),
            forall|j: int| 0 <= j < k ==> folder_key((#[trigger] record.folders@[j])@) != folder_key(folder@),
        decreases record.folders.len() - k,
    {
        if record.folders[k].same_folder(folder) {
            return true;
        }
        k += 1;
    }
    false
}

#[verifier::external_type_specification]
#[verifier::external_body]
pub struct ExOffsetDateTime(time::OffsetDateTime);

/// `time::OffsetDateTime::now_utc`: the current instant. Nothing is said of
/// it: it is the clock's.
#[verifier::external_body]
fn current_instant() -> time::OffsetDateTime {
    time::OffsetDateTime::now_utc()
}

/// The shape every RFC 3339 timestamp this application writes has: a
/// zero-padded `YYYY-MM-DDTHH:MM:SS`, followed by a fraction of a second or
/// not and then the offset (`Z`, or `+HH:MM` / `-HH:MM`), so at least one
/// character more.
pub open spec fn rfc3339_stamp(t: Seq<char>) -> bool {
    &&& t.len() >= 20
    &&& is_ascii_digit(t[0]) && is_ascii_digit(t[1]) && is_ascii_digit(t[2]) && is_ascii_digit(t[3])
    &&& t[4] == '-'
    &&& is_ascii_digit(t[5]) && is_ascii_digit(t[6])
    &&& t[7] == '-'
    &&& is_ascii_digit(t[8]) && is_ascii_digit(t[9])
    &&& t[10] == 'T'
    &&& is_ascii_digit(t[11]) && is_ascii_digit(t[12])
    &&& t[13] == ':'
    &&& is_ascii_digit(t[14]) && is_ascii_digit(t[15])
    &&& t[16] == ':'
    &&& is_ascii_digit(t[17]) && is_ascii_digit(t[18])
}

/// `time::OffsetDateTime::format` with the RFC 3339 description, `None` where
/// the instant cannot be written in that format (a year outside 0..=9999, an
/// offset the format cannot express). The crate writes the year as four
/// zero-padded digits, then `-`, month, `-`, day, `T`, hour, `:`, minute,
/// `:`, second, each as two zero-padded digits, then an optional fraction and
/// the offset; that shape is what is stated, not which instant it names.
#[verifier::external_body]
fn format_rfc3339(instant: time::OffsetDateTime) -> (r: Option<String>)
    ensures
        r matches Some(t) ==> rfc3339_stamp(t@),
{
    instant.format(&time::format_description::well_known::Rfc3339).ok()
}

/// The current instant, in the one format this application persists times in.
///
/// A clock that cannot be formatted is not worth failing an install over, so
/// the epoch stands in: a visibly wrong timestamp rather than a lost record.
pub fn now_rfc3339() -> (r: String)
    ensures
        rfc3339_stamp(r@),
{
    match format_rfc3339(current_instant()) {
        Some(text) => text,
        None => {
            let epoch = "1970-01-01T00:00:00Z";
            proof {
                reveal_strlit("1970-01-01T00:00:00Z");
            }
            epoch.to_owned()
        },
    }
}

/// The manifest's location inside the application's data directory.
pub fn manifest_path(data_dir: &str) -> (r: String)
    ensures
        r@ == crate::wow::path_join(data_dir@, "installed.json"@),
{
    join_path(data_dir, "installed.json")
}

/// Reading an addon's record back after filing it gives that record.
pub proof fn law_get_after_insert(m: Map<Seq<char>, InstalledRecord>, record: InstalledRecord)
    ensures
        m.insert(record_key(record), record).contains_key(id_text(record.id)),
        m.insert(record_key(record), record)[id_text(record.id)] == record,
{
}

/// Filing a record leaves every other addon's record as it was.
pub proof fn law_insert_leaves_others(m: Map<Seq<char>, InstalledRecord>, record: InstalledRecord, other: AddonId)
    requires
        !same_addon(other, record.id),
    ensures
        m.insert(record_key(record), record).contains_key(id_text(other)) == m.contains_key(id_text(other)),
        m.contains_key(id_text(other)) ==> m.insert(record_key(record), record)[id_text(other)] == m[id_text(other)],
{
    crate::domain::addon::law_rendered_ids_identify_addons(other, record.id);
}

/// What a manifest has filed is what its records list: each filed record
/// appears among the records exactly once, under its own key, so the records
/// read after `insert` hold the new record once.
pub proof fn law_records_list_each_filed_record_once(m: Manifest, key: Seq<char>)
    requires
        m.wf(),
        m@.contains_key(key),
    ensures
        exists|i: int|
            0 <= i < m.records_seq().len() && #[trigger] m.records_seq()[i] == m@[key] && record_key(
                m.records_seq()[i],
            ) == key && forall|j: int|
                0 <= j < m.records_seq().len() && j != i ==> record_key(#[trigger] m.records_seq()[j]) != key,
{
    let s = m.records_seq();
    let i = choose|i: int| 0 <= i < s.len() && record_key(#[trigger] s[i]) == key;
    lemma_map_lookup(s, i);
    assert forall|j: int| 0 <= j < s.len() && j != i implies record_key(#[trigger] s[j]) != key by {
        if j < i {
            assert(key_lt(record_key(s[j]), record_key(s[i])));
        } else {
            assert(key_lt(record_key(s[i]), record_key(s[j])));
        }
    }
    assert(s[i] == m@[key]);
}

/// A folder only one record owns is attributed to that record.
pub proof fn law_sole_owner_is_the_owner(s: Seq<InstalledRecord>, key: Seq<char>, i: int)
    requires
        0 <= i < s.len(),
        owns_key(s[i], key),
        forall|j: int| 0 <= j < s.len() && j != i ==> !owns_key(#[trigger] s[j], key),
    ensures
        first_owner(s, key) == Some(i),
{
    lemma_first_owner(s, key, i);
}

/// After removing an addon's record there is none left for it.
pub proof fn law_nothing_after_remove(m: Map<Seq<char>, InstalledRecord>, id: AddonId)
    ensures
        !m.remove(id_text(id)).contains_key(id_text(id)),
{
}

/// Filing an upgrade replaces the earlier record: the manifest holds one
/// record per addon.
pub proof fn law_upgrade_replaces(m: Map<Seq<char>, InstalledRecord>, first: InstalledRecord, second: InstalledRecord)
    requires
        same_addon(first.id, second.id),
    ensures
        m.insert(record_key(first), first).insert(record_key(second), second) == m.insert(record_key(second), second),
        m.insert(record_key(first), first).insert(record_key(second), second).dom().len() == m.insert(record_key(first), first).dom().len(),
{
    assert(record_key(first) == record_key(second));
    assert(m.insert(record_key(first), first).insert(record_key(second), second) =~= m.insert(record_key(second), second));
    assert(m.insert(record_key(first), first).insert(record_key(second), second).dom() =~= m.insert(record_key(first), first).dom());
}

} // verus!
