//! Describing the directories under `Interface/AddOns` the client loads.
//!
//! This is the ground truth the UI shows: an addon dropped in by hand appears
//! here exactly like one this application installed, just without provenance.

use vstd::prelude::*;

use crate::domain::folder::{folder_key, valid_folder_name, AddonFolder};
use crate::domain::version::AddonVersion;
use crate::install::archive::{ends_with_toc, is_toc_path};
use crate::picking::{first_where, lemma_first_where_at, lemma_first_where_none};
use crate::sorting::{is_sorted_by, lemma_insert_stable_at, lemma_sort_stable_sorted, sort_stable, total_preorder};
use crate::text::{chars_le, seq_le, trim};
use crate::wow::toc::{
    clean_title, first_author, first_notes, first_title, first_version, interfaces_in,
    loads_on_forever_band, InterfaceVersion, Toc,
};

verus! {

/// One directory under `Interface/AddOns`, described by its `.toc`.
#[derive(Debug, PartialEq, Eq)]
pub struct InstalledFolder {
    pub folder: AddonFolder,
    pub title: Option<String>,
    pub version: Option<AddonVersion>,
    pub author: Option<String>,
    pub notes: Option<String>,
    pub interface: Option<InterfaceVersion>,
    /// False when the `.toc` declares only interface numbers outside
    /// Forever's band — the addon is present but the client will refuse to
    /// load it unless the user allows out-of-date addons.
    pub loads_on_client: bool,
}

impl Clone for InstalledFolder {
    fn clone(&self) -> (r: Self)
        ensures
            r == *self,
    {
        InstalledFolder {
            folder: self.folder.clone(),
            title: self.title.clone(),
            version: self.version.clone(),
            author: self.author.clone(),
            notes: self.notes.clone(),
            interface: self.interface,
            loads_on_client: self.loads_on_client,
        }
    }
}

pub open spec fn opt_text(o: Option<String>) -> Option<Seq<char>> {
    match o {
        Some(s) => Some(s@),
        None => None,
    }
}

pub open spec fn opt_version_text(o: Option<AddonVersion>) -> Option<Seq<char>> {
    match o {
        Some(v) => Some(v@),
        None => None,
    }
}

/// A client loads an addon that declares no interface number, or any number
/// in Forever's band.
pub open spec fn loads_on_client(interfaces: Seq<u32>) -> bool {
    interfaces.len() == 0 || exists|i: int|
        0 <= i < interfaces.len() && loads_on_forever_band(#[trigger] interfaces[i])
}

/// `f` describes the folder named `name` from the directives `ds`.
pub open spec fn describes(f: InstalledFolder, name: Seq<char>, ds: Seq<crate::wow::toc::DirectiveSpec>) -> bool {
    &&& f.folder@ == trim(name)
    &&& opt_text(f.title) == (match first_title(ds) {
        Some(t) => Some(clean_title(t)),
        None => None,
    })
    &&& opt_version_text(f.version) == first_version(ds)
    &&& opt_text(f.author) == first_author(ds)
    &&& opt_text(f.notes) == first_notes(ds)
    &&& (f.interface is None <==> interfaces_in(ds).len() == 0)
    &&& (f.interface matches Some(v) ==> v@ == interfaces_in(ds)[0])
    &&& f.loads_on_client == loads_on_client(interfaces_in(ds))
}

/// A directory named `name`, described by its `.toc` when one could be read.
/// `None` for a name that is not a usable folder name — a `.toc` is not
/// required, because a folder can hold only Lua that another addon loads.
pub fn describe_folder(name: &str, toc: Option<Toc>) -> (r: Option<InstalledFolder>)
    ensures
        r is Some <==> valid_folder_name(trim(name@)),
        r matches Some(f) ==> describes(
            f,
            name@,
            match toc {
                Some(t) => t@,
                None => Seq::empty(),
            },
        ),
{
    let folder = match AddonFolder::new(name) {
        Ok(f) => f,
        Err(_) => {
            return None;
        },
    };
    let toc = match toc {
        Some(t) => t,
        None => Toc { directives: Vec::new() },
    };
    let interfaces = toc.interfaces();
    let mut loads = interfaces.len() == 0;
    let mut i: usize = 0;
    while i < interfaces.len()
        invariant
            i <= interfaces@.len(),
            loads == (interfaces@.len() == 0 || exists|k: int|
                0 <= k < i && loads_on_forever_band(#[trigger] interfaces@[k]@)),
        decreases interfaces.len() - i,
    {
        if interfaces[i].loads_on_forever() {
            loads = true;
        }
        i += 1;
    }
    let ghost ifs = interfaces_in(toc@);
    assert(loads == loads_on_client(ifs)) by {
        if loads && interfaces@.len() > 0 {
            let k = choose|k: int|
                0 <= k < interfaces@.len() && loads_on_forever_band(#[trigger] interfaces@[k]@);
            assert(ifs[k] == interfaces@[k]@);
        }
        if loads_on_client(ifs) && ifs.len() > 0 {
            let k = choose|k: int| 0 <= k < ifs.len() && loads_on_forever_band(#[trigger] ifs[k]);
            assert(ifs[k] == interfaces@[k]@);
        }
    }
    let title = toc.title();
    let version = match toc.version() {
        Some(v) => Some(v.clone()),
        None => None,
    };
    let author = match toc.author() {
        Some(a) => Some(a.to_string()),
        None => None,
    };
    let notes = match toc.notes() {
        Some(n) => Some(n.to_string()),
        None => None,
    };
    let interface = if interfaces.len() > 0 {
        Some(interfaces[0])
    } else {
        None
    };
    Some(
        InstalledFolder {
            folder,
            title,
            version,
            author,
            notes,
            interface,
            loads_on_client: loads,
        },
    )
}

/// The order the installed list is shown in: by folder key.
pub open spec fn folder_key_le(a: InstalledFolder, b: InstalledFolder) -> bool {
    seq_le(folder_key(a.folder@), folder_key(b.folder@))
}

/// The folders sorted by folder key, stably: names that differ only in case
/// keep the order the directory listed them in.
pub fn sort_by_folder_key(folders: Vec<InstalledFolder>) -> (r: Vec<InstalledFolder>)
    ensures
        r@ == sort_stable(folders@, |a: InstalledFolder, b: InstalledFolder| folder_key_le(a, b)),
{
    let ghost le = |a: InstalledFolder, b: InstalledFolder| folder_key_le(a, b);
    let mut out: Vec<InstalledFolder> = Vec::new();
    let mut keys: Vec<Vec<char>> = Vec::new();
    let mut i: usize = 0;
    assert(folders@.take(0) =~= Seq::<InstalledFolder>::empty());
    while i < folders.len()
        invariant
            i <= folders@.len(),
            le == (|a: InstalledFolder, b: InstalledFolder| folder_key_le(a, b)),
            out@ == sort_stable(folders@.take(i as int), le),
            keys@.len() == out@.len(),
            forall|k: int| 0 <= k < keys@.len() ==> #[trigger] keys@[k]@ == folder_key(out@[k].folder@),
        decreases folders.len() - i,
    {
        let item = folders[i].clone();
        let key = crate::text::chars_of(item.folder.match_key().as_str());
        let mut j: usize = out.len();
        while j > 0 && !chars_le(keys[j - 1].as_slice(), key.as_slice())
            invariant
                j <= out@.len(),
                le == (|a: InstalledFolder, b: InstalledFolder| folder_key_le(a, b)),
                keys@.len() == out@.len(),
                forall|k: int| 0 <= k < keys@.len() ==> #[trigger] keys@[k]@ == folder_key(out@[k].folder@),
                key@ == folder_key(item.folder@),
                forall|k: int| j <= k < out@.len() ==> !le(#[trigger] out@[k], item),
            decreases j,
        {
            j -= 1;
        }
        proof {
            if j > 0 {
                assert(le(out@[j - 1], item));
            }
            lemma_insert_stable_at(out@, item, le, j as int);
            assert(folders@.take(i + 1).drop_last() =~= folders@.take(i as int));
        }
        out.insert(j, item);
        keys.insert(j, key);
        i += 1;
    }
    assert(folders@.take(folders@.len() as int) =~= folders@);
    out
}

/// The `.toc` WoW loads for a folder: `<Folder>/<Folder>.toc`.
pub fn preferred_toc_name(folder: &AddonFolder) -> (r: String)
    ensures
        r@ == folder@ + ".toc"@,
{
    let mut v = crate::text::chars_of(folder.as_str());
    crate::text::append_str(&mut v, ".toc");
    crate::text::string_of(v.as_slice())
}

/// Some addons ship a differently-cased `.toc`, so when the preferred one
/// cannot be read the folder's entries are swept: the first whose extension
/// is `toc` in any case is used.
pub fn fallback_toc(entry_names: &Vec<String>) -> (r: Option<usize>)
    ensures
        match r {
            Some(i) => i < entry_names@.len() && first_where(
                entry_names@,
                |n: String| is_toc_path(n@),
            ) == Some(i as int),
            None => first_where(entry_names@, |n: String| is_toc_path(n@)) is None,
        },
{
    let ghost toc = |n: String| is_toc_path(n@);
    let mut i: usize = 0;
    while i < entry_names.len()
        invariant
            i <= entry_names@.len(),
            toc == (|n: String| is_toc_path(n@)),
            forall|j: int| 0 <= j < i ==> !toc(#[trigger] entry_names@[j]),
        decreases entry_names.len() - i,
    {
        if ends_with_toc(entry_names[i].as_str()) {
            proof {
                lemma_first_where_at(entry_names@, toc, i as int);
            }
            return Some(i);
        }
        i += 1;
    }
    proof {
        lemma_first_where_none(entry_names@, toc);
    }
    None
}

/// The installed list comes out ordered by folder key, holding every
/// scanned folder as often as it was scanned.
pub proof fn law_installed_list_is_sorted(folders: Seq<InstalledFolder>)
    ensures
        is_sorted_by(
            sort_stable(folders, |a: InstalledFolder, b: InstalledFolder| folder_key_le(a, b)),
            |a: InstalledFolder, b: InstalledFolder| folder_key_le(a, b),
        ),
        sort_stable(folders, |a: InstalledFolder, b: InstalledFolder| folder_key_le(a, b)).to_multiset()
            == folders.to_multiset(),
{
    let le = |a: InstalledFolder, b: InstalledFolder| folder_key_le(a, b);
    assert(total_preorder(le)) by {
        assert forall|a: InstalledFolder, b: InstalledFolder| #[trigger] le(a, b) || le(b, a) by {
            crate::text::lemma_seq_le_total(folder_key(a.folder@), folder_key(b.folder@));
        }
        assert forall|a: InstalledFolder, b: InstalledFolder, c: InstalledFolder|
            #[trigger] le(a, b) && #[trigger] le(b, c) implies le(a, c) by {
            crate::text::lemma_seq_le_transitive(
                folder_key(a.folder@),
                folder_key(b.folder@),
                folder_key(c.folder@),
            );
        }
    }
    lemma_sort_stable_sorted(folders, le);
}

/// The Forever client loads a described folder exactly when its `.toc`
/// declares no interface number, or declares at least one in the band
/// 16000..20000, wherever that number stands in the list.
pub proof fn law_any_forever_interface_loads(f: InstalledFolder, name: Seq<char>, ds: Seq<crate::wow::toc::DirectiveSpec>)
    requires
        describes(f, name, ds),
    ensures
        f.loads_on_client <==> (interfaces_in(ds).len() == 0 || exists|k: int|
            0 <= k < interfaces_in(ds).len() && 16000 <= #[trigger] interfaces_in(ds)[k] && interfaces_in(ds)[k]
                < 20000),
{
}

} // verus!
