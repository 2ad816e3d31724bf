//! Working out what an addon archive actually contains, before anything is
//! written to the client.
//!
//! Addon zips come in three shapes in the wild:
//!
//! * folders at the root — `Bagnon/Bagnon.toc`, `Bagnon_Config/…`
//! * a wrapper folder, typical of GitHub archives — `Bagnon-master/Bagnon/…`
//! * loose files at the root — `Bagnon.toc`, `main.lua`
//!
//! The plan normalizes all three to "these folder names, extracted from this
//! prefix", so the installer and the uninstaller agree on what an addon owns.

use vstd::prelude::*;

use crate::domain::addon::AddonId;
use crate::domain::folder::{folder_name_problem, folder_or_problem, is_separator, valid_folder_name, AddonFolder};
use crate::error::AppError;
use crate::sorting::{lemma_insert_stable_at, sort_stable};
use crate::text::lemma_split_on_len;
use crate::text::{
    is_ascii_alnum, append_chars, chars_eq, chars_le, chars_of, count_char, count_char_in,
    eq_ignore_ascii_case, eq_ignore_ascii_case_chars, has_prefix, seq_le, slice_chars,
    split_chars, split_on, starts_with_chars, string_of, trim,
};

verus! {

/// One entry of an archive's directory, as the zip reader reports it: its raw
/// name, and whether the reader judged that name safe to extract (not
/// absolute, no escape through `..`, no NUL byte).
pub struct ArchiveEntry {
    pub name: String,
    pub enclosed: bool,
    /// Whether the reader takes the entry for a directory.
    pub is_dir: bool,
}

pub open spec fn entry_view(e: ArchiveEntry) -> (Seq<char>, bool) {
    (e.name@, e.enclosed)
}


/// `\` read as `/`.
pub open spec fn slashes(s: Seq<char>) -> Seq<char> {
    s.map_values(|c: char| if c == '\\' { '/' } else { c })
}

/// The last `/`-separated component.
pub open spec fn last_component(p: Seq<char>) -> Seq<char> {
    split_on(p, '/').last()
}

/// The first `/`-separated component.
pub open spec fn first_component(p: Seq<char>) -> Seq<char> {
    split_on(p, '/')[0]
}

/// Junk that archiving tools add and WoW must never see.
pub open spec fn ignored_path(p: Seq<char>) -> bool {
    ||| has_prefix(p, "__MACOSX/"@)
    ||| has_prefix(p, ".git/"@)
    ||| last_component(p) == ".DS_Store"@
    ||| last_component(p) == "Thumbs.db"@
}

/// `std::path::Path::new(p).extension()`, as text.
pub uninterp spec fn path_extension(p: Seq<char>) -> Option<Seq<char>>;

/// A relative path every platform reads alike, whose file name is its last
/// `/`-separated component: no `:` (a drive prefix on Windows), no `\` (a
/// separator there), no leading `/` (a root, or a share on Windows), and a
/// last component that is neither empty, `.` nor `..`.
pub open spec fn plain_relative_path(p: Seq<char>) -> bool {
    &&& forall|i: int| 0 <= i < p.len() ==> #[trigger] p[i] != ':' && p[i] != '\\'
    &&& !(p.len() > 0 && p[0] == '/')
    &&& last_component(p).len() > 0
    &&& last_component(p) != "."@
    &&& last_component(p) != ".."@
}

/// `Path::extension` on a file name: the part after the last `.`, or `None`
/// when the name has no `.` or its only `.` leads it.
pub open spec fn dot_extension(name: Seq<char>) -> Option<Seq<char>> {
    let pieces = split_on(name, '.');
    if pieces.len() <= 1 || name.len() - pieces.last().len() - 1 == 0 {
        None
    } else {
        Some(pieces.last())
    }
}

/// The extension std gives a path: stated outright for a plain relative
/// path, named otherwise.
pub open spec fn file_extension(p: Seq<char>) -> Option<Seq<char>> {
    if plain_relative_path(p) {
        dot_extension(last_component(p))
    } else {
        path_extension(p)
    }
}

/// The text of an optional string.
pub open spec fn opt_chars(o: Option<String>) -> Option<Seq<char>> {
    match o {
        Some(s) => Some(s@),
        None => None,
    }
}

/// `Path::new(p).extension()`. Its documentation: the extension is `None`
/// when there is no file name or no embedded `.`, or when the file name
/// begins with `.` and has no other `.`; otherwise the part of the file name
/// after the final `.`. A plain relative path's file name is its last
/// component; for other paths the result is named, not stated.
#[verifier::external_body]
fn extension_of(p: &str) -> (r: Option<String>)
    ensures
        plain_relative_path(p@) ==> opt_chars(r) == dot_extension(last_component(p@)),
        !plain_relative_path(p@) ==> opt_chars(r) == path_extension(p@),
{
    std::path::Path::new(p).extension().map(|ext| ext.to_string_lossy().into_owned())
}

/// A path whose extension is `toc`, ignoring ASCII case.
pub open spec fn is_toc_path(p: Seq<char>) -> bool {
    match file_extension(p) {
        Some(e) => eq_ignore_ascii_case(e, "toc"@),
        None => false,
    }
}

/// The entries worth planning, `\` read as `/`: neither empty nor junk.
pub open spec fn kept_entry(n: Seq<char>) -> bool {
    n.len() > 0 && !ignored_path(n)
}

/// The names of the kept entries, in archive order.
pub open spec fn kept_names(es: Seq<(Seq<char>, bool)>) -> Seq<Seq<char>>
    decreases es.len(),
{
    if es.len() == 0 {
        Seq::empty()
    } else {
        let n = slashes(es.last().0);
        if kept_entry(n) {
            kept_names(es.drop_last()).push(n)
        } else {
            kept_names(es.drop_last())
        }
    }
}

/// The `.toc` paths among `names`, in order.
pub open spec fn toc_paths(names: Seq<Seq<char>>) -> Seq<Seq<char>>
    decreases names.len(),
{
    if names.len() == 0 {
        Seq::empty()
    } else if is_toc_path(names.last()) {
        toc_paths(names.drop_last()).push(names.last())
    } else {
        toc_paths(names.drop_last())
    }
}

/// How many folders deep a path sits.
pub open spec fn depth(p: Seq<char>) -> nat {
    count_char(p, '/')
}

/// The smallest depth among non-empty `ps`.
pub open spec fn min_depth(ps: Seq<Seq<char>>) -> nat
    decreases ps.len(),
{
    if ps.len() <= 1 {
        depth(ps[0])
    } else {
        let m = min_depth(ps.drop_last());
        if depth(ps.last()) < m {
            depth(ps.last())
        } else {
            m
        }
    }
}

/// The first path of depth `d`.
pub open spec fn first_at_depth(ps: Seq<Seq<char>>, d: nat) -> Seq<char>
    decreases ps.len(),
{
    if ps.len() == 0 {
        Seq::empty()
    } else if depth(ps[0]) == d {
        ps[0]
    } else {
        first_at_depth(ps.drop_first(), d)
    }
}

/// The first `n` components of `parts`, each followed by `/`.
pub open spec fn joined_prefix(parts: Seq<Seq<char>>, n: int) -> Seq<char>
    decreases n,
{
    if n <= 0 || parts.len() == 0 {
        Seq::empty()
    } else {
        joined_prefix(parts, n - 1) + parts[n - 1] + seq!['/']
    }
}

/// The wrapper to strip for a shallowest `.toc` at depth `d`: every folder
/// above its addon folder.
pub open spec fn wrapper_of(shallowest: Seq<char>, d: nat) -> Seq<char> {
    joined_prefix(split_on(shallowest, '/'), d - 1)
}

/// The first-component names of the `.toc` paths at depth `d` under `strip`.
pub open spec fn folder_candidates(ps: Seq<Seq<char>>, d: nat, strip: Seq<char>) -> Seq<Seq<char>>
    decreases ps.len(),
{
    if ps.len() == 0 {
        Seq::empty()
    } else {
        let p = ps.last();
        let init = folder_candidates(ps.drop_last(), d, strip);
        if depth(p) == d && has_prefix(p, strip) {
            init.push(first_component(p.skip(strip.len() as int)))
        } else {
            init
        }
    }
}

/// The first candidate that is not a valid folder name.
pub open spec fn first_bad_candidate(cs: Seq<Seq<char>>) -> Option<Seq<char>>
    decreases cs.len(),
{
    if cs.len() == 0 {
        None
    } else if !valid_folder_name(trim(cs[0])) {
        Some(cs[0])
    } else {
        first_bad_candidate(cs.drop_first())
    }
}

/// The trimmed candidates, each kept once at its first occurrence.
pub open spec fn distinct_trimmed(cs: Seq<Seq<char>>) -> Seq<Seq<char>>
    decreases cs.len(),
{
    if cs.len() == 0 {
        Seq::empty()
    } else {
        let init = distinct_trimmed(cs.drop_last());
        if init.contains(trim(cs.last())) {
            init
        } else {
            init.push(trim(cs.last()))
        }
    }
}

pub open spec fn name_le(a: Seq<char>, b: Seq<char>) -> bool {
    seq_le(a, b)
}

/// What the archive installs, as text.
#[verifier::ext_equal]
pub struct PlanView {
    pub strip: Seq<char>,
    pub wrap_in: Option<Seq<char>>,
    pub folders: Seq<Seq<char>>,
}

/// The outcome of planning the kept entry names `names`.
pub enum PlanOutcome {
    NoAddon,
    UnsafeName(Seq<char>),
    Planned(PlanView),
}

/// Turns a catalog name into something WoW will load as a folder name:
/// everything but letters, digits, `_` and `-` becomes `_`, then `_` is
/// trimmed from both ends.
pub open spec fn sanitized(name: Seq<char>) -> Seq<char> {
    trim_char(name.map_values(|c: char| if alphanumeric(c) || c == '_' || c == '-' { c } else { '_' }), '_')
}

pub open spec fn trim_char_start(s: Seq<char>, c: char) -> Seq<char>
    decreases s.len(),
{
    if s.len() > 0 && s[0] == c {
        trim_char_start(s.drop_first(), c)
    } else {
        s
    }
}

pub open spec fn trim_char_end(s: Seq<char>, c: char) -> Seq<char>
    decreases s.len(),
{
    if s.len() > 0 && s.last() == c {
        trim_char_end(s.drop_last(), c)
    } else {
        s
    }
}

pub open spec fn trim_char(s: Seq<char>, c: char) -> Seq<char> {
    trim_char_end(trim_char_start(s, c), c)
}

/// Unicode `Alphabetic` or `Numeric`: `char::is_alphanumeric`.
pub uninterp spec fn unicode_alphanumeric(c: char) -> bool;

/// Alphanumeric as `char::is_alphanumeric` has it: on ASCII, exactly the
/// letters and digits; beyond ASCII, Unicode's `Alphabetic` or `Numeric`.
pub open spec fn alphanumeric(c: char) -> bool {
    if (c as u32) < 128 {
        is_ascii_alnum(c)
    } else {
        unicode_alphanumeric(c)
    }
}

/// `char::is_alphanumeric`: `Alphabetic` or `Numeric`, which on ASCII are
/// the letters and the digits `0`..`9`.
#[verifier::external_body]
fn is_alphanumeric(c: char) -> (r: bool)
    ensures
        (c as u32) < 128 ==> r == is_ascii_alnum(c),
        (c as u32) >= 128 ==> r == unicode_alphanumeric(c),
{
    c.is_alphanumeric()
}

/// The plan for the kept entry names of an archive.
pub open spec fn planned(names: Seq<Seq<char>>, fallback_name: Seq<char>) -> PlanOutcome {
    let tocs = toc_paths(names);
    if tocs.len() == 0 {
        PlanOutcome::NoAddon
    } else {
        let d = min_depth(tocs);
        if d == 0 {
            let folder = sanitized(fallback_name);
            if valid_folder_name(trim(folder)) {
                PlanOutcome::Planned(
                    PlanView {
                        strip: Seq::empty(),
                        wrap_in: Some(trim(folder)),
                        folders: seq![trim(folder)],
                    },
                )
            } else {
                PlanOutcome::UnsafeName(folder_name_problem(folder))
            }
        } else {
            let strip = wrapper_of(first_at_depth(tocs, d), d);
            let cands = folder_candidates(tocs, d, strip);
            match first_bad_candidate(cands) {
                Some(bad) => PlanOutcome::UnsafeName(folder_name_problem(bad)),
                None => if cands.len() == 0 {
                    PlanOutcome::NoAddon
                } else {
                    PlanOutcome::Planned(
                        PlanView {
                            strip,
                            wrap_in: None,
                            folders: sort_stable(
                                distinct_trimmed(cands),
                                |a: Seq<char>, b: Seq<char>| name_le(a, b),
                            ),
                        },
                    )
                },
            }
        }
    }
}

/// What to extract, and where each entry lands under `Interface/AddOns`.
#[derive(Debug, PartialEq, Eq)]
pub struct ArchivePlan {
    /// Stripped from the front of every entry path — the wrapper folder, when
    /// the archive has one.
    strip: String,
    /// Set only for archives whose files sit at the root and therefore need a
    /// folder invented for them.
    wrap_in: Option<AddonFolder>,
    /// Every folder this addon will own once installed. Uninstalling removes
    /// exactly these.
    folders: Vec<AddonFolder>,
}

pub open spec fn folder_views(fs: Seq<AddonFolder>) -> Seq<Seq<char>> {
    fs.map_values(|f: AddonFolder| f@)
}

impl View for ArchivePlan {
    type V = PlanView;

    closed spec fn view(&self) -> PlanView {
        PlanView {
            strip: self.strip@,
            wrap_in: match self.wrap_in {
                Some(f) => Some(f@),
                None => None,
            },
            folders: folder_views(self.folders@),
        }
    }
}

/// `s` with every leading `/` removed.
pub open spec fn trim_start_slashes(s: Seq<char>) -> Seq<char> {
    trim_char_start(s, '/')
}

/// Where an entry lands relative to `Interface/AddOns` under a plan.
pub open spec fn destination_of(plan: PlanView, entry: Seq<char>) -> Option<Seq<char>> {
    let n = slashes(entry);
    if !has_prefix(n, plan.strip) {
        None
    } else {
        let rest = trim_start_slashes(n.skip(plan.strip.len() as int));
        if rest.len() == 0 || ignored_path(rest) {
            None
        } else {
            match plan.wrap_in {
                Some(f) => Some(f + seq!['/'] + rest),
                None => {
                    let first = first_component(rest);
                    let name = trim(first);
                    if valid_folder_name(name) && plan.folders.contains(name) {
                        Some(name + rest.skip(first.len() as int))
                    } else {
                        None
                    }
                },
            }
        }
    }
}

impl ArchivePlan {
    pub fn folders(&self) -> (r: &[AddonFolder])
        ensures
            folder_views(r@) == self@.folders,
    {
        self.folders.as_slice()
    }

    /// Where an archive entry belongs, relative to `Interface/AddOns`, or
    /// `None` for entries outside the plan (the wrapper folder's own siblings,
    /// such as a top-level `README.md` in a GitHub archive).
    pub fn destination(&self, entry: &str) -> (r: Option<String>)
        ensures
            r is None <==> destination_of(self@, entry@) is None,
            r matches Some(d) ==> destination_of(self@, entry@) == Some(d@),
    {
        let raw = chars_of(entry);
        let n = with_slashes(raw.as_slice());
        let strip = chars_of(self.strip.as_str());
        if !starts_with_chars(n.as_slice(), strip.as_slice()) {
            return None;
        }
        let after = slice_chars(n.as_slice(), strip.len(), n.len());
        assert(after@ =~= n@.skip(strip@.len() as int));
        let rest = trim_start_char(after.as_slice(), '/');
        if rest.len() == 0 || is_ignored_chars(rest.as_slice()) {
            return None;
        }
        match &self.wrap_in {
            Some(folder) => {
                let mut out = chars_of(folder.as_str());
                out.push('/');
                append_chars(&mut out, rest.as_slice());
                Some(string_of(out.as_slice()))
            },
            None => {
                let parts = split_chars(rest.as_slice(), '/');
                let first = string_of(parts[0].as_slice());
                match AddonFolder::new(first.as_str()) {
                    Ok(folder) => {
                        if contains_folder(&self.folders, &folder) {
                            proof {
                                crate::text::lemma_first_piece(rest@, '/');
                            }
                            let mut out = chars_of(folder.as_str());
                            let tail = slice_chars(rest.as_slice(), parts[0].len(), rest.len());
                            assert(tail@ =~= rest@.skip(first@.len() as int));
                            append_chars(&mut out, tail.as_slice());
                            Some(string_of(out.as_slice()))
                        } else {
                            None
                        }
                    },
                    Err(_) => None,
                }
            },
        }
    }
}

fn contains_folder(folders: &Vec<AddonFolder>, folder: &AddonFolder) -> (r: bool)
    ensures
        r == folder_views(folders@).contains(folder@),
{
    let mut i: usize = 0;
    while i < folders.len()
        invariant
            i <= folders@.len(),
            forall|k: int| 0 <= k < i ==> (#[trigger] folders@[k])@ != folder@,
        decreases folders.len() - i,
    {
        if folders[i].same_name(folder) {
            assert(folder_views(folders@)[i as int] == folder@);
            return true;
        }
        i += 1;
    }
    assert(!folder_views(folders@).contains(folder@)) by {
        if folder_views(folders@).contains(folder@) {
            let k = choose|k: int| 0 <= k < folder_views(folders@).len() && folder_views(folders@)[k] == folder@;
            assert((folders@[k])@ != folder@);
        }
    }
    false
}

fn with_slashes(s: &[char]) -> (r: Vec<char>)
    ensures
        r@ == slashes(s@),
{
    let mut out: Vec<char> = Vec::new();
    let mut i: usize = 0;
    while i < s.len()
        invariant
            i <= s.len(),
            out@ == slashes(s@.take(i as int)),
        decreases s.len() - i,
    {
        let c = s[i];
        out.push(if c == '\\' { '/' } else { c });
        i += 1;
        assert(out@ =~= slashes(s@.take(i as int)));
    }
    assert(s@.take(s.len() as int) =~= s@);
    out
}

fn trim_start_char(s: &[char], c: char) -> (r: Vec<char>)
    ensures
        r@ == trim_char_start(s@, c),
{
    let mut i: usize = 0;
    assert(s@.skip(0) =~= s@);
    while i < s.len() && s[i] == c
        invariant
            i <= s.len(),
            trim_char_start(s@, c) == trim_char_start(s@.skip(i as int), c),
        decreases s.len() - i,
    {
        assert(s@.skip(i as int).drop_first() =~= s@.skip(i + 1));
        i += 1;
    }
    let r = slice_chars(s, i, s.len());
    assert(r@ =~= s@.skip(i as int));
    r
}

fn trim_end_char(s: &[char], c: char) -> (r: Vec<char>)
    ensures
        r@ == trim_char_end(s@, c),
{
    let mut j: usize = s.len();
    assert(s@.take(s.len() as int) =~= s@);
    while j > 0 && s[j - 1] == c
        invariant
            j <= s.len(),
            trim_char_end(s@, c) == trim_char_end(s@.take(j as int), c),
        decreases j,
    {
        assert(s@.take(j as int).drop_last() =~= s@.take(j - 1));
        j -= 1;
    }
    let r = slice_chars(s, 0, j);
    assert(r@ =~= s@.take(j as int));
    r
}

fn last_component_chars(p: &[char]) -> (r: Vec<char>)
    ensures
        r@ == last_component(p@),
{
    let parts = split_chars(p, '/');
    let last = parts.len() - 1;
    slice_chars(parts[last].as_slice(), 0, parts[last].len())
}

fn is_ignored_chars(p: &[char]) -> (r: bool)
    ensures
        r == ignored_path(p@),
{
    if starts_with_chars(p, chars_of("__MACOSX/").as_slice()) || starts_with_chars(
        p,
        chars_of(".git/").as_slice(),
    ) {
        return true;
    }
    let name = last_component_chars(p);
    chars_eq(name.as_slice(), chars_of(".DS_Store").as_slice()) || chars_eq(
        name.as_slice(),
        chars_of("Thumbs.db").as_slice(),
    )
}

/// Whether a path is junk an archiving tool added.
pub fn is_ignored(path: &str) -> (r: bool)
    ensures
        r == ignored_path(path@),
{
    let p = chars_of(path);
    is_ignored_chars(p.as_slice())
}

/// Whether a path names a `.toc` file, ignoring the extension's ASCII case.
pub fn ends_with_toc(path: &str) -> (r: bool)
    ensures
        r == is_toc_path(path@),
{
    match extension_of(path) {
        Some(ext) => {
            let e = chars_of(ext.as_str());
            eq_ignore_ascii_case_chars(e.as_slice(), chars_of("toc").as_slice())
        },
        None => false,
    }
}

/// Turns a catalog name into something WoW will load as a folder name.
pub fn sanitize_folder_name(name: &str) -> (r: String)
    ensures
        r@ == sanitized(name@),
{
    let s = chars_of(name);
    let mut cleaned: Vec<char> = Vec::new();
    let mut i: usize = 0;
    let ghost f = |c: char| if alphanumeric(c) || c == '_' || c == '-' { c } else { '_' };
    while i < s.len()
        invariant
            i <= s.len(),
            f == (|c: char| if alphanumeric(c) || c == '_' || c == '-' { c } else { '_' }),
            cleaned@ == s@.take(i as int).map_values(f),
        decreases s.len() - i,
    {
        let c = s[i];
        cleaned.push(if is_alphanumeric(c) || c == '_' || c == '-' { c } else { '_' });
        i += 1;
        assert(cleaned@ =~= s@.take(i as int).map_values(f));
    }
    assert(s@.take(s.len() as int) =~= s@);
    let front = trim_start_char(cleaned.as_slice(), '_');
    let both = trim_end_char(front.as_slice(), '_');
    string_of(both.as_slice())
}

pub open spec fn texts(v: Seq<String>) -> Seq<Seq<char>> {
    v.map_values(|s: String| s@)
}

pub proof fn lemma_min_depth_attained(ps: Seq<Seq<char>>)
    requires
        ps.len() > 0,
    ensures
        exists|i: int| 0 <= i < ps.len() && depth(#[trigger] ps[i]) == min_depth(ps),
        forall|i: int| 0 <= i < ps.len() ==> min_depth(ps) <= depth(#[trigger] ps[i]),
    decreases ps.len(),
{
    if ps.len() > 1 {
        lemma_min_depth_attained(ps.drop_last());
        let m = min_depth(ps.drop_last());
        let w = choose|i: int| 0 <= i < ps.drop_last().len() && depth(#[trigger] ps.drop_last()[i]) == m;
        if depth(ps.last()) < m {
            assert(depth(ps[ps.len() - 1]) == min_depth(ps));
        } else {
            assert(depth(ps[w]) == min_depth(ps));
        }
        assert forall|i: int| 0 <= i < ps.len() implies min_depth(ps) <= depth(#[trigger] ps[i]) by {
            if i < ps.len() - 1 {
                assert(ps[i] == ps.drop_last()[i]);
            }
        }
    } else {
        assert(depth(ps[0]) == min_depth(ps));
    }
}

/// The plan for the kept entry names of an archive: which folders it
/// installs, and from which prefix.
#[verifier::loop_isolation(false)]
pub fn plan_from_names(names: &Vec<String>, addon_id: &AddonId, fallback_name: &str) -> (r: Result<ArchivePlan, AppError>)
    ensures
        match planned(texts(names@), fallback_name@) {
            PlanOutcome::NoAddon => r matches Err(AppError::ArchiveHasNoAddon { addon_id: id }) && id == *addon_id,
            PlanOutcome::UnsafeName(m) => r matches Err(AppError::ArchiveUnsafePath { addon_id: id, entry }) && id == *addon_id && entry@ == m,
            PlanOutcome::Planned(p) => r matches Ok(plan) && plan@ == p,
        },
{
    let ghost ns = texts(names@);
    // The `.toc` paths, in order.
    let mut tocs: Vec<Vec<char>> = Vec::new();
    let mut i: usize = 0;
    assert(ns.take(0) =~= Seq::<Seq<char>>::empty());
    while i < names.len()
        invariant
            i <= names@.len(),
            ns == texts(names@),
            tocs@.len() == toc_paths(ns.take(i as int)).len(),
            forall|k: int| 0 <= k < tocs@.len() ==> #[trigger] tocs@[k]@ == toc_paths(ns.take(i as int))[k],
        decreases names.len() - i,
    {
        assert(ns.take(i + 1).drop_last() =~= ns.take(i as int));
        assert(ns.take(i + 1).last() == names@[i as int]@);
        if ends_with_toc(names[i].as_str()) {
            tocs.push(chars_of(names[i].as_str()));
        }
        i += 1;
    }
    assert(ns.take(ns.len() as int) =~= ns);
    let ghost tp = toc_paths(ns);
    if tocs.len() == 0 {
        return Err(AppError::ArchiveHasNoAddon { addon_id: addon_id.clone() });
    }
    // The shallowest depth.
    let mut d = count_char_in(tocs[0].as_slice(), '/');
    let mut j: usize = 1;
    assert(tp.take(1).drop_last() =~= Seq::<Seq<char>>::empty());
    while j < tocs.len()
        invariant
            1 <= j <= tocs@.len(),
            tocs@.len() == tp.len(),
            forall|k: int| 0 <= k < tocs@.len() ==> #[trigger] tocs@[k]@ == tp[k],
            d == min_depth(tp.take(j as int)),
        decreases tocs.len() - j,
    {
        assert(tp.take(j + 1).drop_last() =~= tp.take(j as int));
        let dj = count_char_in(tocs[j].as_slice(), '/');
        if dj < d {
            d = dj;
        }
        j += 1;
    }
    assert(tp.take(tp.len() as int) =~= tp);
    if d == 0 {
        let folder_name = sanitize_folder_name(fallback_name);
        return match folder_or_problem(folder_name.as_str()) {
            Ok(folder) => {
                let mut folders: Vec<AddonFolder> = Vec::new();
                folders.push(folder.clone());
                let plan = ArchivePlan { strip: String::new(), wrap_in: Some(folder), folders };
                assert(folder_views(plan.folders@) =~= seq![trim(sanitized(fallback_name@))]);
                Ok(plan)
            },
            Err(m) => Err(AppError::ArchiveUnsafePath { addon_id: addon_id.clone(), entry: m }),
        };
    }
    // The first `.toc` at that depth.
    proof {
        lemma_min_depth_attained(tp);
    }
    let mut s: usize = 0;
    assert(tp.skip(0) =~= tp);
    while s < tocs.len() && count_char_in(tocs[s].as_slice(), '/') != d
        invariant
            s <= tocs@.len(),
            tocs@.len() == tp.len(),
            forall|k: int| 0 <= k < tocs@.len() ==> #[trigger] tocs@[k]@ == tp[k],
            forall|k: int| 0 <= k < s ==> depth(#[trigger] tp[k]) != d,
            first_at_depth(tp, d as nat) == first_at_depth(tp.skip(s as int), d as nat),
        decreases tocs.len() - s,
    {
        assert(tp.skip(s as int).drop_first() =~= tp.skip(s + 1));
        s += 1;
    }
    if s == tocs.len() {
        assert(false);
        return Err(AppError::ArchiveHasNoAddon { addon_id: addon_id.clone() });
    }
    let shallowest = &tocs[s];
    // The wrapper above the addon folders.
    let parts = split_chars(shallowest.as_slice(), '/');
    proof {
        lemma_split_on_len(tp[s as int], '/');
    }
    let ghost sp = split_on(tp[s as int], '/');
    let mut strip: Vec<char> = Vec::new();
    let mut k: usize = 0;
    while k < d - 1
        invariant
            k <= d - 1,
            d >= 1,
            parts@.len() == sp.len(),
            sp.len() == d + 1,
            forall|q: int| 0 <= q < parts@.len() ==> #[trigger] parts@[q]@ == sp[q],
            strip@ == joined_prefix(sp, k as int),
        decreases d - 1 - k,
    {
        append_chars(&mut strip, parts[k].as_slice());
        strip.push('/');
        k += 1;
    }
    let ghost strip_spec = wrapper_of(first_at_depth(tp, d as nat), d as nat);
    assert(strip@ == strip_spec);
    // The candidate folder names, in order.
    let mut cands: Vec<Vec<char>> = Vec::new();
    let mut t: usize = 0;
    assert(tp.take(0) =~= Seq::<Seq<char>>::empty());
    while t < tocs.len()
        invariant
            t <= tocs@.len(),
            tocs@.len() == tp.len(),
            forall|q: int| 0 <= q < tocs@.len() ==> #[trigger] tocs@[q]@ == tp[q],
            cands@.len() == folder_candidates(tp.take(t as int), d as nat, strip@).len(),
            forall|q: int| 0 <= q < cands@.len() ==> #[trigger] cands@[q]@ == folder_candidates(tp.take(t as int), d as nat, strip@)[q],
        decreases tocs.len() - t,
    {
        assert(tp.take(t + 1).drop_last() =~= tp.take(t as int));
        assert(tp.take(t + 1).last() == tp[t as int]);
        let path = &tocs[t];
        if count_char_in(path.as_slice(), '/') == d && starts_with_chars(path.as_slice(), strip.as_slice()) {
            let rest = slice_chars(path.as_slice(), strip.len(), path.len());
            assert(rest@ =~= tp[t as int].skip(strip@.len() as int));
            let comps = split_chars(rest.as_slice(), '/');
            let first = slice_chars(comps[0].as_slice(), 0, comps[0].len());
            assert(first@ =~= comps@[0]@);
            cands.push(first);
        }
        t += 1;
    }
    assert(tp.take(tp.len() as int) =~= tp);
    let ghost cs = folder_candidates(tp, d as nat, strip@);
    // Validate and deduplicate.
    let mut folders: Vec<AddonFolder> = Vec::new();
    let mut u: usize = 0;
    assert(cs.skip(0) =~= cs);
    assert(cs.take(0) =~= Seq::<Seq<char>>::empty());
    while u < cands.len()
        invariant
            u <= cands@.len(),
            cands@.len() == cs.len(),
            forall|q: int| 0 <= q < cands@.len() ==> #[trigger] cands@[q]@ == cs[q],
            first_bad_candidate(cs) == first_bad_candidate(cs.skip(u as int)),
            folder_views(folders@) == distinct_trimmed(cs.take(u as int)),
        decreases cands.len() - u,
    {
        assert(cs.skip(u as int)[0] == cs[u as int]);
        assert(cs.skip(u as int).drop_first() =~= cs.skip(u + 1));
        assert(cs.take(u + 1).drop_last() =~= cs.take(u as int));
        let name = string_of(cands[u].as_slice());
        match folder_or_problem(name.as_str()) {
            Ok(folder) => {
                if !contains_folder(&folders, &folder) {
                    folders.push(folder);
                    assert(folder_views(folders@) =~= distinct_trimmed(cs.take(u + 1)));
                }
            },
            Err(m) => {
                assert(name@ == cs[u as int]);
                assert(first_bad_candidate(cs.skip(u as int)) == Some(cs[u as int]));
                assert(first_bad_candidate(cs) == Some(cs[u as int]));
                return Err(AppError::ArchiveUnsafePath { addon_id: addon_id.clone(), entry: m });
            },
        }
        u += 1;
    }
    assert(cs.take(cs.len() as int) =~= cs);
    if folders.len() == 0 {
        assert(cs.len() == 0) by {
            if cs.len() > 0 {
                lemma_distinct_trimmed_nonempty(cs);
            }
        }
        return Err(AppError::ArchiveHasNoAddon { addon_id: addon_id.clone() });
    }
    assert(cs.len() > 0);
    let sorted = sort_folders_by_name(folders);
    let plan = ArchivePlan { strip: string_of(strip.as_slice()), wrap_in: None, folders: sorted };
    Ok(plan)
}

proof fn lemma_distinct_trimmed_nonempty(cs: Seq<Seq<char>>)
    requires
        cs.len() > 0,
    ensures
        distinct_trimmed(cs).len() > 0,
    decreases cs.len(),
{
    if cs.len() > 1 {
        lemma_distinct_trimmed_nonempty(cs.drop_last());
    }
}

/// The folders sorted by name.
fn sort_folders_by_name(folders: Vec<AddonFolder>) -> (r: Vec<AddonFolder>)
    ensures
        folder_views(r@) == sort_stable(folder_views(folders@), |a: Seq<char>, b: Seq<char>| name_le(a, b)),
{
    let ghost le = |a: Seq<char>, b: Seq<char>| name_le(a, b);
    let ghost fv = folder_views(folders@);
    let mut out: Vec<AddonFolder> = Vec::new();
    let mut i: usize = 0;
    assert(fv.take(0) =~= Seq::<Seq<char>>::empty());
    while i < folders.len()
        invariant
            i <= folders@.len(),
            fv == folder_views(folders@),
            le == (|a: Seq<char>, b: Seq<char>| name_le(a, b)),
            folder_views(out@) == sort_stable(fv.take(i as int), le),
        decreases folders.len() - i,
    {
        let item = folders[i].clone();
        let key = chars_of(item.as_str());
        let mut j: usize = out.len();
        while j > 0 && !chars_le(chars_of(out[j - 1].as_str()).as_slice(), key.as_slice())
            invariant
                j <= out@.len(),
                le == (|a: Seq<char>, b: Seq<char>| name_le(a, b)),
                key@ == item@,
                forall|k: int| j <= k < out@.len() ==> !le(#[trigger] folder_views(out@)[k], item@),
            decreases j,
        {
            j -= 1;
        }
        proof {
            if j > 0 {
                assert(le(folder_views(out@)[j - 1], item@));
            }
            lemma_insert_stable_at(folder_views(out@), item@, le, j as int);
            assert(fv.take(i + 1).drop_last() =~= fv.take(i as int));
        }
        let ghost before = out@;
        out.insert(j, item);
        assert(folder_views(out@) =~= folder_views(before).insert(j as int, fv[i as int]));
        i += 1;
    }
    assert(fv.take(fv.len() as int) =~= fv);
    out
}

#[verifier::external_type_specification]
#[verifier::external_body]
#[verifier::reject_recursive_types(R)]
pub struct ExZipArchive<R>(zip::ZipArchive<R>);

#[verifier::external_type_specification]
#[verifier::external_body]
#[verifier::reject_recursive_types(T)]
pub struct ExCursor<T>(std::io::Cursor<T>);

#[verifier::external_type_specification]
#[verifier::external_body]
pub struct ExZipError(zip::result::ZipError);

/// What an opened archive lists, in directory order: for each entry its
/// name, whether the zip reader judges that name safe to extract, whether
/// the entry can be read at all (`by_index` finds its local header and
/// `name` decodes it), and whether the reader takes it for a directory. All
/// four are read from the archive's bytes, so reading entries changes none
/// of them.
pub uninterp spec fn zip_entries(archive: zip::ZipArchive<std::io::Cursor<Vec<u8>>>) -> Seq<(Seq<char>, bool, bool, bool)>;

/// What `zip::ZipArchive::new` reads out of these bytes, when they are a
/// readable zip.
pub uninterp spec fn zip_listing(bytes: Seq<u8>) -> Option<Seq<(Seq<char>, bool, bool, bool)>>;

/// The name and safety of each listed entry.
pub open spec fn entry_listing(es: Seq<(Seq<char>, bool, bool, bool)>) -> Seq<(Seq<char>, bool)> {
    es.map_values(|e: (Seq<char>, bool, bool, bool)| (e.0, e.1))
}

/// Some listed entry cannot be read.
pub open spec fn has_unreadable(es: Seq<(Seq<char>, bool, bool, bool)>) -> bool {
    exists|i: int| 0 <= i < es.len() && !(#[trigger] es[i]).2
}

/// `zip::ZipArchive::new` over the bytes in memory.
#[verifier::external_body]
fn open_zip(bytes: Vec<u8>) -> (r: Result<zip::ZipArchive<std::io::Cursor<Vec<u8>>>, zip::result::ZipError>)
    ensures
        r is Ok <==> zip_listing(bytes@) is Some,
        r matches Ok(z) ==> zip_listing(bytes@) == Some(zip_entries(z)),
{
    zip::ZipArchive::new(std::io::Cursor::new(bytes))
}

/// `zip::ZipArchive::len`: the number of entries.
#[verifier::external_body]
fn zip_len(archive: &zip::ZipArchive<std::io::Cursor<Vec<u8>>>) -> (r: usize)
    ensures
        r == zip_entries(*archive).len(),
{
    archive.len()
}

/// `zip::ZipArchive::by_index`, then the entry's name, whether
/// `enclosed_name` accepts it, and `is_dir`. It succeeds exactly on a
/// readable entry, and reading an entry does not change what the archive
/// lists.
#[verifier::external_body]
fn zip_entry(archive: &mut zip::ZipArchive<std::io::Cursor<Vec<u8>>>, index: usize) -> (r: Result<ArchiveEntry, zip::result::ZipError>)
    requires
        index < zip_entries(*old(archive)).len(),
    ensures
        zip_entries(*final(archive)) == zip_entries(*old(archive)),
        r is Ok <==> zip_entries(*old(archive))[index as int].2,
        r matches Ok(e) ==> entry_view(e) == entry_listing(zip_entries(*old(archive)))[index as int],
        r matches Ok(e) ==> e.is_dir == zip_entries(*old(archive))[index as int].3,
{
    let entry = archive.by_index(index)?;
    let name = entry.name()?.into_owned();
    let enclosed = entry.enclosed_name().is_some();
    let is_dir = entry.is_dir();
    Ok(ArchiveEntry { name, enclosed, is_dir })
}

/// The zip reader's own description of a failure.
#[verifier::external_body]
fn zip_error_text(error: &zip::result::ZipError) -> (r: String) {
    error.to_string()
}

/// The first entry, in archive order, that stops the reading of an
/// archive's names: one that cannot be read, or a kept one the reader judged
/// unsafe.
pub open spec fn first_stop(es: Seq<(Seq<char>, bool, bool, bool)>) -> Option<(Seq<char>, bool, bool, bool)>
    decreases es.len(),
{
    if es.len() == 0 {
        None
    } else if !es[0].2 || (kept_entry(slashes(es[0].0)) && !es[0].1) {
        Some(es[0])
    } else {
        first_stop(es.drop_first())
    }
}

/// What planning these kept names yields.
pub open spec fn names_outcome_matches(names: Seq<Seq<char>>, fallback_name: Seq<char>, addon_id: AddonId, r: Result<ArchivePlan, AppError>) -> bool {
    match planned(names, fallback_name) {
        PlanOutcome::NoAddon => r matches Err(AppError::ArchiveHasNoAddon { addon_id: id }) && id == addon_id,
        PlanOutcome::UnsafeName(m) => r matches Err(AppError::ArchiveUnsafePath { addon_id: id, entry }) && id == addon_id && entry@ == m,
        PlanOutcome::Planned(p) => r matches Ok(plan) && plan@ == p,
    }
}

/// What planning a listing yields. The entries are read in archive order and
/// the first one that stops the reading decides: `ArchiveUnreadable` for an
/// entry that cannot be read, `ArchiveUnsafePath` for a kept one the reader
/// judged unsafe. Otherwise the kept names are planned.
pub open spec fn listing_outcome_matches(es: Seq<(Seq<char>, bool, bool, bool)>, fallback_name: Seq<char>, addon_id: AddonId, r: Result<ArchivePlan, AppError>) -> bool {
    match first_stop(es) {
        Some(e) => if !e.2 {
            r matches Err(AppError::ArchiveUnreadable { addon_id: id, .. }) && id == addon_id
        } else {
            r matches Err(AppError::ArchiveUnsafePath { addon_id: id, entry }) && id == addon_id && entry@ == slashes(e.0)
        },
        None => names_outcome_matches(kept_names(entry_listing(es)), fallback_name, addon_id, r),
    }
}

/// The kept entry names, `\` read as `/`, read entry by entry in archive
/// order. The first entry that cannot be read, or that is kept and judged
/// unsafe, fails the whole install: an entry that could escape the AddOns
/// directory is never silently skipped.
fn read_entry_names(archive: &mut zip::ZipArchive<std::io::Cursor<Vec<u8>>>, addon_id: &AddonId) -> (r: Result<Vec<String>, AppError>)
    ensures
        zip_entries(*final(archive)) == zip_entries(*old(archive)),
        match first_stop(zip_entries(*old(archive))) {
            Some(e) => if !e.2 {
                r matches Err(AppError::ArchiveUnreadable { addon_id: id, .. }) && id == *addon_id
            } else {
                r matches Err(AppError::ArchiveUnsafePath { addon_id: id, entry }) && id == *addon_id && entry@
                    == slashes(e.0)
            },
            None => r matches Ok(names) && texts(names@) == kept_names(entry_listing(zip_entries(*old(archive)))),
        },
{
    let ghost listed = zip_entries(*archive);
    let count = zip_len(archive);
    let mut names: Vec<String> = Vec::new();
    let mut i: usize = 0;
    assert(listed.skip(0) =~= listed);
    assert(entry_listing(listed).take(0) =~= Seq::<(Seq<char>, bool)>::empty());
    while i < count
        invariant
            i <= count,
            count == listed.len(),
            zip_entries(*archive) == listed,
            listed == zip_entries(*old(archive)),
            first_stop(listed) == first_stop(listed.skip(i as int)),
            texts(names@) == kept_names(entry_listing(listed).take(i as int)),
        decreases count - i,
    {
        assert(listed.skip(i as int)[0] == listed[i as int]);
        assert(listed.skip(i as int).drop_first() =~= listed.skip(i + 1));
        assert(entry_listing(listed).take(i + 1).drop_last() =~= entry_listing(listed).take(i as int));
        assert(entry_listing(listed).take(i + 1).last() == entry_listing(listed)[i as int]);
        match zip_entry(archive, i) {
            Err(error) => {
                return Err(AppError::ArchiveUnreadable { addon_id: addon_id.clone(), reason: zip_error_text(&error) });
            },
            Ok(entry) => {
                let raw = chars_of(entry.name.as_str());
                let n = with_slashes(raw.as_slice());
                if !(n.len() == 0 || is_ignored_chars(n.as_slice())) {
                    if !entry.enclosed {
                        return Err(AppError::ArchiveUnsafePath { addon_id: addon_id.clone(), entry: string_of(n.as_slice()) });
                    }
                    let ghost before = names@;
                    names.push(string_of(n.as_slice()));
                    assert(texts(names@) =~= texts(before).push(n@));
                }
            },
        }
        i += 1;
    }
    assert(entry_listing(listed).take(count as int) =~= entry_listing(listed));
    assert(listed.skip(count as int) =~= Seq::<(Seq<char>, bool, bool, bool)>::empty());
    Ok(names)
}

/// Reads the archive's directory and decides what it installs.
///
/// `fallback_name` names the folder for an archive whose files sit at the
/// root; it is the addon's catalog name, which is the only name available
/// then. The entries are read in archive order: the first that cannot be
/// read fails with `ArchiveUnreadable`, the first kept one the reader judged
/// unsafe with `ArchiveUnsafePath`; otherwise the kept names are planned.
pub fn plan(archive: &mut zip::ZipArchive<std::io::Cursor<Vec<u8>>>, addon_id: &AddonId, fallback_name: &str) -> (r: Result<ArchivePlan, AppError>)
    ensures
        zip_entries(*final(archive)) == zip_entries(*old(archive)),
        listing_outcome_matches(zip_entries(*old(archive)), fallback_name@, *addon_id, r),
{
    match read_entry_names(archive, addon_id) {
        Ok(names) => plan_from_names(&names, addon_id, fallback_name),
        Err(e) => Err(e),
    }
}

/// Opens an archive held in memory and plans it. Bytes that are not a
/// readable zip fail with `ArchiveUnreadable`, as does an entry the reader
/// cannot read; otherwise the outcome is the one the entries call for.
pub fn read_archive(bytes: Vec<u8>, addon_id: &AddonId, fallback_name: &str) -> (r: Result<(zip::ZipArchive<std::io::Cursor<Vec<u8>>>, ArchivePlan), AppError>)
    ensures
        zip_listing(bytes@) is None ==> (r matches Err(AppError::ArchiveUnreadable { addon_id: id, .. }) && id == *addon_id),
        zip_listing(bytes@) matches Some(es) ==> listing_outcome_matches(
            es,
            fallback_name@,
            *addon_id,
            match r {
                Ok((_, plan)) => Ok(plan),
                Err(e) => Err(e),
            },
        ),
        r matches Ok((z, _)) ==> zip_listing(bytes@) == Some(zip_entries(z)),
{
    let mut archive = match open_zip(bytes) {
        Ok(z) => z,
        Err(error) => {
            return Err(AppError::ArchiveUnreadable { addon_id: addon_id.clone(), reason: zip_error_text(&error) });
        },
    };
    match plan(&mut archive, addon_id, fallback_name) {
        Ok(p) => Ok((archive, p)),
        Err(e) => Err(e),
    }
}

/// One archive entry to write: its place in the archive, the path it is
/// written to, and whether it is a directory.
pub struct ExtractionStep {
    pub index: usize,
    pub path: String,
    pub is_dir: bool,
}

pub open spec fn step_view(s: ExtractionStep) -> (int, Seq<char>, bool) {
    (s.index as int, s.path@, s.is_dir)
}

/// The entries a plan writes, in archive order: each entry it places, with
/// its path under `addons_dir`.
pub open spec fn extraction_of(es: Seq<(Seq<char>, bool, bool, bool)>, plan: PlanView, addons_dir: Seq<char>) -> Seq<(int, Seq<char>, bool)>
    decreases es.len(),
{
    if es.len() == 0 {
        Seq::empty()
    } else {
        let init = extraction_of(es.drop_last(), plan, addons_dir);
        match destination_of(plan, es.last().0) {
            Some(d) => init.push((es.len() - 1, crate::wow::path_join(addons_dir, d), es.last().3)),
            None => init,
        }
    }
}

/// What to write for a planned archive, read from the archive itself, so
/// the names written are the names the plan was made from. An unreadable
/// entry fails with `ArchiveUnreadable`.
pub fn extraction_steps(
    archive: &mut zip::ZipArchive<std::io::Cursor<Vec<u8>>>,
    plan: &ArchivePlan,
    addons_dir: &str,
    addon_id: &AddonId,
) -> (r: Result<Vec<ExtractionStep>, AppError>)
    ensures
        zip_entries(*final(archive)) == zip_entries(*old(archive)),
        has_unreadable(zip_entries(*old(archive))) ==> (r matches Err(AppError::ArchiveUnreadable { addon_id: id, .. })
            && id == *addon_id),
        !has_unreadable(zip_entries(*old(archive))) ==> (r matches Ok(steps) && steps@.map_values(
            |s: ExtractionStep| step_view(s),
        ) == extraction_of(zip_entries(*old(archive)), plan@, addons_dir@)),
{
    let ghost listed = zip_entries(*archive);
    let count = zip_len(archive);
    let mut steps: Vec<ExtractionStep> = Vec::new();
    let mut i: usize = 0;
    while i < count
        invariant
            i <= count,
            count == listed.len(),
            zip_entries(*archive) == listed,
            listed == zip_entries(*old(archive)),
            steps@.map_values(|s: ExtractionStep| step_view(s)) == extraction_of(listed.take(i as int), plan@, addons_dir@),
            forall|k: int| 0 <= k < i ==> (#[trigger] listed[k]).2,
        decreases count - i,
    {
        let ghost before = steps@;
        assert(listed.take(i + 1).drop_last() =~= listed.take(i as int));
        assert(listed.take(i + 1).last() == listed[i as int]);
        match zip_entry(archive, i) {
            Ok(entry) => {
                match crate::install::entry_path(addons_dir, plan, entry.name.as_str()) {
                    Some(path) => {
                        steps.push(ExtractionStep { index: i, path, is_dir: entry.is_dir });
                        assert(steps@.map_values(|s: ExtractionStep| step_view(s)) =~= before.map_values(
                            |s: ExtractionStep| step_view(s),
                        ).push(step_view(steps@.last())));
                    },
                    None => {},
                }
            },
            Err(error) => {
                assert(!listed[i as int].2);
                return Err(AppError::ArchiveUnreadable { addon_id: addon_id.clone(), reason: zip_error_text(&error) });
            },
        }
        i += 1;
    }
    assert(listed.take(count as int) =~= listed);
    assert(!has_unreadable(listed));
    Ok(steps)
}

proof fn lemma_no_bad_candidate(cs: Seq<Seq<char>>)
    requires
        first_bad_candidate(cs) is None,
    ensures
        forall|i: int| 0 <= i < cs.len() ==> valid_folder_name(trim(#[trigger] cs[i])),
    decreases cs.len(),
{
    if cs.len() > 0 {
        lemma_no_bad_candidate(cs.drop_first());
        assert forall|i: int| 0 <= i < cs.len() implies valid_folder_name(trim(#[trigger] cs[i])) by {
            if i > 0 {
                assert(cs[i] == cs.drop_first()[i - 1]);
            }
        }
    }
}

proof fn lemma_distinct_trimmed_from(cs: Seq<Seq<char>>)
    ensures
        forall|i: int|
            0 <= i < distinct_trimmed(cs).len() ==> exists|j: int|
                0 <= j < cs.len() && #[trigger] distinct_trimmed(cs)[i] == trim(cs[j]),
    decreases cs.len(),
{
    if cs.len() > 0 {
        lemma_distinct_trimmed_from(cs.drop_last());
        let init = distinct_trimmed(cs.drop_last());
        assert forall|i: int| 0 <= i < distinct_trimmed(cs).len() implies exists|j: int|
            0 <= j < cs.len() && #[trigger] distinct_trimmed(cs)[i] == trim(cs[j]) by {
            if i < init.len() {
                let j = choose|j: int| 0 <= j < cs.drop_last().len() && init[i] == trim(cs.drop_last()[j]);
                assert(cs[j] == cs.drop_last()[j]);
            } else {
                assert(distinct_trimmed(cs)[i] == trim(cs[cs.len() - 1]));
            }
        }
    }
}

proof fn lemma_distinct_trimmed_no_duplicates(cs: Seq<Seq<char>>)
    ensures
        distinct_trimmed(cs).no_duplicates(),
    decreases cs.len(),
{
    if cs.len() > 0 {
        lemma_distinct_trimmed_no_duplicates(cs.drop_last());
        let init = distinct_trimmed(cs.drop_last());
        let x = trim(cs.last());
        if !init.contains(x) {
            let r = init.push(x);
            assert forall|i: int, j: int| 0 <= i < r.len() && 0 <= j < r.len() && i != j implies r[i] != r[j] by {
                if i == init.len() as int {
                    assert(init[j] != x);
                } else if j == init.len() as int {
                    assert(init[i] != x);
                }
            }
        }
    }
}

/// Every folder a plan installs is a name WoW can load as one folder
/// directly under `AddOns`; the list is sorted by name and names each folder
/// once.
pub proof fn law_planned_folders_are_valid_and_sorted(names: Seq<Seq<char>>, fallback_name: Seq<char>)
    requires
        planned(names, fallback_name) is Planned,
    ensures
        ({
            let p = planned(names, fallback_name)->Planned_0;
            &&& forall|i: int| 0 <= i < p.folders.len() ==> valid_folder_name(#[trigger] p.folders[i])
            &&& crate::sorting::is_sorted_by(p.folders, |a: Seq<char>, b: Seq<char>| name_le(a, b))
            &&& p.folders.no_duplicates()
        }),
{
    let tocs = toc_paths(names);
    let d = min_depth(tocs);
    let p = planned(names, fallback_name)->Planned_0;
    if d == 0 {
        let folder = sanitized(fallback_name);
        assert(p.folders == seq![trim(folder)]);
    } else {
        let strip = wrapper_of(first_at_depth(tocs, d), d);
        let cands = folder_candidates(tocs, d, strip);
        let le = |a: Seq<char>, b: Seq<char>| name_le(a, b);
        let ds = distinct_trimmed(cands);
        lemma_no_bad_candidate(cands);
        lemma_distinct_trimmed_from(cands);
        assert(crate::sorting::total_preorder(le)) by {
            assert forall|a: Seq<char>, b: Seq<char>| #[trigger] le(a, b) || le(b, a) by {
                crate::text::lemma_seq_le_total(a, b);
            }
            assert forall|a: Seq<char>, b: Seq<char>, c: Seq<char>| #[trigger] le(a, b) && #[trigger] le(b, c) implies le(a, c) by {
                crate::text::lemma_seq_le_transitive(a, b, c);
            }
        }
        crate::sorting::lemma_sort_stable_sorted(ds, le);
        lemma_distinct_trimmed_no_duplicates(cands);
        ds.lemma_multiset_has_no_duplicates();
        p.folders.lemma_multiset_has_no_duplicates_conv();
        assert forall|i: int| 0 <= i < p.folders.len() implies valid_folder_name(#[trigger] p.folders[i]) by {
            broadcast use vstd::seq_lib::group_to_multiset_ensures;
            let f = p.folders[i];
            assert(p.folders.to_multiset().count(f) > 0);
            assert(ds.to_multiset().count(f) > 0);
            assert(ds.contains(f));
            let k = choose|k: int| 0 <= k < ds.len() && ds[k] == f;
            let j = choose|j: int| 0 <= j < cands.len() && ds[k] == trim(cands[j]);
            assert(valid_folder_name(trim(cands[j])));
        }
    }
}

/// No entry of an archive lands outside the folders its plan installs: the
/// first component of every destination is one of them, so uninstalling
/// those folders removes everything the install wrote.
pub proof fn law_destinations_stay_in_planned_folders(
    names: Seq<Seq<char>>,
    fallback_name: Seq<char>,
    entry: Seq<char>,
)
    requires
        planned(names, fallback_name) is Planned,
        destination_of(planned(names, fallback_name)->Planned_0, entry) is Some,
    ensures
        planned(names, fallback_name)->Planned_0.folders.contains(
            first_component(destination_of(planned(names, fallback_name)->Planned_0, entry)->Some_0),
        ),
{
    let p = planned(names, fallback_name)->Planned_0;
    let dest = destination_of(p, entry)->Some_0;
    let n = slashes(entry);
    let rest = trim_start_slashes(n.skip(p.strip.len() as int));
    match p.wrap_in {
        Some(f) => {
            let tocs = toc_paths(names);
            let folder = sanitized(fallback_name);
            assert(f == trim(folder));
            assert(p.folders == seq![f]);
            assert(valid_folder_name(f));
            let whole = f + seq!['/'] + rest;
            assert(dest == whole);
            assert(whole[f.len() as int] == '/');
            assert forall|i: int| 0 <= i < f.len() implies whole[i] != '/' by {
                assert(whole[i] == f[i]);
                if whole[i] == '/' {
                    assert(is_separator(f[i]));
                }
            }
            crate::text::lemma_split_first_piece(whole, '/', f.len() as int);
            assert(whole.take(f.len() as int) =~= f);
            assert(p.folders[0] == f);
        },
        None => {
            let first = first_component(rest);
            let name = trim(first);
            let tail = rest.skip(first.len() as int);
            crate::text::lemma_first_piece(rest, '/');
            assert(dest == name + tail);
            assert(valid_folder_name(name));
            assert forall|i: int| 0 <= i < name.len() implies dest[i] != '/' by {
                assert(dest[i] == name[i]);
                if dest[i] == '/' {
                    assert(is_separator(name[i]));
                }
            }
            if tail.len() == 0 {
                assert(dest =~= name);
                crate::text::lemma_split_on_without(dest, '/');
            } else {
                assert(dest[name.len() as int] == tail[0]);
                assert(tail[0] == rest[first.len() as int]);
                crate::text::lemma_split_first_piece(dest, '/', name.len() as int);
                assert(dest.take(name.len() as int) =~= name);
            }
        },
    }
}

/// Each step of an extraction is an entry of the archive, written at the
/// path its destination gives.
pub proof fn lemma_extraction_step(es: Seq<(Seq<char>, bool, bool, bool)>, plan: PlanView, addons_dir: Seq<char>, k: int)
    requires
        0 <= k < extraction_of(es, plan, addons_dir).len(),
    ensures
        ({
            let step = extraction_of(es, plan, addons_dir)[k];
            &&& 0 <= step.0 < es.len()
            &&& destination_of(plan, es[step.0].0) matches Some(d) && step.1 == crate::wow::path_join(addons_dir, d)
            &&& step.2 == es[step.0].3
        }),
    decreases es.len(),
{
    let init = extraction_of(es.drop_last(), plan, addons_dir);
    if k < init.len() {
        lemma_extraction_step(es.drop_last(), plan, addons_dir, k);
        let step = init[k];
        assert(es.drop_last()[step.0] == es[step.0]);
    }
}

/// Everything an install writes lies inside a folder its plan owns, the
/// folders an uninstall removes: each extraction step's path is the AddOns
/// directory joined with a destination whose first component is a planned
/// folder.
pub proof fn law_extraction_stays_in_planned_folders(
    names: Seq<Seq<char>>,
    fallback_name: Seq<char>,
    es: Seq<(Seq<char>, bool, bool, bool)>,
    addons_dir: Seq<char>,
    k: int,
)
    requires
        planned(names, fallback_name) is Planned,
        0 <= k < extraction_of(es, planned(names, fallback_name)->Planned_0, addons_dir).len(),
    ensures
        ({
            let p = planned(names, fallback_name)->Planned_0;
            let step = extraction_of(es, p, addons_dir)[k];
            exists|d: Seq<char>|
                step.1 == crate::wow::path_join(addons_dir, d) && #[trigger] p.folders.contains(first_component(d))
        }),
{
    let p = planned(names, fallback_name)->Planned_0;
    lemma_extraction_step(es, p, addons_dir, k);
    let step = extraction_of(es, p, addons_dir)[k];
    law_destinations_stay_in_planned_folders(names, fallback_name, es[step.0].0);
    let d = destination_of(p, es[step.0].0)->Some_0;
    assert(p.folders.contains(first_component(d)));
}

} // verus!
