//! The local World of Warcraft: Forever client: validating it, and describing
//! what is installed under `Interface/AddOns`.
//!
//! The configured root is a Battle.net *product* directory (currently
//! `_classic_beta_` while Forever is in beta): the executable and a
//! `.flavor.info` marker live in it. Addons live under `Interface/AddOns`
//! inside the product directory. Paths are carried as text, joined with `/`.

pub mod scan;
pub mod toc;

use vstd::prelude::*;

use crate::error::AppError;
use crate::text::{
    ascii_lower_chars, ascii_lower_seq, append_str, chars_of, contains_chars, contains_seq,
    ends_with_chars, has_prefix, has_suffix, starts_with_chars, string_of,
};

verus! {

/// `name` appended to `dir` as one more path component.
pub open spec fn path_join(dir: Seq<char>, name: Seq<char>) -> Seq<char> {
    if dir.len() == 0 || dir.last() == '/' {
        dir + name
    } else {
        dir + seq!['/'] + name
    }
}

/// `dir` joined with `name`.
pub fn join_path(dir: &str, name: &str) -> (r: String)
    ensures
        r@ == path_join(dir@, name@),
{
    let mut v = chars_of(dir);
    if v.len() > 0 && v[v.len() - 1] != '/' {
        v.push('/');
    }
    append_str(&mut v, name);
    string_of(v.as_slice())
}

/// What the filesystem says about a candidate client directory: whether it
/// is a directory, the names of the entries in it that are valid Unicode,
/// and whether a `.flavor.info` file sits in it.
pub struct ClientDirectory {
    pub is_dir: bool,
    pub entry_names: Vec<String>,
    pub has_flavor_marker: bool,
}

/// `Wow*.exe`, ignoring ASCII case, but never the crash reporter.
pub open spec fn wow_executable_name(name: Seq<char>) -> bool {
    let lowered = ascii_lower_seq(name);
    has_prefix(lowered, "wow"@) && has_suffix(lowered, ".exe"@) && !contains_seq(lowered, "error"@)
}

pub open spec fn has_wow_executable(names: Seq<String>) -> bool {
    exists|i: int| 0 <= i < names.len() && wow_executable_name(#[trigger] names[i]@)
}

pub fn is_wow_executable_name(name: &str) -> (r: bool)
    ensures
        r == wow_executable_name(name@),
{
    let v = chars_of(name);
    let lowered = ascii_lower_chars(v.as_slice());
    starts_with_chars(lowered.as_slice(), chars_of("wow").as_slice()) && ends_with_chars(
        lowered.as_slice(),
        chars_of(".exe").as_slice(),
    ) && !contains_chars(lowered.as_slice(), chars_of("error").as_slice())
}

fn contains_wow_executable(names: &Vec<String>) -> (r: bool)
    ensures
        r == has_wow_executable(names@),
{
    let mut i: usize = 0;
    while i < names.len()
        invariant
            i <= names@.len(),
            forall|k: int| 0 <= k < i ==> !wow_executable_name(#[trigger] names@[k]@),
        decreases names.len() - i,
    {
        if is_wow_executable_name(names[i].as_str()) {
            return true;
        }
        i += 1;
    }
    false
}

/// The reason a directory is not a client, checked in this order, or `None`
/// when it is one.
pub open spec fn install_problem(dir: ClientDirectory) -> Option<Seq<char>> {
    if !dir.is_dir {
        Some("the path is not a directory"@)
    } else if !has_wow_executable(dir.entry_names@) {
        Some("no WoW executable (Wow*.exe) in it"@)
    } else if !dir.has_flavor_marker {
        Some(
            "no .flavor.info marker, so this is not a Battle.net product directory (expected something like World of Warcraft/_classic_beta_)"@,
        )
    } else {
        None
    }
}

/// A directory that has been checked to look like a Forever client.
///
/// Everything that writes to disk takes one of these, so "the user pointed us
/// at their Downloads folder and we deleted it" is not a reachable state.
#[derive(Debug, PartialEq, Eq)]
pub struct WowInstall {
    root: String,
}

impl View for WowInstall {
    type V = Seq<char>;

    closed spec fn view(&self) -> Seq<char> {
        self.root@
    }
}

impl Clone for WowInstall {
    fn clone(&self) -> (r: Self)
        ensures
            r == *self,
    {
        WowInstall { root: self.root.clone() }
    }
}

impl WowInstall {
    /// Accepts a Battle.net product directory: a `Wow*.exe` (the beta ships
    /// `WowB.exe`) plus the `.flavor.info` marker Battle.net writes into every
    /// product it installs.
    pub fn open(root: String, dir: &ClientDirectory) -> (r: Result<WowInstall, AppError>)
        ensures
            r is Ok <==> install_problem(*dir) is None,
            r matches Ok(install) ==> install@ == root@,
            install_problem(*dir) matches Some(reason) ==> (r matches Err(
                AppError::InvalidInstall { path, reason: why },
            ) && path@ == root@ && why@ == reason),
    {
        if !dir.is_dir {
            return Err(invalid(root, "the path is not a directory"));
        }
        if !contains_wow_executable(&dir.entry_names) {
            return Err(invalid(root, "no WoW executable (Wow*.exe) in it"));
        }
        if !dir.has_flavor_marker {
            return Err(
                invalid(
                    root,
                    "no .flavor.info marker, so this is not a Battle.net product directory (expected something like World of Warcraft/_classic_beta_)",
                ),
            );
        }
        Ok(WowInstall { root })
    }

    pub fn root(&self) -> (r: &str)
        ensures
            r@ == self@,
    {
        self.root.as_str()
    }

    /// `<root>/Interface/AddOns`.
    pub fn addons_dir(&self) -> (r: String)
        ensures
            r@ == path_join(path_join(self@, "Interface"@), "AddOns"@),
    {
        let interface = join_path(self.root.as_str(), "Interface");
        join_path(interface.as_str(), "AddOns")
    }
}

fn invalid(root: String, reason: &str) -> (r: AppError)
    ensures
        r matches AppError::InvalidInstall { path, reason: why } && path@ == root@ && why@
            == reason@,
{
    let v = chars_of(reason);
    AppError::InvalidInstall { path: root, reason: string_of(v.as_slice()) }
}

/// The places the Forever client is commonly installed, in the order they are
/// tried: three under the home directory when there is one, then two Windows
/// locations.
pub open spec fn install_roots_from(home: Option<Seq<char>>) -> Seq<Seq<char>> {
    let windows = seq![
        "C:\\Program Files (x86)\\World of Warcraft\\_classic_beta_"@,
        "C:\\Program Files\\World of Warcraft\\_classic_beta_"@,
    ];
    match home {
        Some(h) => seq![
            path_join(h, "Games/Battle.net/World of Warcraft/_classic_beta_"@),
            path_join(h, "Games/World of Warcraft/_classic_beta_"@),
            path_join(h, ".wine/drive_c/Program Files (x86)/World of Warcraft/_classic_beta_"@),
        ] + windows,
        None => windows,
    }
}

/// The text of an optional string.
pub open spec fn opt_text(o: Option<String>) -> Option<Seq<char>> {
    match o {
        Some(s) => Some(s@),
        None => None,
    }
}

/// The candidate roots for the given home directory.
pub fn install_roots_for_home(home: Option<String>) -> (r: Vec<String>)
    ensures
        r@.len() == install_roots_from(opt_text(home)).len(),
        forall|k: int|
            0 <= k < r@.len() ==> #[trigger] r@[k]@ == install_roots_from(opt_text(home))[k],
{
    let mut roots: Vec<String> = Vec::new();
    match &home {
        Some(h) => {
            roots.push(join_path(h.as_str(), "Games/Battle.net/World of Warcraft/_classic_beta_"));
            roots.push(join_path(h.as_str(), "Games/World of Warcraft/_classic_beta_"));
            roots.push(
                join_path(
                    h.as_str(),
                    ".wine/drive_c/Program Files (x86)/World of Warcraft/_classic_beta_",
                ),
            );
        },
        None => {},
    }
    let a = chars_of("C:\\Program Files (x86)\\World of Warcraft\\_classic_beta_");
    roots.push(string_of(a.as_slice()));
    let b = chars_of("C:\\Program Files\\World of Warcraft\\_classic_beta_");
    roots.push(string_of(b.as_slice()));
    roots
}

/// The user's home directory, as the `dirs` crate finds it for this process.
#[verifier::external_body]
fn home_dir() -> (r: Option<String>) {
    dirs::home_dir().map(|p| p.to_string_lossy().into_owned())
}

/// The places the Forever client is commonly installed, checked in order so
/// the first launch can offer a guess instead of an empty file picker.
pub fn likely_install_roots() -> (r: Vec<String>)
    ensures
        exists|home: Option<Seq<char>>| #![auto]
            r@.len() == install_roots_from(home).len() && forall|k: int|
                0 <= k < r@.len() ==> #[trigger] r@[k]@ == install_roots_from(home)[k],
{
    let home = home_dir();
    let roots = install_roots_for_home(home);
    assert(roots@.len() == install_roots_from(opt_text(home)).len());
    roots
}

/// The first candidate that validates as a client, if any.
pub fn detect_install(candidates: Vec<(String, ClientDirectory)>) -> (r: Option<WowInstall>)
    ensures
        r is None <==> forall|k: int|
            0 <= k < candidates@.len() ==> (#[trigger] install_problem(candidates@[k].1)) is Some,
        r matches Some(install) ==> exists|k: int|
            0 <= k < candidates@.len() && install_problem(candidates@[k].1) is None && install@
                == candidates@[k].0@ && forall|j: int|
                0 <= j < k ==> (#[trigger] install_problem(candidates@[j].1)) is Some,
{
    let mut i: usize = 0;
    while i < candidates.len()
        invariant
            i <= candidates@.len(),
            forall|j: int|
                0 <= j < i ==> (#[trigger] install_problem(candidates@[j].1)) is Some,
        decreases candidates.len() - i,
    {
        let (root, dir) = &candidates[i];
        match WowInstall::open(root.clone(), dir) {
            Ok(install) => {
                return Some(install);
            },
            Err(_) => {},
        }
        i += 1;
    }
    None
}

/// A directory is accepted as a client exactly when it is a directory,
/// carries the `.flavor.info` marker, and some entry, wherever it stands
/// among the entries, is named `wow*.exe` ignoring ASCII case with no
/// `error` in its name.
pub proof fn law_client_accepted_with_an_executable_anywhere(dir: ClientDirectory)
    ensures
        install_problem(dir) is None <==> (dir.is_dir && dir.has_flavor_marker && exists|i: int|
            0 <= i < dir.entry_names@.len() && has_prefix(ascii_lower_seq(#[trigger] dir.entry_names@[i]@), "wow"@)
                && has_suffix(ascii_lower_seq(dir.entry_names@[i]@), ".exe"@) && !contains_seq(
                ascii_lower_seq(dir.entry_names@[i]@),
                "error"@,
            )),
{
    if install_problem(dir) is None {
        let i = choose|i: int| 0 <= i < dir.entry_names@.len() && wow_executable_name(#[trigger] dir.entry_names@[i]@);
        assert(wow_executable_name(dir.entry_names@[i]@));
    }
    if dir.is_dir && dir.has_flavor_marker && exists|i: int|
        0 <= i < dir.entry_names@.len() && has_prefix(ascii_lower_seq(#[trigger] dir.entry_names@[i]@), "wow"@)
            && has_suffix(ascii_lower_seq(dir.entry_names@[i]@), ".exe"@) && !contains_seq(
            ascii_lower_seq(dir.entry_names@[i]@),
            "error"@,
        ) {
        let i = choose|i: int|
            0 <= i < dir.entry_names@.len() && has_prefix(ascii_lower_seq(#[trigger] dir.entry_names@[i]@), "wow"@)
                && has_suffix(ascii_lower_seq(dir.entry_names@[i]@), ".exe"@) && !contains_seq(
                ascii_lower_seq(dir.entry_names@[i]@),
                "error"@,
            );
        assert(wow_executable_name(dir.entry_names@[i]@));
    }
}

} // verus!
