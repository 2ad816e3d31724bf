//! The name of one directory directly under `Interface/AddOns`.

use vstd::prelude::*;

use crate::text::{
    append_str,
    ascii_lower_chars, ascii_lower_seq, chars_of, is_control, is_control_char, slice_chars,
    string_of, trim, trim_bounds,
};

verus! {

/// The name of one directory directly under `Interface/AddOns`.
///
/// This is the unit WoW loads and the unit this application installs and
/// deletes, so the type exists to make "a name that could escape the AddOns
/// directory" unrepresentable: every value holds a name that passes
/// [`valid_folder_name`].
#[derive(Debug, PartialEq, Eq, Hash, PartialOrd, Ord)]
pub struct AddonFolder(String);

impl View for AddonFolder {
    type V = Seq<char>;

    closed spec fn view(&self) -> Seq<char> {
        self.0@
    }
}

impl Clone for AddonFolder {
    fn clone(&self) -> (r: Self)
        ensures
            r == *self,
    {
        AddonFolder(self.0.clone())
    }
}

#[derive(Debug, PartialEq, Eq)]
pub enum FolderNameError {
    Empty,
    ContainsSeparator { name: String },
    RelativeComponent { name: String },
    IllegalCharacter { name: String, character: char },
}

pub open spec fn is_separator(c: char) -> bool {
    c == '/' || c == '\\'
}

pub open spec fn has_separator(s: Seq<char>) -> bool {
    exists|i: int| 0 <= i < s.len() && is_separator(#[trigger] s[i])
}

pub open spec fn is_relative_component(s: Seq<char>) -> bool {
    s == seq!['.'] || s == seq!['.', '.']
}

pub open spec fn has_control(s: Seq<char>) -> bool {
    exists|i: int| 0 <= i < s.len() && is_control(#[trigger] s[i])
}

/// The first control character of `s`.
pub open spec fn first_control(s: Seq<char>) -> char
    recommends
        has_control(s),
{
    let i = choose|i: int|
        0 <= i < s.len() && is_control(#[trigger] s[i]) && forall|k: int|
            0 <= k < i ==> !is_control(#[trigger] s[k]);
    s[i]
}

/// A trimmed name WoW can load as one folder directly under `AddOns`.
pub open spec fn valid_folder_name(s: Seq<char>) -> bool {
    &&& s.len() > 0
    &&& !has_separator(s)
    &&& !is_relative_component(s)
    &&& !has_control(s)
}

/// The key folders are matched on: WoW treats folder names
/// case-insensitively in practice.
pub open spec fn folder_key(s: Seq<char>) -> Seq<char> {
    ascii_lower_seq(s)
}

impl AddonFolder {
    /// Accepts a name once trimmed, or says which rule it breaks; the checks
    /// run in this order: empty, separator, `.` or `..`, control character.
    #[verifier::loop_isolation(false)]
    pub fn new(name: &str) -> (r: Result<AddonFolder, FolderNameError>)
        ensures
            r is Ok <==> valid_folder_name(trim(name@)),
            r matches Ok(f) ==> f@ == trim(name@),
            trim(name@).len() == 0 ==> r matches Err(FolderNameError::Empty),
            trim(name@).len() > 0 && has_separator(trim(name@)) ==> (r matches Err(
                FolderNameError::ContainsSeparator { name: n },
            ) && n@ == name@),
            trim(name@).len() > 0 && !has_separator(trim(name@)) && is_relative_component(
                trim(name@),
            ) ==> (r matches Err(FolderNameError::RelativeComponent { name: n }) && n@ == name@),
            trim(name@).len() > 0 && !has_separator(trim(name@)) && !is_relative_component(
                trim(name@),
            ) && has_control(trim(name@)) ==> (r matches Err(
                FolderNameError::IllegalCharacter { name: n, character: c },
            ) && n@ == name@ && c == first_control(trim(name@))),
    {
        let all = chars_of(name);
        let (a, b) = trim_bounds(all.as_slice());
        let t = slice_chars(all.as_slice(), a, b);
        if t.len() == 0 {
            return Err(FolderNameError::Empty);
        }
        let mut i: usize = 0;
        while i < t.len()
            invariant
                i <= t.len(),
                forall|k: int| 0 <= k < i ==> !is_separator(#[trigger] t@[k]),
            decreases t.len() - i,
        {
            if t[i] == '/' || t[i] == '\\' {
                assert(is_separator(t@[i as int]));
                return Err(FolderNameError::ContainsSeparator { name: string_of(all.as_slice()) });
            }
            i += 1;
        }
        if (t.len() == 1 && t[0] == '.') || (t.len() == 2 && t[0] == '.' && t[1] == '.') {
            assert(is_relative_component(t@)) by {
                if t.len() == 1 {
                    assert(t@ =~= seq!['.']);
                } else {
                    assert(t@ =~= seq!['.', '.']);
                }
            }
            return Err(FolderNameError::RelativeComponent { name: string_of(all.as_slice()) });
        }
        assert(!is_relative_component(t@)) by {
            if t@ == seq!['.'] {
                assert(t@[0] == '.');
            }
            if t@ == seq!['.', '.'] {
                assert(t@[0] == '.' && t@[1] == '.');
            }
        }
        let mut j: usize = 0;
        while j < t.len()
            invariant
                j <= t.len(),
                forall|k: int| 0 <= k < j ==> !is_control(#[trigger] t@[k]),
            decreases t.len() - j,
        {
            let c = t[j];
            if is_control_char(c) {
                assert(has_control(t@));
                let ghost w = choose|w: int|
                    0 <= w < t@.len() && is_control(#[trigger] t@[w]) && forall|k: int|
                        0 <= k < w ==> !is_control(#[trigger] t@[k]);
                assert(w == j) by {
                    if w < j {
                        assert(!is_control(t@[w]));
                    }
                    if w > j {
                        assert(!is_control(t@[j as int]));
                    }
                }
                return Err(
                    FolderNameError::IllegalCharacter { name: string_of(all.as_slice()), character: c },
                );
            }
            j += 1;
        }
        Ok(AddonFolder(string_of(t.as_slice())))
    }

    pub fn as_str(&self) -> (r: &str)
        ensures
            r@ == self@,
    {
        self.0.as_str()
    }

    /// The name as a `String`.
    pub fn to_string(&self) -> (r: String)
        ensures
            r@ == self@,
    {
        self.0.clone()
    }

    /// The name with ASCII letters lowered: installed folders are matched
    /// against archive folders through this key.
    pub fn match_key(&self) -> (r: String)
        ensures
            r@ == folder_key(self@),
    {
        let s = chars_of(self.0.as_str());
        let lowered = ascii_lower_chars(s.as_slice());
        string_of(lowered.as_slice())
    }

    /// Whether two folders name one directory on a case-insensitive match.
    pub fn same_folder(&self, other: &AddonFolder) -> (r: bool)
        ensures
            r == (folder_key(self@) == folder_key(other@)),
    {
        self.match_key() == other.match_key()
    }

    /// Exact equality of the names.
    pub fn same_name(&self, other: &AddonFolder) -> (r: bool)
        ensures
            r == (self@ == other@),
    {
        self.0 == other.0
    }
}

/// `format!("{:?}", s)` for a string: the text quoted and escaped as Rust's
/// `Debug` writes it.
pub uninterp spec fn debug_str(s: Seq<char>) -> Seq<char>;

/// `format!("{:?}", c)` for a character.
pub uninterp spec fn debug_char(c: char) -> Seq<char>;

/// `Debug` formatting of a string slice.
#[verifier::external_body]
fn debug_text(s: &str) -> (r: String)
    ensures
        r@ == debug_str(s@),
{
    format!("{:?}", s)
}

/// `Debug` formatting of a character.
#[verifier::external_body]
fn debug_char_text(c: char) -> (r: String)
    ensures
        r@ == debug_char(c),
{
    format!("{:?}", c)
}

/// The sentence a folder-name error renders as.
pub open spec fn folder_error_text(e: FolderNameError) -> Seq<char> {
    match e {
        FolderNameError::Empty => "addon folder name is empty"@,
        FolderNameError::ContainsSeparator { name } => "addon folder name "@ + debug_str(name@)
            + " contains a path separator"@,
        FolderNameError::RelativeComponent { name } => "addon folder name "@ + debug_str(name@)
            + " is a relative path component"@,
        FolderNameError::IllegalCharacter { name, character } => "addon folder name "@
            + debug_str(name@) + " contains a character WoW cannot load: "@ + debug_char(
            character,
        ),
    }
}

/// What is wrong with `raw` as a folder name, as the error for it renders.
pub open spec fn folder_name_problem(raw: Seq<char>) -> Seq<char> {
    let t = trim(raw);
    if t.len() == 0 {
        "addon folder name is empty"@
    } else if has_separator(t) {
        "addon folder name "@ + debug_str(raw) + " contains a path separator"@
    } else if is_relative_component(t) {
        "addon folder name "@ + debug_str(raw) + " is a relative path component"@
    } else {
        "addon folder name "@ + debug_str(raw) + " contains a character WoW cannot load: "@
            + debug_char(first_control(t))
    }
}

impl FolderNameError {
    pub fn to_string(&self) -> (r: String)
        ensures
            r@ == folder_error_text(*self),
    {
        let mut v: Vec<char> = Vec::new();
        match self {
            FolderNameError::Empty => {
                append_str(&mut v, "addon folder name is empty");
            },
            FolderNameError::ContainsSeparator { name } => {
                append_str(&mut v, "addon folder name ");
                append_str(&mut v, debug_text(name.as_str()).as_str());
                append_str(&mut v, " contains a path separator");
            },
            FolderNameError::RelativeComponent { name } => {
                append_str(&mut v, "addon folder name ");
                append_str(&mut v, debug_text(name.as_str()).as_str());
                append_str(&mut v, " is a relative path component");
            },
            FolderNameError::IllegalCharacter { name, character } => {
                append_str(&mut v, "addon folder name ");
                append_str(&mut v, debug_text(name.as_str()).as_str());
                append_str(&mut v, " contains a character WoW cannot load: ");
                append_str(&mut v, debug_char_text(*character).as_str());
            },
        }
        assert(v@ =~= folder_error_text(*self));
        string_of(v.as_slice())
    }
}

/// The folder named `name`, or the rendered reason it cannot be one.
pub fn folder_or_problem(name: &str) -> (r: Result<AddonFolder, String>)
    ensures
        r is Ok <==> valid_folder_name(trim(name@)),
        r matches Ok(f) ==> f@ == trim(name@),
        r matches Err(m) ==> m@ == folder_name_problem(name@),
{
    match AddonFolder::new(name) {
        Ok(f) => Ok(f),
        Err(e) => {
            let m = e.to_string();
            assert(m@ == folder_name_problem(name@));
            Err(m)
        },
    }
}

/// Matching folders on their key is an equivalence.
pub proof fn law_folder_matching_is_an_equivalence(a: Seq<char>, b: Seq<char>, c: Seq<char>)
    ensures
        folder_key(a) == folder_key(a),
        folder_key(a) == folder_key(b) ==> folder_key(b) == folder_key(a),
        folder_key(a) == folder_key(b) && folder_key(b) == folder_key(c) ==> folder_key(a)
            == folder_key(c),
{
}

} // verus!
