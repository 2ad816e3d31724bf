//! A version string exactly as a source published it.

use vstd::prelude::*;

use crate::text::{
    chars_of, eq_ignore_ascii_case, eq_ignore_ascii_case_chars, is_ascii_digit, is_ascii_digit_char,
    slice_chars, trim, trimmed_string,
};

verus! {

/// A version string exactly as a source published it, trimmed and non-empty.
///
/// No source guarantees semver, so comparison is equality on a normalized
/// form, never ordering: "different from what is installed" is the only
/// question this application asks.
#[derive(Debug, PartialEq, Eq, Hash)]
pub struct AddonVersion(String);

impl View for AddonVersion {
    type V = Seq<char>;

    closed spec fn view(&self) -> Seq<char> {
        self.0@
    }
}

impl Clone for AddonVersion {
    fn clone(&self) -> (r: Self)
        ensures
            r == *self,
    {
        AddonVersion(self.0.clone())
    }
}

/// A leading `v` or `V` is dropped when a digit follows it.
pub open spec fn normalized_version(s: Seq<char>) -> Seq<char> {
    if s.len() >= 2 && (s[0] == 'v' || s[0] == 'V') && is_ascii_digit(s[1]) {
        s.drop_first()
    } else {
        s
    }
}

/// Two version texts name one version: equal after normalizing, ignoring
/// ASCII case.
pub open spec fn versions_match(a: Seq<char>, b: Seq<char>) -> bool {
    eq_ignore_ascii_case(normalized_version(a), normalized_version(b))
}

impl AddonVersion {
    /// `None` for a blank version; otherwise the trimmed text.
    pub fn new(raw: &str) -> (r: Option<AddonVersion>)
        ensures
            r is Some <==> trim(raw@).len() > 0,
            r matches Some(v) ==> v@ == trim(raw@),
    {
        let trimmed = trimmed_string(raw);
        if trimmed.as_str().is_empty() {
            None
        } else {
            Some(AddonVersion(trimmed))
        }
    }

    pub fn as_str(&self) -> (r: &str)
        ensures
            r@ == self@,
    {
        self.0.as_str()
    }

    /// The text as published.
    pub fn to_string(&self) -> (r: String)
        ensures
            r@ == self@,
    {
        self.0.clone()
    }

    /// Ignores a leading `v` and case, so `v1.16` and `1.16` are one version.
    fn normalized(&self) -> (r: Vec<char>)
        ensures
            r@ == normalized_version(self@),
    {
        let s = chars_of(self.0.as_str());
        if s.len() >= 2 && (s[0] == 'v' || s[0] == 'V') && is_ascii_digit_char(s[1]) {
            slice_chars(s.as_slice(), 1, s.len())
        } else {
            s
        }
    }

    pub fn matches(&self, other: &AddonVersion) -> (r: bool)
        ensures
            r == versions_match(self@, other@),
    {
        let a = self.normalized();
        let b = other.normalized();
        eq_ignore_ascii_case_chars(a.as_slice(), b.as_slice())
    }
}

/// Matching versions is an equivalence: every version matches itself, and
/// matching is symmetric and transitive.
pub proof fn law_version_matching_is_an_equivalence(a: Seq<char>, b: Seq<char>, c: Seq<char>)
    ensures
        versions_match(a, a),
        versions_match(a, b) ==> versions_match(b, a),
        versions_match(a, b) && versions_match(b, c) ==> versions_match(a, c),
{
}

/// A leading `v` before a digit never makes two versions differ.
pub proof fn law_leading_v_is_ignored(rest: Seq<char>)
    requires
        rest.len() > 0,
        is_ascii_digit(rest[0]),
    ensures
        versions_match(seq!['v'].add(rest), rest),
        versions_match(seq!['V'].add(rest), rest),
{
    assert(seq!['v'].add(rest).drop_first() =~= rest);
    assert(seq!['V'].add(rest).drop_first() =~= rest);
}

/// A leading `v` or `V` a digit follows, the one mark a version text may
/// carry in front.
pub open spec fn has_v_mark(s: Seq<char>) -> bool {
    s.len() >= 2 && (s[0] == 'v' || s[0] == 'V') && '0' <= s[1] <= '9'
}

/// Two versions match exactly when their texts agree ignoring ASCII case
/// once at most one leading `v` or `V` before a digit is set aside from
/// each: `1.0` never matches `2.0`, `v1.0` matches `1.0`, and texts equal
/// ignoring ASCII case always match.
pub proof fn law_versions_match_when_texts_agree_but_for_a_leading_v(a: Seq<char>, b: Seq<char>)
    ensures
        versions_match(a, b) <==> exists|i: int, j: int|
            0 <= i <= 1 && 0 <= j <= 1 && (i == 1 ==> has_v_mark(a)) && (j == 1 ==> has_v_mark(b))
                && #[trigger] eq_ignore_ascii_case(a.skip(i), b.skip(j)),
        eq_ignore_ascii_case(a, b) ==> versions_match(a, b),
{
    let na: int = if has_v_mark(a) {
        1
    } else {
        0
    };
    let nb: int = if has_v_mark(b) {
        1
    } else {
        0
    };
    assert(normalized_version(a) =~= a.skip(na));
    assert(normalized_version(b) =~= b.skip(nb));
    assert(a.skip(0) =~= a);
    assert(b.skip(0) =~= b);
    if eq_ignore_ascii_case(a.skip(na), b.skip(nb)) {
        assert(eq_ignore_ascii_case(a.skip(na), b.skip(nb)));
    }
    assert forall|i: int, j: int|
        0 <= i <= 1 && 0 <= j <= 1 && (i == 1 ==> has_v_mark(a)) && (j == 1 ==> has_v_mark(b))
            && #[trigger] eq_ignore_ascii_case(a.skip(i), b.skip(j)) implies versions_match(a, b) by {
        lemma_agreeing_texts_agree_on_the_mark(a.skip(i), b.skip(j));
        if i == 0 && has_v_mark(a) {
            assert(a.skip(i) == a);
            if j == 0 {
                assert(has_v_mark(b));
                assert(crate::text::ascii_lower_seq(a.skip(1)) =~= crate::text::ascii_lower_seq(a).skip(1));
                assert(crate::text::ascii_lower_seq(b.skip(1)) =~= crate::text::ascii_lower_seq(b).skip(1));
            } else {
                assert(has_v_mark(b.skip(1)) == has_v_mark(a));
                assert(false);
            }
        } else if j == 0 && has_v_mark(b) {
            assert(b.skip(j) == b);
            if i == 1 {
                assert(false);
            }
        }
    }
}

/// Texts equal ignoring ASCII case have the same length, and either both
/// or neither carry a leading `v` mark.
proof fn lemma_agreeing_texts_agree_on_the_mark(x: Seq<char>, y: Seq<char>)
    requires
        eq_ignore_ascii_case(x, y),
    ensures
        x.len() == y.len(),
        has_v_mark(x) == has_v_mark(y),
{
    assert(crate::text::ascii_lower_seq(x).len() == x.len());
    assert(crate::text::ascii_lower_seq(y).len() == y.len());
    if x.len() >= 2 {
        assert(crate::text::ascii_lower_seq(x)[0] == crate::text::ascii_lower(x[0]));
        assert(crate::text::ascii_lower_seq(y)[0] == crate::text::ascii_lower(y[0]));
        assert(crate::text::ascii_lower_seq(x)[1] == crate::text::ascii_lower(x[1]));
        assert(crate::text::ascii_lower_seq(y)[1] == crate::text::ascii_lower(y[1]));
    }
}

} // verus!
