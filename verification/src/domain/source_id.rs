//! The addon providers this build knows how to talk to.

use vstd::prelude::*;

use crate::text::{chars_eq, chars_of};

verus! {

/// The addon providers this build knows how to talk to.
#[derive(Debug, Clone, Copy, PartialEq, Eq, Structural, Hash, PartialOrd, Ord)]
pub enum SourceId {
    CurseForge,
    Wago,
    /// GitHub releases of repositories the user tracks by hand.
    GitHub,
}

/// The stable machine name of a source.
pub open spec fn slug_of(source: SourceId) -> Seq<char> {
    match source {
        SourceId::CurseForge => "curseforge"@,
        SourceId::Wago => "wago"@,
        SourceId::GitHub => "github"@,
    }
}

/// The name a person reads.
pub open spec fn display_name_of(source: SourceId) -> Seq<char> {
    match source {
        SourceId::CurseForge => "CurseForge"@,
        SourceId::Wago => "Wago Addons"@,
        SourceId::GitHub => "GitHub"@,
    }
}

/// Every source, in display order.
pub open spec fn all_sources() -> Seq<SourceId> {
    seq![SourceId::CurseForge, SourceId::Wago, SourceId::GitHub]
}

impl SourceId {
    pub const ALL: [SourceId; 3] = [SourceId::CurseForge, SourceId::Wago, SourceId::GitHub];

    /// Every source, in display order.
    pub fn all() -> (r: Vec<SourceId>)
        ensures
            r@ == all_sources(),
    {
        let mut v = Vec::new();
        v.push(SourceId::CurseForge);
        v.push(SourceId::Wago);
        v.push(SourceId::GitHub);
        assert(v@ =~= all_sources());
        v
    }

    /// Stable machine name, used in ids, cache filenames, and the UI's routing.
    pub fn slug(self) -> (r: &'static str)
        ensures
            r@ == slug_of(self),
    {
        match self {
            SourceId::CurseForge => "curseforge",
            SourceId::Wago => "wago",
            SourceId::GitHub => "github",
        }
    }

    pub fn display_name(self) -> (r: &'static str)
        ensures
            r@ == display_name_of(self),
    {
        match self {
            SourceId::CurseForge => "CurseForge",
            SourceId::Wago => "Wago Addons",
            SourceId::GitHub => "GitHub",
        }
    }

    pub fn site_url(self) -> (r: &'static str)
        ensures
            r@ == (match self {
                SourceId::CurseForge => "https://www.curseforge.com/wow/search?class=addons&gameVersionTypeId=88568"@,
                SourceId::Wago => "https://addons.wago.io/"@,
                SourceId::GitHub => "https://github.com/"@,
            }),
    {
        match self {
            SourceId::CurseForge => "https://www.curseforge.com/wow/search?class=addons&gameVersionTypeId=88568",
            SourceId::Wago => "https://addons.wago.io/",
            SourceId::GitHub => "https://github.com/",
        }
    }

    /// True for sources that cannot be queried without a user-supplied key.
    pub fn requires_api_key(self) -> (r: bool)
        ensures
            r == (self != SourceId::GitHub),
    {
        match self {
            SourceId::CurseForge | SourceId::Wago => true,
            SourceId::GitHub => false,
        }
    }

    /// The source whose slug is exactly `slug`.
    pub fn from_slug(slug: &str) -> (r: Option<SourceId>)
        ensures
            r == source_with_slug(slug@),
    {
        let wanted = chars_of(slug);
        let all = SourceId::all();
        let mut i: usize = 0;
        while i < all.len()
            invariant
                i <= all.len(),
                all@ == all_sources(),
                wanted@ == slug@,
                forall|k: int| 0 <= k < i ==> slug_of(#[trigger] all_sources()[k]) != slug@,
            decreases all.len() - i,
        {
            let source = all[i];
            let name = chars_of(source.slug());
            if chars_eq(name.as_slice(), wanted.as_slice()) {
                proof {
                    lemma_slugs_distinct_all();
                }
                return Some(source);
            }
            i += 1;
        }
        None
    }
}

/// The source whose slug is `text`, if any.
pub open spec fn source_with_slug(text: Seq<char>) -> Option<SourceId> {
    if text == slug_of(SourceId::CurseForge) {
        Some(SourceId::CurseForge)
    } else if text == slug_of(SourceId::Wago) {
        Some(SourceId::Wago)
    } else if text == slug_of(SourceId::GitHub) {
        Some(SourceId::GitHub)
    } else {
        None
    }
}

proof fn lemma_slugs_distinct_all()
    ensures
        slug_of(SourceId::CurseForge) != slug_of(SourceId::Wago),
        slug_of(SourceId::CurseForge) != slug_of(SourceId::GitHub),
        slug_of(SourceId::Wago) != slug_of(SourceId::GitHub),
{
    reveal_strlit("curseforge");
    reveal_strlit("wago");
    reveal_strlit("github");
    assert(slug_of(SourceId::CurseForge).len() != slug_of(SourceId::Wago).len());
    assert(slug_of(SourceId::CurseForge).len() != slug_of(SourceId::GitHub).len());
    assert(slug_of(SourceId::Wago).len() != slug_of(SourceId::GitHub).len());
}

/// Reading a source's slug back gives that source: `from_slug(s.slug()) == Some(s)`.
pub proof fn law_slug_round_trip(source: SourceId)
    ensures
        source_with_slug(slug_of(source)) == Some(source),
{
    lemma_slugs_distinct_all();
}

} // verus!
