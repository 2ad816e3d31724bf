//! The browsable set of addons, and the rules for narrowing and ordering it.
//!
//! A catalog refresh can cost a couple of dozen requests, so it is cached per
//! source and only refetched when the user asks.

use vstd::prelude::*;

use crate::domain::addon::{same_addon, same_summary, AddonId, AddonSummary};
use crate::domain::source_id::{slug_of, SourceId};
use crate::install::manifest::now_rfc3339;
use crate::sorting::{
    equivalent, first_equivalent, is_sorted_by, lemma_first_equivalent_at, lemma_first_equivalent_found,
    lemma_insert_stable_at, lemma_sort_stable_first_equivalent, lemma_sort_stable_related,
    lemma_sort_stable_sorted, related, respects, sort_stable,
};
use crate::text::{
    append_str, chars_le, chars_of, contains_chars, contains_seq, eq_ignore_ascii_case,
    eq_ignore_ascii_case_chars, is_ascii_text, lemma_seq_le_antisymmetric, lemma_seq_le_total,
    lemma_seq_le_transitive, lowered, seq_le,
    string_of, to_lowercase, trim, trimmed_string, words, words_of,
};
use crate::wow::{join_path, path_join};

verus! {

/// One source's addons, as of one refresh.
#[derive(Debug, PartialEq, Eq)]
pub struct Catalog {
    pub source: SourceId,
    /// RFC 3339, in UTC.
    pub fetched_at: String,
    pub addons: Vec<AddonSummary>,
}

/// `b` carries exactly the data of `a`, addon for addon.
pub open spec fn same_catalog(a: Catalog, b: Catalog) -> bool {
    &&& a.source == b.source
    &&& a.fetched_at == b.fetched_at
    &&& related(a.addons@, b.addons@, |x: AddonSummary, y: AddonSummary| copied(x, y))
}

impl Clone for Catalog {
    fn clone(&self) -> (r: Self)
        ensures
            same_catalog(*self, r),
    {
        let addons = self.addons.clone();
        proof {
            assert forall|i: int| 0 <= i < addons@.len() implies copied(self.addons@[i], #[trigger] addons@[i]) by {
                assert(cloned::<AddonSummary>(self.addons@[i], addons@[i]));
            }
        }
        Catalog { source: self.source, fetched_at: self.fetched_at.clone(), addons }
    }
}

/// The position of the first addon with this id.
pub open spec fn first_with_id(addons: Seq<AddonSummary>, id: AddonId) -> Option<int> {
    if exists|i: int| 0 <= i < addons.len() && same_addon((#[trigger] addons[i]).id, id) {
        Some(
            choose|i: int|
                0 <= i < addons.len() && same_addon((#[trigger] addons[i]).id, id) && forall|j: int|
                    0 <= j < i ==> !same_addon((#[trigger] addons[j]).id, id),
        )
    } else {
        None
    }
}

impl Catalog {
    /// A catalog of these addons, stamped with the current time.
    pub fn new(source: SourceId, addons: Vec<AddonSummary>) -> (r: Catalog)
        ensures
            r.source == source,
            r.addons@ == addons@,
            crate::install::manifest::rfc3339_stamp(r.fetched_at@),
    {
        Catalog { source, fetched_at: now_rfc3339(), addons }
    }

    /// The first addon in this catalog with this id.
    pub fn find(&self, id: &AddonId) -> (r: Option<&AddonSummary>)
        ensures
            r is Some <==> first_with_id(self.addons@, *id) is Some,
            r matches Some(a) ==> *a == self.addons@[first_with_id(self.addons@, *id)->Some_0],
    {
        let ghost s = self.addons@;
        let mut i: usize = 0;
        while i < self.addons.len()
            invariant
                i <= s.len(),
                s == self.addons@,
                forall|j: int| 0 <= j < i ==> !same_addon((#[trigger] s[j]).id, *id),
            decreases self.addons.len() - i,
        {
            if self.addons[i].id.same_id(id) {
                let ghost w = choose|w: int|
                    0 <= w < s.len() && same_addon((#[trigger] s[w]).id, *id) && forall|j: int|
                        0 <= j < w ==> !same_addon((#[trigger] s[j]).id, *id);
                assert(w == i) by {
                    if w < i {
                        assert(!same_addon(s[w].id, *id));
                    }
                    if w > i {
                        assert(!same_addon(s[i as int].id, *id));
                    }
                }
                return Some(&self.addons[i]);
            }
            i += 1;
        }
        None
    }
}

/// How the browse list is narrowed. Every field is optional; an empty query
/// returns the whole catalog.
#[derive(Debug)]
pub struct CatalogQuery {
    pub text: String,
    pub category: Option<String>,
    pub sources: Option<Vec<SourceId>>,
}

impl Default for CatalogQuery {
    fn default() -> (r: Self)
        ensures
            r.text@ == Seq::<char>::empty(),
            r.category is None,
            r.sources is None,
    {
        CatalogQuery { text: String::new(), category: None, sources: None }
    }
}

impl Clone for CatalogQuery {
    fn clone(&self) -> (r: Self)
        ensures
            r.text == self.text,
            r.category == self.category,
            match (r.sources, self.sources) {
                (Some(a), Some(b)) => a@ == b@,
                (None, None) => true,
                _ => false,
            },
    {
        let sources = match &self.sources {
            Some(v) => Some(v.clone()),
            None => None,
        };
        CatalogQuery { text: self.text.clone(), category: self.category.clone(), sources }
    }
}

/// The addon comes from one of the sources asked for, or none were named.
pub open spec fn source_matches(q: CatalogQuery, a: AddonSummary) -> bool {
    match q.sources {
        None => true,
        Some(v) => v@.contains(a.id.source),
    }
}

/// The addon carries the category asked for, ignoring ASCII case, or none
/// was named.
pub open spec fn category_matches(q: CatalogQuery, a: AddonSummary) -> bool {
    match q.category {
        None => true,
        Some(c) => exists|k: int|
            0 <= k < a.categories@.len() && eq_ignore_ascii_case((#[trigger] a.categories@[k])@, c@),
    }
}

/// One lowercased query word occurs in the lowercased name, summary or author.
pub open spec fn word_matches(w: Seq<char>, a: AddonSummary) -> bool {
    ||| contains_seq(lowered(a.name@), w)
    ||| contains_seq(lowered(a.summary@), w)
    ||| (a.author matches Some(au) && contains_seq(lowered(au@), w))
}

/// The trimmed, lowercased query text.
pub open spec fn needle(q: CatalogQuery) -> Seq<char> {
    lowered(trim(q.text@))
}

/// Every word of the query text occurs somewhere in the addon's text; blank
/// text matches everything.
pub open spec fn text_matches(q: CatalogQuery, a: AddonSummary) -> bool {
    trim(q.text@).len() == 0 || forall|k: int|
        0 <= k < words(needle(q)).len() ==> word_matches(#[trigger] words(needle(q))[k], a)
}

/// The addon passes every part of the query.
pub open spec fn query_matches(q: CatalogQuery, a: AddonSummary) -> bool {
    source_matches(q, a) && category_matches(q, a) && text_matches(q, a)
}

impl CatalogQuery {
    pub fn matches(&self, addon: &AddonSummary) -> (r: bool)
        ensures
            r == query_matches(*self, *addon),
    {
        self.matches_source(addon) && self.matches_category(addon) && self.matches_text(addon)
    }

    fn matches_source(&self, addon: &AddonSummary) -> (r: bool)
        ensures
            r == source_matches(*self, *addon),
    {
        match &self.sources {
            None => true,
            Some(sources) => {
                let mut k: usize = 0;
                while k < sources.len()
                    invariant
                        k <= sources@.len(),
                        self.sources == Some(*sources),
                        forall|j: int| 0 <= j < k ==> sources@[j] != addon.id.source,
                    decreases sources.len() - k,
                {
                    if sources[k] == addon.id.source {
                        assert(sources@[k as int] == addon.id.source);
                        return true;
                    }
                    k += 1;
                }
                false
            },
        }
    }

    fn matches_category(&self, addon: &AddonSummary) -> (r: bool)
        ensures
            r == category_matches(*self, *addon),
    {
        match &self.category {
            None => true,
            Some(category) => {
                let wanted = chars_of(category.as_str());
                let mut k: usize = 0;
                while k < addon.categories.len()
                    invariant
                        k <= addon.categories@.len(),
                        self.category == Some(*category),
                        wanted@ == category@,
                        forall|j: int|
                            0 <= j < k ==> !eq_ignore_ascii_case(
                                (#[trigger] addon.categories@[j])@,
                                category@,
                            ),
                    decreases addon.categories.len() - k,
                {
                    let found = chars_of(addon.categories[k].as_str());
                    if eq_ignore_ascii_case_chars(found.as_slice(), wanted.as_slice()) {
                        assert(eq_ignore_ascii_case(addon.categories@[k as int]@, category@));
                        return true;
                    }
                    k += 1;
                }
                false
            },
        }
    }

    fn matches_text(&self, addon: &AddonSummary) -> (r: bool)
        ensures
            r == text_matches(*self, *addon),
    {
        let trimmed = trimmed_string(self.text.as_str());
        if trimmed.as_str().is_empty() {
            return true;
        }
        let query_lower = to_lowercase(trimmed.as_str());
        let needle = chars_of(query_lower.as_str());
        let ws = words_of(needle.as_slice());
        let name = chars_of(to_lowercase(addon.name.as_str()).as_str());
        let summary = chars_of(to_lowercase(addon.summary.as_str()).as_str());
        let author: Option<Vec<char>> = match &addon.author {
            Some(a) => Some(chars_of(to_lowercase(a.as_str()).as_str())),
            None => None,
        };
        let mut k: usize = 0;
        while k < ws.len()
            invariant
                k <= ws@.len(),
                trim(self.text@).len() > 0,
                needle@ == crate::catalog::needle(*self),
                ws@.len() == words(needle@).len(),
                forall|j: int| 0 <= j < ws@.len() ==> #[trigger] ws@[j]@ == words(needle@)[j],
                name@ == lowered(addon.name@),
                summary@ == lowered(addon.summary@),
                author is Some <==> addon.author is Some,
                author matches Some(v) ==> v@ == lowered(addon.author->Some_0@),
                forall|j: int| 0 <= j < k ==> word_matches(#[trigger] words(needle@)[j], *addon),
            decreases ws.len() - k,
        {
            let w = ws[k].as_slice();
            let in_author = match &author {
                Some(v) => contains_chars(v.as_slice(), w),
                None => false,
            };
            if !(contains_chars(name.as_slice(), w) || contains_chars(summary.as_slice(), w)
                || in_author) {
                assert(!word_matches(words(needle@)[k as int], *addon));
                return false;
            }
            k += 1;
        }
        true
    }
}

/// Every addon of every catalog, catalog by catalog.
pub open spec fn all_addons(catalogs: Seq<Catalog>) -> Seq<AddonSummary>
    decreases catalogs.len(),
{
    if catalogs.len() == 0 {
        Seq::empty()
    } else {
        all_addons(catalogs.drop_last()) + catalogs.last().addons@
    }
}

/// An addon's download count, with none reported counting as zero.
pub open spec fn downloads_or_zero(a: AddonSummary) -> u64 {
    match a.downloads {
        Some(n) => n,
        None => 0,
    }
}

/// The browse order: most downloaded first, then by lowercased name.
pub open spec fn popularity_le(a: AddonSummary, b: AddonSummary) -> bool {
    ||| downloads_or_zero(a) > downloads_or_zero(b)
    ||| (downloads_or_zero(a) == downloads_or_zero(b) && seq_le(
        lowered(a.name@),
        lowered(b.name@),
    ))
}

/// What a search returns: every matching addon across the catalogs, in
/// browse order, ties keeping catalog order.
pub open spec fn search_result(catalogs: Seq<Catalog>, q: CatalogQuery) -> Seq<AddonSummary> {
    sort_stable(
        all_addons(catalogs).filter(|a: AddonSummary| query_matches(q, a)),
        |a: AddonSummary, b: AddonSummary| popularity_le(a, b),
    )
}

/// `b` is a copy of `a`.
pub open spec fn copied(a: AddonSummary, b: AddonSummary) -> bool {
    same_summary(a, b)
}

/// The browse order is a total preorder.
pub proof fn lemma_popularity_total_preorder()
    ensures
        crate::sorting::total_preorder(|a: AddonSummary, b: AddonSummary| popularity_le(a, b)),
{
    assert forall|a: AddonSummary, b: AddonSummary| #[trigger] popularity_le(a, b) || popularity_le(b, a) by {
        lemma_seq_le_total(lowered(a.name@), lowered(b.name@));
    }
    assert forall|a: AddonSummary, b: AddonSummary, c: AddonSummary|
        #[trigger] popularity_le(a, b) && #[trigger] popularity_le(b, c) implies popularity_le(a, c) by {
        if downloads_or_zero(a) == downloads_or_zero(b) && downloads_or_zero(b) == downloads_or_zero(c) {
            lemma_seq_le_transitive(lowered(a.name@), lowered(b.name@), lowered(c.name@));
        }
    }
}

/// Applies a query across every loaded catalog, most-downloaded first.
///
/// Popularity is the only ordering the sources agree on, and it is what makes
/// an unfiltered list useful; ties fall back to name so the order is stable.
pub fn search(catalogs: &[Catalog], query: &CatalogQuery) -> (r: Vec<AddonSummary>)
    ensures
        related(search_result(catalogs@, *query), r@, |a: AddonSummary, b: AddonSummary| copied(a, b)),
{
    let ghost pred = |a: AddonSummary| query_matches(*query, a);
    let ghost le = |a: AddonSummary, b: AddonSummary| popularity_le(a, b);
    let ghost rel = |a: AddonSummary, b: AddonSummary| copied(a, b);
    let ghost mut copies: Seq<AddonSummary> = Seq::empty();
    let mut out: Vec<AddonSummary> = Vec::new();
    let mut keys: Vec<(u64, Vec<char>)> = Vec::new();
    let mut c: usize = 0;
    proof {
        reveal(Seq::filter);
        assert(all_addons(catalogs@.take(0)) =~= Seq::<AddonSummary>::empty());
    }
    while c < catalogs.len()
        invariant
            c <= catalogs@.len(),
            pred == (|a: AddonSummary| query_matches(*query, a)),
            le == (|a: AddonSummary, b: AddonSummary| popularity_le(a, b)),
            rel == (|a: AddonSummary, b: AddonSummary| copied(a, b)),
            related(all_addons(catalogs@.take(c as int)).filter(pred), copies, rel),
            out@ == sort_stable(copies, le),
            keys@.len() == out@.len(),
            forall|k: int|
                0 <= k < keys@.len() ==> (#[trigger] keys@[k]).0 == downloads_or_zero(out@[k])
                    && keys@[k].1@ == lowered(out@[k].name@),
        decreases catalogs.len() - c,
    {
        let catalog = &catalogs[c];
        let ghost before = all_addons(catalogs@.take(c as int));
        let mut i: usize = 0;
        assert(catalog.addons@.take(0) =~= Seq::<AddonSummary>::empty());
        assert(before + catalog.addons@.take(0) =~= before);
        while i < catalog.addons.len()
            invariant
                i <= catalog.addons@.len(),
                pred == (|a: AddonSummary| query_matches(*query, a)),
                le == (|a: AddonSummary, b: AddonSummary| popularity_le(a, b)),
                rel == (|a: AddonSummary, b: AddonSummary| copied(a, b)),
                related((before + catalog.addons@.take(i as int)).filter(pred), copies, rel),
                out@ == sort_stable(copies, le),
                keys@.len() == out@.len(),
                forall|k: int|
                    0 <= k < keys@.len() ==> (#[trigger] keys@[k]).0 == downloads_or_zero(out@[k])
                        && keys@[k].1@ == lowered(out@[k].name@),
            decreases catalog.addons.len() - i,
        {
            let addon = &catalog.addons[i];
            let ghost seen = before + catalog.addons@.take(i as int);
            let ghost old_copies = copies;
            assert(before + catalog.addons@.take(i + 1) =~= seen.push(*addon));
            assert(seen.push(*addon).drop_last() =~= seen);
            let keep = query.matches(addon);
            if keep {
                let item = addon.clone();
                let downloads: u64 = match item.downloads {
                    Some(n) => n,
                    None => 0,
                };
                let name = chars_of(to_lowercase(item.name.as_str()).as_str());
                let mut j: usize = out.len();
                while j > 0 && !sorted_before(keys[j - 1].0, keys[j - 1].1.as_slice(), downloads, name.as_slice())
                    invariant
                        j <= out@.len(),
                        le == (|a: AddonSummary, b: AddonSummary| popularity_le(a, b)),
                        keys@.len() == out@.len(),
                        forall|k: int|
                            0 <= k < keys@.len() ==> (#[trigger] keys@[k]).0 == downloads_or_zero(out@[k])
                                && keys@[k].1@ == lowered(out@[k].name@),
                        downloads == downloads_or_zero(item),
                        name@ == lowered(item.name@),
                        forall|k: int| j <= k < out@.len() ==> !le(#[trigger] out@[k], item),
                    decreases j,
                {
                    j -= 1;
                }
                proof {
                    if j > 0 {
                        assert(le(out@[j - 1], item));
                    }
                    lemma_insert_stable_at(out@, item, le, j as int);
                    assert(copies.push(item).drop_last() =~= copies);
                    copies = copies.push(item);
                }
                out.insert(j, item);
                keys.insert(j, (downloads, name));
            }
            proof {
                let fs = seen.filter(pred);
                assert(pred(*addon) == keep);
                seen.lemma_filter_push(*addon, pred);
                if keep {
                    assert(copies == old_copies.push(copies.last()));
                    assert(related(fs.push(*addon), copies, rel));
                }
            }
            i += 1;
        }
        proof {
            assert(catalog.addons@.take(catalog.addons@.len() as int) =~= catalog.addons@);
            assert(catalogs@.take(c + 1).drop_last() =~= catalogs@.take(c as int));
        }
        c += 1;
    }
    proof {
        assert(catalogs@.take(catalogs@.len() as int) =~= catalogs@);
        assert(respects(le, rel)) by {
            assert forall|a: AddonSummary, b: AddonSummary, x: AddonSummary, y: AddonSummary|
                #![trigger rel(a, x), rel(b, y)]
                rel(a, x) && rel(b, y) implies le(a, b) == le(x, y) by {}
        }
        lemma_sort_stable_related(all_addons(catalogs@).filter(pred), copies, le, rel);
    }
    out
}

/// Whether an addon with these keys sorts no later than one with those.
fn sorted_before(a_downloads: u64, a_name: &[char], b_downloads: u64, b_name: &[char]) -> (r: bool)
    ensures
        r == (a_downloads > b_downloads || (a_downloads == b_downloads && seq_le(a_name@, b_name@))),
{
    a_downloads > b_downloads || (a_downloads == b_downloads && chars_le(a_name, b_name))
}

/// The categories of these addons, addon by addon, in the order each lists
/// them.
pub open spec fn categories_of(addons: Seq<AddonSummary>) -> Seq<Seq<char>>
    decreases addons.len(),
{
    if addons.len() == 0 {
        Seq::empty()
    } else {
        categories_of(addons.drop_last()) + addons.last().categories@.map_values(|c: String| c@)
    }
}

/// The filter menu's order: by lowercased name.
pub open spec fn category_le(a: Seq<char>, b: Seq<char>) -> bool {
    seq_le(lowered(a), lowered(b))
}

/// `Vec::dedup_by` with ASCII-case-insensitive equality: of each run of
/// neighbours equal to the last one kept, only the first stays.
pub open spec fn dedup_ignoring_ascii_case(s: Seq<Seq<char>>) -> Seq<Seq<char>>
    decreases s.len(),
{
    if s.len() == 0 {
        Seq::empty()
    } else {
        let kept = dedup_ignoring_ascii_case(s.drop_last());
        if kept.len() > 0 && eq_ignore_ascii_case(s.last(), kept.last()) {
            kept
        } else {
            kept.push(s.last())
        }
    }
}

/// What the filter menu lists: every category any catalog uses, sorted,
/// each once.
pub open spec fn categories_result(catalogs: Seq<Catalog>) -> Seq<Seq<char>> {
    dedup_ignoring_ascii_case(
        sort_stable(
            categories_of(all_addons(catalogs)),
            |a: Seq<char>, b: Seq<char>| category_le(a, b),
        ),
    )
}

/// Every category any loaded catalog uses, sorted, for the filter menu.
pub fn categories(catalogs: &[Catalog]) -> (r: Vec<String>)
    ensures
        r@.map_values(|c: String| c@) == categories_result(catalogs@),
{
    let ghost le = |a: Seq<char>, b: Seq<char>| category_le(a, b);
    let ghost mut seen: Seq<Seq<char>> = Seq::empty();
    let mut sorted: Vec<String> = Vec::new();
    let mut keys: Vec<Vec<char>> = Vec::new();
    let mut c: usize = 0;
    assert(all_addons(catalogs@.take(0)) =~= Seq::<AddonSummary>::empty());
    while c < catalogs.len()
        invariant
            c <= catalogs@.len(),
            le == (|a: Seq<char>, b: Seq<char>| category_le(a, b)),
            seen == categories_of(all_addons(catalogs@.take(c as int))),
            sorted@.len() == sort_stable(seen, le).len(),
            forall|k: int| 0 <= k < sorted@.len() ==> #[trigger] sorted@[k]@ == sort_stable(seen, le)[k],
            keys@.len() == sorted@.len(),
            forall|k: int| 0 <= k < keys@.len() ==> #[trigger] keys@[k]@ == lowered(sorted@[k]@),
        decreases catalogs.len() - c,
    {
        let catalog = &catalogs[c];
        let ghost before_addons = all_addons(catalogs@.take(c as int));
        let ghost before = seen;
        let mut a: usize = 0;
        assert(categories_of(before_addons + catalog.addons@.take(0)) == before) by {
            assert(before_addons + catalog.addons@.take(0) =~= before_addons);
        }
        while a < catalog.addons.len()
            invariant
                a <= catalog.addons@.len(),
                le == (|a: Seq<char>, b: Seq<char>| category_le(a, b)),
                seen == categories_of(before_addons + catalog.addons@.take(a as int)),
                sorted@.len() == sort_stable(seen, le).len(),
                forall|k: int| 0 <= k < sorted@.len() ==> #[trigger] sorted@[k]@ == sort_stable(seen, le)[k],
                keys@.len() == sorted@.len(),
                forall|k: int| 0 <= k < keys@.len() ==> #[trigger] keys@[k]@ == lowered(sorted@[k]@),
            decreases catalog.addons.len() - a,
        {
            let addon = &catalog.addons[a];
            let ghost at_addon = seen;
            let mut n: usize = 0;
            assert(at_addon + addon.categories@.take(0).map_values(|c: String| c@) =~= at_addon);
            while n < addon.categories.len()
                invariant
                    n <= addon.categories@.len(),
                    le == (|a: Seq<char>, b: Seq<char>| category_le(a, b)),
                    seen == at_addon + addon.categories@.take(n as int).map_values(|c: String| c@),
                    sorted@.len() == sort_stable(seen, le).len(),
                    forall|k: int| 0 <= k < sorted@.len() ==> #[trigger] sorted@[k]@ == sort_stable(seen, le)[k],
                    keys@.len() == sorted@.len(),
                    forall|k: int| 0 <= k < keys@.len() ==> #[trigger] keys@[k]@ == lowered(sorted@[k]@),
                decreases addon.categories.len() - n,
            {
                let name = addon.categories[n].clone();
                let key = chars_of(to_lowercase(name.as_str()).as_str());
                let ghost view = sort_stable(seen, le);
                let mut j: usize = sorted.len();
                while j > 0 && !chars_le(keys[j - 1].as_slice(), key.as_slice())
                    invariant
                        j <= sorted@.len(),
                        le == (|a: Seq<char>, b: Seq<char>| category_le(a, b)),
                        view == sort_stable(seen, le),
                        sorted@.len() == view.len(),
                        forall|k: int| 0 <= k < sorted@.len() ==> #[trigger] sorted@[k]@ == view[k],
                        keys@.len() == sorted@.len(),
                        forall|k: int| 0 <= k < keys@.len() ==> #[trigger] keys@[k]@ == lowered(sorted@[k]@),
                        key@ == lowered(name@),
                        forall|k: int| j <= k < view.len() ==> !le(#[trigger] view[k], name@),
                    decreases j,
                {
                    j -= 1;
                }
                proof {
                    if j > 0 {
                        assert(le(view[j - 1], name@));
                    }
                    lemma_insert_stable_at(view, name@, le, j as int);
                    assert(seen.push(name@).drop_last() =~= seen);
                    assert(addon.categories@.take(n + 1).map_values(|c: String| c@) =~= addon.categories@.take(
                        n as int,
                    ).map_values(|c: String| c@).push(name@));
                    seen = seen.push(name@);
                }
                let ghost prior = sorted@;
                sorted.insert(j, name);
                keys.insert(j, key);
                proof {
                    assert forall|k: int| 0 <= k < sorted@.len() implies #[trigger] sorted@[k]@ == sort_stable(seen, le)[k] by {
                        if k > j {
                            assert(sorted@[k] == prior[k - 1]);
                        }
                    }
                }
                n += 1;
            }
            proof {
                assert(addon.categories@.take(addon.categories@.len() as int) =~= addon.categories@);
                let next = before_addons + catalog.addons@.take(a + 1);
                assert(next =~= (before_addons + catalog.addons@.take(a as int)).push(*addon));
                assert(next.drop_last() =~= before_addons + catalog.addons@.take(a as int));
            }
            a += 1;
        }
        proof {
            assert(catalog.addons@.take(catalog.addons@.len() as int) =~= catalog.addons@);
            assert(catalogs@.take(c + 1).drop_last() =~= catalogs@.take(c as int));
        }
        c += 1;
    }
    assert(catalogs@.take(catalogs@.len() as int) =~= catalogs@);
    let ghost full = sort_stable(seen, le);
    let mut out: Vec<String> = Vec::new();
    let mut last: Vec<char> = Vec::new();
    let mut i: usize = 0;
    assert(full.take(0) =~= Seq::<Seq<char>>::empty());
    while i < sorted.len()
        invariant
            i <= sorted@.len(),
            sorted@.len() == full.len(),
            forall|k: int| 0 <= k < sorted@.len() ==> #[trigger] sorted@[k]@ == full[k],
            out@.map_values(|c: String| c@) == dedup_ignoring_ascii_case(full.take(i as int)),
            out@.len() > 0 ==> last@ == out@.last()@,
        decreases sorted.len() - i,
    {
        let here = chars_of(sorted[i].as_str());
        let ghost kept = dedup_ignoring_ascii_case(full.take(i as int));
        proof {
            assert(full.take(i + 1).drop_last() =~= full.take(i as int));
            assert(kept.len() == out@.len());
            if out@.len() > 0 {
                assert(kept.last() == out@.last()@);
            }
        }
        if out.len() == 0 || !eq_ignore_ascii_case_chars(here.as_slice(), last.as_slice()) {
            let copy = sorted[i].clone();
            out.push(copy);
            last = here;
            assert(out@.map_values(|c: String| c@) =~= kept.push(full[i as int]));
        }
        i += 1;
    }
    assert(full.take(full.len() as int) =~= full);
    out
}

/// Where a source's catalog is cached inside the application's data
/// directory.
pub fn cache_path(data_dir: &str, source: SourceId) -> (r: String)
    ensures
        r@ == path_join(data_dir@, "catalog-"@ + slug_of(source) + ".json"@),
{
    let mut name: Vec<char> = Vec::new();
    append_str(&mut name, "catalog-");
    append_str(&mut name, source.slug());
    append_str(&mut name, ".json");
    let file = string_of(name.as_slice());
    join_path(data_dir, file.as_str())
}

/// A cached catalog read back for a source is used only when it is that
/// source's catalog.
pub fn accept_cached(catalog: Catalog, source: SourceId) -> (r: Option<Catalog>)
    ensures
        r is Some <==> catalog.source == source,
        r matches Some(c) ==> c == catalog,
{
    if catalog.source == source {
        Some(catalog)
    } else {
        None
    }
}

/// A search lists the matching addons, each as often as the catalogs hold
/// it, most downloaded first and by name among equals.
pub proof fn law_search_is_ordered(catalogs: Seq<Catalog>, q: CatalogQuery)
    ensures
        is_sorted_by(search_result(catalogs, q), |a: AddonSummary, b: AddonSummary| popularity_le(a, b)),
        search_result(catalogs, q).to_multiset() == all_addons(catalogs).filter(
            |a: AddonSummary| query_matches(q, a),
        ).to_multiset(),
        forall|i: int|
            0 <= i < search_result(catalogs, q).len() ==> query_matches(
                q,
                #[trigger] search_result(catalogs, q)[i],
            ),
{
    let pred = |a: AddonSummary| query_matches(q, a);
    let le = |a: AddonSummary, b: AddonSummary| popularity_le(a, b);
    let found = all_addons(catalogs).filter(pred);
    lemma_popularity_total_preorder();
    lemma_sort_stable_sorted(found, le);
    let r = search_result(catalogs, q);
    assert forall|i: int| 0 <= i < r.len() implies query_matches(q, #[trigger] r[i]) by {
        broadcast use vstd::seq_lib::group_to_multiset_ensures;
        assert(r.to_multiset().count(r[i]) > 0);
        assert(found.to_multiset().count(r[i]) > 0);
        assert(found.contains(r[i]));
        let k = choose|k: int| 0 <= k < found.len() && found[k] == r[i];
        all_addons(catalogs).lemma_filter_pred(pred, k);
    }
}

/// A query that names nothing keeps every addon of every catalog.
pub proof fn law_empty_query_keeps_everything(catalogs: Seq<Catalog>, q: CatalogQuery)
    requires
        trim(q.text@).len() == 0,
        q.category is None,
        q.sources is None,
    ensures
        search_result(catalogs, q).to_multiset() == all_addons(catalogs).to_multiset(),
        search_result(catalogs, q).len() == all_addons(catalogs).len(),
{
    let pred = |a: AddonSummary| query_matches(q, a);
    let le = |a: AddonSummary, b: AddonSummary| popularity_le(a, b);
    lemma_filter_all(all_addons(catalogs), pred);
    lemma_popularity_total_preorder();
    lemma_sort_stable_sorted(all_addons(catalogs), le);
    crate::sorting::lemma_sort_stable_len(all_addons(catalogs), le);
}

proof fn lemma_filter_all(s: Seq<AddonSummary>, pred: spec_fn(AddonSummary) -> bool)
    requires
        forall|a: AddonSummary| #[trigger] pred(a),
    ensures
        s.filter(pred) == s,
    decreases s.len(),
{
    reveal(Seq::filter);
    if s.len() > 0 {
        lemma_filter_all(s.drop_last(), pred);
        assert(s.drop_last().push(s.last()) =~= s);
    }
}

proof fn lemma_dedup_elements(s: Seq<Seq<char>>)
    ensures
        forall|i: int|
            0 <= i < dedup_ignoring_ascii_case(s).len() ==> s.contains(
                #[trigger] dedup_ignoring_ascii_case(s)[i],
            ),
    decreases s.len(),
{
    if s.len() > 0 {
        lemma_dedup_elements(s.drop_last());
        let kept = dedup_ignoring_ascii_case(s.drop_last());
        assert forall|i: int| 0 <= i < dedup_ignoring_ascii_case(s).len() implies s.contains(
            #[trigger] dedup_ignoring_ascii_case(s)[i],
        ) by {
            if i < kept.len() {
                assert(s.drop_last().contains(kept[i]));
                let k = choose|k: int| 0 <= k < s.drop_last().len() && s.drop_last()[k] == kept[i];
                assert(s[k] == kept[i]);
            } else {
                assert(s[s.len() - 1] == s.last());
            }
        }
    }
}

proof fn lemma_dedup_sorted(s: Seq<Seq<char>>)
    requires
        is_sorted_by(s, |a: Seq<char>, b: Seq<char>| category_le(a, b)),
    ensures
        is_sorted_by(dedup_ignoring_ascii_case(s), |a: Seq<char>, b: Seq<char>| category_le(a, b)),
        forall|i: int|
            0 <= i < dedup_ignoring_ascii_case(s).len() - 1 ==> !eq_ignore_ascii_case(
                #[trigger] dedup_ignoring_ascii_case(s)[i + 1],
                dedup_ignoring_ascii_case(s)[i],
            ),
    decreases s.len(),
{
    if s.len() > 0 {
        let init = s.drop_last();
        assert(is_sorted_by(init, |a: Seq<char>, b: Seq<char>| category_le(a, b)));
        lemma_dedup_sorted(init);
        lemma_dedup_elements(init);
        let kept = dedup_ignoring_ascii_case(init);
        let r = dedup_ignoring_ascii_case(s);
        if !(kept.len() > 0 && eq_ignore_ascii_case(s.last(), kept.last())) {
            assert forall|i: int, j: int| 0 <= i < j < r.len() implies category_le(
                #[trigger] r[i],
                #[trigger] r[j],
            ) by {
                if j == kept.len() {
                    assert(init.contains(kept[i]));
                    let k = choose|k: int| 0 <= k < init.len() && init[k] == kept[i];
                    assert(category_le(s[k], s[s.len() - 1]));
                } else {
                    assert(category_le(kept[i], kept[j]));
                }
            }
        }
    }
}

/// The filter menu is sorted by lowercased name and never lists a category
/// twice in a row under different ASCII case.
pub proof fn law_categories_sorted_without_repeats(catalogs: Seq<Catalog>)
    ensures
        is_sorted_by(categories_result(catalogs), |a: Seq<char>, b: Seq<char>| category_le(a, b)),
        forall|i: int|
            0 <= i < categories_result(catalogs).len() - 1 ==> !eq_ignore_ascii_case(
                #[trigger] categories_result(catalogs)[i + 1],
                categories_result(catalogs)[i],
            ),
{
    let le = |a: Seq<char>, b: Seq<char>| category_le(a, b);
    assert(crate::sorting::total_preorder(le)) by {
        assert forall|a: Seq<char>, b: Seq<char>| #[trigger] le(a, b) || le(b, a) by {
            lemma_seq_le_total(lowered(a), lowered(b));
        }
        assert forall|a: Seq<char>, b: Seq<char>, c: Seq<char>| #[trigger] le(a, b) && #[trigger] le(b, c) implies le(a, c) by {
            lemma_seq_le_transitive(lowered(a), lowered(b), lowered(c));
        }
    }
    crate::sorting::lemma_sort_stable_sorted(categories_of(all_addons(catalogs)), le);
    lemma_dedup_sorted(sort_stable(categories_of(all_addons(catalogs)), le));
}

/// On ASCII names, equal ignoring ASCII case is exactly what the filter
/// menu's order cannot tell apart.
proof fn lemma_ascii_category_equivalent(a: Seq<char>, b: Seq<char>)
    requires
        is_ascii_text(a),
        is_ascii_text(b),
    ensures
        eq_ignore_ascii_case(a, b) <==> equivalent(|p: Seq<char>, q: Seq<char>| category_le(p, q), a, b),
{
    lemma_seq_le_total(lowered(a), lowered(a));
    if category_le(a, b) && category_le(b, a) {
        lemma_seq_le_antisymmetric(lowered(a), lowered(b));
    }
}

/// Two names equal ignoring ASCII case, kept folded so proofs about lists
/// of names do not unfold it at every step.
#[verifier::opaque]
spec fn same_name(a: Seq<char>, b: Seq<char>) -> bool {
    eq_ignore_ascii_case(a, b)
}

proof fn lemma_same_name_symmetric(a: Seq<char>, b: Seq<char>)
    requires
        same_name(a, b),
    ensures
        same_name(b, a),
{
    reveal(same_name);
}

proof fn lemma_same_name_transitive(a: Seq<char>, b: Seq<char>, c: Seq<char>)
    requires
        same_name(a, b),
        same_name(b, c),
    ensures
        same_name(a, c),
{
    reveal(same_name);
}

/// No two names equal ignoring ASCII case.
#[verifier::opaque]
spec fn distinct_ignoring_case(r: Seq<Seq<char>>) -> bool {
    forall|i: int, j: int| 0 <= i < j < r.len() ==> !same_name(#[trigger] r[i], #[trigger] r[j])
}

/// Every name of `s` has a spelling in `r`.
#[verifier::opaque]
spec fn covers(s: Seq<Seq<char>>, r: Seq<Seq<char>>) -> bool {
    forall|k: int|
        #![trigger s[k]]
        0 <= k < s.len() ==> exists|i: int| 0 <= i < r.len() && same_name(#[trigger] r[i], s[k])
}

/// `x` occurs in `s`, with no name like it before.
spec fn spelled_first(s: Seq<Seq<char>>, x: Seq<char>) -> bool {
    exists|k: int|
        0 <= k < s.len() && #[trigger] s[k] == x && forall|m: int| 0 <= m < k ==> !same_name(#[trigger] s[m], x)
}

/// Each name of `r` is the first spelling of it in `s`.
#[verifier::opaque]
spec fn first_spellings(s: Seq<Seq<char>>, r: Seq<Seq<char>>) -> bool {
    forall|i: int| 0 <= i < r.len() ==> spelled_first(s, #[trigger] r[i])
}

/// A first spelling stays first when names are added after it.
proof fn lemma_spelled_first_push(s: Seq<Seq<char>>, x: Seq<char>)
    requires
        s.len() > 0,
        spelled_first(s.drop_last(), x),
    ensures
        spelled_first(s, x),
{
    let init = s.drop_last();
    let k = choose|k: int|
        0 <= k < init.len() && #[trigger] init[k] == x && forall|m: int| 0 <= m < k ==> !same_name(#[trigger] init[m], x);
    assert(s[k] == init[k]);
    assert forall|m: int| 0 <= m < k implies !same_name(#[trigger] s[m], x) by {
        assert(s[m] == init[m]);
    }
}

/// A sorted list of ASCII names whose last name is the only one added to
/// the deduplicated rest is unlike every name kept before it.
proof fn lemma_dedup_new_name_differs(s: Seq<Seq<char>>)
    requires
        s.len() > 0,
        is_sorted_by(s, |a: Seq<char>, b: Seq<char>| category_le(a, b)),
        forall|k: int| 0 <= k < s.len() ==> is_ascii_text(#[trigger] s[k]),
        !(dedup_ignoring_ascii_case(s.drop_last()).len() > 0 && eq_ignore_ascii_case(
            s.last(),
            dedup_ignoring_ascii_case(s.drop_last()).last(),
        )),
    ensures
        forall|i: int|
            0 <= i < dedup_ignoring_ascii_case(s.drop_last()).len() ==> !same_name(
                #[trigger] dedup_ignoring_ascii_case(s.drop_last())[i],
                s.last(),
            ),
{
    reveal(same_name);
    let init = s.drop_last();
    let x = s.last();
    let kept = dedup_ignoring_ascii_case(init);
    assert(is_sorted_by(init, |a: Seq<char>, b: Seq<char>| category_le(a, b)));
    lemma_dedup_elements(init);
    lemma_dedup_sorted(init);
    assert(is_ascii_text(s[s.len() - 1]));
    assert forall|i: int| 0 <= i < kept.len() implies !eq_ignore_ascii_case(#[trigger] kept[i], x) by {
        let last = kept.len() - 1;
        assert(init.contains(kept[i]));
        assert(init.contains(kept[last]));
        let p = choose|p: int| 0 <= p < init.len() && init[p] == kept[last];
        let q = choose|q: int| 0 <= q < init.len() && init[q] == kept[i];
        assert(s[p] == init[p]);
        assert(s[q] == init[q]);
        assert(is_ascii_text(kept[i]));
        assert(is_ascii_text(kept[last]));
        assert(category_le(s[p], s[s.len() - 1]));
        if i < last {
            assert(category_le(kept[i], kept[last]));
        }
        if eq_ignore_ascii_case(kept[i], x) {
            assert(lowered(kept[i]) == lowered(x));
            if i < last {
                lemma_seq_le_antisymmetric(lowered(kept[last]), lowered(x));
            }
            assert(eq_ignore_ascii_case(x, kept.last()));
        }
    }
}

/// Deduplicating a sorted list of ASCII names leaves no two equal ignoring
/// ASCII case, a spelling of every name, and of each the first spelling.
proof fn lemma_dedup_ascii(s: Seq<Seq<char>>)
    requires
        is_sorted_by(s, |a: Seq<char>, b: Seq<char>| category_le(a, b)),
        forall|k: int| 0 <= k < s.len() ==> is_ascii_text(#[trigger] s[k]),
    ensures
        distinct_ignoring_case(dedup_ignoring_ascii_case(s)),
        covers(s, dedup_ignoring_ascii_case(s)),
        first_spellings(s, dedup_ignoring_ascii_case(s)),
    decreases s.len(),
{
    let r = dedup_ignoring_ascii_case(s);
    if s.len() == 0 {
        reveal(distinct_ignoring_case);
        reveal(covers);
        reveal(first_spellings);
    } else {
        let init = s.drop_last();
        let x = s.last();
        assert(is_sorted_by(init, |a: Seq<char>, b: Seq<char>| category_le(a, b)));
        assert forall|k: int| 0 <= k < init.len() implies is_ascii_text(#[trigger] init[k]) by {
            assert(init[k] == s[k]);
        }
        lemma_dedup_ascii(init);
        let kept = dedup_ignoring_ascii_case(init);
        if kept.len() > 0 && eq_ignore_ascii_case(x, kept.last()) {
            assert(r == kept);
            assert(same_name(x, kept.last())) by {
                reveal(same_name);
            }
            lemma_dedup_drop_step(s, kept);
        } else {
            assert(r == kept.push(x));
            lemma_dedup_new_name_differs(s);
            lemma_dedup_push_step(s, kept);
        }
    }
}

/// A name like the last one kept adds nothing: the kept names still cover
/// the longer list, each still its first spelling.
proof fn lemma_dedup_drop_step(s: Seq<Seq<char>>, kept: Seq<Seq<char>>)
    requires
        s.len() > 0,
        kept.len() > 0,
        same_name(s.last(), kept.last()),
        covers(s.drop_last(), kept),
        first_spellings(s.drop_last(), kept),
    ensures
        covers(s, kept),
        first_spellings(s, kept),
{
    lemma_dedup_drop_covers(s, kept);
    lemma_dedup_drop_first(s, kept);
}

proof fn lemma_dedup_drop_covers(s: Seq<Seq<char>>, kept: Seq<Seq<char>>)
    requires
        s.len() > 0,
        kept.len() > 0,
        same_name(s.last(), kept.last()),
        covers(s.drop_last(), kept),
    ensures
        covers(s, kept),
{
    let init = s.drop_last();
    lemma_same_name_symmetric(s.last(), kept.last());
    reveal(covers);
    assert forall|k: int| #![trigger s[k]] 0 <= k < s.len() implies exists|i: int|
        0 <= i < kept.len() && same_name(#[trigger] kept[i], s[k]) by {
        if k < init.len() {
            assert(s[k] == init[k]);
        } else {
            assert(same_name(kept[kept.len() - 1], s[k]));
        }
    }
}

proof fn lemma_dedup_drop_first(s: Seq<Seq<char>>, kept: Seq<Seq<char>>)
    requires
        s.len() > 0,
        first_spellings(s.drop_last(), kept),
    ensures
        first_spellings(s, kept),
{
    reveal(first_spellings);
    assert forall|i: int| 0 <= i < kept.len() implies spelled_first(s, #[trigger] kept[i]) by {
        lemma_spelled_first_push(s, kept[i]);
    }
}

/// A name unlike every kept one is kept: the names stay distinct, cover the
/// longer list, and each is its first spelling.
proof fn lemma_dedup_push_step(s: Seq<Seq<char>>, kept: Seq<Seq<char>>)
    requires
        s.len() > 0,
        forall|i: int| 0 <= i < kept.len() ==> !same_name(#[trigger] kept[i], s.last()),
        distinct_ignoring_case(kept),
        covers(s.drop_last(), kept),
        first_spellings(s.drop_last(), kept),
    ensures
        distinct_ignoring_case(kept.push(s.last())),
        covers(s, kept.push(s.last())),
        first_spellings(s, kept.push(s.last())),
{
    let init = s.drop_last();
    let x = s.last();
    let r = kept.push(x);
    reveal(distinct_ignoring_case);
    reveal(covers);
    reveal(first_spellings);
    assert forall|i: int, j: int| 0 <= i < j < r.len() implies !same_name(#[trigger] r[i], #[trigger] r[j]) by {
        assert(r[i] == kept[i]);
        if j < kept.len() {
            assert(r[j] == kept[j]);
        } else {
            assert(r[j] == x);
        }
    }
    assert forall|k: int| #![trigger s[k]] 0 <= k < s.len() implies exists|i: int|
        0 <= i < r.len() && same_name(#[trigger] r[i], s[k]) by {
        if k < init.len() {
            assert(s[k] == init[k]);
            let i = choose|i: int| 0 <= i < kept.len() && same_name(#[trigger] kept[i], init[k]);
            assert(r[i] == kept[i]);
        } else {
            assert(r[kept.len() as int] == x);
            assert(same_name(x, x)) by {
                reveal(same_name);
            }
        }
    }
    assert forall|i: int| 0 <= i < r.len() implies spelled_first(s, #[trigger] r[i]) by {
        if i < kept.len() {
            assert(r[i] == kept[i]);
            lemma_spelled_first_push(s, kept[i]);
        } else {
            let k = s.len() - 1;
            assert(r[i] == x);
            assert forall|m: int| 0 <= m < k implies !same_name(#[trigger] s[m], x) by {
                assert(s[m] == init[m]);
                if same_name(s[m], x) {
                    let j = choose|j: int| 0 <= j < kept.len() && same_name(#[trigger] kept[j], init[m]);
                    lemma_same_name_transitive(kept[j], s[m], x);
                }
            }
            assert(s[k] == x);
        }
    }
}

/// With ASCII category names, the filter menu lists no two names equal
/// ignoring ASCII case, lists a spelling of every name any catalog uses, and
/// lists each name in the first spelling the catalogs give it.
pub proof fn law_categories_listed_once(catalogs: Seq<Catalog>)
    requires
        forall|k: int|
            0 <= k < categories_of(all_addons(catalogs)).len() ==> is_ascii_text(
                #[trigger] categories_of(all_addons(catalogs))[k],
            ),
    ensures
        forall|i: int, j: int|
            0 <= i < j < categories_result(catalogs).len() ==> !eq_ignore_ascii_case(
                #[trigger] categories_result(catalogs)[i],
                #[trigger] categories_result(catalogs)[j],
            ),
        forall|k: int|
            #![trigger categories_of(all_addons(catalogs))[k]]
            0 <= k < categories_of(all_addons(catalogs)).len() ==> exists|i: int|
                0 <= i < categories_result(catalogs).len() && eq_ignore_ascii_case(
                    #[trigger] categories_result(catalogs)[i],
                    categories_of(all_addons(catalogs))[k],
                ),
        forall|i: int|
            #![trigger categories_result(catalogs)[i]]
            0 <= i < categories_result(catalogs).len() ==> exists|k: int|
                0 <= k < categories_of(all_addons(catalogs)).len() && #[trigger] categories_of(
                    all_addons(catalogs),
                )[k] == categories_result(catalogs)[i] && forall|m: int|
                    0 <= m < k ==> !eq_ignore_ascii_case(
                        #[trigger] categories_of(all_addons(catalogs))[m],
                        categories_result(catalogs)[i],
                    ),
{
    let s = categories_of(all_addons(catalogs));
    let le = |a: Seq<char>, b: Seq<char>| category_le(a, b);
    lemma_category_order(le);
    let t = sort_stable(s, le);
    let r = categories_result(catalogs);
    lemma_sorted_names_ascii(s, le);
    lemma_dedup_ascii(t);
    lemma_listed_distinct(r);
    assert forall|k: int| #![trigger s[k]] 0 <= k < s.len() implies exists|i: int|
        0 <= i < r.len() && eq_ignore_ascii_case(#[trigger] r[i], s[k]) by {
        lemma_listed_covers_at(s, t, r, k);
    }
    assert forall|i: int| #![trigger r[i]] 0 <= i < r.len() implies exists|k: int|
        0 <= k < s.len() && #[trigger] s[k] == r[i] && forall|m: int|
            0 <= m < k ==> !eq_ignore_ascii_case(#[trigger] s[m], r[i]) by {
        lemma_listed_first_at(s, r, le, i);
    }
}

proof fn lemma_category_order(le: spec_fn(Seq<char>, Seq<char>) -> bool)
    requires
        le == (|a: Seq<char>, b: Seq<char>| category_le(a, b)),
    ensures
        crate::sorting::total_preorder(le),
{
    assert forall|a: Seq<char>, b: Seq<char>| #[trigger] le(a, b) || le(b, a) by {
        lemma_seq_le_total(lowered(a), lowered(b));
    }
    assert forall|a: Seq<char>, b: Seq<char>, c: Seq<char>| #[trigger] le(a, b) && #[trigger] le(b, c) implies le(a, c) by {
        lemma_seq_le_transitive(lowered(a), lowered(b), lowered(c));
    }
}

proof fn lemma_sorted_names_ascii(s: Seq<Seq<char>>, le: spec_fn(Seq<char>, Seq<char>) -> bool)
    requires
        crate::sorting::total_preorder(le),
        forall|k: int| 0 <= k < s.len() ==> is_ascii_text(#[trigger] s[k]),
    ensures
        is_sorted_by(sort_stable(s, le), le),
        sort_stable(s, le).to_multiset() == s.to_multiset(),
        forall|k: int| 0 <= k < sort_stable(s, le).len() ==> is_ascii_text(#[trigger] sort_stable(s, le)[k]),
{
    let t = sort_stable(s, le);
    lemma_sort_stable_sorted(s, le);
    assert forall|k: int| 0 <= k < t.len() implies is_ascii_text(#[trigger] t[k]) by {
        broadcast use vstd::seq_lib::group_to_multiset_ensures;
        assert(t.to_multiset().count(t[k]) > 0);
        assert(s.contains(t[k]));
    }
}

proof fn lemma_listed_distinct(r: Seq<Seq<char>>)
    requires
        distinct_ignoring_case(r),
    ensures
        forall|i: int, j: int| 0 <= i < j < r.len() ==> !eq_ignore_ascii_case(#[trigger] r[i], #[trigger] r[j]),
{
    assert forall|i: int, j: int| 0 <= i < j < r.len() implies !eq_ignore_ascii_case(
        #[trigger] r[i],
        #[trigger] r[j],
    ) by {
        reveal(distinct_ignoring_case);
        reveal(same_name);
        assert(!same_name(r[i], r[j]));
    }
}

proof fn lemma_listed_covers_at(s: Seq<Seq<char>>, t: Seq<Seq<char>>, r: Seq<Seq<char>>, k: int)
    requires
        t.to_multiset() == s.to_multiset(),
        covers(t, r),
        0 <= k < s.len(),
    ensures
        exists|i: int| 0 <= i < r.len() && eq_ignore_ascii_case(#[trigger] r[i], s[k]),
{
    broadcast use vstd::seq_lib::group_to_multiset_ensures;
    reveal(covers);
    assert(s.to_multiset().count(s[k]) > 0);
    assert(t.contains(s[k]));
    let j = choose|j: int| 0 <= j < t.len() && t[j] == s[k];
    assert(t[j] == s[k]);
    let i = choose|i: int| 0 <= i < r.len() && same_name(#[trigger] r[i], t[j]);
    assert(eq_ignore_ascii_case(r[i], s[k])) by {
        reveal(same_name);
    }
}

proof fn lemma_listed_first_at(s: Seq<Seq<char>>, r: Seq<Seq<char>>, le: spec_fn(Seq<char>, Seq<char>) -> bool, i: int)
    requires
        le == (|a: Seq<char>, b: Seq<char>| category_le(a, b)),
        crate::sorting::total_preorder(le),
        first_spellings(sort_stable(s, le), r),
        forall|k: int| 0 <= k < sort_stable(s, le).len() ==> is_ascii_text(#[trigger] sort_stable(s, le)[k]),
        forall|k: int| 0 <= k < s.len() ==> is_ascii_text(#[trigger] s[k]),
        0 <= i < r.len(),
    ensures
        exists|k: int|
            0 <= k < s.len() && #[trigger] s[k] == r[i] && forall|m: int|
                0 <= m < k ==> !eq_ignore_ascii_case(#[trigger] s[m], r[i]),
{
    let t = sort_stable(s, le);
    reveal(first_spellings);
    let x = r[i];
    assert(spelled_first(t, x));
    let k = choose|k: int|
        0 <= k < t.len() && #[trigger] t[k] == x && forall|m: int| 0 <= m < k ==> !same_name(#[trigger] t[m], x);
    assert(is_ascii_text(t[k]));
    lemma_ascii_category_equivalent(x, x);
    assert forall|m: int| 0 <= m < k implies !equivalent(le, #[trigger] t[m], x) by {
        assert(!same_name(t[m], x));
        reveal(same_name);
        lemma_ascii_category_equivalent(t[m], x);
    }
    lemma_first_equivalent_at(t, le, x, k);
    lemma_sort_stable_first_equivalent(s, le, x);
    lemma_first_equivalent_found(s, le, x);
    let k2 = choose|k2: int|
        0 <= k2 < s.len() && #[trigger] s[k2] == first_equivalent(s, le, x)->Some_0 && equivalent(le, s[k2], x)
            && forall|m: int| 0 <= m < k2 ==> !equivalent(le, #[trigger] s[m], x);
    assert forall|m: int| 0 <= m < k2 implies !eq_ignore_ascii_case(#[trigger] s[m], x) by {
        assert(!equivalent(le, s[m], x));
        lemma_ascii_category_equivalent(s[m], x);
    }
    assert(s[k2] == x);
}

/// For ASCII texts, a query word matches an addon exactly when it occurs,
/// ignoring ASCII case, in the addon's name, its summary or its author.
pub proof fn law_word_found_in_name_summary_or_author(w: Seq<char>, a: AddonSummary)
    requires
        is_ascii_text(a.name@),
        is_ascii_text(a.summary@),
        a.author matches Some(au) ==> is_ascii_text(au@),
    ensures
        word_matches(w, a) <==> (contains_seq(crate::text::ascii_lower_seq(a.name@), w) || contains_seq(
            crate::text::ascii_lower_seq(a.summary@),
            w,
        ) || (a.author matches Some(au) && contains_seq(crate::text::ascii_lower_seq(au@), w))),
{
}

/// For an ASCII query, the text filter passes an addon exactly when the
/// query is blank or every whitespace-separated word of the trimmed query,
/// lowered, matches the addon.
pub proof fn law_every_query_word_must_match(q: CatalogQuery, a: AddonSummary)
    requires
        is_ascii_text(trim(q.text@)),
    ensures
        text_matches(q, a) <==> (trim(q.text@).len() == 0 || forall|k: int|
            0 <= k < words(crate::text::ascii_lower_seq(trim(q.text@))).len() ==> word_matches(
                #[trigger] words(crate::text::ascii_lower_seq(trim(q.text@)))[k],
                a,
            )),
{
    assert(needle(q) == crate::text::ascii_lower_seq(trim(q.text@)));
}

} // verus!
