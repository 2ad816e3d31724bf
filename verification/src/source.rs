//! The addon providers: what each one's responses mean for the catalog.
//!
//! Providers are a closed set known at compile time, so dispatch is an
//! exhaustive `match` rather than a trait object: adding a provider means
//! adding a `SourceId` variant, and the compiler then points at every place
//! that has to learn about it.

pub mod curseforge;
pub mod github;
pub mod wago;


use vstd::prelude::*;

use crate::domain::addon::{AddonId, AddonKey};
use crate::domain::source_id::SourceId;
use crate::error::AppError;
use crate::text::{append_chars, chars_of, join_with, string_of, trim, trim_str, words, words_of};

verus! {

/// Progress reported while a catalog is being pulled, so a multi-page fetch is
/// not a silent thirty-second pause in the UI.
#[derive(Debug, Clone, Copy, PartialEq, Eq, Structural)]
pub struct FetchProgress {
    pub source: SourceId,
    pub page: u32,
    pub total_pages: Option<u32>,
    pub addons_so_far: usize,
}

/// The per-source pieces of settings a request needs (credentials and the
/// user's tracked GitHub repositories), read at call time so a value saved a
/// moment ago is used without restarting anything.
#[derive(Debug)]
pub struct SourceAuth {
    pub curseforge_api_key: Option<String>,
    pub wago_token: Option<String>,
    pub github_repos: Vec<String>,
}

impl Default for SourceAuth {
    fn default() -> (r: Self)
        ensures
            r.curseforge_api_key is None,
            r.wago_token is None,
            r.github_repos@.len() == 0,
    {
        SourceAuth { curseforge_api_key: None, wago_token: None, github_repos: Vec::new() }
    }
}

impl Clone for SourceAuth {
    fn clone(&self) -> (r: Self)
        ensures
            r.curseforge_api_key == self.curseforge_api_key,
            r.wago_token == self.wago_token,
            r.github_repos@ == self.github_repos@,
    {
        SourceAuth {
            curseforge_api_key: self.curseforge_api_key.clone(),
            wago_token: self.wago_token.clone(),
            github_repos: self.github_repos.clone(),
        }
    }
}

/// A saved credential is usable when something is left of it after trimming;
/// `required_key` hands back that trimmed text, or names the source that
/// lacks one.
pub open spec fn key_outcome(key: Option<String>, source_id: SourceId, r: Result<String, AppError>) -> bool {
    match key {
        Some(k) if trim(k@).len() > 0 => r matches Ok(used) && used@ == trim(k@),
        _ => r == Err::<String, AppError>(AppError::MissingApiKey { source_id }),
    }
}

impl SourceAuth {
    /// The CurseForge API key to send.
    pub fn curseforge_key(&self) -> (r: Result<String, AppError>)
        ensures
            key_outcome(self.curseforge_api_key, SourceId::CurseForge, r),
    {
        required_key(&self.curseforge_api_key, SourceId::CurseForge)
    }

    /// The Wago access token to send.
    pub fn wago_token(&self) -> (r: Result<String, AppError>)
        ensures
            key_outcome(self.wago_token, SourceId::Wago, r),
    {
        required_key(&self.wago_token, SourceId::Wago)
    }
}

/// The trimmed credential, or the error that names the source lacking one.
pub fn required_key(key: &Option<String>, source_id: SourceId) -> (r: Result<String, AppError>)
    ensures
        key_outcome(*key, source_id, r),
{
    match key {
        Some(k) => {
            let trimmed = trim_str(k.as_str());
            if trimmed.len() > 0 {
                Ok(string_of(trimmed.as_slice()))
            } else {
                Err(AppError::MissingApiKey { source_id })
            }
        },
        None => Err(AppError::MissingApiKey { source_id }),
    }
}

/// The error for a response that lacks the shape a source promised.
pub fn missing_field(source: SourceId, url: &str, expected: &'static str, reason: String) -> (r: AppError)
    ensures
        r matches AppError::SourceShape { source_id, url: u, expected: e, reason: why } && source_id
            == source && u@ == url@ && e == expected && why == reason,
{
    AppError::SourceShape { source_id: source, url: url.to_owned(), expected, reason }
}

/// Shorthand for the id every source builds the same way; `None` for a blank
/// key.
pub fn addon_id(source: SourceId, key: &str) -> (r: Option<AddonId>)
    ensures
        r is Some <==> trim(key@).len() > 0,
        r matches Some(id) ==> id.source == source && id.key@ == trim(key@),
{
    match AddonKey::new(key) {
        Some(k) => Some(AddonId::new(source, k)),
        None => None,
    }
}

/// The text of an HTML fragment as `scraper` parses it: every text node,
/// in document order, concatenated.
pub uninterp spec fn fragment_text(html: Seq<char>) -> Seq<char>;

/// `scraper::Html::parse_fragment`, then the root element's text nodes
/// collected into one string.
#[verifier::external_body]
fn html_fragment_text(html: &str) -> (r: String)
    ensures
        r@ == fragment_text(html@),
{
    scraper::Html::parse_fragment(html).root_element().text().collect::<String>()
}

/// What `html_to_text` makes of a fragment: `None` when it is blank,
/// otherwise its text with every run of whitespace turned into one space and
/// none at either end.
pub open spec fn plain_text_of(html: Seq<char>) -> Option<Seq<char>> {
    if trim(html).len() == 0 {
        None
    } else {
        Some(join_with(words(fragment_text(html)), " "@))
    }
}

/// Sources return short HTML fragments; the UI wants plain text.
pub fn html_to_text(html: &str) -> (r: Option<String>)
    ensures
        match r {
            Some(t) => plain_text_of(html@) == Some(t@),
            None => plain_text_of(html@) is None,
        },
{
    let trimmed = trim_str(html);
    if trimmed.len() == 0 {
        return None;
    }
    let text = html_fragment_text(html);
    let chars = chars_of(text.as_str());
    let ws = words_of(chars.as_slice());
    let joined = join_words(&ws);
    assert(ws@.map_values(|w: Vec<char>| w@) =~= words(fragment_text(html@)));
    Some(string_of(joined.as_slice()))
}

/// The words joined with single spaces.
fn join_words(ws: &Vec<Vec<char>>) -> (r: Vec<char>)
    ensures
        r@ == join_with(ws@.map_values(|w: Vec<char>| w@), " "@),
{
    let ghost parts = ws@.map_values(|w: Vec<char>| w@);
    let mut out: Vec<char> = Vec::new();
    let mut i: usize = 0;
    assert(parts.take(0) =~= Seq::<Seq<char>>::empty());
    while i < ws.len()
        invariant
            i <= ws@.len(),
            parts == ws@.map_values(|w: Vec<char>| w@),
            out@ == join_with(parts.take(i as int), " "@),
        decreases ws.len() - i,
    {
        let ghost before = parts.take(i as int);
        assert(parts.take(i + 1).drop_last() =~= before);
        assert(parts.take(i + 1).last() == ws@[i as int]@);
        if i > 0 {
            out.push(' ');
        }
        append_chars(&mut out, ws[i].as_slice());
        proof {
            reveal_strlit(" ");
            if i == 0 {
                assert(out@ =~= parts.take(1)[0]);
            } else {
                assert(out@ =~= join_with(before, " "@) + " "@ + parts.take(i + 1).last());
            }
        }
        i += 1;
    }
    assert(parts.take(ws@.len() as int) =~= parts);
    out
}

/// A page count a paginated endpoint reports in a response header: the
/// header's text, trimmed, read as a `u32`.
pub fn header_number(value: &str) -> (r: Option<u32>)
    ensures
        r == crate::text::parse_u32(trim(value@)),
{
    let t = trim_str(value);
    crate::text::parse_u32_chars(t.as_slice())
}

} // verus!
