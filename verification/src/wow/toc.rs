//! Parsing of `.toc` files — the manifest WoW reads to load an addon.
//!
//! The format is line-oriented: `## Key: Value` directives, then a list of
//! files. Addon authors put anything they like in the key space, so unknown
//! directives are preserved rather than discarded.

use vstd::prelude::*;

use crate::domain::version::AddonVersion;
use crate::text::{
    ascii_lower_chars, ascii_lower_seq, chars_eq, chars_of, find_char, has_prefix,
    is_ascii_hexdigit, is_ascii_hexdigit_char, parse_u32, parse_u32_chars, slice_chars,
    split_chars, split_on, starts_with_chars, string_of, trim, trim_chars, first_index_of,
};

verus! {

/// The `## Interface:` number. The WoW Forever beta (client 1.60.1) loads
/// `16001`.
#[derive(Debug, Clone, Copy, PartialEq, Eq, Structural, PartialOrd, Ord, Hash)]
pub struct InterfaceVersion(u32);

impl View for InterfaceVersion {
    type V = u32;

    closed spec fn view(&self) -> u32 {
        self.0
    }
}

/// The interface band the Forever client loads without the "out of date"
/// gate: its client is numbered 1.60.x, so the band starts at 16000 and runs
/// until a 2.x would begin.
pub open spec fn loads_on_forever_band(n: u32) -> bool {
    16000 <= n < 20000
}

impl InterfaceVersion {
    /// What the WoW Forever beta client reports: `16001`.
    pub fn forever() -> (r: InterfaceVersion)
        ensures
            r@ == 16001,
    {
        InterfaceVersion(16001)
    }

    pub fn new(raw: u32) -> (r: InterfaceVersion)
        ensures
            r@ == raw,
    {
        InterfaceVersion(raw)
    }

    pub fn get(self) -> (r: u32)
        ensures
            r == self@,
    {
        self.0
    }

    /// Whether the Forever client loads an addon declaring this number.
    pub fn loads_on_forever(self) -> (r: bool)
        ensures
            r == loads_on_forever_band(self@),
    {
        self.0 >= 16000 && self.0 < 20000
    }
}

/// One `## Key: Value` line.
#[derive(Debug, PartialEq, Eq)]
pub enum TocDirective {
    Interface(InterfaceVersion),
    Title(String),
    Version(AddonVersion),
    Author(String),
    Notes(String),
    /// Anything else the author wrote, kept verbatim: `X-Curse-Project-ID`,
    /// `Dependencies`, localized `Title-deDE`, and whatever comes next.
    Unknown { key: String, value: String },
}

/// What a directive says, as text.
pub enum DirectiveSpec {
    Interface(u32),
    Title(Seq<char>),
    Version(Seq<char>),
    Author(Seq<char>),
    Notes(Seq<char>),
    Unknown(Seq<char>, Seq<char>),
}

impl View for TocDirective {
    type V = DirectiveSpec;

    open spec fn view(&self) -> DirectiveSpec {
        match self {
            TocDirective::Interface(v) => DirectiveSpec::Interface(v@),
            TocDirective::Title(t) => DirectiveSpec::Title(t@),
            TocDirective::Version(v) => DirectiveSpec::Version(v@),
            TocDirective::Author(a) => DirectiveSpec::Author(a@),
            TocDirective::Notes(n) => DirectiveSpec::Notes(n@),
            TocDirective::Unknown { key, value } => DirectiveSpec::Unknown(key@, value@),
        }
    }
}

impl Clone for TocDirective {
    fn clone(&self) -> (r: Self)
        ensures
            r == *self,
    {
        match self {
            TocDirective::Interface(v) => TocDirective::Interface(*v),
            TocDirective::Title(t) => TocDirective::Title(t.clone()),
            TocDirective::Version(v) => TocDirective::Version(v.clone()),
            TocDirective::Author(a) => TocDirective::Author(a.clone()),
            TocDirective::Notes(n) => TocDirective::Notes(n.clone()),
            TocDirective::Unknown { key, value } => TocDirective::Unknown {
                key: key.clone(),
                value: value.clone(),
            },
        }
    }
}

pub open spec fn directives_view(ds: Seq<TocDirective>) -> Seq<DirectiveSpec> {
    ds.map_values(|d: TocDirective| d@)
}

/// A parsed `.toc` file. Only the directives are modelled; the file list below
/// them is WoW's business, not this application's.
#[derive(Debug, Default, PartialEq, Eq)]
pub struct Toc {
    pub directives: Vec<TocDirective>,
}

impl View for Toc {
    type V = Seq<DirectiveSpec>;

    open spec fn view(&self) -> Seq<DirectiveSpec> {
        directives_view(self.directives@)
    }
}

/// One `Interface` directive per number of a comma-delimited list; a list
/// any entry of which does not parse is kept whole as `Unknown`.
pub open spec fn interface_list(key: Seq<char>, value: Seq<char>) -> Seq<DirectiveSpec> {
    let pieces = split_on(value, ',');
    if forall|k: int| 0 <= k < pieces.len() ==> (#[trigger] parse_u32(trim(pieces[k]))) is Some {
        Seq::new(
            pieces.len(),
            |k: int| DirectiveSpec::Interface(parse_u32(trim(pieces[k]))->Some_0),
        )
    } else {
        seq![DirectiveSpec::Unknown(key, value)]
    }
}

/// What the directive with this (trimmed, non-empty) key and (trimmed) value
/// says. Known keys are matched ignoring ASCII case.
pub open spec fn keyed_directives(key: Seq<char>, value: Seq<char>) -> Seq<DirectiveSpec> {
    let lowered = ascii_lower_seq(key);
    if lowered == "interface"@ {
        interface_list(key, value)
    } else if lowered == "title"@ {
        seq![DirectiveSpec::Title(value)]
    } else if lowered == "version"@ {
        if trim(value).len() > 0 {
            seq![DirectiveSpec::Version(trim(value))]
        } else {
            seq![DirectiveSpec::Unknown(key, value)]
        }
    } else if lowered == "author"@ {
        seq![DirectiveSpec::Author(value)]
    } else if lowered == "notes"@ {
        seq![DirectiveSpec::Notes(value)]
    } else {
        seq![DirectiveSpec::Unknown(key, value)]
    }
}

/// The directives one line carries: none unless the trimmed line is
/// `##`, a non-blank key, `:`, and a value.
pub open spec fn line_directives(line: Seq<char>) -> Seq<DirectiveSpec> {
    let t = trim(line);
    if !has_prefix(t, seq!['#', '#']) {
        Seq::empty()
    } else {
        let body = t.skip(2);
        match first_index_of(body, ':') {
            None => Seq::empty(),
            Some(i) => {
                let key = trim(body.take(i));
                let value = trim(body.skip(i + 1));
                if key.len() == 0 {
                    Seq::empty()
                } else {
                    keyed_directives(key, value)
                }
            },
        }
    }
}

/// The directives of every line, in file order.
pub open spec fn lines_directives(lines: Seq<Seq<char>>) -> Seq<DirectiveSpec>
    decreases lines.len(),
{
    if lines.len() == 0 {
        Seq::empty()
    } else {
        lines_directives(lines.drop_last()) + line_directives(lines.last())
    }
}

/// The directives of a whole `.toc` file.
pub open spec fn toc_directives(contents: Seq<char>) -> Seq<DirectiveSpec> {
    lines_directives(split_on(contents, '\n'))
}

/// The directives of lines one after another are those of each line, in
/// turn.
pub proof fn lemma_lines_directives_append(x: Seq<Seq<char>>, y: Seq<Seq<char>>)
    ensures
        lines_directives(x + y) == lines_directives(x) + lines_directives(y),
    decreases y.len(),
{
    if y.len() == 0 {
        assert(x + y =~= x);
        assert(lines_directives(x) + lines_directives(y) =~= lines_directives(x));
    } else {
        lemma_lines_directives_append(x, y.drop_last());
        assert((x + y).drop_last() =~= x + y.drop_last());
        assert((x + y).last() == y.last());
        assert(lines_directives(x + y) =~= lines_directives(x) + lines_directives(y));
    }
}

/// Every line of a `.toc` is read on its own: the directives of a file that
/// is one text after another, the first empty or ending in a line break, are
/// those of the first text, then those of the second. So a `## Title:` line
/// after the file list is still a directive.
pub proof fn law_lines_are_read_on_their_own(a: Seq<char>, b: Seq<char>)
    requires
        a.len() == 0 || a.last() == '\n',
    ensures
        toc_directives(a + b) == toc_directives(a) + toc_directives(b),
{
    let empty = Seq::<char>::empty();
    assert(trim(empty).len() == 0);
    assert(line_directives(empty) =~= Seq::<DirectiveSpec>::empty());
    if a.len() == 0 {
        assert(a + b =~= b);
        assert(split_on(a, '\n') == seq![empty]);
        let one = seq![empty];
        assert(one.drop_last() =~= Seq::<Seq<char>>::empty());
        assert(one.last() == empty);
        assert(lines_directives(Seq::<Seq<char>>::empty()) =~= Seq::<DirectiveSpec>::empty());
        assert(lines_directives(one) == lines_directives(one.drop_last()) + line_directives(one.last()));
        assert(lines_directives(one) =~= Seq::<DirectiveSpec>::empty());
        assert(toc_directives(a) + toc_directives(b) =~= toc_directives(b));
    } else {
        crate::text::lemma_split_on_after_separator(a, b, '\n');
        crate::text::lemma_split_on_nonempty(a.drop_last(), '\n');
        let pieces = split_on(a, '\n');
        assert(pieces == split_on(a.drop_last(), '\n').push(empty));
        assert(pieces.drop_last() == split_on(a.drop_last(), '\n'));
        lemma_lines_directives_append(pieces.drop_last(), split_on(b, '\n'));
        assert(lines_directives(pieces) =~= lines_directives(pieces.drop_last()));
    }
}

/// Every declared interface number, in order.
pub open spec fn interfaces_in(ds: Seq<DirectiveSpec>) -> Seq<u32>
    decreases ds.len(),
{
    if ds.len() == 0 {
        Seq::empty()
    } else {
        let init = interfaces_in(ds.drop_last());
        match ds.last() {
            DirectiveSpec::Interface(n) => init.push(n),
            _ => init,
        }
    }
}

pub open spec fn first_title(ds: Seq<DirectiveSpec>) -> Option<Seq<char>>
    decreases ds.len(),
{
    if ds.len() == 0 {
        None
    } else {
        match ds[0] {
            DirectiveSpec::Title(t) => Some(t),
            _ => first_title(ds.drop_first()),
        }
    }
}

pub open spec fn first_version(ds: Seq<DirectiveSpec>) -> Option<Seq<char>>
    decreases ds.len(),
{
    if ds.len() == 0 {
        None
    } else {
        match ds[0] {
            DirectiveSpec::Version(v) => Some(v),
            _ => first_version(ds.drop_first()),
        }
    }
}

pub open spec fn first_author(ds: Seq<DirectiveSpec>) -> Option<Seq<char>>
    decreases ds.len(),
{
    if ds.len() == 0 {
        None
    } else {
        match ds[0] {
            DirectiveSpec::Author(a) => Some(a),
            _ => first_author(ds.drop_first()),
        }
    }
}

pub open spec fn first_notes(ds: Seq<DirectiveSpec>) -> Option<Seq<char>>
    decreases ds.len(),
{
    if ds.len() == 0 {
        None
    } else {
        match ds[0] {
            DirectiveSpec::Notes(n) => Some(n),
            _ => first_notes(ds.drop_first()),
        }
    }
}

/// How many leading characters of `s`, at most `max`, are hex digits.
pub open spec fn hex_run(s: Seq<char>, max: nat) -> nat
    decreases max,
{
    if max == 0 || s.len() == 0 || !is_ascii_hexdigit(s[0]) {
        0
    } else {
        1 + hex_run(s.drop_first(), (max - 1) as nat)
    }
}

pub proof fn lemma_hex_run_bound(s: Seq<char>, max: nat)
    ensures
        hex_run(s, max) <= s.len(),
        hex_run(s, max) <= max,
    decreases max,
{
    if !(max == 0 || s.len() == 0 || !is_ascii_hexdigit(s[0])) {
        lemma_hex_run_bound(s.drop_first(), (max - 1) as nat);
    }
}

/// WoW's colour escapes removed: `|c` with up to eight hex digits and `|r`
/// disappear, `||` is a literal pipe, and any other `|` stays as written.
pub open spec fn strip_escapes(s: Seq<char>) -> Seq<char>
    decreases s.len(),
{
    if s.len() == 0 {
        Seq::empty()
    } else if s[0] != '|' {
        seq![s[0]] + strip_escapes(s.drop_first())
    } else if s.len() == 1 {
        seq!['|']
    } else {
        let next = s[1];
        let rest = s.skip(2);
        if next == 'c' || next == 'C' {
            proof {
                lemma_hex_run_bound(rest, 8);
            }
            strip_escapes(rest.skip(hex_run(rest, 8) as int))
        } else if next == 'r' || next == 'R' {
            strip_escapes(rest)
        } else if next == '|' {
            seq!['|'] + strip_escapes(rest)
        } else {
            seq!['|', next] + strip_escapes(rest)
        }
    }
}

/// The title as shown outside the game: escapes removed, then trimmed.
pub open spec fn clean_title(raw: Seq<char>) -> Seq<char> {
    trim(strip_escapes(raw))
}

impl Toc {
    /// Every directive of every line, in file order.
    pub fn parse(contents: &str) -> (r: Toc)
        ensures
            r@ == toc_directives(contents@),
    {
        let all = chars_of(contents);
        let lines = split_chars(all.as_slice(), '\n');
        let ghost parts = split_on(all@, '\n');
        let mut directives: Vec<TocDirective> = Vec::new();
        let mut i: usize = 0;
        assert(parts.take(0) =~= Seq::<Seq<char>>::empty());
        while i < lines.len()
            invariant
                i <= lines@.len(),
                parts == split_on(contents@, '\n'),
                lines@.len() == parts.len(),
                forall|k: int| 0 <= k < lines@.len() ==> #[trigger] lines@[k]@ == parts[k],
                directives_view(directives@) == lines_directives(parts.take(i as int)),
            decreases lines.len() - i,
        {
            let found = parse_directive_line(lines[i].as_slice());
            let ghost before = directives@;
            let mut k: usize = 0;
            while k < found.len()
                invariant
                    k <= found@.len(),
                    directives@ == before + found@.take(k as int),
                decreases found.len() - k,
            {
                directives.push(found[k].clone());
                k += 1;
                assert(directives@ =~= before + found@.take(k as int));
            }
            assert(found@.take(found@.len() as int) =~= found@);
            assert(parts.take(i + 1).drop_last() =~= parts.take(i as int));
            assert(directives_view(directives@) =~= directives_view(before) + directives_view(
                found@,
            ));
            i += 1;
        }
        assert(parts.take(parts.len() as int) =~= parts);
        Toc { directives }
    }

    /// The first declared interface number.
    pub fn interface(&self) -> (r: Option<InterfaceVersion>)
        ensures
            r is None <==> interfaces_in(self@).len() == 0,
            r matches Some(v) ==> v@ == interfaces_in(self@)[0],
    {
        let all = self.interfaces();
        if all.len() > 0 {
            Some(all[0])
        } else {
            None
        }
    }

    /// Every interface number the addon declares. Modern clients accept a
    /// comma-delimited `## Interface:` list, one number per supported client.
    pub fn interfaces(&self) -> (r: Vec<InterfaceVersion>)
        ensures
            r@.len() == interfaces_in(self@).len(),
            forall|k: int| 0 <= k < r@.len() ==> #[trigger] r@[k]@ == interfaces_in(self@)[k],
    {
        let mut out: Vec<InterfaceVersion> = Vec::new();
        let mut i: usize = 0;
        let ghost ds = self@;
        assert(ds.take(0) =~= Seq::<DirectiveSpec>::empty());
        while i < self.directives.len()
            invariant
                i <= self.directives@.len(),
                ds == self@,
                ds.len() == self.directives@.len(),
                out@.len() == interfaces_in(ds.take(i as int)).len(),
                forall|k: int|
                    0 <= k < out@.len() ==> #[trigger] out@[k]@ == interfaces_in(ds.take(i as int))[k],
            decreases self.directives.len() - i,
        {
            assert(ds.take(i + 1).drop_last() =~= ds.take(i as int));
            assert(ds.take(i + 1).last() == self.directives@[i as int]@);
            match &self.directives[i] {
                TocDirective::Interface(v) => {
                    out.push(*v);
                },
                _ => {},
            }
            i += 1;
        }
        assert(ds.take(ds.len() as int) =~= ds);
        out
    }

    /// The `## Title:` line with WoW's `|cffRRGGBB … |r` colour escapes
    /// removed, because they render as noise outside the game client.
    pub fn title(&self) -> (r: Option<String>)
        ensures
            r is None <==> first_title(self@) is None,
            r matches Some(t) ==> t@ == clean_title(first_title(self@)->Some_0),
    {
        let ghost ds = self@;
        let mut i: usize = 0;
        assert(ds.skip(0) =~= ds);
        while i < self.directives.len()
            invariant
                i <= self.directives@.len(),
                ds == self@,
                first_title(ds) == first_title(ds.skip(i as int)),
            decreases self.directives.len() - i,
        {
            assert(ds.skip(i as int)[0] == self.directives@[i as int]@);
            match &self.directives[i] {
                TocDirective::Title(t) => {
                    return Some(strip_color_escapes(t.as_str()));
                },
                _ => {},
            }
            assert(ds.skip(i as int).drop_first() =~= ds.skip(i + 1));
            i += 1;
        }
        None
    }

    pub fn version(&self) -> (r: Option<&AddonVersion>)
        ensures
            r is None <==> first_version(self@) is None,
            r matches Some(v) ==> v@ == first_version(self@)->Some_0,
    {
        let ghost ds = self@;
        let mut i: usize = 0;
        assert(ds.skip(0) =~= ds);
        while i < self.directives.len()
            invariant
                i <= self.directives@.len(),
                ds == self@,
                first_version(ds) == first_version(ds.skip(i as int)),
            decreases self.directives.len() - i,
        {
            assert(ds.skip(i as int)[0] == self.directives@[i as int]@);
            match &self.directives[i] {
                TocDirective::Version(v) => {
                    return Some(v);
                },
                _ => {},
            }
            assert(ds.skip(i as int).drop_first() =~= ds.skip(i + 1));
            i += 1;
        }
        None
    }

    pub fn author(&self) -> (r: Option<&str>)
        ensures
            r is None <==> first_author(self@) is None,
            r matches Some(a) ==> a@ == first_author(self@)->Some_0,
    {
        let ghost ds = self@;
        let mut i: usize = 0;
        assert(ds.skip(0) =~= ds);
        while i < self.directives.len()
            invariant
                i <= self.directives@.len(),
                ds == self@,
                first_author(ds) == first_author(ds.skip(i as int)),
            decreases self.directives.len() - i,
        {
            assert(ds.skip(i as int)[0] == self.directives@[i as int]@);
            match &self.directives[i] {
                TocDirective::Author(a) => {
                    return Some(a.as_str());
                },
                _ => {},
            }
            assert(ds.skip(i as int).drop_first() =~= ds.skip(i + 1));
            i += 1;
        }
        None
    }

    pub fn notes(&self) -> (r: Option<&str>)
        ensures
            r is None <==> first_notes(self@) is None,
            r matches Some(n) ==> n@ == first_notes(self@)->Some_0,
    {
        let ghost ds = self@;
        let mut i: usize = 0;
        assert(ds.skip(0) =~= ds);
        while i < self.directives.len()
            invariant
                i <= self.directives@.len(),
                ds == self@,
                first_notes(ds) == first_notes(ds.skip(i as int)),
            decreases self.directives.len() - i,
        {
            assert(ds.skip(i as int)[0] == self.directives@[i as int]@);
            match &self.directives[i] {
                TocDirective::Notes(n) => {
                    return Some(n.as_str());
                },
                _ => {},
            }
            assert(ds.skip(i as int).drop_first() =~= ds.skip(i + 1));
            i += 1;
        }
        None
    }
}

/// The directives of one line.
pub fn parse_directive_line(line: &[char]) -> (r: Vec<TocDirective>)
    ensures
        directives_view(r@) == line_directives(line@),
{
    let t = trim_chars(line);
    let hashes = chars_of("##");
    proof {
        reveal_strlit("##");
        assert(hashes@ =~= seq!['#', '#']);
    }
    if !starts_with_chars(t.as_slice(), hashes.as_slice()) {
        return Vec::new();
    }
    let body = slice_chars(t.as_slice(), 2, t.len());
    assert(body@ =~= t@.skip(2));
    let colon = match find_char(body.as_slice(), ':') {
        None => {
            return Vec::new();
        },
        Some(i) => i,
    };
    let raw_key = slice_chars(body.as_slice(), 0, colon);
    let raw_value = slice_chars(body.as_slice(), colon + 1, body.len());
    assert(raw_key@ =~= body@.take(colon as int));
    assert(raw_value@ =~= body@.skip(colon + 1));
    let key = trim_chars(raw_key.as_slice());
    let value = trim_chars(raw_value.as_slice());
    if key.len() == 0 {
        return Vec::new();
    }
    keyed(key.as_slice(), value.as_slice())
}

fn keyed(key: &[char], value: &[char]) -> (r: Vec<TocDirective>)
    requires
        key@.len() > 0,
    ensures
        directives_view(r@) == keyed_directives(key@, value@),
{
    let lowered = ascii_lower_chars(key);
    let mut out: Vec<TocDirective> = Vec::new();
    if chars_eq(lowered.as_slice(), chars_of("interface").as_slice()) {
        return parse_interface_list(key, value);
    } else if chars_eq(lowered.as_slice(), chars_of("title").as_slice()) {
        out.push(TocDirective::Title(string_of(value)));
    } else if chars_eq(lowered.as_slice(), chars_of("version").as_slice()) {
        let text = string_of(value);
        match AddonVersion::new(text.as_str()) {
            Some(v) => out.push(TocDirective::Version(v)),
            None => out.push(unknown(key, value)),
        }
    } else if chars_eq(lowered.as_slice(), chars_of("author").as_slice()) {
        out.push(TocDirective::Author(string_of(value)));
    } else if chars_eq(lowered.as_slice(), chars_of("notes").as_slice()) {
        out.push(TocDirective::Notes(string_of(value)));
    } else {
        out.push(unknown(key, value));
    }
    assert(directives_view(out@) =~= keyed_directives(key@, value@));
    out
}

fn unknown(key: &[char], value: &[char]) -> (r: TocDirective)
    ensures
        r@ == DirectiveSpec::Unknown(key@, value@),
{
    TocDirective::Unknown { key: string_of(key), value: string_of(value) }
}

/// One `Interface` directive per declared number, or the whole list kept as
/// `Unknown` when any entry does not parse.
fn parse_interface_list(key: &[char], value: &[char]) -> (r: Vec<TocDirective>)
    ensures
        directives_view(r@) == interface_list(key@, value@),
{
    let pieces = split_chars(value, ',');
    let ghost spec_pieces = split_on(value@, ',');
    let mut out: Vec<TocDirective> = Vec::new();
    let mut i: usize = 0;
    while i < pieces.len()
        invariant
            i <= pieces@.len(),
            pieces@.len() == spec_pieces.len(),
            spec_pieces == split_on(value@, ','),
            forall|k: int| 0 <= k < pieces@.len() ==> #[trigger] pieces@[k]@ == spec_pieces[k],
            out@.len() == i,
            forall|k: int|
                0 <= k < i ==> (#[trigger] parse_u32(trim(spec_pieces[k]))) is Some && out@[k]@
                    == DirectiveSpec::Interface(parse_u32(trim(spec_pieces[k]))->Some_0),
        decreases pieces.len() - i,
    {
        let entry = trim_chars(pieces[i].as_slice());
        match parse_u32_chars(entry.as_slice()) {
            Some(n) => {
                out.push(TocDirective::Interface(InterfaceVersion::new(n)));
            },
            None => {
                let mut whole: Vec<TocDirective> = Vec::new();
                whole.push(unknown(key, value));
                assert(!(forall|k: int|
                    0 <= k < spec_pieces.len() ==> (#[trigger] parse_u32(trim(spec_pieces[k])))
                        is Some)) by {
                    assert(parse_u32(trim(spec_pieces[i as int])) is None);
                }
                assert(directives_view(whole@) =~= interface_list(key@, value@));
                return whole;
            },
        }
        i += 1;
    }
    assert(directives_view(out@) =~= interface_list(key@, value@));
    out
}

/// Removes `|cffRRGGBB` openers and `|r` terminators, leaving the visible
/// text, trimmed.
pub fn strip_color_escapes(raw: &str) -> (r: String)
    ensures
        r@ == clean_title(raw@),
{
    let s = chars_of(raw);
    let mut out: Vec<char> = Vec::new();
    let mut i: usize = 0;
    assert(s@.skip(0) =~= s@);
    while i < s.len()
        invariant
            i <= s@.len(),
            out@ + strip_escapes(s@.skip(i as int)) == strip_escapes(s@),
        decreases s.len() - i,
    {
        let ghost rest = s@.skip(i as int);
        let c = s[i];
        if c != '|' {
            out.push(c);
            assert(rest.drop_first() =~= s@.skip(i + 1));
            assert(out@ + strip_escapes(s@.skip(i + 1)) =~= strip_escapes(s@));
            i += 1;
        } else if i + 1 == s.len() {
            out.push('|');
            assert(s@.skip(i + 1) =~= Seq::<char>::empty());
            assert(out@ + strip_escapes(s@.skip(i + 1)) =~= strip_escapes(s@));
            i += 1;
        } else {
            let next = s[i + 1];
            assert(rest.skip(2) =~= s@.skip(i + 2));
            if next == 'c' || next == 'C' {
                let skipped = skip_hex_digits(s.as_slice(), i + 2, 8);
                assert(s@.skip(i + 2).skip(hex_run(s@.skip(i + 2), 8) as int) =~= s@.skip(
                    skipped as int,
                ));
                i = skipped;
            } else if next == 'r' || next == 'R' {
                i += 2;
            } else if next == '|' {
                out.push('|');
                assert(out@ + strip_escapes(s@.skip(i + 2)) =~= strip_escapes(s@));
                i += 2;
            } else {
                out.push('|');
                out.push(next);
                assert(out@ + strip_escapes(s@.skip(i + 2)) =~= strip_escapes(s@));
                i += 2;
            }
        }
    }
    assert(s@.skip(i as int) =~= Seq::<char>::empty());
    assert(out@ =~= strip_escapes(s@));
    let trimmed = trim_chars(out.as_slice());
    string_of(trimmed.as_slice())
}

/// The index after the run of at most `count` hex digits starting at `from`.
fn skip_hex_digits(s: &[char], from: usize, count: usize) -> (r: usize)
    requires
        from <= s.len(),
    ensures
        r == from + hex_run(s@.skip(from as int), count as nat),
        r <= s.len(),
    decreases count,
{
    if count == 0 || from == s.len() || !is_ascii_hexdigit_char(s[from]) {
        0 + from
    } else {
        assert(s@.skip(from as int).drop_first() =~= s@.skip(from + 1));
        skip_hex_digits(s, from + 1, count - 1)
    }
}

} // verus!
