//! Builder for command byte strings from INI templates.
//!
//! The INI describes every serial command as a template string, e.g.
//! `pageReadCommand = "p%2i%2o%2c"`, `ochGetCommand = "r\$tsCanId\x30%2o%2c"`,
//! `pageIdentifier = "\$tsCanId\x01"`. Command bytes are always built from
//! these, never hardcoded.
//!
//! Recognized pieces:
//! - literal characters (sent as their low byte)
//! - `\xNN` — a literal byte in hex
//! - `\$name` — a runtime variable (today: `tsCanId`)
//! - `%2i` — the 2-byte page identifier (itself a template)
//! - `%2o` — offset, little-endian u16
//! - `%2c` — count, little-endian u16
//! - `%v`  — the value bytes being written

use vstd::prelude::*;
use vstd::string::StringExecFns;
use crate::bytes::{le16, push_all, push_le16};
use crate::text::{chars_of, char_low_byte, hex_digit, hex_value, ident_char, is_ident_char, low_byte};
use super::ProtoError;

verus! {

/// One element of a parsed template.
pub enum SpecPart {
    Literal(Seq<u8>),
    Var(Seq<char>),
    PageId,
    Offset,
    Count,
    Value,
}

/// One lexical piece of a template: a single literal byte, or a non-literal part.
pub enum SpecPiece {
    Byte(u8),
    Part(SpecPart),
}

/// Number of leading identifier characters.
pub open spec fn ident_len(s: Seq<char>) -> nat
    decreases s.len(),
{
    if s.len() > 0 && is_ident_char(s[0]) {
        1 + ident_len(s.drop_first())
    } else {
        0
    }
}

/// The byte written `\x<hi><lo>`: two hex digits, or `+` and one hex digit
/// (the radix parser accepts a leading plus sign).
pub open spec fn hex_pair(hi: char, lo: char) -> Option<u8> {
    match (hex_value(hi), hex_value(lo)) {
        (Some(h), Some(l)) => Some((h * 16 + l) as u8),
        (None, Some(l)) => if hi == '+' { Some(l) } else { None },
        _ => None,
    }
}

/// The first piece of a non-empty template text and how many characters it
/// spans; `None` when the text starts with a malformed escape or `%` code.
pub open spec fn first_piece(cs: Seq<char>) -> Option<(SpecPiece, nat)> {
    if cs.len() == 0 {
        None
    } else if cs[0] == '\\' {
        if cs.len() < 2 {
            None
        } else if cs[1] == 'x' {
            if cs.len() < 4 {
                None
            } else {
                match hex_pair(cs[2], cs[3]) {
                    Some(b) => Some((SpecPiece::Byte(b), 4)),
                    None => None,
                }
            }
        } else if cs[1] == '$' {
            let k = ident_len(cs.skip(2));
            Some((SpecPiece::Part(SpecPart::Var(cs.subrange(2, 2 + k as int))), 2 + k))
        } else {
            Some((SpecPiece::Byte(low_byte(cs[1])), 2))
        }
    } else if cs[0] == '%' {
        if cs.len() >= 2 && cs[1] == 'v' {
            Some((SpecPiece::Part(SpecPart::Value), 2))
        } else if cs.len() >= 3 && cs[1] == '2' && cs[2] == 'i' {
            Some((SpecPiece::Part(SpecPart::PageId), 3))
        } else if cs.len() >= 3 && cs[1] == '2' && cs[2] == 'o' {
            Some((SpecPiece::Part(SpecPart::Offset), 3))
        } else if cs.len() >= 3 && cs[1] == '2' && cs[2] == 'c' {
            Some((SpecPiece::Part(SpecPart::Count), 3))
        } else {
            None
        }
    } else {
        Some((SpecPiece::Byte(low_byte(cs[0])), 1))
    }
}

/// The template text split into pieces, or `None` when it is malformed.
pub open spec fn pieces(cs: Seq<char>) -> Option<Seq<SpecPiece>>
    decreases cs.len(),
{
    if cs.len() == 0 {
        Some(seq![])
    } else {
        match first_piece(cs) {
            None => None,
            Some((p, k)) => if 1 <= k <= cs.len() {
                match pieces(cs.skip(k as int)) {
                    Some(rest) => Some(seq![p] + rest),
                    None => None,
                }
            } else {
                None
            },
        }
    }
}

/// Runs of consecutive literal bytes merged into one literal part.
pub open spec fn group(ps: Seq<SpecPiece>) -> Seq<SpecPart>
    decreases ps.len(),
{
    if ps.len() == 0 {
        seq![]
    } else {
        let g = group(ps.drop_last());
        match ps.last() {
            SpecPiece::Byte(b) => if g.len() > 0 && g.last() is Literal {
                g.drop_last().push(SpecPart::Literal(g.last()->Literal_0.push(b)))
            } else {
                g.push(SpecPart::Literal(seq![b]))
            },
            SpecPiece::Part(p) => g.push(p),
        }
    }
}

/// The parsed template for a text, or `None` when the text is malformed.
pub open spec fn spec_parse(cs: Seq<char>) -> Option<Seq<SpecPart>> {
    match pieces(cs) {
        Some(ps) => Some(group(ps)),
        None => None,
    }
}

pub open spec fn opt_prepend<T>(d: Seq<T>, o: Option<Seq<T>>) -> Option<Seq<T>> {
    match o {
        Some(r) => Some(d + r),
        None => None,
    }
}

pub open spec fn flushed(parts: Seq<SpecPart>, lit: Seq<u8>) -> Seq<SpecPart> {
    if lit.len() == 0 {
        parts
    } else {
        parts.push(SpecPart::Literal(lit))
    }
}

pub proof fn lemma_ident_len_bound(s: Seq<char>)
    ensures
        ident_len(s) <= s.len(),
        forall|j: int| 0 <= j < ident_len(s) ==> is_ident_char(#[trigger] s[j]),
        ident_len(s) < s.len() ==> !is_ident_char(s[ident_len(s) as int]),
    decreases s.len(),
{
    if s.len() > 0 && is_ident_char(s[0]) {
        lemma_ident_len_bound(s.drop_first());
        assert forall|j: int| 0 <= j < ident_len(s) implies is_ident_char(#[trigger] s[j]) by {
            if j > 0 {
                assert(s[j] == s.drop_first()[j - 1]);
            }
        }
        if ident_len(s) < s.len() {
            assert(s[ident_len(s) as int] == s.drop_first()[ident_len(s.drop_first()) as int]);
        }
    }
}

proof fn lemma_first_piece_len(cs: Seq<char>)
    ensures
        first_piece(cs) matches Some((p, k)) ==> 1 <= k <= cs.len(),
{
    if cs[0] == '\\' && cs[1] == '$' {
        lemma_ident_len_bound(cs.skip(2));
    }
}

proof fn lemma_pieces_step(cs: Seq<char>, i: int)
    requires
        0 <= i < cs.len(),
    ensures
        first_piece(cs.skip(i)) is None ==> pieces(cs.skip(i)) is None,
        first_piece(cs.skip(i)) matches Some((p, k)) ==> {
            &&& 1 <= k <= cs.len() - i
            &&& pieces(cs.skip(i)) == opt_prepend(seq![p], pieces(cs.skip(i + k)))
        },
{
    let s = cs.skip(i);
    if let Some((p, k)) = first_piece(s) {
        lemma_first_piece_len(s);
        assert(s.skip(k as int) =~= cs.skip(i + k));
    }
}

#[derive(Debug, Clone, PartialEq, Eq)]
enum Part {
    Literal(Vec<u8>),
    Var(Vec<char>),
    PageId,
    Offset,
    Count,
    Value,
}

spec fn part_view(p: Part) -> SpecPart {
    match p {
        Part::Literal(b) => SpecPart::Literal(b@),
        Part::Var(n) => SpecPart::Var(n@),
        Part::PageId => SpecPart::PageId,
        Part::Offset => SpecPart::Offset,
        Part::Count => SpecPart::Count,
        Part::Value => SpecPart::Value,
    }
}

spec fn parts_view(ps: Seq<Part>) -> Seq<SpecPart> {
    ps.map_values(|p: Part| part_view(p))
}

#[derive(Debug, Clone, PartialEq, Eq)]
pub struct Template {
    parts: Vec<Part>,
}

impl View for Template {
    type V = Seq<SpecPart>;

    closed spec fn view(&self) -> Seq<SpecPart> {
        parts_view(self.parts@)
    }
}

fn template_error(what: &str, text: &str) -> (e: ProtoError)
    ensures
        e matches ProtoError::Template(m) && m@ == what@ + " in `"@ + text@ + "`"@,
{
    let mut m = String::from_str(what);
    m.append(" in `");
    m.append(text);
    m.append("`");
    ProtoError::Template(m)
}

fn flush(parts: &mut Vec<Part>, lit: &mut Vec<u8>)
    ensures
        parts_view(final(parts)@) == flushed(parts_view(old(parts)@), old(lit)@),
        final(lit)@.len() == 0,
{
    if lit.len() > 0 {
        let mut l: Vec<u8> = Vec::new();
        std::mem::swap(&mut l, lit);
        parts.push(Part::Literal(l));
        assert(parts_view(parts@) =~= parts_view(old(parts)@).push(SpecPart::Literal(old(lit)@)));
    }
}

proof fn lemma_push_part(parts: Seq<Part>, p: Part)
    ensures
        parts_view(parts.push(p)) == parts_view(parts).push(part_view(p)),
{
    assert(parts_view(parts.push(p)) =~= parts_view(parts).push(part_view(p)));
}

enum Piece {
    Byte(u8),
    Part(Part),
}

spec fn piece_view(p: Piece) -> SpecPiece {
    match p {
        Piece::Byte(b) => SpecPiece::Byte(b),
        Piece::Part(q) => SpecPiece::Part(part_view(q)),
    }
}

/// The piece starting at `cs[i]`, with its width, or what is wrong there.
fn next_piece(cs: &Vec<char>, i: usize) -> (r: Result<(Piece, usize), &'static str>)
    requires
        i < cs@.len(),
    ensures
        match r {
            Ok((p, k)) => first_piece(cs@.skip(i as int)) == Some((piece_view(p), k as nat)),
            Err(_) => first_piece(cs@.skip(i as int)) is None,
        },
{
    let n = cs.len();
    let ghost s = cs@.skip(i as int);
    let c = cs[i];
    if c == '\\' {
        if n - i <= 1 {
            return Err("trailing backslash");
        }
        let c1 = cs[i + 1];
        if c1 == 'x' {
            if n - i <= 3 {
                return Err("truncated \\x escape");
            }
            let hi = cs[i + 2];
            let lo = cs[i + 3];
            match (hex_digit(hi), hex_digit(lo)) {
                (Some(h), Some(l)) => Ok((Piece::Byte(h * 16 + l), 4)),
                (None, Some(l)) => {
                    if hi == '+' {
                        Ok((Piece::Byte(l), 4))
                    } else {
                        Err("bad \\x escape")
                    }
                },
                _ => Err("bad \\x escape"),
            }
        } else if c1 == '$' {
            let mut name: Vec<char> = Vec::new();
            let mut j: usize = i + 2;
            let ghost t = cs@.skip(i + 2);
            proof {
                lemma_ident_len_bound(t);
            }
            while j < n && ident_char(cs[j])
                invariant
                    i + 2 <= j <= n,
                    n == cs@.len(),
                    t == cs@.skip(i + 2),
                    name@ == cs@.subrange(i + 2, j as int),
                    j - (i + 2) <= ident_len(t),
                    ident_len(t) <= t.len(),
                    forall|m: int| 0 <= m < ident_len(t) ==> is_ident_char(#[trigger] t[m]),
                    ident_len(t) < t.len() ==> !is_ident_char(t[ident_len(t) as int]),
                decreases n - j,
            {
                assert(t[j - (i + 2)] == cs@[j as int]);
                name.push(cs[j]);
                j = j + 1;
                assert(name@ =~= cs@.subrange(i + 2, j as int));
            }
            proof {
                let kk = ident_len(t);
                if j < n {
                    assert(t[j - (i + 2)] == cs@[j as int]);
                }
                assert(j - (i + 2) == kk);
                assert(s.skip(2) =~= t);
                assert(s.subrange(2, 2 + kk as int) =~= cs@.subrange(i + 2, j as int));
            }
            Ok((Piece::Part(Part::Var(name)), j - i))
        } else {
            Ok((Piece::Byte(char_low_byte(c1)), 2))
        }
    } else if c == '%' {
        if n - i > 1 && cs[i + 1] == 'v' {
            Ok((Piece::Part(Part::Value), 2))
        } else if n - i > 2 && cs[i + 1] == '2' && cs[i + 2] == 'i' {
            Ok((Piece::Part(Part::PageId), 3))
        } else if n - i > 2 && cs[i + 1] == '2' && cs[i + 2] == 'o' {
            Ok((Piece::Part(Part::Offset), 3))
        } else if n - i > 2 && cs[i + 1] == '2' && cs[i + 2] == 'c' {
            Ok((Piece::Part(Part::Count), 3))
        } else {
            Err("unknown % code")
        }
    } else {
        Ok((Piece::Byte(char_low_byte(c)), 1))
    }
}

proof fn lemma_group_push(done: Seq<SpecPiece>, parts: Seq<SpecPart>, lit: Seq<u8>, p: SpecPiece)
    requires
        group(done) == flushed(parts, lit),
        lit.len() == 0 ==> (parts.len() == 0 || !(parts.last() is Literal)),
    ensures
        p matches SpecPiece::Byte(b) ==> group(done.push(p)) == flushed(parts, lit.push(b)),
        p matches SpecPiece::Part(q) ==> group(done.push(p)) == flushed(parts, lit).push(q),
{
    assert(done.push(p).drop_last() =~= done);
    if let SpecPiece::Byte(b) = p {
        if lit.len() > 0 {
            let g = parts.push(SpecPart::Literal(lit));
            assert(g.drop_last() =~= parts);
        } else {
            assert(lit.push(b) =~= seq![b]);
        }
    }
}

impl Template {
    pub fn parse(text: &str) -> (r: Result<Template, ProtoError>)
        ensures
            match r {
                Ok(t) => spec_parse(text@) == Some(t@),
                Err(e) => spec_parse(text@) is None && e is Template,
            },
    {
        let cs = chars_of(text);
        let n = cs.len();
        let mut parts: Vec<Part> = Vec::new();
        let mut lit: Vec<u8> = Vec::new();
        let ghost mut done: Seq<SpecPiece> = seq![];
        let mut i: usize = 0;
        assert(cs@.skip(0) =~= cs@);
        assert(parts_view(parts@) =~= Seq::<SpecPart>::empty());
        while i < n
            invariant
                cs@ == text@,
                n == cs@.len(),
                i <= n,
                pieces(cs@) == opt_prepend(done, pieces(cs@.skip(i as int))),
                group(done) == flushed(parts_view(parts@), lit@),
                lit@.len() == 0 ==> (parts_view(parts@).len() == 0
                    || !(parts_view(parts@).last() is Literal)),
            decreases n - i,
        {
            proof {
                lemma_pieces_step(cs@, i as int);
            }
            match next_piece(&cs, i) {
                Err(msg) => {
                    return Err(template_error(msg, text));
                },
                Ok((p, k)) => {
                    let ghost gp = piece_view(p);
                    proof {
                        lemma_group_push(done, parts_view(parts@), lit@, gp);
                    }
                    match p {
                        Piece::Byte(b) => {
                            lit.push(b);
                        },
                        Piece::Part(q) => {
                            flush(&mut parts, &mut lit);
                            proof {
                                lemma_push_part(parts@, q);
                            }
                            parts.push(q);
                        },
                    }
                    proof {
                        let old_done = done;
                        done = done.push(gp);
                        match pieces(cs@.skip(i + k)) {
                            Some(r) => {
                                assert(old_done + (seq![gp] + r) =~= done + r);
                            },
                            None => {},
                        }
                    }
                    i = i + k;
                },
            }
        }
        flush(&mut parts, &mut lit);
        proof {
            assert(cs@.skip(n as int) =~= Seq::<char>::empty());
            assert(done + Seq::<SpecPiece>::empty() =~= done);
        }
        Ok(Template { parts })
    }
}

/// Runtime values substituted into a template.
#[derive(Debug, Clone, Default)]
pub struct Args<'a> {
    pub can_id: u8,
    /// Pre-built page identifier bytes (from the page's `pageIdentifier`).
    pub page_id: Option<&'a [u8]>,
    pub offset: Option<u16>,
    pub count: Option<u16>,
    pub value: Option<&'a [u8]>,
}

/// The values an [`Args`] carries.
pub struct SpecArgs {
    pub can_id: u8,
    pub page_id: Option<Seq<u8>>,
    pub offset: Option<u16>,
    pub count: Option<u16>,
    pub value: Option<Seq<u8>>,
}

pub open spec fn args_view(a: Args) -> SpecArgs {
    SpecArgs {
        can_id: a.can_id,
        page_id: match a.page_id {
            Some(p) => Some(p@),
            None => None,
        },
        offset: a.offset,
        count: a.count,
        value: match a.value {
            Some(v) => Some(v@),
            None => None,
        },
    }
}

/// The only runtime variable a template may name.
pub open spec fn ts_can_id() -> Seq<char> {
    seq!['t', 's', 'C', 'a', 'n', 'I', 'd']
}

/// The bytes one part contributes, or `None` when `args` lacks what it needs.
pub open spec fn part_bytes(p: SpecPart, args: SpecArgs) -> Option<Seq<u8>> {
    match p {
        SpecPart::Literal(b) => Some(b),
        SpecPart::Var(name) => if name == ts_can_id() { Some(seq![args.can_id]) } else { None },
        SpecPart::PageId => args.page_id,
        SpecPart::Offset => match args.offset {
            Some(o) => Some(le16(o as int)),
            None => None,
        },
        SpecPart::Count => match args.count {
            Some(c) => Some(le16(c as int)),
            None => None,
        },
        SpecPart::Value => args.value,
    }
}

/// The command bytes of a template: every part's bytes in order, or `None`
/// when any part cannot be filled in.
pub open spec fn spec_build(parts: Seq<SpecPart>, args: SpecArgs) -> Option<Seq<u8>>
    decreases parts.len(),
{
    if parts.len() == 0 {
        Some(seq![])
    } else {
        match (spec_build(parts.drop_last(), args), part_bytes(parts.last(), args)) {
            (Some(a), Some(b)) => Some(a + b),
            _ => None,
        }
    }
}

proof fn lemma_build_none_stays(parts: Seq<SpecPart>, args: SpecArgs, k: int, m: int)
    requires
        0 <= k <= m <= parts.len(),
        spec_build(parts.take(k), args) is None,
    ensures
        spec_build(parts.take(m), args) is None,
    decreases m - k,
{
    if m > k {
        lemma_build_none_stays(parts, args, k, m - 1);
        assert(parts.take(m).drop_last() =~= parts.take(m - 1));
    }
}

/// Whether a template builds depends only on which arguments are given,
/// not on their values.
pub proof fn lemma_build_none_same(parts: Seq<SpecPart>, a: SpecArgs, b: SpecArgs)
    requires
        (a.page_id is Some) == (b.page_id is Some),
        (a.offset is Some) == (b.offset is Some),
        (a.count is Some) == (b.count is Some),
        (a.value is Some) == (b.value is Some),
    ensures
        (spec_build(parts, a) is None) == (spec_build(parts, b) is None),
    decreases parts.len(),
{
    if parts.len() > 0 {
        lemma_build_none_same(parts.drop_last(), a, b);
    }
}

/// A non-literal piece of the text that `args` cannot fill in.
pub open spec fn unfilled_piece(p: SpecPiece, args: SpecArgs) -> bool {
    p matches SpecPiece::Part(q) && part_bytes(q, args) is None
}

proof fn lemma_build_none_iff(parts: Seq<SpecPart>, args: SpecArgs)
    ensures
        spec_build(parts, args) is None <==> exists|i: int| 0 <= i < parts.len() && part_bytes(#[trigger] parts[i], args) is None,
    decreases parts.len(),
{
    if parts.len() > 0 {
        let front = parts.drop_last();
        lemma_build_none_iff(front, args);
        if spec_build(parts, args) is None {
            if spec_build(front, args) is None {
                let i = choose|i: int| 0 <= i < front.len() && part_bytes(#[trigger] front[i], args) is None;
                assert(parts[i] == front[i]);
            } else {
                assert(part_bytes(parts[parts.len() - 1], args) is None);
            }
        } else {
            assert forall|i: int| 0 <= i < parts.len() implies part_bytes(#[trigger] parts[i], args) is Some by {
                if i < front.len() {
                    assert(parts[i] == front[i]);
                }
            }
        }
    }
}

proof fn lemma_group_unfilled(ps: Seq<SpecPiece>, args: SpecArgs)
    ensures
        (exists|i: int| 0 <= i < group(ps).len() && part_bytes(#[trigger] group(ps)[i], args) is None)
            <==> (exists|j: int| 0 <= j < ps.len() && unfilled_piece(#[trigger] ps[j], args)),
    decreases ps.len(),
{
    if ps.len() > 0 {
        let front = ps.drop_last();
        lemma_group_unfilled(front, args);
        let g = group(front);
        let gg = group(ps);
        assert forall|j: int| 0 <= j < front.len() implies #[trigger] ps[j] == front[j] by {}
        match ps.last() {
            SpecPiece::Byte(b) => {
                assert(!unfilled_piece(ps[ps.len() - 1], args));
                if g.len() > 0 && g.last() is Literal {
                    assert forall|i: int| 0 <= i < gg.len() - 1 implies #[trigger] gg[i] == g[i] by {}
                    if exists|i: int| 0 <= i < gg.len() && part_bytes(#[trigger] gg[i], args) is None {
                        let i = choose|i: int| 0 <= i < gg.len() && part_bytes(#[trigger] gg[i], args) is None;
                        assert(i < gg.len() - 1);
                        assert(part_bytes(g[i], args) is None);
                        let j = choose|j: int| 0 <= j < front.len() && unfilled_piece(#[trigger] front[j], args);
                        assert(unfilled_piece(ps[j], args));
                    }
                    if exists|j: int| 0 <= j < ps.len() && unfilled_piece(#[trigger] ps[j], args) {
                        let j = choose|j: int| 0 <= j < ps.len() && unfilled_piece(#[trigger] ps[j], args);
                        assert(j < front.len());
                        assert(unfilled_piece(front[j], args));
                        let i = choose|i: int| 0 <= i < g.len() && part_bytes(#[trigger] g[i], args) is None;
                        assert(i < g.len() - 1);
                        assert(part_bytes(gg[i], args) is None);
                    }
                } else {
                    assert forall|i: int| 0 <= i < g.len() implies #[trigger] gg[i] == g[i] by {}
                    if exists|i: int| 0 <= i < gg.len() && part_bytes(#[trigger] gg[i], args) is None {
                        let i = choose|i: int| 0 <= i < gg.len() && part_bytes(#[trigger] gg[i], args) is None;
                        assert(i < g.len());
                        assert(part_bytes(g[i], args) is None);
                        let j = choose|j: int| 0 <= j < front.len() && unfilled_piece(#[trigger] front[j], args);
                        assert(unfilled_piece(ps[j], args));
                    }
                    if exists|j: int| 0 <= j < ps.len() && unfilled_piece(#[trigger] ps[j], args) {
                        let j = choose|j: int| 0 <= j < ps.len() && unfilled_piece(#[trigger] ps[j], args);
                        assert(unfilled_piece(front[j], args));
                        let i = choose|i: int| 0 <= i < g.len() && part_bytes(#[trigger] g[i], args) is None;
                        assert(part_bytes(gg[i], args) is None);
                    }
                }
            },
            SpecPiece::Part(q) => {
                assert forall|i: int| 0 <= i < g.len() implies #[trigger] gg[i] == g[i] by {}
                assert(gg[g.len() as int] == q);
                if exists|i: int| 0 <= i < gg.len() && part_bytes(#[trigger] gg[i], args) is None {
                    let i = choose|i: int| 0 <= i < gg.len() && part_bytes(#[trigger] gg[i], args) is None;
                    if i < g.len() {
                        assert(part_bytes(g[i], args) is None);
                        let j = choose|j: int| 0 <= j < front.len() && unfilled_piece(#[trigger] front[j], args);
                        assert(unfilled_piece(ps[j], args));
                    } else {
                        assert(unfilled_piece(ps[ps.len() - 1], args));
                    }
                }
                if exists|j: int| 0 <= j < ps.len() && unfilled_piece(#[trigger] ps[j], args) {
                    let j = choose|j: int| 0 <= j < ps.len() && unfilled_piece(#[trigger] ps[j], args);
                    if j < front.len() {
                        assert(unfilled_piece(front[j], args));
                        let i = choose|i: int| 0 <= i < g.len() && part_bytes(#[trigger] g[i], args) is None;
                        assert(part_bytes(gg[i], args) is None);
                    } else {
                        assert(part_bytes(gg[g.len() as int], args) is None);
                    }
                }
            },
        }
    }
}

/// Building fails exactly on the arguments the template's text needs and
/// lacks: for a well-formed template text, building with `args` fails if
/// and only if the text has a `%2i`, `%2o`, `%2c` or `%v` whose argument
/// `args` leaves out, or a `\$name` other than `tsCanId`.
pub proof fn lemma_build_fails_iff_text_needs_more(text: Seq<char>, args: SpecArgs)
    requires
        spec_parse(text) is Some,
    ensures
        spec_build(spec_parse(text)->0, args) is None <==> exists|j: int|
            0 <= j < pieces(text)->0.len() && unfilled_piece(#[trigger] pieces(text)->0[j], args),
{
    lemma_build_none_iff(spec_parse(text)->0, args);
    lemma_group_unfilled(pieces(text)->0, args);
}

fn is_ts_can_id(name: &Vec<char>) -> (r: bool)
    ensures
        r == (name@ == ts_can_id()),
{
    let r = name.len() == 7 && name[0] == 't' && name[1] == 's' && name[2] == 'C' && name[3] == 'a'
        && name[4] == 'n' && name[5] == 'I' && name[6] == 'd';
    proof {
        if r {
            assert(name@ =~= ts_can_id());
        }
    }
    r
}

fn missing(what: &str) -> (e: ProtoError)
    ensures
        e matches ProtoError::Template(m) && m@ == "template needs "@ + what@,
{
    let mut m = String::from_str("template needs ");
    m.append(what);
    ProtoError::Template(m)
}

impl Template {
    pub fn build(&self, args: &Args) -> (r: Result<Vec<u8>, ProtoError>)
        ensures
            match r {
                Ok(bytes) => spec_build(self@, args_view(*args)) == Some(bytes@),
                Err(e) => spec_build(self@, args_view(*args)) is None && e is Template,
            },
    {
        let mut out: Vec<u8> = Vec::new();
        let n = self.parts.len();
        let mut i: usize = 0;
        let ghost ps = self@;
        assert(ps.take(0) =~= Seq::<SpecPart>::empty());
        while i < n
            invariant
                n == self.parts@.len(),
                ps == self@,
                ps == parts_view(self.parts@),
                i <= n,
                spec_build(ps.take(i as int), args_view(*args)) == Some(out@),
            decreases n - i,
        {
            let ghost before = out@;
            assert(ps.take(i + 1).drop_last() =~= ps.take(i as int));
            assert(ps.take(i + 1).last() == part_view(self.parts@[i as int]));
            match &self.parts[i] {
                Part::Literal(bytes) => {
                    push_all(&mut out, bytes.as_slice());
                },
                Part::Var(name) => {
                    if is_ts_can_id(name) {
                        out.push(args.can_id);
                        assert(out@ =~= before + seq![args.can_id]);
                    } else {
                        proof {
                            lemma_build_none_stays(ps, args_view(*args), i + 1, n as int);
                            assert(ps.take(n as int) =~= ps);
                        }
                        return Err(missing("a known variable ($tsCanId)"));
                    }
                },
                Part::PageId => {
                    match args.page_id {
                        Some(id) => push_all(&mut out, id),
                        None => {
                            proof {
                                lemma_build_none_stays(ps, args_view(*args), i + 1, n as int);
                                assert(ps.take(n as int) =~= ps);
                            }
                            return Err(missing("page id"));
                        },
                    }
                },
                Part::Offset => {
                    match args.offset {
                        Some(o) => push_le16(&mut out, o),
                        None => {
                            proof {
                                lemma_build_none_stays(ps, args_view(*args), i + 1, n as int);
                                assert(ps.take(n as int) =~= ps);
                            }
                            return Err(missing("offset"));
                        },
                    }
                },
                Part::Count => {
                    match args.count {
                        Some(c) => push_le16(&mut out, c),
                        None => {
                            proof {
                                lemma_build_none_stays(ps, args_view(*args), i + 1, n as int);
                                assert(ps.take(n as int) =~= ps);
                            }
                            return Err(missing("count"));
                        },
                    }
                },
                Part::Value => {
                    match args.value {
                        Some(v) => push_all(&mut out, v),
                        None => {
                            proof {
                                lemma_build_none_stays(ps, args_view(*args), i + 1, n as int);
                                assert(ps.take(n as int) =~= ps);
                            }
                            return Err(missing("value"));
                        },
                    }
                },
            }
            i = i + 1;
        }
        assert(ps.take(n as int) =~= ps);
        Ok(out)
    }
}

} // verus!
