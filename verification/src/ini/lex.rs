//! Line lexer for the value side of `key = v1, v2, ...` lines.
//!
//! Values are comma-separated, but commas inside double quotes and inside
//! `{ expression }` blocks don't split. Quoted strings keep their inner text
//! raw (escapes like `\$tsCanId` and `\x01` are meaningful to command-string
//! consumers, not to us). `[0:3]` / `[10]` / `[16x16]` shape tokens contain
//! no commas and land as `Bare`, parsed on demand by `parse_shape`.

use vstd::prelude::*;
use vstd::string::StringExecFns;
use super::{is_error_at, Error};
use crate::text::{
    all_digits, ascii_lower, chars_of, find_char, first_index, is_digit, parse_uint, parse_uint_chars, slice_chars,
    string_from_chars, trim, trim_bounds, trimmed,
};

verus! {

broadcast use vstd::string::group_string_axioms;

#[derive(Debug, Clone, PartialEq)]
pub enum Token {
    /// Unquoted word: identifier, number, shape, color name, ...
    Bare(String),
    /// `"..."` with the outer quotes removed, inner text untouched.
    Str(String),
    /// `{ ... }` with the outer braces removed and trimmed, unparsed.
    Expr(String),
}

pub enum SpecToken {
    Bare(Seq<char>),
    Str(Seq<char>),
    Expr(Seq<char>),
}

pub open spec fn token_view(t: Token) -> SpecToken {
    match t {
        Token::Bare(s) => SpecToken::Bare(s@),
        Token::Str(s) => SpecToken::Str(s@),
        Token::Expr(s) => SpecToken::Expr(s@),
    }
}

pub open spec fn tokens_view(ts: Seq<Token>) -> Seq<SpecToken> {
    ts.map_values(|t: Token| token_view(t))
}

/// The text a token carries.
pub open spec fn token_text(t: SpecToken) -> Seq<char> {
    match t {
        SpecToken::Bare(s) => s,
        SpecToken::Str(s) => s,
        SpecToken::Expr(s) => s,
    }
}

impl Token {
    pub fn as_str(&self) -> (s: &str)
        ensures
            s@ == token_text(token_view(*self)),
    {
        match self {
            Token::Bare(s) => s.as_str(),
            Token::Str(s) => s.as_str(),
            Token::Expr(s) => s.as_str(),
        }
    }
}

/// Number of `"` characters in `s`.
pub open spec fn count_quotes(s: Seq<char>) -> nat
    decreases s.len(),
{
    if s.len() == 0 {
        0
    } else {
        count_quotes(s.drop_last()) + if s.last() == '"' { 1nat } else { 0nat }
    }
}

/// Position `i` is an `=` outside double quotes.
pub open spec fn is_kv_split(s: Seq<char>, i: int) -> bool {
    0 <= i < s.len() && s[i] == '=' && count_quotes(s.take(i)) % 2 == 0
}

/// Split at the first `=` (outside quotes) into `(key, value_text)`, both trimmed.
pub fn split_kv(line: &str) -> (r: Option<(&str, &str)>)
    ensures
        match r {
            Some((k, v)) => exists|i: int| {
                &&& #[trigger] is_kv_split(line@, i)
                &&& forall|j: int| 0 <= j < i ==> !is_kv_split(line@, j)
                &&& k@ == trim(line@.take(i))
                &&& v@ == trim(line@.skip(i + 1))
            },
            None => forall|i: int| !is_kv_split(line@, i),
        },
{
    let cs = chars_of(line);
    let n = cs.len();
    let mut in_quote = false;
    let mut i: usize = 0;
    while i < n
        invariant
            cs@ == line@,
            n == cs@.len(),
            i <= n,
            in_quote == (count_quotes(cs@.take(i as int)) % 2 == 1),
            forall|j: int| 0 <= j < i ==> !is_kv_split(line@, j),
        decreases n - i,
    {
        assert(cs@.take(i + 1).drop_last() =~= cs@.take(i as int));
        if cs[i] == '"' {
            in_quote = !in_quote;
        } else if cs[i] == '=' && !in_quote {
            let (ka, kb) = trim_bounds(&cs, 0, i);
            let (va, vb) = trim_bounds(&cs, i + 1, n);
            let k = line.substring_char(ka, kb);
            let v = line.substring_char(va, vb);
            proof {
                assert(cs@.subrange(0, i as int) =~= line@.take(i as int));
                assert(cs@.subrange(i + 1, n as int) =~= line@.skip(i + 1));
                assert(is_kv_split(line@, i as int));
            }
            return Some((k, v));
        }
        i = i + 1;
    }
    None
}

/// The token a finished piece becomes: quoted text, a braced expression
/// (trimmed), or a bare word; `None` when a quote or brace is followed by
/// more text.
pub open spec fn classify(piece: Seq<char>) -> Option<SpecToken> {
    let p = trim(piece);
    if p.len() > 0 && p[0] == '"' {
        let rest = p.drop_first();
        if rest.len() > 0 && rest.last() == '"' {
            Some(SpecToken::Str(rest.drop_last()))
        } else {
            None
        }
    } else if p.len() > 0 && p[0] == '{' {
        let rest = p.drop_first();
        if rest.len() > 0 && rest.last() == '}' {
            Some(SpecToken::Expr(trim(rest.drop_last())))
        } else {
            None
        }
    } else {
        Some(SpecToken::Bare(p))
    }
}

/// Lexer state between characters.
pub struct LexState {
    pub tokens: Seq<SpecToken>,
    pub piece: Seq<char>,
    pub in_quote: bool,
    pub escaped: bool,
    pub depth: nat,
}

pub open spec fn lex_start() -> LexState {
    LexState { tokens: seq![], piece: seq![], in_quote: false, escaped: false, depth: 0 }
}

/// Finish the current piece as a token.
pub open spec fn cut(s: LexState) -> Option<LexState> {
    match classify(s.piece) {
        Some(t) => Some(LexState { tokens: s.tokens.push(t), piece: seq![], ..s }),
        None => None,
    }
}

/// One character of lexing; `None` on an unbalanced `}` or a malformed piece.
pub open spec fn lex_step(s: LexState, c: char) -> Option<LexState> {
    if s.in_quote {
        let piece = s.piece.push(c);
        if s.escaped {
            Some(LexState { piece, escaped: false, ..s })
        } else if c == '\\' {
            Some(LexState { piece, escaped: true, ..s })
        } else if c == '"' {
            Some(LexState { piece, in_quote: false, ..s })
        } else {
            Some(LexState { piece, ..s })
        }
    } else if c == '"' {
        Some(LexState { piece: s.piece.push(c), in_quote: true, ..s })
    } else if c == '{' {
        // A condition right after a value, without a separating comma,
        // starts a new token.
        let s1 = if s.depth == 0 && trim(s.piece).len() > 0 { cut(s) } else { Some(s) };
        match s1 {
            Some(t) => Some(LexState { piece: t.piece.push(c), depth: t.depth + 1, ..t }),
            None => None,
        }
    } else if c == '}' {
        if s.depth == 0 {
            None
        } else {
            Some(LexState { piece: s.piece.push(c), depth: (s.depth - 1) as nat, ..s })
        }
    } else if c == ',' && s.depth == 0 {
        cut(s)
    } else {
        Some(LexState { piece: s.piece.push(c), ..s })
    }
}

pub open spec fn lex_run(s: LexState, cs: Seq<char>) -> Option<LexState>
    decreases cs.len(),
{
    if cs.len() == 0 {
        Some(s)
    } else {
        match lex_step(s, cs[0]) {
            Some(s1) => lex_run(s1, cs.drop_first()),
            None => None,
        }
    }
}

/// The tokens of a value list, or `None` when it is malformed.
pub open spec fn spec_tokenize(cs: Seq<char>) -> Option<Seq<SpecToken>> {
    match lex_run(lex_start(), cs) {
        Some(s) => if s.in_quote || s.depth != 0 {
            None
        } else {
            match cut(s) {
                Some(t) => if t.tokens.len() == 1 && t.tokens[0] == SpecToken::Bare(seq![]) {
                    Some(seq![])
                } else {
                    Some(t.tokens)
                },
                None => None,
            }
        },
        None => None,
    }
}

proof fn lemma_lex_run_step(s: LexState, cs: Seq<char>, i: int, t: LexState)
    requires
        0 <= i < cs.len(),
        lex_step(t, cs[i]) is Some,
    ensures
        lex_run(t, cs.skip(i)) == lex_run(lex_step(t, cs[i])->0, cs.skip(i + 1)),
{
    assert(cs.skip(i).drop_first() =~= cs.skip(i + 1));
}

proof fn lemma_lex_run_fail(t: LexState, cs: Seq<char>, i: int)
    requires
        0 <= i < cs.len(),
        lex_step(t, cs[i]) is None,
    ensures
        lex_run(t, cs.skip(i)) is None,
{
}

/// Finish a piece into `tokens`, per [`classify`].
fn push_piece(tokens: &mut Vec<Token>, piece: &Vec<char>, num: u32) -> (r: Result<(), Error>)
    ensures
        match classify(piece@) {
            Some(t) => r is Ok && tokens_view(final(tokens)@) == tokens_view(old(tokens)@).push(t),
            None => r matches Err(e) && is_error_at(e, num),
        },
{
    let (a, b) = trim_bounds(piece, 0, piece.len());
    let ghost p = trim(piece@);
    assert(piece@.subrange(0, piece@.len() as int) =~= piece@);
    assert(piece@.subrange(a as int, b as int) == p);
    let token = if b > a && piece[a] == '"' {
        if b - a >= 2 && piece[b - 1] == '"' {
            let inner = slice_chars(piece, a + 1, b - 1);
            assert(inner@ =~= p.drop_first().drop_last());
            Token::Str(string_from_chars(inner.as_slice()))
        } else {
            return Err(Error::at(num, String::from_str("text after closing quote")));
        }
    } else if b > a && piece[a] == '{' {
        if b - a >= 2 && piece[b - 1] == '}' {
            let inner = trimmed(piece, a + 1, b - 1);
            assert(piece@.subrange(a + 1, b - 1) =~= p.drop_first().drop_last());
            Token::Expr(string_from_chars(inner.as_slice()))
        } else {
            return Err(Error::at(num, String::from_str("text after closing `}`")));
        }
    } else {
        let w = slice_chars(piece, a, b);
        Token::Bare(string_from_chars(w.as_slice()))
    };
    let ghost old_tokens = tokens@;
    tokens.push(token);
    assert(tokens_view(tokens@) =~= tokens_view(old_tokens).push(token_view(token)));
    Ok(())
}

/// Tokenize the value side of an assignment.
pub fn tokenize(values: &str, num: u32) -> (r: Result<Vec<Token>, Error>)
    ensures
        match spec_tokenize(values@) {
            Some(ts) => r matches Ok(v) && tokens_view(v@) == ts,
            None => r matches Err(e) && is_error_at(e, num),
        },
{
    let cs = chars_of(values);
    let n = cs.len();
    let mut tokens: Vec<Token> = Vec::new();
    let mut piece: Vec<char> = Vec::new();
    let mut in_quote = false;
    let mut escaped = false;
    let mut depth: usize = 0;
    assert(cs@.skip(0) =~= cs@);
    assert(tokens_view(tokens@) =~= Seq::<SpecToken>::empty());
    let mut i: usize = 0;
    while i < n
        invariant
            cs@ == values@,
            n == cs@.len(),
            i <= n,
            depth <= i,
            lex_run(lex_start(), cs@) == lex_run(
                LexState { tokens: tokens_view(tokens@), piece: piece@, in_quote, escaped, depth: depth as nat },
                cs@.skip(i as int),
            ),
        decreases n - i,
    {
        let c = cs[i];
        let ghost st = LexState { tokens: tokens_view(tokens@), piece: piece@, in_quote, escaped, depth: depth as nat };
        proof {
            if lex_step(st, c) is Some {
                lemma_lex_run_step(lex_start(), cs@, i as int, st);
            } else {
                lemma_lex_run_fail(st, cs@, i as int);
            }
        }
        if in_quote {
            piece.push(c);
            if escaped {
                escaped = false;
            } else if c == '\\' {
                escaped = true;
            } else if c == '"' {
                in_quote = false;
            }
        } else if c == '"' {
            in_quote = true;
            piece.push(c);
        } else if c == '{' {
            if depth == 0 {
                let (a, b) = trim_bounds(&piece, 0, piece.len());
                assert(piece@.subrange(0, piece@.len() as int) =~= piece@);
                if b > a {
                    match push_piece(&mut tokens, &piece, num) {
                        Ok(()) => {},
                        Err(e) => return Err(e),
                    }
                    piece.clear();
                }
            }
            depth = depth + 1;
            piece.push(c);
        } else if c == '}' {
            if depth == 0 {
                return Err(Error::at(num, String::from_str("unbalanced `}`")));
            }
            depth = depth - 1;
            piece.push(c);
        } else if c == ',' && depth == 0 {
            match push_piece(&mut tokens, &piece, num) {
                Ok(()) => {},
                Err(e) => return Err(e),
            }
            piece.clear();
        } else {
            piece.push(c);
        }
        i = i + 1;
    }
    assert(cs@.skip(n as int) =~= Seq::<char>::empty());
    if in_quote {
        return Err(Error::at(num, String::from_str("unterminated string")));
    }
    if depth != 0 {
        return Err(Error::at(num, String::from_str("unterminated `{` expression")));
    }
    match push_piece(&mut tokens, &piece, num) {
        Ok(()) => {},
        Err(e) => return Err(e),
    }
    // `key =` with nothing after: no tokens rather than one empty token.
    if tokens.len() == 1 {
        let empty = match &tokens[0] {
            Token::Bare(s) => s.as_str().is_empty(),
            _ => false,
        };
        if empty {
            proof {
                assert(tokens_view(tokens@)[0] == token_view(tokens@[0]));
                if let Token::Bare(s) = tokens@[0] {
                    assert(s@ =~= Seq::<char>::empty());
                }
            }
            let mut none: Vec<Token> = Vec::new();
            assert(tokens_view(none@) =~= Seq::<SpecToken>::empty());
            return Ok(none);
        } else {
            proof {
                if tokens_view(tokens@)[0] == SpecToken::Bare(seq![]) {
                    assert(token_view(tokens@[0]) == SpecToken::Bare(seq![]));
                }
            }
        }
    }
    Ok(tokens)
}

/// A `[...]` shape token from a constant definition.
#[derive(Debug, Clone, Copy, PartialEq, Eq)]
pub enum Shape {
    /// `[lo:hi]` — a bit range within the underlying word.
    Bits { lo: u8, hi: u8 },
    /// `[n]` — a 1-D array.
    Array1D(u16),
    /// `[x×y]` — a 2-D table, x columns by y rows.
    Array2D { x: u16, y: u16 },
}

/// Number of elements a shape holds ([`Shape::Bits`] occupies its word).
pub open spec fn spec_element_count(s: Shape) -> nat {
    match s {
        Shape::Bits { .. } => 1,
        Shape::Array1D(n) => n as nat,
        Shape::Array2D { x, y } => (x * y) as nat,
    }
}

impl Shape {
    /// Number of elements ([Bits] occupies its word; callers size by type).
    pub fn element_count(&self) -> (n: u32)
        ensures
            n == spec_element_count(*self),
    {
        match *self {
            Shape::Bits { .. } => 1,
            Shape::Array1D(n) => n as u32,
            Shape::Array2D { x, y } => {
                assert(x * y <= 0xFFFF * 0xFFFF) by (nonlinear_arith)
                    requires x <= 0xFFFF, y <= 0xFFFF;
                x as u32 * y as u32
            },
        }
    }
}

/// The text between the brackets of a trimmed `[...]` token, trimmed.
pub open spec fn shape_inner(t: Seq<char>) -> Option<Seq<char>> {
    let p = trim(t);
    if p.len() >= 2 && p[0] == '[' && p.last() == ']' {
        Some(trim(p.subrange(1, p.len() - 1)))
    } else {
        None
    }
}

/// `[lo:hi]` (bytes), `[x x y]` (16-bit), or `[n]` (16-bit); each number
/// may be surrounded by spaces.
pub open spec fn spec_parse_shape(t: Seq<char>) -> Option<Shape> {
    match shape_inner(t) {
        None => None,
        Some(inner) => match first_index(inner, ':') {
            Some(i) => match (parse_uint(trim(inner.take(i as int)), 0xFF), parse_uint(trim(inner.skip(i as int + 1)), 0xFF)) {
                (Some(lo), Some(hi)) => Some(Shape::Bits { lo: lo as u8, hi: hi as u8 }),
                _ => None,
            },
            None => match first_index(inner, 'x') {
                Some(i) => match (parse_uint(trim(inner.take(i as int)), 0xFFFF), parse_uint(trim(inner.skip(i as int + 1)), 0xFFFF)) {
                    (Some(x), Some(y)) => Some(Shape::Array2D { x: x as u16, y: y as u16 }),
                    _ => None,
                },
                None => match parse_uint(inner, 0xFFFF) {
                    Some(n) => Some(Shape::Array1D(n as u16)),
                    None => None,
                },
            },
        },
    }
}

/// The number in `v[lo..hi]` after trimming, per [`parse_uint`].
fn trimmed_uint(v: &Vec<char>, lo: usize, hi: usize, max: u64) -> (r: Option<u64>)
    requires
        lo <= hi <= v@.len(),
    ensures
        match parse_uint(trim(v@.subrange(lo as int, hi as int)), max as nat) {
            Some(n) => r == Some(n as u64),
            None => r is None,
        },
{
    let (a, b) = trim_bounds(v, lo, hi);
    parse_uint_chars(v, a, b, max)
}

fn shape_error(num: u32, token: &str) -> (e: Error)
    ensures
        is_error_at(e, num),
{
    let mut m = String::from_str("malformed shape `");
    m.append(token);
    m.append("`");
    Error::at(num, m)
}

pub fn parse_shape(token: &str, num: u32) -> (r: Result<Shape, Error>)
    ensures
        match spec_parse_shape(token@) {
            Some(s) => r == Ok::<Shape, Error>(s),
            None => r matches Err(e) && is_error_at(e, num),
        },
{
    let cs = chars_of(token);
    let (a, b) = trim_bounds(&cs, 0, cs.len());
    assert(cs@.subrange(0, cs@.len() as int) =~= cs@);
    if !(b - a >= 2 && cs[a] == '[' && cs[b - 1] == ']') {
        let mut m = String::from_str("expected `[shape]`, got `");
        m.append(token);
        m.append("`");
        return Err(Error::at(num, m));
    }
    let ghost p = trim(token@);
    assert(p.subrange(1, p.len() - 1) =~= cs@.subrange(a + 1, b - 1));
    let inner = trimmed(&cs, a + 1, b - 1);
    let n = inner.len();
    assert(inner@.subrange(0, n as int) =~= inner@);
    proof {
        crate::text::lemma_first_index(inner@, ':');
        crate::text::lemma_first_index(inner@, 'x');
    }
    match find_char(&inner, ':') {
        Some(i) => {
            assert(inner@.take(i as int) =~= inner@.subrange(0, i as int));
            assert(inner@.skip(i + 1) =~= inner@.subrange(i + 1, n as int));
            let lo = trimmed_uint(&inner, 0, i, 0xFF);
            let hi = trimmed_uint(&inner, i + 1, n, 0xFF);
            match (lo, hi) {
                (Some(lo), Some(hi)) => Ok(Shape::Bits { lo: lo as u8, hi: hi as u8 }),
                _ => Err(shape_error(num, token)),
            }
        },
        None => match find_char(&inner, 'x') {
            Some(i) => {
                assert(inner@.take(i as int) =~= inner@.subrange(0, i as int));
                assert(inner@.skip(i + 1) =~= inner@.subrange(i + 1, n as int));
                let x = trimmed_uint(&inner, 0, i, 0xFFFF);
                let y = trimmed_uint(&inner, i + 1, n, 0xFFFF);
                match (x, y) {
                    (Some(x), Some(y)) => Ok(Shape::Array2D { x: x as u16, y: y as u16 }),
                    _ => Err(shape_error(num, token)),
                }
            },
            None => match parse_uint_chars(&inner, 0, n, 0xFFFF) {
                Some(v) => Ok(Shape::Array1D(v as u16)),
                None => Err(shape_error(num, token)),
            },
        },
    }
}

} // verus!

verus! {

// ----- numbers --------------------------------------------------------------

/// `s` without one leading `+` or `-`.
pub open spec fn unsigned_part(s: Seq<char>) -> Seq<char> {
    if s.len() > 0 && (s[0] == '+' || s[0] == '-') {
        s.drop_first()
    } else {
        s
    }
}

/// `Digit+ | Digit+ '.' Digit* | Digit* '.' Digit+`
pub open spec fn is_mantissa(m: Seq<char>) -> bool {
    match first_index(m, '.') {
        None => m.len() > 0 && all_digits(m),
        Some(i) => all_digits(m.take(i as int)) && all_digits(m.skip(i as int + 1)) && m.len() > 1,
    }
}

/// `Number ::= Mantissa ('e' Sign? Digit+)?`
pub open spec fn is_decimal(b: Seq<char>) -> bool {
    match first_index(b, 'e') {
        None => is_mantissa(b),
        Some(i) => is_mantissa(b.take(i as int)) && unsigned_part(b.skip(i as int + 1)).len() > 0
            && all_digits(unsigned_part(b.skip(i as int + 1))),
    }
}

/// What `str::parse::<f64>` accepts, by its documented grammar, matched
/// after lowercasing: `Sign? ('inf' | 'infinity' | 'nan' | Number)`.
pub open spec fn is_float_literal(s: Seq<char>) -> bool {
    let b = unsigned_part(s.map_values(|c: char| ascii_lower(c)));
    b == "inf"@ || b == "infinity"@ || b == "nan"@ || is_decimal(b)
}

/// Whether `v[lo..hi]` is all decimal digits.
fn digits_only(v: &Vec<char>, lo: usize, hi: usize) -> (r: bool)
    requires
        lo <= hi <= v@.len(),
    ensures
        r == all_digits(v@.subrange(lo as int, hi as int)),
{
    let mut i = lo;
    while i < hi
        invariant
            lo <= i <= hi <= v@.len(),
            forall|j: int| lo <= j < i ==> is_digit(v@[j]),
        decreases hi - i,
    {
        if !('0' <= v[i] && v[i] <= '9') {
            assert(!is_digit(v@.subrange(lo as int, hi as int)[i - lo]));
            return false;
        }
        i = i + 1;
    }
    assert forall|j: int| 0 <= j < hi - lo implies is_digit(#[trigger] v@.subrange(lo as int, hi as int)[j]) by {
        assert(v@.subrange(lo as int, hi as int)[j] == v@[lo + j]);
    }
    true
}

fn mantissa_ok(m: &Vec<char>) -> (r: bool)
    ensures
        r == is_mantissa(m@),
{
    let n = m.len();
    assert(m@.subrange(0, n as int) =~= m@);
    match find_char(m, '.') {
        None => n > 0 && digits_only(m, 0, n),
        Some(i) => {
            assert(m@.subrange(0, i as int) =~= m@.take(i as int));
            assert(m@.subrange(i + 1, n as int) =~= m@.skip(i + 1));
            digits_only(m, 0, i) && digits_only(m, i + 1, n) && n > 1
        },
    }
}

/// Whether `s` reads as a floating-point number.
pub fn float_literal(s: &str) -> (r: bool)
    ensures
        r == is_float_literal(s@),
{
    let l = crate::text::lower_chars(&chars_of(s));
    let b = if l.len() > 0 && (l[0] == '+' || l[0] == '-') {
        slice_chars(&l, 1, l.len())
    } else {
        slice_chars(&l, 0, l.len())
    };
    assert(b@ =~= unsigned_part(l@));
    if crate::text::chars_are(&b, "inf") || crate::text::chars_are(&b, "infinity") || crate::text::chars_are(&b, "nan") {
        return true;
    }
    match find_char(&b, 'e') {
        None => mantissa_ok(&b),
        Some(i) => {
            let m = slice_chars(&b, 0, i);
            assert(m@ =~= b@.take(i as int));
            let x = slice_chars(&b, i + 1, b.len());
            assert(x@ =~= b@.skip(i + 1));
            let d = if x.len() > 0 && (x[0] == '+' || x[0] == '-') {
                slice_chars(&x, 1, x.len())
            } else {
                slice_chars(&x, 0, x.len())
            };
            assert(d@ =~= unsigned_part(x@));
            mantissa_ok(&m) && d.len() > 0 && digits_only(&d, 0, d.len()) && {
                assert(d@.subrange(0, d@.len() as int) =~= d@);
                true
            }
        },
    }
}

impl Token {
    /// The text of a number value: a bare word that reads as a
    /// floating-point number; anything else is an error on line `num`.
    pub fn number(&self, num: u32) -> (r: Result<String, Error>)
        ensures
            match token_view(*self) {
                SpecToken::Bare(s) => if is_float_literal(s) {
                    r matches Ok(t) && t@ == s
                } else {
                    r matches Err(Error::Parse(n, _)) && n == num
                },
                _ => r matches Err(Error::Parse(n, _)) && n == num,
            },
    {
        match self {
            Token::Bare(s) => if float_literal(s.as_str()) {
                return Ok(s.clone());
            },
            _ => {},
        }
        let mut m = String::from_str("expected a number, got `");
        m.append(self.as_str());
        m.append("`");
        Err(Error::at(num, m))
    }
}

} // verus!
