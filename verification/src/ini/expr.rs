//! `{ expression }` scanning and parsing.
//!
//! Expressions appear anywhere a scalar or string is expected: output-channel
//! math (`(coolantRaw - 40) * 1.8 + 32`), gauge limits (`rpmhigh`), constant
//! scales (`0.1 / stoich`), indicator conditions, datalog visibility, and
//! unit selection (`bitStringValue(algorithmUnits, algorithm)`). The tree
//! keeps each number as its literal text (digits with at most one `.`);
//! evaluating it is the caller's business.

use vstd::prelude::*;
use vstd::string::StringExecFns;
use super::Error;
use crate::text::{
    append_chars, chars_of, find_in, first_index, ident_char, is_digit, is_ident_char, is_ws, lemma_first_index,
    slice_chars, string_from_chars, whitespace,
};

verus! {

#[derive(Debug, Clone, Copy, PartialEq, Eq, Structural)]
pub enum UnOp {
    Neg,
    Not,
}

#[derive(Debug, Clone, Copy, PartialEq, Eq, Structural)]
pub enum BinOp {
    Add,
    Sub,
    Mul,
    Div,
    Rem,
    Lt,
    Gt,
    Le,
    Ge,
    Eq,
    Ne,
    And,
    Or,
    BitAnd,
    BitOr,
    BitXor,
    Shl,
    Shr,
}

/// A symbol source with nothing in scope; evaluation still works for
/// constant-only expressions.
pub struct EmptySymbols;

/// The operator and punctuation tokens.
#[derive(Debug, Clone, Copy, PartialEq, Eq, Structural)]
pub enum OpTok {
    AndAnd,
    OrOr,
    EqEq,
    NotEq,
    LessEq,
    GreaterEq,
    ShiftLeft,
    ShiftRight,
    Plus,
    Minus,
    Star,
    Slash,
    Percent,
    LParen,
    RParen,
    Comma,
    Question,
    Colon,
    Less,
    Greater,
    Bang,
    Amp,
    Pipe,
    Caret,
    LBracket,
    RBracket,
}

#[derive(Debug, Clone)]
pub enum Tok {
    /// A number's literal text.
    Num(String),
    Str(String),
    Ident(String),
    Op(OpTok),
}

pub enum SpecTok {
    Num(Seq<char>),
    Str(Seq<char>),
    Ident(Seq<char>),
    Op(OpTok),
}

pub open spec fn tok_view(t: Tok) -> SpecTok {
    match t {
        Tok::Num(s) => SpecTok::Num(s@),
        Tok::Str(s) => SpecTok::Str(s@),
        Tok::Ident(s) => SpecTok::Ident(s@),
        Tok::Op(o) => SpecTok::Op(o),
    }
}

pub open spec fn toks_view(v: Seq<Tok>) -> Seq<SpecTok> {
    v.map_values(|t: Tok| tok_view(t))
}

// ------------------------------------------------------------ scanning

pub open spec fn is_alpha(c: char) -> bool {
    ('a' <= c && c <= 'z') || ('A' <= c && c <= 'Z')
}

/// A character of a number's literal: a digit or a dot.
pub open spec fn num_char(c: char) -> bool {
    is_digit(c) || c == '.'
}

/// A character of a name: letters, digits, `_`, and `.` for namespaced
/// names (`array.boardFuelOutputs`).
pub open spec fn word_char(c: char) -> bool {
    is_ident_char(c) || c == '.'
}

pub open spec fn num_run(s: Seq<char>) -> nat
    decreases s.len(),
{
    if s.len() > 0 && num_char(s[0]) {
        1 + num_run(s.drop_first())
    } else {
        0
    }
}

pub open spec fn word_run(s: Seq<char>) -> nat
    decreases s.len(),
{
    if s.len() > 0 && word_char(s[0]) {
        1 + word_run(s.drop_first())
    } else {
        0
    }
}

pub open spec fn count_of(s: Seq<char>, c: char) -> nat
    decreases s.len(),
{
    if s.len() == 0 {
        0
    } else {
        count_of(s.drop_last(), c) + if s.last() == c {
            1nat
        } else {
            0nat
        }
    }
}

/// A run of digits and dots is a number (`f64`'s syntax restricted to
/// those characters) when it has at least one digit and at most one dot.
pub open spec fn valid_number(t: Seq<char>) -> bool {
    count_of(t, '.') <= 1 && count_of(t, '.') < t.len()
}

/// The two-character operator starting with `c`, `n` following.
pub open spec fn two_char_op(c: char, n: char) -> Option<OpTok> {
    if c == '&' && n == '&' {
        Some(OpTok::AndAnd)
    } else if c == '|' && n == '|' {
        Some(OpTok::OrOr)
    } else if c == '=' && n == '=' {
        Some(OpTok::EqEq)
    } else if c == '!' && n == '=' {
        Some(OpTok::NotEq)
    } else if c == '<' && n == '=' {
        Some(OpTok::LessEq)
    } else if c == '>' && n == '=' {
        Some(OpTok::GreaterEq)
    } else if c == '<' && n == '<' {
        Some(OpTok::ShiftLeft)
    } else if c == '>' && n == '>' {
        Some(OpTok::ShiftRight)
    } else {
        None
    }
}

pub open spec fn one_char_op(c: char) -> Option<OpTok> {
    if c == '+' {
        Some(OpTok::Plus)
    } else if c == '-' {
        Some(OpTok::Minus)
    } else if c == '*' {
        Some(OpTok::Star)
    } else if c == '/' {
        Some(OpTok::Slash)
    } else if c == '%' {
        Some(OpTok::Percent)
    } else if c == '(' {
        Some(OpTok::LParen)
    } else if c == ')' {
        Some(OpTok::RParen)
    } else if c == ',' {
        Some(OpTok::Comma)
    } else if c == '?' {
        Some(OpTok::Question)
    } else if c == ':' {
        Some(OpTok::Colon)
    } else if c == '<' {
        Some(OpTok::Less)
    } else if c == '>' {
        Some(OpTok::Greater)
    } else if c == '!' {
        Some(OpTok::Bang)
    } else if c == '&' {
        Some(OpTok::Amp)
    } else if c == '|' {
        Some(OpTok::Pipe)
    } else if c == '^' {
        Some(OpTok::Caret)
    } else if c == '[' {
        Some(OpTok::LBracket)
    } else if c == ']' {
        Some(OpTok::RBracket)
    } else {
        None
    }
}

pub open spec fn prepend(t: SpecTok, rest: Option<Seq<SpecTok>>) -> Option<Seq<SpecTok>> {
    match rest {
        Some(r) => Some(seq![t] + r),
        None => None,
    }
}

pub proof fn lemma_runs(s: Seq<char>)
    ensures
        num_run(s) <= s.len(),
        word_run(s) <= s.len(),
        forall|j: int| 0 <= j < num_run(s) ==> num_char(#[trigger] s[j]),
        num_run(s) < s.len() ==> !num_char(s[num_run(s) as int]),
        forall|j: int| 0 <= j < word_run(s) ==> word_char(#[trigger] s[j]),
        word_run(s) < s.len() ==> !word_char(s[word_run(s) as int]),
    decreases s.len(),
{
    if s.len() > 0 {
        lemma_runs(s.drop_first());
        assert forall|j: int| 0 <= j < num_run(s) implies num_char(#[trigger] s[j]) by {
            if j > 0 {
                assert(s[j] == s.drop_first()[j - 1]);
            }
        }
        assert forall|j: int| 0 <= j < word_run(s) implies word_char(#[trigger] s[j]) by {
            if j > 0 {
                assert(s[j] == s.drop_first()[j - 1]);
            }
        }
        if num_run(s) < s.len() && num_char(s[0]) {
            assert(s[num_run(s) as int] == s.drop_first()[num_run(s.drop_first()) as int]);
        }
        if word_run(s) < s.len() && word_char(s[0]) {
            assert(s[word_run(s) as int] == s.drop_first()[word_run(s.drop_first()) as int]);
        }
    }
}

/// The tokens of `s`, or `None` for a bad number, an unterminated string
/// or a character that starts no token. Whitespace separates tokens.
pub open spec fn spec_scan(s: Seq<char>) -> Option<Seq<SpecTok>>
    decreases s.len(),
{
    if s.len() == 0 {
        Some(seq![])
    } else {
        let c = s[0];
        if is_ws(c) {
            spec_scan(s.drop_first())
        } else if num_char(c) {
            let k = num_run(s);
            proof {
                lemma_runs(s);
            }
            if valid_number(s.take(k as int)) {
                prepend(SpecTok::Num(s.take(k as int)), spec_scan(s.skip(k as int)))
            } else {
                None
            }
        } else if is_alpha(c) || c == '_' {
            let k = word_run(s);
            proof {
                lemma_runs(s);
            }
            prepend(SpecTok::Ident(s.take(k as int)), spec_scan(s.skip(k as int)))
        } else if c == '"' {
            match first_index(s.drop_first(), '"') {
                Some(j) => {
                    proof {
                        lemma_first_index(s.drop_first(), '"');
                    }
                    prepend(SpecTok::Str(s.subrange(1, 1 + j as int)), spec_scan(s.skip(2 + j as int)))
                },
                None => None,
            }
        } else if s.len() >= 2 && two_char_op(c, s[1]) is Some {
            prepend(SpecTok::Op(two_char_op(c, s[1]).unwrap()), spec_scan(s.skip(2)))
        } else {
            match one_char_op(c) {
                Some(op) => prepend(SpecTok::Op(op), spec_scan(s.drop_first())),
                None => None,
            }
        }
    }
}

pub open spec fn prepend_all(prefix: Seq<SpecTok>, rest: Option<Seq<SpecTok>>) -> Option<Seq<SpecTok>> {
    match rest {
        Some(r) => Some(prefix + r),
        None => None,
    }
}

fn two_op(c: char, n: char) -> (r: Option<OpTok>)
    ensures
        r == two_char_op(c, n),
{
    if c == '&' && n == '&' {
        Some(OpTok::AndAnd)
    } else if c == '|' && n == '|' {
        Some(OpTok::OrOr)
    } else if c == '=' && n == '=' {
        Some(OpTok::EqEq)
    } else if c == '!' && n == '=' {
        Some(OpTok::NotEq)
    } else if c == '<' && n == '=' {
        Some(OpTok::LessEq)
    } else if c == '>' && n == '=' {
        Some(OpTok::GreaterEq)
    } else if c == '<' && n == '<' {
        Some(OpTok::ShiftLeft)
    } else if c == '>' && n == '>' {
        Some(OpTok::ShiftRight)
    } else {
        None
    }
}

fn one_op(c: char) -> (r: Option<OpTok>)
    ensures
        r == one_char_op(c),
{
    if c == '+' {
        Some(OpTok::Plus)
    } else if c == '-' {
        Some(OpTok::Minus)
    } else if c == '*' {
        Some(OpTok::Star)
    } else if c == '/' {
        Some(OpTok::Slash)
    } else if c == '%' {
        Some(OpTok::Percent)
    } else if c == '(' {
        Some(OpTok::LParen)
    } else if c == ')' {
        Some(OpTok::RParen)
    } else if c == ',' {
        Some(OpTok::Comma)
    } else if c == '?' {
        Some(OpTok::Question)
    } else if c == ':' {
        Some(OpTok::Colon)
    } else if c == '<' {
        Some(OpTok::Less)
    } else if c == '>' {
        Some(OpTok::Greater)
    } else if c == '!' {
        Some(OpTok::Bang)
    } else if c == '&' {
        Some(OpTok::Amp)
    } else if c == '|' {
        Some(OpTok::Pipe)
    } else if c == '^' {
        Some(OpTok::Caret)
    } else if c == '[' {
        Some(OpTok::LBracket)
    } else if c == ']' {
        Some(OpTok::RBracket)
    } else {
        None
    }
}

fn is_num_char(c: char) -> (r: bool)
    ensures
        r == num_char(c),
{
    ('0' <= c && c <= '9') || c == '.'
}

fn is_word_char(c: char) -> (r: bool)
    ensures
        r == word_char(c),
{
    ident_char(c) || c == '.'
}

/// Whether `v[lo..hi]` is a valid number literal.
fn number_ok(v: &Vec<char>, lo: usize, hi: usize) -> (r: bool)
    requires
        lo <= hi <= v@.len(),
    ensures
        r == valid_number(v@.subrange(lo as int, hi as int)),
{
    let ghost t = v@.subrange(lo as int, hi as int);
    let mut dots: usize = 0;
    let mut i = lo;
    assert(t.take(0) =~= Seq::<char>::empty());
    while i < hi
        invariant
            lo <= i <= hi,
            hi <= v@.len(),
            t == v@.subrange(lo as int, hi as int),
            dots == count_of(t.take(i - lo), '.'),
            dots <= i - lo,
        decreases hi - i,
    {
        assert(t.take(i - lo + 1).drop_last() =~= t.take(i - lo));
        assert(t.take(i - lo + 1).last() == v@[i as int]);
        if v[i] == '.' {
            dots = dots + 1;
        }
        i = i + 1;
    }
    assert(t.take(hi - lo) =~= t);
    dots <= 1 && dots < hi - lo
}

fn scan_error(num: u32, what: &str, text: &str) -> (e: Error)
    ensures
        e matches Error::Parse(n, _) && n == num,
{
    let mut m = String::from_str(what);
    m.append(" in { ");
    m.append(text);
    m.append(" }");
    Error::at(num, m)
}

/// The tokens of `text`; an error on line `num` where [`spec_scan`] has
/// none.
pub fn scan(text: &str, num: u32) -> (r: Result<Vec<Tok>, Error>)
    ensures
        match spec_scan(text@) {
            Some(ts) => r matches Ok(v) && toks_view(v@) == ts,
            None => r matches Err(Error::Parse(n, _)) && n == num,
        },
{
    let v = chars_of(text);
    let n = v.len();
    let mut toks: Vec<Tok> = Vec::new();
    let mut i: usize = 0;
    assert(v@.skip(0) =~= v@);
    assert(toks_view(toks@) + Seq::<SpecTok>::empty() =~= Seq::<SpecTok>::empty());
    while i < n
        invariant
            i <= n,
            n == v@.len(),
            v@ == text@,
            spec_scan(text@) == prepend_all(toks_view(toks@), spec_scan(v@.skip(i as int))),
        decreases n - i,
    {
        let ghost s = v@.skip(i as int);
        let ghost before = toks_view(toks@);
        let c = v[i];
        assert(s[0] == c);
        proof {
            lemma_runs(s);
        }
        if whitespace(c) {
            assert(s.drop_first() =~= v@.skip(i + 1));
            i = i + 1;
        } else if is_num_char(c) {
            let mut j = i + 1;
            while j < n && is_num_char(v[j])
                invariant
                    i < j <= n,
                    n == v@.len(),
                    s == v@.skip(i as int),
                    j - i <= num_run(s),
                    num_run(s) <= s.len(),
                    forall|m: int| 0 <= m < num_run(s) ==> num_char(#[trigger] s[m]),
                    num_run(s) < s.len() ==> !num_char(s[num_run(s) as int]),
                decreases n - j,
            {
                assert(s[j - i] == v@[j as int]);
                j = j + 1;
            }
            proof {
                if j < n {
                    assert(s[j - i] == v@[j as int]);
                }
            }
            assert(j - i == num_run(s));
            assert(s.take(j - i) =~= v@.subrange(i as int, j as int));
            assert(s.skip(j - i) =~= v@.skip(j as int));
            if !number_ok(&v, i, j) {
                let mut m = String::from_str("bad number `");
                append_chars(&mut m, &slice_chars(&v, i, j));
                m.append("`");
                return Err(scan_error(num, m.as_str(), text));
            }
            let lit = slice_chars(&v, i, j);
            toks.push(Tok::Num(string_from_chars(lit.as_slice())));
            assert(toks_view(toks@) =~= before + seq![SpecTok::Num(s.take(j - i))]);
            i = j;
        } else if (('a' <= c && c <= 'z') || ('A' <= c && c <= 'Z')) || c == '_' {
            let mut j = i + 1;
            while j < n && is_word_char(v[j])
                invariant
                    i < j <= n,
                    n == v@.len(),
                    s == v@.skip(i as int),
                    j - i <= word_run(s),
                    word_run(s) <= s.len(),
                    forall|m: int| 0 <= m < word_run(s) ==> word_char(#[trigger] s[m]),
                    word_run(s) < s.len() ==> !word_char(s[word_run(s) as int]),
                decreases n - j,
            {
                assert(s[j - i] == v@[j as int]);
                j = j + 1;
            }
            proof {
                if j < n {
                    assert(s[j - i] == v@[j as int]);
                }
            }
            assert(j - i == word_run(s));
            assert(s.take(j - i) =~= v@.subrange(i as int, j as int));
            assert(s.skip(j - i) =~= v@.skip(j as int));
            let w = slice_chars(&v, i, j);
            toks.push(Tok::Ident(string_from_chars(w.as_slice())));
            assert(toks_view(toks@) =~= before + seq![SpecTok::Ident(s.take(j - i))]);
            i = j;
        } else if c == '"' {
            assert(s.drop_first() =~= v@.subrange(i + 1, n as int));
            match find_in(&v, '"', i + 1, n) {
                Some(q) => {
                    proof {
                        lemma_first_index(s.drop_first(), '"');
                    }
                    assert(s.subrange(1, 1 + (q - i - 1)) =~= v@.subrange(i + 1, q as int));
                    assert(s.skip(2 + (q - i - 1)) =~= v@.skip(q + 1));
                    let body = slice_chars(&v, i + 1, q);
                    toks.push(Tok::Str(string_from_chars(body.as_slice())));
                    assert(toks_view(toks@) =~= before + seq![SpecTok::Str(v@.subrange(i + 1, q as int))]);
                    i = q + 1;
                },
                None => {
                    return Err(scan_error(num, "unterminated string", text));
                },
            }
        } else {
            let two = if i + 1 < n {
                assert(s[1] == v@[i + 1]);
                two_op(c, v[i + 1])
            } else {
                None
            };
            match two {
                Some(op) => {
                    assert(s.skip(2) =~= v@.skip(i + 2));
                    toks.push(Tok::Op(op));
                    assert(toks_view(toks@) =~= before + seq![SpecTok::Op(op)]);
                    i = i + 2;
                },
                None => match one_op(c) {
                    Some(op) => {
                        assert(s.drop_first() =~= v@.skip(i + 1));
                        toks.push(Tok::Op(op));
                        assert(toks_view(toks@) =~= before + seq![SpecTok::Op(op)]);
                        i = i + 1;
                    },
                    None => {
                        let mut m = String::from_str("unexpected `");
                        let mut cv: Vec<char> = Vec::new();
                        cv.push(c);
                        append_chars(&mut m, &cv);
                        m.append("`");
                        return Err(scan_error(num, m.as_str(), text));
                    },
                },
            }
        }
    }
    assert(v@.skip(n as int) =~= Seq::<char>::empty());
    assert(toks_view(toks@) + Seq::<SpecTok>::empty() =~= toks_view(toks@));
    Ok(toks)
}

// ------------------------------------------------------------ parsing

#[derive(Debug)]
pub enum ExprTree {
    /// A number's literal text.
    Num(String),
    Str(String),
    Ident(String),
    Unary(UnOp, Box<ExprTree>),
    Binary(BinOp, Box<ExprTree>, Box<ExprTree>),
    Ternary(Box<ExprTree>, Box<ExprTree>, Box<ExprTree>),
    Call(String, Vec<ExprTree>),
    /// `name[index]` — array constant element.
    Index(String, Box<ExprTree>),
}

pub enum SpecExpr {
    Num(Seq<char>),
    Str(Seq<char>),
    Ident(Seq<char>),
    Unary(UnOp, Box<SpecExpr>),
    Binary(BinOp, Box<SpecExpr>, Box<SpecExpr>),
    Ternary(Box<SpecExpr>, Box<SpecExpr>, Box<SpecExpr>),
    Call(Seq<char>, Seq<SpecExpr>),
    Index(Seq<char>, Box<SpecExpr>),
}

pub open spec fn expr_view(e: ExprTree) -> SpecExpr
    decreases e, 0int,
{
    match e {
        ExprTree::Num(s) => SpecExpr::Num(s@),
        ExprTree::Str(s) => SpecExpr::Str(s@),
        ExprTree::Ident(s) => SpecExpr::Ident(s@),
        ExprTree::Unary(op, a) => SpecExpr::Unary(op, Box::new(expr_view(*a))),
        ExprTree::Binary(op, a, b) => SpecExpr::Binary(op, Box::new(expr_view(*a)), Box::new(expr_view(*b))),
        ExprTree::Ternary(c, a, b) => SpecExpr::Ternary(
            Box::new(expr_view(*c)),
            Box::new(expr_view(*a)),
            Box::new(expr_view(*b)),
        ),
        ExprTree::Call(name, args) => SpecExpr::Call(name@, args_view(args@, args@.len() as int)),
        ExprTree::Index(name, i) => SpecExpr::Index(name@, Box::new(expr_view(*i))),
    }
}

/// The views of the first `n` arguments.
pub open spec fn args_view(a: Seq<ExprTree>, n: int) -> Seq<SpecExpr>
    decreases a, n,
{
    if n <= 0 || n > a.len() {
        seq![]
    } else {
        args_view(a, n - 1).push(expr_view(a[n - 1]))
    }
}

/// A copy of an expression tree.
pub fn copy_expr(e: &ExprTree) -> (r: ExprTree)
    ensures
        expr_view(r) == expr_view(*e),
    decreases e,
{
    match e {
        ExprTree::Num(s) => ExprTree::Num(s.clone()),
        ExprTree::Str(s) => ExprTree::Str(s.clone()),
        ExprTree::Ident(s) => ExprTree::Ident(s.clone()),
        ExprTree::Unary(op, a) => ExprTree::Unary(*op, Box::new(copy_expr(a))),
        ExprTree::Binary(op, a, b) => ExprTree::Binary(*op, Box::new(copy_expr(a)), Box::new(copy_expr(b))),
        ExprTree::Ternary(c, a, b) => ExprTree::Ternary(
            Box::new(copy_expr(c)),
            Box::new(copy_expr(a)),
            Box::new(copy_expr(b)),
        ),
        ExprTree::Call(name, args) => {
            let mut out: Vec<ExprTree> = Vec::new();
            let mut i: usize = 0;
            while i < args.len()
                invariant
                    i <= args@.len(),
                    *e == ExprTree::Call(*name, *args),
                    out@.len() == i,
                    args_view(out@, i as int) == args_view(args@, i as int),
                decreases args@.len() - i,
            {
                proof {
                    assert(decreases_to!(*e => (*e)->Call_1));
                    assert(decreases_to!(*args => args@));
                    assert(decreases_to!(args@ => args@[i as int]));
                }
                let a = copy_expr(&args[i]);
                proof {
                    lemma_args_view_push(out@, a);
                }
                out.push(a);
                i = i + 1;
            }
            ExprTree::Call(name.clone(), out)
        },
        ExprTree::Index(name, a) => ExprTree::Index(name.clone(), Box::new(copy_expr(a))),
    }
}

/// Left binding power per binary operator (C-like precedence).
pub open spec fn spec_lbp(op: OpTok) -> Option<(nat, BinOp)> {
    match op {
        OpTok::OrOr => Some((1, BinOp::Or)),
        OpTok::AndAnd => Some((2, BinOp::And)),
        OpTok::Pipe => Some((3, BinOp::BitOr)),
        OpTok::Caret => Some((4, BinOp::BitXor)),
        OpTok::Amp => Some((5, BinOp::BitAnd)),
        OpTok::EqEq => Some((6, BinOp::Eq)),
        OpTok::NotEq => Some((6, BinOp::Ne)),
        OpTok::Less => Some((7, BinOp::Lt)),
        OpTok::Greater => Some((7, BinOp::Gt)),
        OpTok::LessEq => Some((7, BinOp::Le)),
        OpTok::GreaterEq => Some((7, BinOp::Ge)),
        OpTok::ShiftLeft => Some((8, BinOp::Shl)),
        OpTok::ShiftRight => Some((8, BinOp::Shr)),
        OpTok::Plus => Some((9, BinOp::Add)),
        OpTok::Minus => Some((9, BinOp::Sub)),
        OpTok::Star => Some((10, BinOp::Mul)),
        OpTok::Slash => Some((10, BinOp::Div)),
        OpTok::Percent => Some((10, BinOp::Rem)),
        _ => None,
    }
}

pub fn lbp(op: OpTok) -> (r: Option<(u8, BinOp)>)
    ensures
        match spec_lbp(op) {
            Some((bp, b)) => r == Some((bp as u8, b)),
            None => r is None,
        },
{
    match op {
        OpTok::OrOr => Some((1, BinOp::Or)),
        OpTok::AndAnd => Some((2, BinOp::And)),
        OpTok::Pipe => Some((3, BinOp::BitOr)),
        OpTok::Caret => Some((4, BinOp::BitXor)),
        OpTok::Amp => Some((5, BinOp::BitAnd)),
        OpTok::EqEq => Some((6, BinOp::Eq)),
        OpTok::NotEq => Some((6, BinOp::Ne)),
        OpTok::Less => Some((7, BinOp::Lt)),
        OpTok::Greater => Some((7, BinOp::Gt)),
        OpTok::LessEq => Some((7, BinOp::Le)),
        OpTok::GreaterEq => Some((7, BinOp::Ge)),
        OpTok::ShiftLeft => Some((8, BinOp::Shl)),
        OpTok::ShiftRight => Some((8, BinOp::Shr)),
        OpTok::Plus => Some((9, BinOp::Add)),
        OpTok::Minus => Some((9, BinOp::Sub)),
        OpTok::Star => Some((10, BinOp::Mul)),
        OpTok::Slash => Some((10, BinOp::Div)),
        OpTok::Percent => Some((10, BinOp::Rem)),
        _ => None,
    }
}

pub open spec fn is_op(t: SpecTok, o: OpTok) -> bool {
    t matches SpecTok::Op(x) && x == o
}

/// An expression starting at token `pos` whose binary operators bind at
/// least as tightly as `min_bp` (a ternary only at `min_bp` 0): the tree
/// and the position after it. The position checks after each sub-parse
/// always hold (every sub-parse consumes a token); they make the
/// recursion's progress visible.
pub open spec fn spec_expression(t: Seq<SpecTok>, pos: int, min_bp: nat) -> Option<(SpecExpr, int)>
    decreases t.len() - pos, 2int,
{
    if pos < 0 || pos > t.len() {
        None
    } else {
        match spec_primary(t, pos) {
            Some((lhs, p1)) => if pos < p1 <= t.len() {
                spec_climb(t, p1, min_bp, lhs)
            } else {
                None
            },
            None => None,
        }
    }
}

/// A number, string, name, call, indexed name, parenthesised expression,
/// or a negated or `!`-ed primary.
pub open spec fn spec_primary(t: Seq<SpecTok>, pos: int) -> Option<(SpecExpr, int)>
    decreases t.len() - pos, 1int,
{
    if pos < 0 || pos >= t.len() {
        None
    } else {
        match t[pos] {
            SpecTok::Num(n) => Some((SpecExpr::Num(n), pos + 1)),
            SpecTok::Str(s) => Some((SpecExpr::Str(s), pos + 1)),
            SpecTok::Ident(name) => {
                if pos + 1 < t.len() && is_op(t[pos + 1], OpTok::LBracket) {
                    match spec_expression(t, pos + 2, 0) {
                        Some((idx, p)) => if pos + 2 < p < t.len() && is_op(t[p], OpTok::RBracket) {
                            Some((SpecExpr::Index(name, Box::new(idx)), p + 1))
                        } else {
                            None
                        },
                        None => None,
                    }
                } else if pos + 1 < t.len() && is_op(t[pos + 1], OpTok::LParen) {
                    if pos + 2 < t.len() && is_op(t[pos + 2], OpTok::RParen) {
                        Some((SpecExpr::Call(name, seq![]), pos + 3))
                    } else {
                        spec_args(t, pos + 2, name, seq![])
                    }
                } else {
                    Some((SpecExpr::Ident(name), pos + 1))
                }
            },
            SpecTok::Op(OpTok::LParen) => match spec_expression(t, pos + 1, 0) {
                Some((e, p)) => if pos + 1 < p < t.len() && is_op(t[p], OpTok::RParen) {
                    Some((e, p + 1))
                } else {
                    None
                },
                None => None,
            },
            SpecTok::Op(OpTok::Minus) => match spec_primary(t, pos + 1) {
                Some((e, p)) => Some((SpecExpr::Unary(UnOp::Neg, Box::new(e)), p)),
                None => None,
            },
            SpecTok::Op(OpTok::Bang) => match spec_primary(t, pos + 1) {
                Some((e, p)) => Some((SpecExpr::Unary(UnOp::Not, Box::new(e)), p)),
                None => None,
            },
            _ => None,
        }
    }
}

/// The arguments of a call from `pos` (after its `(`), each followed by
/// `,` or the closing `)`; `acc` holds those already read.
pub open spec fn spec_args(t: Seq<SpecTok>, pos: int, name: Seq<char>, acc: Seq<SpecExpr>) -> Option<(SpecExpr, int)>
    decreases t.len() - pos, 3int,
{
    if pos < 0 || pos > t.len() {
        None
    } else {
        match spec_expression(t, pos, 0) {
            Some((a, p)) => if pos < p < t.len() {
                if is_op(t[p], OpTok::Comma) {
                    spec_args(t, p + 1, name, acc.push(a))
                } else if is_op(t[p], OpTok::RParen) {
                    Some((SpecExpr::Call(name, acc.push(a)), p + 1))
                } else {
                    None
                }
            } else {
                None
            },
            None => None,
        }
    }
}

/// Extend `lhs` with the operators from `pos` on: binary operators binding
/// at least `min_bp` (right operand parsed one level tighter), and, at
/// level 0, `cond ? a : b`.
pub open spec fn spec_climb(t: Seq<SpecTok>, pos: int, min_bp: nat, lhs: SpecExpr) -> Option<(SpecExpr, int)>
    decreases t.len() - pos, 0int,
{
    if pos < 0 || pos > t.len() {
        None
    } else if pos < t.len() && t[pos] is Op {
        let op = t[pos]->Op_0;
        if op == OpTok::Question {
            if min_bp > 0 {
                Some((lhs, pos))
            } else {
                match spec_expression(t, pos + 1, 0) {
                    Some((th, p2)) => if pos + 1 < p2 < t.len() && is_op(t[p2], OpTok::Colon) {
                        match spec_expression(t, p2 + 1, 0) {
                            Some((al, p3)) => if p2 + 1 < p3 <= t.len() {
                                spec_climb(t, p3, min_bp, SpecExpr::Ternary(Box::new(lhs), Box::new(th), Box::new(al)))
                            } else {
                                None
                            },
                            None => None,
                        }
                    } else {
                        None
                    },
                    None => None,
                }
            }
        } else {
            match spec_lbp(op) {
                Some((bp, b)) => if bp < min_bp {
                    Some((lhs, pos))
                } else {
                    match spec_expression(t, pos + 1, bp + 1) {
                        Some((rhs, p2)) => if pos + 1 < p2 <= t.len() {
                            spec_climb(t, p2, min_bp, SpecExpr::Binary(b, Box::new(lhs), Box::new(rhs)))
                        } else {
                            None
                        },
                        None => None,
                    }
                },
                None => Some((lhs, pos)),
            }
        }
    } else {
        Some((lhs, pos))
    }
}

/// The expression `text` holds: all of its tokens form one expression.
pub open spec fn spec_parse(text: Seq<char>) -> Option<SpecExpr> {
    match spec_scan(text) {
        Some(t) => match spec_expression(t, 0, 0) {
            Some((e, p)) => if p == t.len() {
                Some(e)
            } else {
                None
            },
            None => None,
        },
        None => None,
    }
}

proof fn lemma_args_view_prefix(a: Seq<ExprTree>, x: ExprTree, n: int)
    requires
        0 <= n <= a.len(),
    ensures
        args_view(a.push(x), n) == args_view(a, n),
    decreases n,
{
    if n > 0 {
        lemma_args_view_prefix(a, x, n - 1);
        assert(a.push(x)[n - 1] == a[n - 1]);
    }
}

proof fn lemma_args_view_push(a: Seq<ExprTree>, x: ExprTree)
    ensures
        args_view(a.push(x), a.len() + 1 as int) == args_view(a, a.len() as int).push(expr_view(x)),
{
    lemma_args_view_prefix(a, x, a.len() as int);
    assert(a.push(x)[a.len() as int] == x);
}

fn is_op_tok(t: &Tok, o: OpTok) -> (r: bool)
    ensures
        r == is_op(tok_view(*t), o),
{
    match t {
        Tok::Op(x) => *x == o,
        _ => false,
    }
}

fn expr_error(num: u32, msg: &str, text: &str) -> (e: Error)
    ensures
        e matches Error::Parse(n, _) && n == num,
{
    scan_error(num, msg, text)
}

fn parse_expression(t: &Vec<Tok>, pos: usize, min_bp: u8, num: u32, text: &str) -> (r: Result<(ExprTree, usize), Error>)
    requires
        pos <= t@.len(),
        min_bp <= 11,
    ensures
        match spec_expression(toks_view(t@), pos as int, min_bp as nat) {
            Some((e, p)) => r matches Ok((x, q)) && expr_view(x) == e && q == p,
            None => r matches Err(Error::Parse(n, _)) && n == num,
        },
        r matches Ok((_, q)) ==> pos < q <= t@.len(),
    decreases t@.len() - pos, 2int,
{
    match parse_primary(t, pos, num, text) {
        Ok((lhs, p1)) => parse_climb(t, p1, min_bp, lhs, num, text),
        Err(e) => Err(e),
    }
}

fn parse_primary(t: &Vec<Tok>, pos: usize, num: u32, text: &str) -> (r: Result<(ExprTree, usize), Error>)
    requires
        pos <= t@.len(),
    ensures
        match spec_primary(toks_view(t@), pos as int) {
            Some((e, p)) => r matches Ok((x, q)) && expr_view(x) == e && q == p,
            None => r matches Err(Error::Parse(n, _)) && n == num,
        },
        r matches Ok((_, q)) ==> pos < q <= t@.len(),
    decreases t@.len() - pos, 1int,
{
    let ghost tv = toks_view(t@);
    if pos >= t.len() {
        return Err(expr_error(num, "expected a value", text));
    }
    assert(tv[pos as int] == tok_view(t@[pos as int]));
    match &t[pos] {
        Tok::Num(n) => Ok((ExprTree::Num(n.clone()), pos + 1)),
        Tok::Str(s) => Ok((ExprTree::Str(s.clone()), pos + 1)),
        Tok::Ident(name) => {
            if pos + 1 < t.len() && is_op_tok(&t[pos + 1], OpTok::LBracket) {
                assert(tv[pos + 1] == tok_view(t@[pos + 1]));
                match parse_expression(t, pos + 2, 0, num, text) {
                    Ok((idx, p)) => {
                        if p < t.len() && is_op_tok(&t[p], OpTok::RBracket) {
                            assert(tv[p as int] == tok_view(t@[p as int]));
                            Ok((ExprTree::Index(name.clone(), Box::new(idx)), p + 1))
                        } else {
                            proof {
                                if p < t@.len() {
                                    assert(tv[p as int] == tok_view(t@[p as int]));
                                }
                            }
                            Err(expr_error(num, "expected `]`", text))
                        }
                    },
                    Err(e) => Err(e),
                }
            } else if pos + 1 < t.len() && is_op_tok(&t[pos + 1], OpTok::LParen) {
                assert(tv[pos + 1] == tok_view(t@[pos + 1]));
                proof {
                    if pos + 1 < t@.len() {
                        assert(tv[pos + 1] == tok_view(t@[pos + 1]));
                    }
                }
                if pos + 2 < t.len() && is_op_tok(&t[pos + 2], OpTok::RParen) {
                    assert(tv[pos + 2] == tok_view(t@[pos + 2]));
                    let none: Vec<ExprTree> = Vec::new();
                    assert(args_view(none@, 0) =~= Seq::<SpecExpr>::empty());
                    Ok((ExprTree::Call(name.clone(), none), pos + 3))
                } else {
                    proof {
                        if pos + 2 < t@.len() {
                            assert(tv[pos + 2] == tok_view(t@[pos + 2]));
                        }
                    }
                    let acc: Vec<ExprTree> = Vec::new();
                    assert(args_view(acc@, 0) =~= Seq::<SpecExpr>::empty());
                    parse_args(t, pos + 2, name, acc, num, text)
                }
            } else {
                proof {
                    if pos + 1 < t@.len() {
                        assert(tv[pos + 1] == tok_view(t@[pos + 1]));
                    }
                }
                Ok((ExprTree::Ident(name.clone()), pos + 1))
            }
        },
        Tok::Op(OpTok::LParen) => match parse_expression(t, pos + 1, 0, num, text) {
            Ok((e, p)) => {
                if p < t.len() && is_op_tok(&t[p], OpTok::RParen) {
                    assert(tv[p as int] == tok_view(t@[p as int]));
                    Ok((e, p + 1))
                } else {
                    proof {
                        if p < t@.len() {
                            assert(tv[p as int] == tok_view(t@[p as int]));
                        }
                    }
                    Err(expr_error(num, "expected `)`", text))
                }
            },
            Err(e) => Err(e),
        },
        Tok::Op(OpTok::Minus) => match parse_primary(t, pos + 1, num, text) {
            Ok((e, p)) => Ok((ExprTree::Unary(UnOp::Neg, Box::new(e)), p)),
            Err(e) => Err(e),
        },
        Tok::Op(OpTok::Bang) => match parse_primary(t, pos + 1, num, text) {
            Ok((e, p)) => Ok((ExprTree::Unary(UnOp::Not, Box::new(e)), p)),
            Err(e) => Err(e),
        },
        _ => Err(expr_error(num, "expected a value", text)),
    }
}

fn parse_args(t: &Vec<Tok>, pos: usize, name: &String, acc: Vec<ExprTree>, num: u32, text: &str) -> (r: Result<(ExprTree, usize), Error>)
    requires
        pos <= t@.len(),
    ensures
        match spec_args(toks_view(t@), pos as int, name@, args_view(acc@, acc@.len() as int)) {
            Some((e, p)) => r matches Ok((x, q)) && expr_view(x) == e && q == p,
            None => r matches Err(Error::Parse(n, _)) && n == num,
        },
        r matches Ok((_, q)) ==> pos < q <= t@.len(),
    decreases t@.len() - pos, 3int,
{
    let ghost tv = toks_view(t@);
    match parse_expression(t, pos, 0, num, text) {
        Ok((a, p)) => {
            if p < t.len() {
                assert(tv[p as int] == tok_view(t@[p as int]));
                let mut acc = acc;
                let ghost before = acc@;
                proof {
                    lemma_args_view_push(before, a);
                }
                if is_op_tok(&t[p], OpTok::Comma) {
                    acc.push(a);
                    parse_args(t, p + 1, name, acc, num, text)
                } else if is_op_tok(&t[p], OpTok::RParen) {
                    acc.push(a);
                    Ok((ExprTree::Call(name.clone(), acc), p + 1))
                } else {
                    Err(expr_error(num, "expected `,` or `)`", text))
                }
            } else {
                Err(expr_error(num, "expected `,` or `)`", text))
            }
        },
        Err(e) => Err(e),
    }
}

fn parse_climb(t: &Vec<Tok>, pos: usize, min_bp: u8, lhs: ExprTree, num: u32, text: &str) -> (r: Result<(ExprTree, usize), Error>)
    requires
        pos <= t@.len(),
        min_bp <= 11,
    ensures
        match spec_climb(toks_view(t@), pos as int, min_bp as nat, expr_view(lhs)) {
            Some((e, p)) => r matches Ok((x, q)) && expr_view(x) == e && q == p,
            None => r matches Err(Error::Parse(n, _)) && n == num,
        },
        r matches Ok((_, q)) ==> pos <= q <= t@.len(),
    decreases t@.len() - pos, 0int,
{
    let ghost tv = toks_view(t@);
    if pos >= t.len() {
        return Ok((lhs, pos));
    }
    assert(tv[pos as int] == tok_view(t@[pos as int]));
    let op = match &t[pos] {
        Tok::Op(o) => *o,
        _ => {
            return Ok((lhs, pos));
        },
    };
    if op == OpTok::Question {
        if min_bp > 0 {
            return Ok((lhs, pos));
        }
        match parse_expression(t, pos + 1, 0, num, text) {
            Ok((th, p2)) => {
                if p2 < t.len() && is_op_tok(&t[p2], OpTok::Colon) {
                    assert(tv[p2 as int] == tok_view(t@[p2 as int]));
                    match parse_expression(t, p2 + 1, 0, num, text) {
                        Ok((al, p3)) => parse_climb(
                            t,
                            p3,
                            min_bp,
                            ExprTree::Ternary(Box::new(lhs), Box::new(th), Box::new(al)),
                            num,
                            text,
                        ),
                        Err(e) => Err(e),
                    }
                } else {
                    proof {
                        if p2 < t@.len() {
                            assert(tv[p2 as int] == tok_view(t@[p2 as int]));
                        }
                    }
                    Err(expr_error(num, "expected `:`", text))
                }
            },
            Err(e) => Err(e),
        }
    } else {
        match lbp(op) {
            Some((bp, b)) => {
                if bp < min_bp {
                    return Ok((lhs, pos));
                }
                match parse_expression(t, pos + 1, bp + 1, num, text) {
                    Ok((rhs, p2)) => parse_climb(t, p2, min_bp, ExprTree::Binary(b, Box::new(lhs), Box::new(rhs)), num, text),
                    Err(e) => Err(e),
                }
            },
            None => Ok((lhs, pos)),
        }
    }
}

/// Parse `{ expression }` text (without the braces) from line `num`.
pub fn parse(text: &str, num: u32) -> (r: Result<ExprTree, Error>)
    ensures
        match spec_parse(text@) {
            Some(e) => r matches Ok(x) && expr_view(x) == e,
            None => r matches Err(Error::Parse(n, _)) && n == num,
        },
{
    let tokens = match scan(text, num) {
        Ok(t) => t,
        Err(e) => {
            return Err(e);
        },
    };
    match parse_expression(&tokens, 0, 0, num, text) {
        Ok((e, p)) => {
            if p != tokens.len() {
                return Err(expr_error(num, "trailing input", text));
            }
            Ok(e)
        },
        Err(e) => Err(e),
    }
}

} // verus!

verus! {

/// The tree of a lone operand token: a number, a string or a name.
pub open spec fn atom(t: SpecTok) -> Option<SpecExpr> {
    match t {
        SpecTok::Num(n) => Some(SpecExpr::Num(n)),
        SpecTok::Str(s) => Some(SpecExpr::Str(s)),
        SpecTok::Ident(n) => Some(SpecExpr::Ident(n)),
        SpecTok::Op(_) => None,
    }
}

/// `+` and `-`, and what they build.
pub open spec fn additive(o: OpTok) -> Option<BinOp> {
    match o {
        OpTok::Plus => Some(BinOp::Add),
        OpTok::Minus => Some(BinOp::Sub),
        _ => None,
    }
}

/// `*`, `/` and `%`, and what they build.
pub open spec fn multiplicative(o: OpTok) -> Option<BinOp> {
    match o {
        OpTok::Star => Some(BinOp::Mul),
        OpTok::Slash => Some(BinOp::Div),
        OpTok::Percent => Some(BinOp::Rem),
        _ => None,
    }
}

pub open spec fn bin(op: BinOp, l: SpecExpr, r: SpecExpr) -> SpecExpr {
    SpecExpr::Binary(op, Box::new(l), Box::new(r))
}

/// `a o1 b o2 c` parsed from the start, as the whole token list.
pub open spec fn three(a: SpecTok, o1: OpTok, b: SpecTok, o2: OpTok, c: SpecTok) -> Seq<SpecTok> {
    seq![a, SpecTok::Op(o1), b, SpecTok::Op(o2), c]
}

proof fn lemma_atom_primary(t: Seq<SpecTok>, pos: int)
    requires
        0 <= pos < t.len(),
        atom(t[pos]) is Some,
        pos + 1 < t.len() ==> (t[pos + 1] matches SpecTok::Op(o) && (additive(o) is Some || multiplicative(o) is Some)),
    ensures
        spec_primary(t, pos) == Some((atom(t[pos])->0, pos + 1)),
{
}

/// A lone operand with nothing after it, at any binding level.
proof fn lemma_last_atom(t: Seq<SpecTok>, min_bp: nat)
    requires
        t.len() == 5,
        atom(t[4]) is Some,
    ensures
        spec_expression(t, 4, min_bp) == Some((atom(t[4])->0, 5int)),
{
    lemma_atom_primary(t, 4);
    assert(spec_climb(t, 5, min_bp, atom(t[4])->0) == Some((atom(t[4])->0, 5int)));
}

/// C-like precedence of the arithmetic operators: for any operands `a`,
/// `b`, `c` (numbers, strings or names), `*`, `/` and `%` bind tighter
/// than `+` and `-` on either side, and operators of one level group from
/// the left. A text that scans to these tokens parses to the same tree.
pub proof fn lemma_arithmetic_precedence(a: SpecTok, b: SpecTok, c: SpecTok, add: OpTok, mul: OpTok, add2: OpTok, mul2: OpTok, text: Seq<char>)
    requires
        atom(a) is Some,
        atom(b) is Some,
        atom(c) is Some,
        additive(add) is Some,
        additive(add2) is Some,
        multiplicative(mul) is Some,
        multiplicative(mul2) is Some,
    ensures
        spec_expression(three(a, add, b, mul, c), 0, 0) == Some((bin(additive(add)->0, atom(a)->0,
            bin(multiplicative(mul)->0, atom(b)->0, atom(c)->0)), 5int)),
        spec_expression(three(a, mul, b, add, c), 0, 0) == Some((bin(additive(add)->0,
            bin(multiplicative(mul)->0, atom(a)->0, atom(b)->0), atom(c)->0), 5int)),
        spec_expression(three(a, mul, b, mul2, c), 0, 0) == Some((bin(multiplicative(mul2)->0,
            bin(multiplicative(mul)->0, atom(a)->0, atom(b)->0), atom(c)->0), 5int)),
        spec_expression(three(a, add, b, add2, c), 0, 0) == Some((bin(additive(add2)->0,
            bin(additive(add)->0, atom(a)->0, atom(b)->0), atom(c)->0), 5int)),
        spec_scan(text) == Some(three(a, add, b, mul, c)) ==> spec_parse(text) == Some(bin(additive(add)->0, atom(a)->0,
            bin(multiplicative(mul)->0, atom(b)->0, atom(c)->0))),
        spec_scan(text) == Some(three(a, mul, b, add, c)) ==> spec_parse(text) == Some(bin(additive(add)->0,
            bin(multiplicative(mul)->0, atom(a)->0, atom(b)->0), atom(c)->0)),
{
    lemma_low_high(a, b, c, add, mul);
    lemma_high_low(a, b, c, mul, add);
    lemma_high_low(a, b, c, mul, mul2);
    lemma_high_low(a, b, c, add, add2);
}

/// Where the first operator binds less tightly than the second, the second
/// groups first: `a o1 (b o2 c)`.
proof fn lemma_low_high(a: SpecTok, b: SpecTok, c: SpecTok, o1: OpTok, o2: OpTok)
    requires
        atom(a) is Some,
        atom(b) is Some,
        atom(c) is Some,
        additive(o1) is Some,
        multiplicative(o2) is Some,
    ensures
        spec_expression(three(a, o1, b, o2, c), 0, 0) == Some((bin(additive(o1)->0, atom(a)->0,
            bin(multiplicative(o2)->0, atom(b)->0, atom(c)->0)), 5int)),
{
    let t = three(a, o1, b, o2, c);
    let (ea, eb, ec) = (atom(a)->0, atom(b)->0, atom(c)->0);
    let (p1, b1) = spec_lbp(o1)->0;
    let (p2, b2) = spec_lbp(o2)->0;
    assert(b1 == additive(o1)->0 && b2 == multiplicative(o2)->0 && p2 > p1);
    lemma_atom_primary(t, 0);
    lemma_atom_primary(t, 2);
    lemma_last_atom(t, p2 + 1);
    let inner = bin(b2, eb, ec);
    assert(spec_climb(t, 5, p1 + 1, inner) == Some((inner, 5int)));
    assert(spec_climb(t, 3, p1 + 1, eb) == Some((inner, 5int)));
    assert(spec_expression(t, 2, p1 + 1) == Some((inner, 5int)));
    let whole = bin(b1, ea, inner);
    assert(spec_climb(t, 5, 0, whole) == Some((whole, 5int)));
    assert(spec_climb(t, 1, 0, ea) == Some((whole, 5int)));
}

/// Where the first operator binds at least as tightly as the second, the
/// first groups first: `(a o1 b) o2 c`.
proof fn lemma_high_low(a: SpecTok, b: SpecTok, c: SpecTok, o1: OpTok, o2: OpTok)
    requires
        atom(a) is Some,
        atom(b) is Some,
        atom(c) is Some,
        additive(o1) is Some || multiplicative(o1) is Some,
        additive(o2) is Some || multiplicative(o2) is Some,
        additive(o1) is Some ==> additive(o2) is Some,
    ensures
        spec_expression(three(a, o1, b, o2, c), 0, 0) == Some((bin(spec_lbp(o2)->Some_0.1,
            bin(spec_lbp(o1)->Some_0.1, atom(a)->0, atom(b)->0), atom(c)->0), 5int)),
        additive(o1) is Some ==> spec_lbp(o1)->Some_0.1 == additive(o1)->0,
        multiplicative(o1) is Some ==> spec_lbp(o1)->Some_0.1 == multiplicative(o1)->0,
        additive(o2) is Some ==> spec_lbp(o2)->Some_0.1 == additive(o2)->0,
        multiplicative(o2) is Some ==> spec_lbp(o2)->Some_0.1 == multiplicative(o2)->0,
{
    let t = three(a, o1, b, o2, c);
    let (ea, eb, ec) = (atom(a)->0, atom(b)->0, atom(c)->0);
    let (p1, b1) = spec_lbp(o1)->0;
    let (p2, b2) = spec_lbp(o2)->0;
    assert(p2 <= p1);
    lemma_atom_primary(t, 0);
    lemma_atom_primary(t, 2);
    lemma_last_atom(t, p2 + 1);
    assert(spec_climb(t, 3, p1 + 1, eb) == Some((eb, 3int)));
    assert(spec_expression(t, 2, p1 + 1) == Some((eb, 3int)));
    let left = bin(b1, ea, eb);
    let ec5 = spec_expression(t, 4, p2 + 1);
    assert(ec5 == Some((ec, 5int)));
    let whole = bin(b2, left, ec);
    assert(spec_climb(t, 5, 0, whole) == Some((whole, 5int)));
    assert(spec_climb(t, 3, 0, left) == Some((whole, 5int)));
    assert(spec_climb(t, 1, 0, ea) == Some((whole, 5int)));
}

} // verus!
