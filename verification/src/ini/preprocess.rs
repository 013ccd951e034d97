//! Preprocessor pass: comment stripping, `#set`/`#unset`, `#define` with
//! `$name` expansion, and `#if`/`#elif`/`#else`/`#endif` conditionals driven
//! by a symbol set (CELSIUS, LAMBDA, mcu_*, COMMS_COMPAT, ... — in
//! TunerStudio these come from project settings / [SettingGroups]).

use vstd::prelude::*;
use vstd::string::StringExecFns;
use super::Error;
use crate::proto::command::ident_len;
use crate::text::{
    chars_are, chars_eq, chars_of, find_char, find_in, first_index, ident_char, is_ident_char, is_ws, lemma_first_index, slice_chars,
    string_from_chars, trim, trim_bounds, trimmed, whitespace,
};

verus! {

// ------------------------------------------------------------ line pieces

/// Index where a line's comment starts (the first `;` outside double
/// quotes; a backslash inside quotes escapes the next character), scanning
/// from `i` in the given quote/escape state; the length when there is none.
pub open spec fn comment_pos(s: Seq<char>, i: int, in_quote: bool, escaped: bool) -> int
    decreases s.len() - i,
{
    if i < 0 || i >= s.len() {
        s.len() as int
    } else if escaped {
        comment_pos(s, i + 1, in_quote, false)
    } else if s[i] == '\\' && in_quote {
        comment_pos(s, i + 1, in_quote, true)
    } else if s[i] == '"' {
        comment_pos(s, i + 1, !in_quote, false)
    } else if s[i] == ';' && !in_quote {
        i
    } else {
        comment_pos(s, i + 1, in_quote, false)
    }
}

/// The line with its comment removed.
pub open spec fn spec_strip_comment(s: Seq<char>) -> Seq<char> {
    s.take(comment_pos(s, 0, false, false))
}

proof fn lemma_comment_pos_bound(s: Seq<char>, i: int, q: bool, e: bool)
    requires
        0 <= i,
    ensures
        0 <= comment_pos(s, i, q, e) <= s.len(),
    decreases s.len() - i,
{
    if i < s.len() {
        if e {
            lemma_comment_pos_bound(s, i + 1, q, false);
        } else if s[i] == '\\' && q {
            lemma_comment_pos_bound(s, i + 1, q, true);
        } else if s[i] == '"' {
            lemma_comment_pos_bound(s, i + 1, !q, false);
        } else if !(s[i] == ';' && !q) {
            lemma_comment_pos_bound(s, i + 1, q, false);
        }
    }
}

/// Truncate `v[lo..hi]` at the first `;` that is outside double quotes;
/// returns the end index.
pub fn strip_comment(v: &Vec<char>, lo: usize, hi: usize) -> (end: usize)
    requires
        lo <= hi <= v@.len(),
    ensures
        lo <= end <= hi,
        v@.subrange(lo as int, end as int) == spec_strip_comment(v@.subrange(lo as int, hi as int)),
{
    let ghost s = v@.subrange(lo as int, hi as int);
    let mut in_quote = false;
    let mut escaped = false;
    let mut i = lo;
    while i < hi
        invariant
            lo <= i <= hi,
            hi <= v@.len(),
            s == v@.subrange(lo as int, hi as int),
            comment_pos(s, 0, false, false) == comment_pos(s, i - lo, in_quote, escaped),
        decreases hi - i,
    {
        let c = v[i];
        assert(s[i - lo] == c);
        if escaped {
            escaped = false;
        } else if c == '\\' && in_quote {
            escaped = true;
        } else if c == '"' {
            in_quote = !in_quote;
        } else if c == ';' && !in_quote {
            proof {
                lemma_comment_pos_bound(s, 0, false, false);
                assert(v@.subrange(lo as int, i as int) =~= s.take(i - lo));
            }
            return i;
        }
        i = i + 1;
    }
    proof {
        assert(v@.subrange(lo as int, hi as int) =~= s.take(s.len() as int));
    }
    hi
}

/// Index of the first whitespace character.
pub open spec fn first_ws(s: Seq<char>) -> Option<nat>
    decreases s.len(),
{
    if s.len() == 0 {
        None
    } else if is_ws(s[0]) {
        Some(0)
    } else {
        match first_ws(s.drop_first()) {
            Some(i) => Some(i + 1),
            None => None,
        }
    }
}

proof fn lemma_first_ws(s: Seq<char>)
    ensures
        match first_ws(s) {
            Some(i) => i < s.len() && is_ws(s[i as int]) && forall|j: int| 0 <= j < i ==> !is_ws(s[j]),
            None => forall|j: int| 0 <= j < s.len() ==> !is_ws(s[j]),
        },
    decreases s.len(),
{
    if s.len() > 0 && !is_ws(s[0]) {
        lemma_first_ws(s.drop_first());
        assert forall|j: int| 1 <= j < s.len() implies s[j] == s.drop_first()[j - 1] by {}
    }
}

/// The first word of the trimmed text and the rest (which keeps its
/// leading whitespace).
pub open spec fn spec_split_word(s: Seq<char>) -> (Seq<char>, Seq<char>) {
    let t = trim(s);
    match first_ws(t) {
        Some(i) => (t.take(i as int), t.skip(i as int)),
        None => (t, seq![]),
    }
}

/// Split the trimmed text of `v[lo..hi]` at its first whitespace.
pub fn split_word(v: &Vec<char>, lo: usize, hi: usize) -> (r: (Vec<char>, Vec<char>))
    requires
        lo <= hi <= v@.len(),
    ensures
        (r.0@, r.1@) == spec_split_word(v@.subrange(lo as int, hi as int)),
{
    let (a, b) = trim_bounds(v, lo, hi);
    let ghost t = trim(v@.subrange(lo as int, hi as int));
    proof {
        lemma_first_ws(t);
    }
    let mut i = a;
    while i < b && !whitespace(v[i])
        invariant
            a <= i <= b,
            b <= v@.len(),
            t == v@.subrange(a as int, b as int),
            forall|j: int| 0 <= j < i - a ==> !is_ws(#[trigger] t[j]),
            match first_ws(t) {
                Some(k) => k < t.len() && is_ws(t[k as int]) && forall|j: int| 0 <= j < k ==> !is_ws(t[j]),
                None => forall|j: int| 0 <= j < t.len() ==> !is_ws(t[j]),
            },
        decreases b - i,
    {
        assert(t[i - a] == v@[i as int]);
        i = i + 1;
    }
    proof {
        if i < b {
            assert(t[i - a] == v@[i as int]);
        }
    }
    let w = slice_chars(v, a, i);
    let rest = slice_chars(v, i, b);
    proof {
        if i < b {
            assert(first_ws(t) == Some((i - a) as nat));
            assert(w@ =~= t.take(i - a));
            assert(rest@ =~= t.skip(i - a));
        } else {
            assert(first_ws(t) is None);
            assert(w@ =~= t);
        }
    }
    (w, rest)
}

// ------------------------------------------------------------ symbol sets

/// The symbols a vector of names holds.
pub open spec fn symbol_set(v: Seq<String>) -> Set<Seq<char>> {
    Set::new(|s: Seq<char>| exists|i: int| 0 <= i < v.len() && (#[trigger] v[i])@ == s)
}

/// Whether the set holds `name`.
pub fn has_symbol(symbols: &Vec<String>, name: &Vec<char>) -> (r: bool)
    ensures
        r == symbol_set(symbols@).contains(name@),
{
    let key = string_from_chars(name.as_slice());
    let mut i: usize = 0;
    while i < symbols.len()
        invariant
            i <= symbols@.len(),
            key@ == name@,
            forall|j: int| 0 <= j < i ==> symbols@[j]@ != name@,
        decreases symbols@.len() - i,
    {
        if symbols[i] == key {
            assert(symbol_set(symbols@).contains(name@)) by {
                assert(symbols@[i as int]@ == name@);
            }
            return true;
        }
        i = i + 1;
    }
    false
}

/// Add `name` to the set.
pub fn insert_symbol(symbols: &mut Vec<String>, name: &Vec<char>)
    ensures
        symbol_set(final(symbols)@) == symbol_set(old(symbols)@).insert(name@),
{
    if !has_symbol(symbols, name) {
        let ghost before = symbols@;
        symbols.push(string_from_chars(name.as_slice()));
        assert forall|s: Seq<char>| symbol_set(symbols@).contains(s) <==> symbol_set(before).insert(name@).contains(s) by {
            if symbol_set(before).contains(s) {
                let i = choose|i: int| 0 <= i < before.len() && (#[trigger] before[i])@ == s;
                assert(symbols@[i]@ == s);
            }
            if symbol_set(symbols@).contains(s) {
                let i = choose|i: int| 0 <= i < symbols@.len() && (#[trigger] symbols@[i])@ == s;
                if i < before.len() {
                    assert(before[i]@ == s);
                }
            }
            if s == name@ {
                assert(symbols@[before.len() as int]@ == s);
            }
        }
        assert(symbol_set(symbols@) =~= symbol_set(before).insert(name@));
    } else {
        assert(symbol_set(symbols@) =~= symbol_set(symbols@).insert(name@));
    }
}

/// Remove `name` from the set.
pub fn remove_symbol(symbols: &mut Vec<String>, name: &Vec<char>)
    ensures
        symbol_set(final(symbols)@) == symbol_set(old(symbols)@).remove(name@),
{
    let key = string_from_chars(name.as_slice());
    let ghost before = symbols@;
    let mut kept: Vec<String> = Vec::new();
    let mut i: usize = 0;
    while i < symbols.len()
        invariant
            i <= symbols@.len(),
            symbols@ == before,
            key@ == name@,
            forall|s: Seq<char>| symbol_set(kept@).contains(s) <==> (s != name@ && exists|j: int| 0 <= j < i && (#[trigger] before[j])@ == s),
        decreases symbols@.len() - i,
    {
        if !(symbols[i] == key) {
            let ghost prev = kept@;
            kept.push(symbols[i].clone());
            assert forall|s: Seq<char>| symbol_set(kept@).contains(s) <==> (s != name@ && exists|j: int| 0 <= j < i + 1 && (#[trigger] before[j])@ == s) by {
                if symbol_set(kept@).contains(s) {
                    let k = choose|k: int| 0 <= k < kept@.len() && (#[trigger] kept@[k])@ == s;
                    if k < prev.len() {
                        assert(prev[k]@ == s);
                        assert(symbol_set(prev).contains(s));
                    }
                }
                if s != name@ && exists|j: int| 0 <= j < i + 1 && (#[trigger] before[j])@ == s {
                    let j = choose|j: int| 0 <= j < i + 1 && (#[trigger] before[j])@ == s;
                    if j < i {
                        assert(symbol_set(prev).contains(s));
                        let k = choose|k: int| 0 <= k < prev.len() && (#[trigger] prev[k])@ == s;
                        assert(kept@[k]@ == s);
                    } else {
                        assert(kept@[prev.len() as int]@ == s);
                    }
                }
            }
        } else {
            assert forall|s: Seq<char>| symbol_set(kept@).contains(s) <==> (s != name@ && exists|j: int| 0 <= j < i + 1 && (#[trigger] before[j])@ == s) by {
                if s != name@ && exists|j: int| 0 <= j < i + 1 && (#[trigger] before[j])@ == s {
                    let j = choose|j: int| 0 <= j < i + 1 && (#[trigger] before[j])@ == s;
                    assert(j < i);
                }
            }
        }
        i = i + 1;
    }
    assert(symbol_set(kept@) =~= symbol_set(before).remove(name@));
    *symbols = kept;
}

/// `#if X` / `#if !X`: a bare symbol name, true when present in the set;
/// `None` for an empty condition.
pub open spec fn spec_eval_condition(cond: Seq<char>, symbols: Set<Seq<char>>) -> Option<bool> {
    let c = trim(cond);
    if c.len() > 0 && c[0] == '!' {
        Some(!symbols.contains(trim(c.drop_first())))
    } else if c.len() == 0 {
        None
    } else {
        Some(symbols.contains(c))
    }
}

pub fn eval_condition(cond: &Vec<char>, symbols: &Vec<String>, num: u32) -> (r: Result<bool, Error>)
    ensures
        match spec_eval_condition(cond@, symbol_set(symbols@)) {
            Some(b) => r == Ok::<bool, Error>(b),
            None => r matches Err(Error::Parse(n, _)) && n == num,
        },
{
    let (a, b) = trim_bounds(cond, 0, cond.len());
    assert(cond@.subrange(0, cond@.len() as int) =~= cond@);
    let ghost c = trim(cond@);
    if b > a && cond[a] == '!' {
        let name = trimmed(cond, a + 1, b);
        assert(cond@.subrange(a + 1, b as int) =~= c.drop_first());
        return Ok(!has_symbol(symbols, &name));
    }
    if b == a {
        return Err(Error::at(num, String::from_str("#if with empty condition")));
    }
    let name = slice_chars(cond, a, b);
    Ok(has_symbol(symbols, &name))
}

// ------------------------------------------------------------ defines

/// `#define` bodies by name.
pub open spec fn defines_map(d: Seq<(Vec<char>, Vec<char>)>) -> Map<Seq<char>, Seq<char>>
    decreases d.len(),
{
    if d.len() == 0 {
        Map::empty()
    } else {
        defines_map(d.drop_last()).insert(d.last().0@, d.last().1@)
    }
}

proof fn lemma_defines_lookup(d: Seq<(Vec<char>, Vec<char>)>, name: Seq<char>, i: int)
    requires
        0 <= i < d.len(),
        d[i].0@ == name,
        forall|j: int| i < j < d.len() ==> d[j].0@ != name,
    ensures
        defines_map(d).contains_key(name),
        defines_map(d)[name] == d[i].1@,
    decreases d.len(),
{
    if i < d.len() - 1 {
        lemma_defines_lookup(d.drop_last(), name, i);
    }
}

proof fn lemma_defines_absent(d: Seq<(Vec<char>, Vec<char>)>, name: Seq<char>)
    requires
        forall|j: int| 0 <= j < d.len() ==> d[j].0@ != name,
    ensures
        !defines_map(d).contains_key(name),
    decreases d.len(),
{
    if d.len() > 0 {
        lemma_defines_absent(d.drop_last(), name);
    }
}

/// The body of the latest definition of `name`.
fn lookup_define<'a>(defines: &'a Vec<(Vec<char>, Vec<char>)>, name: &Vec<char>) -> (r: Option<&'a Vec<char>>)
    ensures
        match r {
            Some(body) => defines_map(defines@).contains_key(name@) && defines_map(defines@)[name@] == body@,
            None => !defines_map(defines@).contains_key(name@),
        },
{
    let mut i = defines.len();
    while i > 0
        invariant
            i <= defines@.len(),
            forall|j: int| i <= j < defines@.len() ==> defines@[j].0@ != name@,
        decreases i,
    {
        i = i - 1;
        if chars_eq(&defines[i].0, name) {
            proof {
                lemma_defines_lookup(defines@, name@, i as int);
            }
            return Some(&defines[i].1);
        }
    }
    proof {
        lemma_defines_absent(defines@, name@);
    }
    None
}

/// `text` with each `$name` (not preceded by `\`) replaced by its define
/// body; a `$` with no name after it stays. `prev_backslash` says whether
/// the character before `text` was a backslash. `None` names an undefined
/// define.
pub open spec fn spec_expand(t: Seq<char>, defs: Map<Seq<char>, Seq<char>>, prev_backslash: bool) -> Option<Seq<char>>
    decreases t.len(),
{
    if t.len() == 0 {
        Some(seq![])
    } else if t[0] == '$' && !prev_backslash {
        let k = ident_len(t.drop_first());
        let name = t.subrange(1, 1 + k as int);
        if k == 0 {
            match spec_expand(t.drop_first(), defs, false) {
                Some(r) => Some(seq!['$'] + r),
                None => None,
            }
        } else if defs.contains_key(name) && 1 + k <= t.len() {
            match spec_expand(t.skip(1 + k as int), defs, false) {
                Some(r) => Some(defs[name] + r),
                None => None,
            }
        } else {
            None
        }
    } else {
        match spec_expand(t.drop_first(), defs, t[0] == '\\') {
            Some(r) => Some(seq![t[0]] + r),
            None => None,
        }
    }
}

pub open spec fn opt_cat(d: Seq<char>, o: Option<Seq<char>>) -> Option<Seq<char>> {
    match o {
        Some(r) => Some(d + r),
        None => None,
    }
}

/// Replace each `$name` (not preceded by `\` — `"\$tsCanId"` is a runtime
/// variable reference inside command strings, not a define use) with its
/// define body.
pub fn expand(text: &Vec<char>, defines: &Vec<(Vec<char>, Vec<char>)>, num: u32) -> (r: Result<Vec<char>, Error>)
    ensures
        match spec_expand(text@, defines_map(defines@), false) {
            Some(e) => r matches Ok(v) && v@ == e,
            None => r matches Err(Error::Parse(n, _)) && n == num,
        },
{
    let n = text.len();
    let mut out: Vec<char> = Vec::new();
    let mut prev_bs = false;
    let mut i: usize = 0;
    let ghost defs = defines_map(defines@);
    assert(text@.skip(0) =~= text@);
    while i < n
        invariant
            n == text@.len(),
            i <= n,
            defs == defines_map(defines@),
            spec_expand(text@, defs, false) == opt_cat(out@, spec_expand(text@.skip(i as int), defs, prev_bs)),
        decreases n - i,
    {
        let ghost t = text@.skip(i as int);
        let c = text[i];
        assert(t[0] == c);
        if c == '$' && !prev_bs {
            let mut j = i + 1;
            let ghost u = t.drop_first();
            assert(u =~= text@.skip(i + 1));
            proof {
                crate::proto::command::lemma_ident_len_bound(u);
            }
            while j < n && ident_char(text[j])
                invariant
                    i + 1 <= j <= n,
                    n == text@.len(),
                    u == text@.skip(i + 1),
                    j - (i + 1) <= ident_len(u),
                    ident_len(u) <= u.len(),
                    forall|m: int| 0 <= m < ident_len(u) ==> is_ident_char(#[trigger] u[m]),
                    ident_len(u) < u.len() ==> !is_ident_char(u[ident_len(u) as int]),
                decreases n - j,
            {
                assert(u[j - (i + 1)] == text@[j as int]);
                j = j + 1;
            }
            proof {
                if j < n {
                    assert(u[j - (i + 1)] == text@[j as int]);
                }
                assert(j - (i + 1) == ident_len(u));
            }
            let name = slice_chars(text, i + 1, j);
            assert(name@ =~= t.subrange(1, 1 + ident_len(u) as int));
            if j == i + 1 {
                let ghost before = out@;
                out.push('$');
                proof {
                    assert(t.drop_first() =~= text@.skip(i + 1));
                    match spec_expand(text@.skip(i + 1), defs, false) {
                        Some(r) => {
                            assert(before + (seq!['$'] + r) =~= out@ + r);
                        },
                        None => {},
                    }
                }
            } else {
                match lookup_define(defines, &name) {
                    Some(body) => {
                        let ghost before = out@;
                        let mut k: usize = 0;
                        while k < body.len()
                            invariant
                                k <= body@.len(),
                                out@ == before + body@.take(k as int),
                            decreases body@.len() - k,
                        {
                            out.push(body[k]);
                            k = k + 1;
                            assert(out@ =~= before + body@.take(k as int));
                        }
                        proof {
                            assert(body@.take(body@.len() as int) =~= body@);
                            assert(t.skip(1 + ident_len(u) as int) =~= text@.skip(j as int));
                            match spec_expand(text@.skip(j as int), defs, false) {
                                Some(r) => {
                                    assert(before + (body@ + r) =~= out@ + r);
                                },
                                None => {},
                            }
                        }
                    },
                    None => {
                        let mut m = String::from_str("undefined $");
                        crate::text::append_chars(&mut m, &name);
                        return Err(Error::at(num, m));
                    },
                }
            }
            prev_bs = false;
            i = j;
        } else {
            let ghost before = out@;
            out.push(c);
            proof {
                assert(t.drop_first() =~= text@.skip(i + 1));
                match spec_expand(text@.skip(i + 1), defs, c == '\\') {
                    Some(r) => {
                        assert(before + (seq![c] + r) =~= out@ + r);
                    },
                    None => {},
                }
            }
            prev_bs = c == '\\';
            i = i + 1;
        }
    }
    proof {
        assert(text@.skip(n as int) =~= Seq::<char>::empty());
        assert(out@ + Seq::<char>::empty() =~= out@);
    }
    Ok(out)
}

// ------------------------------------------------------------ the pass

/// One surviving source line after preprocessing.
#[derive(Debug, Clone)]
pub struct Line {
    /// 1-based line number in the source file, for error messages.
    pub num: u32,
    pub text: String,
}

/// One open `#if` chain.
#[derive(Clone, Copy, Debug)]
pub struct IfFrame {
    /// This branch is being emitted.
    pub active: bool,
    /// Some earlier branch of this if-chain was taken (suppresses elif/else).
    pub taken: bool,
    /// The enclosing context was active.
    pub parent_active: bool,
}

/// The preprocessor's state between lines.
pub struct PPState {
    pub symbols: Set<Seq<char>>,
    pub defines: Map<Seq<char>, Seq<char>>,
    pub stack: Seq<IfFrame>,
    /// Emitted lines: number and expanded text.
    pub out: Seq<(u32, Seq<char>)>,
}

pub open spec fn line_view(l: Line) -> (u32, Seq<char>) {
    (l.num, l.text@)
}

pub open spec fn lines_view(v: Seq<Line>) -> Seq<(u32, Seq<char>)> {
    v.map_values(|l: Line| line_view(l))
}

pub open spec fn pp_view(
    symbols: Seq<String>,
    defines: Seq<(Vec<char>, Vec<char>)>,
    stack: Seq<IfFrame>,
    out: Seq<Line>,
) -> PPState {
    PPState {
        symbols: symbol_set(symbols),
        defines: defines_map(defines),
        stack,
        out: lines_view(out),
    }
}

/// Every open branch is being emitted.
pub open spec fn all_active(stack: Seq<IfFrame>) -> bool {
    forall|i: int| 0 <= i < stack.len() ==> #[trigger] stack[i].active
}

pub open spec fn set_top(st: PPState, f: IfFrame) -> PPState {
    PPState { stack: st.stack.update(st.stack.len() - 1, f), ..st }
}

pub enum Directive {
    If,
    Elif,
    Else,
    Endif,
    SetSymbol,
    UnsetSymbol,
    Define,
    Unknown,
}

pub open spec fn directive_of(w: Seq<char>) -> Directive {
    if w == seq!['i', 'f'] {
        Directive::If
    } else if w == seq!['e', 'l', 'i', 'f'] {
        Directive::Elif
    } else if w == seq!['e', 'l', 's', 'e'] {
        Directive::Else
    } else if w == seq!['e', 'n', 'd', 'i', 'f'] {
        Directive::Endif
    } else if w == seq!['s', 'e', 't'] {
        Directive::SetSymbol
    } else if w == seq!['u', 'n', 's', 'e', 't'] {
        Directive::UnsetSymbol
    } else if w == seq!['d', 'e', 'f', 'i', 'n', 'e'] {
        Directive::Define
    } else {
        Directive::Unknown
    }
}

/// `#define name = body`: the body, expanded against the earlier defines,
/// becomes the definition of the trimmed name; `None` when there is no `=`
/// or the body names an undefined define.
pub open spec fn define_step(defs: Map<Seq<char>, Seq<char>>, rest: Seq<char>) -> Option<Map<Seq<char>, Seq<char>>> {
    match first_index(rest, '=') {
        Some(i) => match spec_expand(trim(rest.skip(i + 1 as int)), defs, false) {
            Some(body) => Some(defs.insert(trim(rest.take(i as int)), body)),
            None => None,
        },
        None => None,
    }
}

/// A directive line (`d` is the text after the `#`). `Err` is an error on
/// this line.
pub open spec fn directive_line(st: PPState, d: Seq<char>) -> Result<PPState, ()> {
    let (word, rest) = spec_split_word(d);
    let active = all_active(st.stack);
    let n = st.stack.len();
    match directive_of(word) {
        Directive::If => {
            if active {
                match spec_eval_condition(rest, st.symbols) {
                    Some(c) => Ok(PPState {
                        stack: st.stack.push(IfFrame { active: c, taken: c, parent_active: true }),
                        ..st
                    }),
                    None => Err(()),
                }
            } else {
                Ok(PPState {
                    stack: st.stack.push(IfFrame { active: false, taken: false, parent_active: false }),
                    ..st
                })
            }
        },
        Directive::Elif => {
            if n == 0 {
                Err(())
            } else {
                let f = st.stack[n - 1];
                if f.taken {
                    Ok(set_top(st, IfFrame { active: false, ..f }))
                } else if !f.parent_active {
                    Ok(set_top(st, IfFrame { active: false, taken: false, ..f }))
                } else {
                    match spec_eval_condition(rest, st.symbols) {
                        Some(c) => Ok(set_top(st, IfFrame { active: c, taken: c, ..f })),
                        None => Err(()),
                    }
                }
            }
        },
        Directive::Else => {
            if n == 0 {
                Err(())
            } else {
                let f = st.stack[n - 1];
                Ok(set_top(st, IfFrame { active: f.parent_active && !f.taken, taken: true, ..f }))
            }
        },
        Directive::Endif => {
            if n == 0 {
                Err(())
            } else {
                Ok(PPState { stack: st.stack.drop_last(), ..st })
            }
        },
        Directive::SetSymbol => {
            if active {
                Ok(PPState { symbols: st.symbols.insert(trim(rest)), ..st })
            } else {
                Ok(st)
            }
        },
        Directive::UnsetSymbol => {
            if active {
                Ok(PPState { symbols: st.symbols.remove(trim(rest)), ..st })
            } else {
                Ok(st)
            }
        },
        Directive::Define => {
            if active {
                match define_step(st.defines, rest) {
                    Some(defs) => Ok(PPState { defines: defs, ..st }),
                    None => Err(()),
                }
            } else {
                Ok(st)
            }
        },
        Directive::Unknown => Err(()),
    }
}

/// One raw source line numbered `num`: comment stripped and trimmed; blank
/// lines vanish, `#` lines are directives, other lines are emitted (with
/// defines expanded) when every open branch is active.
pub open spec fn pp_line(st: PPState, num: u32, raw: Seq<char>) -> Result<PPState, ()> {
    let t = trim(spec_strip_comment(raw));
    if t.len() == 0 {
        Ok(st)
    } else if t[0] == '#' {
        directive_line(st, t.drop_first())
    } else if all_active(st.stack) {
        match spec_expand(t, st.defines, false) {
            Some(e) => Ok(PPState { out: st.out.push((num, e)), ..st }),
            None => Err(()),
        }
    } else {
        Ok(st)
    }
}

/// The lines of `s` (split at `\n`) numbered from `num`: the state after
/// them, or the state before the first line in error with its number.
/// A `\r` before the `\n` of a CRLF ending is whitespace, so trimming
/// removes it as `str::lines` would.
pub open spec fn pp_lines(st: PPState, s: Seq<char>, num: nat) -> (PPState, Option<nat>)
    decreases s.len(),
{
    match first_index(s, '\n') {
        Some(i) => {
            proof {
                lemma_first_index(s, '\n');
            }
            match pp_line(st, num as u32, s.take(i as int)) {
                Ok(st2) => pp_lines(st2, s.skip(i + 1 as int), num + 1),
                Err(_) => (st, Some(num)),
            }
        },
        None => match pp_line(st, num as u32, s) {
            Ok(st2) => (st2, None),
            Err(_) => (st, Some(num)),
        },
    }
}

/// The whole pass over `src` with the initial symbol set: the final state,
/// and the line of the first error (0 for an `#if` left open at the end).
pub open spec fn spec_preprocess(src: Seq<char>, symbols: Set<Seq<char>>) -> (PPState, Option<nat>) {
    let st0 = PPState { symbols, defines: Map::empty(), stack: seq![], out: seq![] };
    let (st, err) = pp_lines(st0, src, 1);
    match err {
        Some(n) => (st, Some(n)),
        None => if st.stack.len() > 0 {
            (st, Some(0))
        } else {
            (st, None)
        },
    }
}

fn stack_active(stack: &Vec<IfFrame>) -> (r: bool)
    ensures
        r == all_active(stack@),
{
    let mut i: usize = 0;
    while i < stack.len()
        invariant
            i <= stack@.len(),
            forall|j: int| 0 <= j < i ==> #[trigger] stack@[j].active,
        decreases stack@.len() - i,
    {
        if !stack[i].active {
            return false;
        }
        i = i + 1;
    }
    true
}

fn classify_directive(w: &Vec<char>) -> (d: Directive)
    ensures
        d == directive_of(w@),
{
    proof {
        reveal_strlit("if");
        reveal_strlit("elif");
        reveal_strlit("else");
        reveal_strlit("endif");
        reveal_strlit("set");
        reveal_strlit("unset");
        reveal_strlit("define");
        assert("if"@ =~= seq!['i', 'f']);
        assert("elif"@ =~= seq!['e', 'l', 'i', 'f']);
        assert("else"@ =~= seq!['e', 'l', 's', 'e']);
        assert("endif"@ =~= seq!['e', 'n', 'd', 'i', 'f']);
        assert("set"@ =~= seq!['s', 'e', 't']);
        assert("unset"@ =~= seq!['u', 'n', 's', 'e', 't']);
        assert("define"@ =~= seq!['d', 'e', 'f', 'i', 'n', 'e']);
    }
    if chars_are(w, "if") {
        Directive::If
    } else if chars_are(w, "elif") {
        Directive::Elif
    } else if chars_are(w, "else") {
        Directive::Else
    } else if chars_are(w, "endif") {
        Directive::Endif
    } else if chars_are(w, "set") {
        Directive::SetSymbol
    } else if chars_are(w, "unset") {
        Directive::UnsetSymbol
    } else if chars_are(w, "define") {
        Directive::Define
    } else {
        Directive::Unknown
    }
}

fn unknown_directive(num: u32, word: &Vec<char>) -> (e: Error)
    ensures
        e matches Error::Parse(n, _) && n == num,
{
    let mut m = String::from_str("unknown directive #");
    crate::text::append_chars(&mut m, word);
    Error::at(num, m)
}

/// Apply a `#define` (its text after the word is `rest`).
fn apply_define(defines: &mut Vec<(Vec<char>, Vec<char>)>, rest: &Vec<char>, num: u32) -> (r: Result<(), Error>)
    ensures
        match define_step(defines_map(old(defines)@), rest@) {
            Some(d) => r is Ok && defines_map(final(defines)@) == d,
            None => r matches Err(Error::Parse(n, _)) && n == num,
        },
{
    proof {
        lemma_first_index(rest@, '=');
    }
    match find_char(rest, '=') {
        None => Err(Error::at(num, String::from_str("#define without '='"))),
        Some(i) => {
            let name = trimmed(rest, 0, i);
            let rl = rest.len();
            let body = trimmed(rest, i + 1, rl);
            assert(rest@.subrange(0, i as int) =~= rest@.take(i as int));
            assert(rest@.subrange(i + 1, rest@.len() as int) =~= rest@.skip(i + 1));
            match expand(&body, defines, num) {
                Ok(e) => {
                    let ghost before = defines@;
                    defines.push((name, e));
                    assert(defines@.drop_last() =~= before);
                    Ok(())
                },
                Err(err) => Err(err),
            }
        },
    }
}

/// Process one raw line `v[lo..hi]`.
fn process_line(
    symbols: &mut Vec<String>,
    defines: &mut Vec<(Vec<char>, Vec<char>)>,
    stack: &mut Vec<IfFrame>,
    out: &mut Vec<Line>,
    v: &Vec<char>,
    lo: usize,
    hi: usize,
    num: u32,
) -> (r: Result<(), Error>)
    requires
        lo <= hi <= v@.len(),
    ensures
        match pp_line(pp_view(old(symbols)@, old(defines)@, old(stack)@, old(out)@), num, v@.subrange(lo as int, hi as int)) {
            Ok(st) => r is Ok && pp_view(final(symbols)@, final(defines)@, final(stack)@, final(out)@) == st,
            Err(_) => (r matches Err(Error::Parse(n, _)) && n == num) && symbol_set(final(symbols)@) == symbol_set(old(symbols)@),
        },
{
    let ghost raw = v@.subrange(lo as int, hi as int);
    let ghost st = pp_view(symbols@, defines@, stack@, out@);
    let end = strip_comment(v, lo, hi);
    let (a, b) = trim_bounds(v, lo, end);
    let ghost t = v@.subrange(a as int, b as int);
    assert(t == trim(spec_strip_comment(raw)));
    if a == b {
        return Ok(());
    }
    assert(t[0] == v@[a as int]);
    let active = stack_active(stack);
    if v[a] == '#' {
        assert(v@.subrange(a + 1, b as int) =~= t.drop_first());
        let (word, rest) = split_word(v, a + 1, b);
        let d = classify_directive(&word);
        let n = stack.len();
        match d {
            Directive::If => {
                if active {
                    match eval_condition(&rest, symbols, num) {
                        Ok(c) => {
                            stack.push(IfFrame { active: c, taken: c, parent_active: true });
                        },
                        Err(e) => {
                            return Err(e);
                        },
                    }
                } else {
                    stack.push(IfFrame { active: false, taken: false, parent_active: false });
                }
            },
            Directive::Elif => {
                if n == 0 {
                    return Err(Error::at(num, String::from_str("#elif without #if")));
                }
                let f = stack[n - 1];
                if f.taken {
                    stack.set(n - 1, IfFrame { active: false, taken: f.taken, parent_active: f.parent_active });
                } else if !f.parent_active {
                    stack.set(n - 1, IfFrame { active: false, taken: false, parent_active: f.parent_active });
                } else {
                    match eval_condition(&rest, symbols, num) {
                        Ok(c) => {
                            stack.set(n - 1, IfFrame { active: c, taken: c, parent_active: f.parent_active });
                        },
                        Err(e) => {
                            return Err(e);
                        },
                    }
                }
            },
            Directive::Else => {
                if n == 0 {
                    return Err(Error::at(num, String::from_str("#else without #if")));
                }
                let f = stack[n - 1];
                stack.set(n - 1, IfFrame { active: f.parent_active && !f.taken, taken: true, parent_active: f.parent_active });
            },
            Directive::Endif => {
                if n == 0 {
                    return Err(Error::at(num, String::from_str("#endif without #if")));
                }
                stack.pop();
            },
            Directive::SetSymbol => {
                if active {
                    let name = trimmed(&rest, 0, rest.len());
                    assert(rest@.subrange(0, rest@.len() as int) =~= rest@);
                    insert_symbol(symbols, &name);
                }
            },
            Directive::UnsetSymbol => {
                if active {
                    let name = trimmed(&rest, 0, rest.len());
                    assert(rest@.subrange(0, rest@.len() as int) =~= rest@);
                    remove_symbol(symbols, &name);
                }
            },
            Directive::Define => {
                if active {
                    match apply_define(defines, &rest, num) {
                        Ok(()) => {},
                        Err(e) => {
                            return Err(e);
                        },
                    }
                }
            },
            Directive::Unknown => {
                return Err(unknown_directive(num, &word));
            },
        }
        assert(pp_view(symbols@, defines@, stack@, out@) == directive_line(st, t.drop_first()).unwrap());
        return Ok(());
    }
    if active {
        let text = slice_chars(v, a, b);
        match expand(&text, defines, num) {
            Ok(e) => {
                let ghost before = out@;
                out.push(Line { num, text: string_from_chars(e.as_slice()) });
                assert(lines_view(out@) =~= lines_view(before).push((num, e@)));
            },
            Err(err) => {
                return Err(err);
            },
        }
    }
    Ok(())
}

/// Run the preprocessor over `src`. `symbols` is the caller's symbol set;
/// `#set`/`#unset` in active branches change it. Returns the surviving
/// lines, numbered from 1, with defines expanded.
pub fn preprocess(src: &str, symbols: &mut Vec<String>) -> (r: Result<Vec<Line>, Error>)
    requires
        src@.len() < u32::MAX,
    ensures
        ({
            let (st, err) = spec_preprocess(src@, symbol_set(old(symbols)@));
            &&& symbol_set(final(symbols)@) == st.symbols
            &&& match err {
                Some(n) => r matches Err(Error::Parse(m, _)) && m == n,
                None => r matches Ok(lines) && lines_view(lines@) == st.out,
            }
        }),
{
    let v = chars_of(src);
    let n = v.len();
    let mut defines: Vec<(Vec<char>, Vec<char>)> = Vec::new();
    let mut stack: Vec<IfFrame> = Vec::new();
    let mut out: Vec<Line> = Vec::new();
    let ghost st0 = PPState { symbols: symbol_set(symbols@), defines: Map::empty(), stack: seq![], out: seq![] };
    let mut ls: usize = 0;
    let mut num: u32 = 1;
    assert(v@.skip(0) =~= v@);
    assert(lines_view(out@) =~= seq![]);
    loop
        invariant
            ls <= n,
            n == v@.len(),
            v@ == src@,
            n < u32::MAX,
            1 <= num <= ls + 1,
            pp_lines(st0, src@, 1) == pp_lines(pp_view(symbols@, defines@, stack@, out@), v@.skip(ls as int), num as nat),
            st0.symbols == symbol_set(old(symbols)@),
            st0 == (PPState { symbols: symbol_set(old(symbols)@), defines: Map::empty(), stack: seq![], out: seq![] }),
        decreases n - ls,
    {
        let ghost s = v@.skip(ls as int);
        assert(s =~= v@.subrange(ls as int, n as int));
        let ghost st = pp_view(symbols@, defines@, stack@, out@);
        match find_in(&v, '\n', ls, n) {
            Some(k) => {
                proof {
                    lemma_first_index(s, '\n');
                    assert(s.take(k - ls) =~= v@.subrange(ls as int, k as int));
                    assert(s.skip(k - ls + 1) =~= v@.skip(k + 1));
                }
                match process_line(symbols, &mut defines, &mut stack, &mut out, &v, ls, k, num) {
                    Ok(()) => {},
                    Err(e) => {
                        return Err(e);
                    },
                }
                ls = k + 1;
                num = num + 1;
            },
            None => {
                assert(s =~= v@.subrange(ls as int, n as int));
                match process_line(symbols, &mut defines, &mut stack, &mut out, &v, ls, n, num) {
                    Ok(()) => {},
                    Err(e) => {
                        return Err(e);
                    },
                }
                if stack.len() > 0 {
                    return Err(Error::at(0, String::from_str("unterminated #if")));
                }
                return Ok(out);
            },
        }
    }
}

// ------------------------------------------------------------ laws

/// Text without a `$` comes out of expansion unchanged, whatever is
/// defined.
pub proof fn lemma_expand_plain(t: Seq<char>, defs: Map<Seq<char>, Seq<char>>, prev_backslash: bool)
    requires
        forall|i: int| 0 <= i < t.len() ==> t[i] != '$',
    ensures
        spec_expand(t, defs, prev_backslash) == Some(t),
    decreases t.len(),
{
    if t.len() > 0 {
        lemma_expand_plain(t.drop_first(), defs, t[0] == '\\');
        assert(seq![t[0]] + t.drop_first() =~= t);
    }
}

/// Inside a branch that is not taken, a line changes nothing but the
/// `#if` nesting: no line is emitted, and `#set`, `#unset` and `#define`
/// have no effect.
pub proof fn lemma_inactive_line(st: PPState, num: u32, raw: Seq<char>)
    requires
        !all_active(st.stack),
        pp_line(st, num, raw) is Ok,
    ensures
        pp_line(st, num, raw).unwrap().out == st.out,
        pp_line(st, num, raw).unwrap().symbols == st.symbols,
        pp_line(st, num, raw).unwrap().defines == st.defines,
{
}

/// An `#if` opened inside a branch that is not taken stays closed through
/// its whole chain: its `#elif` and `#else` branches are not taken either.
pub proof fn lemma_nested_if_stays_closed(st: PPState, d: Seq<char>)
    requires
        st.stack.len() > 0,
        !st.stack.last().parent_active,
        directive_line(st, d) is Ok,
        directive_of(spec_split_word(d).0) is Elif || directive_of(spec_split_word(d).0) is Else,
    ensures
        !directive_line(st, d).unwrap().stack.last().active,
        directive_line(st, d).unwrap().stack.len() == st.stack.len(),
{
}

} // verus!
