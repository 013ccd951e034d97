//! The integer- and text-valued pieces of the per-section parsers: the
//! `key = values` split with its warnings, value access by position, the
//! class keyword of a constant definition, and `[SettingGroups]`.

use vstd::prelude::*;
use vstd::string::StringExecFns;
use super::Error;
use super::lex::{is_float_literal, is_kv_split, spec_tokenize, split_kv, token_text, token_view, tokens_view, tokenize, SpecToken, Token};
use super::model::{ConstantClass, SettingGroup};
use super::preprocess::{line_view, lines_view, Line};
use crate::text::{append_chars, chars_are, chars_of, decimal, decimal_chars, string_from_chars, string_views, trim, trim_bounds};

verus! {

/// `i` is the first `=` outside quotes.
pub open spec fn first_split(s: Seq<char>, i: int) -> bool {
    is_kv_split(s, i) && forall|j: int| 0 <= j < i ==> !is_kv_split(s, j)
}

/// The trimmed key and value text around the first `=` outside quotes.
pub open spec fn spec_split_kv(s: Seq<char>) -> Option<(Seq<char>, Seq<char>)> {
    if exists|i: int| first_split(s, i) {
        let i = choose|i: int| first_split(s, i);
        Some((trim(s.take(i)), trim(s.skip(i + 1))))
    } else {
        None
    }
}

proof fn lemma_first_split_unique(s: Seq<char>, i: int, k: int)
    requires
        first_split(s, i),
        first_split(s, k),
    ensures
        i == k,
{
}

/// A `key = values` line's key and value tokens, if it is one and its
/// values tokenize.
pub open spec fn spec_kv(text: Seq<char>) -> Option<(Seq<char>, Seq<SpecToken>)> {
    match spec_split_kv(text) {
        Some((k, v)) => match spec_tokenize(v) {
            Some(ts) => Some((k, ts)),
            None => None,
        },
        None => None,
    }
}

/// A warning about line `num`.
pub open spec fn warning_text(num: u32, msg: Seq<char>) -> Seq<char> {
    "line "@ + decimal(num as nat) + ": "@ + msg
}

pub(crate) fn warn(warnings: &mut Vec<String>, num: u32, msg: &String)
    ensures
        final(warnings)@.len() == old(warnings)@.len() + 1,
        final(warnings)@.take(old(warnings)@.len() as int) == old(warnings)@,
        final(warnings)@.last()@ == warning_text(num, msg@),
{
    let mut w = String::from_str("line ");
    append_chars(&mut w, &decimal_chars(num as u64));
    w.append(": ");
    w.append(msg.as_str());
    let ghost before = warnings@;
    warnings.push(w);
    assert(warnings@.take(before.len() as int) =~= before);
}

/// A `key = values` line: its key and value tokens. A line that is not
/// one, or whose values do not tokenize, gets a warning instead.
pub fn kv(line: &Line, warnings: &mut Vec<String>) -> (r: Option<(String, Vec<Token>)>)
    ensures
        final(warnings)@.len() >= old(warnings)@.len(),
        final(warnings)@.take(old(warnings)@.len() as int) == old(warnings)@,
        match spec_split_kv(line.text@) {
            Some((k, v)) => match spec_tokenize(v) {
                Some(ts) => r matches Some((key, toks)) && key@ == k && tokens_view(toks@) == ts
                    && final(warnings)@.len() == old(warnings)@.len(),
                None => r is None && final(warnings)@.len() == old(warnings)@.len() + 1,
            },
            None => r is None && final(warnings)@.len() == old(warnings)@.len() + 1
                && final(warnings)@.last()@ == warning_text(line.num, "expected `key = ...`: "@ + line.text@),
        },
{
    match split_kv(line.text.as_str()) {
        None => {
            let mut m = String::from_str("expected `key = ...`: ");
            m.append(line.text.as_str());
            warn(warnings, line.num, &m);
            None
        },
        Some((key, rest)) => {
            proof {
                let k = choose|k: int| {
                    &&& #[trigger] is_kv_split(line.text@, k)
                    &&& forall|j: int| 0 <= j < k ==> !is_kv_split(line.text@, j)
                    &&& key@ == trim(line.text@.take(k))
                    &&& rest@ == trim(line.text@.skip(k + 1))
                };
                assert(first_split(line.text@, k));
                let i = choose|i: int| first_split(line.text@, i);
                lemma_first_split_unique(line.text@, i, k);
            }
            match tokenize(rest, line.num) {
                Ok(tokens) => Some((String::from_str(key), tokens)),
                Err(e) => {
                    let m = e.message();
                    warn(warnings, line.num, &m);
                    None
                },
            }
        },
    }
}

/// The text of value `idx`; a missing value is an error on line `num`.
pub fn str_tok(tokens: &Vec<Token>, idx: usize, num: u32) -> (r: Result<String, Error>)
    ensures
        idx < tokens@.len() ==> (r matches Ok(s) && s@ == token_text(token_view(tokens@[idx as int]))),
        idx >= tokens@.len() ==> (r matches Err(Error::Parse(n, _)) && n == num),
{
    if idx < tokens.len() {
        Ok(String::from_str(tokens[idx].as_str()))
    } else {
        let mut m = String::from_str("missing value #");
        if idx < usize::MAX {
            append_chars(&mut m, &decimal_chars((idx + 1) as u64));
        }
        Err(Error::at(num, m))
    }
}

/// The class a definition's first value names (`scalar`, `bits`, `array`,
/// `string`), if it is a bare word naming one.
pub open spec fn spec_constant_class(tokens: Seq<SpecToken>) -> Option<ConstantClass> {
    if tokens.len() > 0 && tokens[0] is Bare {
        let w = tokens[0]->Bare_0;
        if w == "scalar"@ {
            Some(ConstantClass::Scalar)
        } else if w == "bits"@ {
            Some(ConstantClass::Bits)
        } else if w == "array"@ {
            Some(ConstantClass::Array)
        } else if w == "string"@ {
            Some(ConstantClass::String)
        } else {
            None
        }
    } else {
        None
    }
}

/// Classes that mark a `key = ...` line as a constant definition.
pub fn constant_class(tokens: &Vec<Token>) -> (r: Option<ConstantClass>)
    ensures
        r == spec_constant_class(tokens_view(tokens@)),
{
    if tokens.len() == 0 {
        return None;
    }
    assert(tokens_view(tokens@)[0] == token_view(tokens@[0]));
    match &tokens[0] {
        Token::Bare(s) => {
            let w = chars_of(s.as_str());
            if chars_are(&w, "scalar") {
                Some(ConstantClass::Scalar)
            } else if chars_are(&w, "bits") {
                Some(ConstantClass::Bits)
            } else if chars_are(&w, "array") {
                Some(ConstantClass::Array)
            } else if chars_are(&w, "string") {
                Some(ConstantClass::String)
            } else {
                None
            }
        },
        _ => None,
    }
}

// ------------------------------------------------------------ [SettingGroups]

/// A setting group as keyword, display name, and (symbol, label) options.
pub open spec fn group_view(g: SettingGroup) -> (Seq<char>, Seq<char>, Seq<(Seq<char>, Seq<char>)>) {
    (g.keyword@, g.display_name@, g.options@.map_values(|o: (String, String)| (o.0@, o.1@)))
}

pub open spec fn groups_view(v: Seq<SettingGroup>) -> Seq<(Seq<char>, Seq<char>, Seq<(Seq<char>, Seq<char>)>)> {
    v.map_values(|g: SettingGroup| group_view(g))
}

/// Value `i`'s text, empty when there is no such value.
pub open spec fn text_or_empty(ts: Seq<SpecToken>, i: int) -> Seq<char> {
    if 0 <= i < ts.len() {
        token_text(ts[i])
    } else {
        seq![]
    }
}

/// One `[SettingGroups]` line: `settingGroup = keyword, name` opens a
/// group, `settingOption = symbol, label` adds to the last one; the groups
/// afterwards and whether the line drew a warning (not `key = ...`, values
/// that do not tokenize, an option before any group, another key). `None`
/// is an error: a group or option without its first value.
pub open spec fn sg_line(
    gs: Seq<(Seq<char>, Seq<char>, Seq<(Seq<char>, Seq<char>)>)>,
    text: Seq<char>,
) -> Option<(Seq<(Seq<char>, Seq<char>, Seq<(Seq<char>, Seq<char>)>)>, bool)> {
    match spec_split_kv(text) {
        None => Some((gs, true)),
        Some((key, v)) => match spec_tokenize(v) {
            None => Some((gs, true)),
            Some(ts) => if key == "settingGroup"@ {
                if ts.len() > 0 {
                    Some((gs.push((token_text(ts[0]), text_or_empty(ts, 1), seq![])), false))
                } else {
                    None
                }
            } else if key == "settingOption"@ {
                if ts.len() > 0 {
                    if gs.len() > 0 {
                        let g = gs.last();
                        Some((gs.update(gs.len() - 1, (g.0, g.1, g.2.push((token_text(ts[0]), text_or_empty(ts, 1))))), false))
                    } else {
                        Some((gs, true))
                    }
                } else {
                    None
                }
            } else {
                Some((gs, true))
            },
        },
    }
}

/// The `[SettingGroups]` lines in order: the groups and the number of
/// warnings, or the number of the line in error.
pub open spec fn spec_setting_groups(
    gs: Seq<(Seq<char>, Seq<char>, Seq<(Seq<char>, Seq<char>)>)>,
    lines: Seq<(u32, Seq<char>)>,
) -> Result<(Seq<(Seq<char>, Seq<char>, Seq<(Seq<char>, Seq<char>)>)>, nat), u32>
    decreases lines.len(),
{
    if lines.len() == 0 {
        Ok((gs, 0))
    } else {
        match spec_setting_groups(gs, lines.drop_last()) {
            Err(n) => Err(n),
            Ok((g2, w)) => match sg_line(g2, lines.last().1) {
                Some((g3, warned)) => Ok((g3, w + if warned { 1nat } else { 0nat })),
                None => Err(lines.last().0),
            },
        }
    }
}

proof fn lemma_error_stays(
    gs: Seq<(Seq<char>, Seq<char>, Seq<(Seq<char>, Seq<char>)>)>,
    lines: Seq<(u32, Seq<char>)>,
    j: int,
    k: int,
)
    requires
        0 <= j <= k <= lines.len(),
        spec_setting_groups(gs, lines.take(j)) is Err,
    ensures
        spec_setting_groups(gs, lines.take(k)) == spec_setting_groups(gs, lines.take(j)),
    decreases k - j,
{
    if j < k {
        lemma_error_stays(gs, lines, j, k - 1);
        assert(lines.take(k).drop_last() =~= lines.take(k - 1));
    }
}

pub fn setting_groups(lines: &Vec<Line>, groups: &mut Vec<SettingGroup>, warnings: &mut Vec<String>) -> (r: Result<(), Error>)
    ensures
        final(warnings)@.len() >= old(warnings)@.len(),
        match spec_setting_groups(groups_view(old(groups)@), lines_view(lines@)) {
            Ok((gs, w)) => r is Ok && groups_view(final(groups)@) == gs
                && final(warnings)@.len() == old(warnings)@.len() + w,
            Err(n) => r matches Err(Error::Parse(m, _)) && m == n,
        },
{
    let ghost g0 = groups_view(groups@);
    let ghost w0 = warnings@.len();
    let ghost lv = lines_view(lines@);
    let mut i: usize = 0;
    while i < lines.len()
        invariant
            i <= lines@.len(),
            lv == lines_view(lines@),
            w0 == old(warnings)@.len(),
            g0 == groups_view(old(groups)@),
            w0 <= warnings@.len(),
            spec_setting_groups(g0, lv.take(i as int)) matches Ok((gs, w))
                && gs == groups_view(groups@) && warnings@.len() == w0 + w,
        decreases lines@.len() - i,
    {
        let line = &lines[i];
        assert(lv.take(i + 1).drop_last() =~= lv.take(i as int));
        assert(lv.take(i + 1).last() == (line.num, line.text@));
        let ghost gs = groups_view(groups@);
        let ghost wl = warnings@.len();
        match kv(line, warnings) {
            None => {},
            Some((key, tokens)) => {
                let kc = chars_of(key.as_str());
                if chars_are(&kc, "settingGroup") {
                    let keyword = match str_tok(&tokens, 0, line.num) {
                        Ok(k) => k,
                        Err(e) => {
                            proof {
                                lemma_error_stays(g0, lv, i + 1, lines@.len() as int);
                                assert(lv.take(lines@.len() as int) =~= lv);
                            }
                            return Err(e);
                        },
                    };
                    let display_name = match str_tok(&tokens, 1, line.num) {
                        Ok(d) => d,
                        Err(_) => String::new(),
                    };
                    let g = SettingGroup { keyword, display_name, options: Vec::new() };
                    assert(group_view(g).2 =~= Seq::<(Seq<char>, Seq<char>)>::empty());
                    groups.push(g);
                    assert(groups_view(groups@) =~= gs.push(group_view(g)));
                } else if chars_are(&kc, "settingOption") {
                    let sym = match str_tok(&tokens, 0, line.num) {
                        Ok(k) => k,
                        Err(e) => {
                            proof {
                                lemma_error_stays(g0, lv, i + 1, lines@.len() as int);
                                assert(lv.take(lines@.len() as int) =~= lv);
                            }
                            return Err(e);
                        },
                    };
                    let label = match str_tok(&tokens, 1, line.num) {
                        Ok(d) => d,
                        Err(_) => String::new(),
                    };
                    if groups.len() > 0 {
                        let mut g = groups.pop().unwrap();
                        let ghost before = group_view(g);
                        g.options.push((sym, label));
                        assert(group_view(g).2 =~= before.2.push((sym@, label@)));
                        groups.push(g);
                        assert(groups_view(groups@) =~= gs.update(gs.len() - 1, (before.0, before.1, before.2.push((sym@, label@)))));
                    } else {
                        warn(warnings, line.num, &String::from_str("settingOption before settingGroup"));
                    }
                } else {
                    let mut m = String::from_str("unknown [SettingGroups] key `");
                    m.append(key.as_str());
                    m.append("`");
                    warn(warnings, line.num, &m);
                }
            },
        }
        i = i + 1;
    }
    assert(lv.take(lines@.len() as int) =~= lv);
    Ok(())
}

// ------------------------------------------------------------ sections

/// The section a `[Name]` line opens (name trimmed).
pub open spec fn header_name(text: Seq<char>) -> Option<Seq<char>> {
    let t = trim(text);
    if t.len() >= 2 && t[0] == '[' && t.last() == ']' {
        Some(trim(t.subrange(1, t.len() - 1)))
    } else {
        None
    }
}

/// Lines grouped under the section headers before them, in order of
/// appearance; lines before the first header belong to no group.
pub open spec fn spec_group_sections(lines: Seq<(u32, Seq<char>)>) -> Seq<(Seq<char>, Seq<(u32, Seq<char>)>)>
    decreases lines.len(),
{
    if lines.len() == 0 {
        seq![]
    } else {
        let g = spec_group_sections(lines.drop_last());
        let l = lines.last();
        match header_name(l.1) {
            Some(n) => g.push((n, seq![])),
            None => if g.len() > 0 {
                g.update(g.len() - 1, (g.last().0, g.last().1.push(l)))
            } else {
                g
            },
        }
    }
}

pub open spec fn sections_view(v: Seq<(String, Vec<Line>)>) -> Seq<(Seq<char>, Seq<(u32, Seq<char>)>)> {
    v.map_values(|g: (String, Vec<Line>)| (g.0@, lines_view(g.1@)))
}

fn header_of(text: &String) -> (r: Option<String>)
    ensures
        match header_name(text@) {
            Some(n) => r matches Some(s) && s@ == n,
            None => r is None,
        },
{
    let v = chars_of(text.as_str());
    let (a, b) = trim_bounds(&v, 0, v.len());
    assert(v@.subrange(0, v@.len() as int) =~= v@);
    if b - a >= 2 && v[a] == '[' && v[b - 1] == ']' {
        let (c, d) = trim_bounds(&v, a + 1, b - 1);
        assert(v@.subrange(a + 1, b - 1) =~= v@.subrange(a as int, b as int).subrange(1, (b - a) - 1));
        let name = crate::text::slice_chars(&v, c, d);
        Some(string_from_chars(name.as_slice()))
    } else {
        None
    }
}

/// Group the preprocessed lines per section, preserving order of first
/// appearance.
pub fn group_sections(lines: &Vec<Line>) -> (r: Vec<(String, Vec<Line>)>)
    ensures
        sections_view(r@) == spec_group_sections(lines_view(lines@)),
{
    let ghost lv = lines_view(lines@);
    let mut groups: Vec<(String, Vec<Line>)> = Vec::new();
    let mut i: usize = 0;
    while i < lines.len()
        invariant
            i <= lines@.len(),
            lv == lines_view(lines@),
            sections_view(groups@) == spec_group_sections(lv.take(i as int)),
        decreases lines@.len() - i,
    {
        assert(lv.take(i + 1).drop_last() =~= lv.take(i as int));
        assert(lv.take(i + 1).last() == line_view(lines@[i as int]));
        let ghost g = sections_view(groups@);
        let line = Line { num: lines[i].num, text: lines[i].text.clone() };
        match header_of(&lines[i].text) {
            Some(name) => {
                let ghost nv = name@;
                let members: Vec<Line> = Vec::new();
                assert(lines_view(members@) =~= Seq::<(u32, Seq<char>)>::empty());
                groups.push((name, members));
                assert(sections_view(groups@) =~= g.push((nv, seq![])));
            },
            None => {
                if groups.len() > 0 {
                    let (name, mut members) = groups.pop().unwrap();
                    let ghost before = lines_view(members@);
                    members.push(line);
                    assert(lines_view(members@) =~= before.push(line_view(lines@[i as int])));
                    groups.push((name, members));
                    assert(sections_view(groups@) =~= g.update(g.len() - 1, (g.last().0, g.last().1.push(line_view(lines@[i as int])))));
                }
            },
        }
        i = i + 1;
    }
    assert(lv.take(lines@.len() as int) =~= lv);
    groups
}

} // verus!

verus! {

/// Value texts joined with `, `.
pub open spec fn spec_join_values(parts: Seq<Seq<char>>) -> Seq<char>
    decreases parts.len(),
{
    if parts.len() == 0 {
        seq![]
    } else if parts.len() == 1 {
        parts[0]
    } else {
        spec_join_values(parts.drop_last()) + ", "@ + parts.last()
    }
}

/// The texts joined with `, `.
pub fn join_values(parts: &Vec<String>) -> (r: String)
    ensures
        r@ == spec_join_values(string_views(parts@)),
{
    let ghost pv = string_views(parts@);
    let mut out = String::new();
    let mut i: usize = 0;
    while i < parts.len()
        invariant
            i <= parts@.len(),
            pv == string_views(parts@),
            out@ == spec_join_values(pv.take(i as int)),
        decreases parts@.len() - i,
    {
        assert(pv.take(i + 1).drop_last() =~= pv.take(i as int));
        assert(pv.take(i + 1).last() == parts@[i as int]@);
        if i > 0 {
            out.append(", ");
        } else {
            assert(out@ =~= seq![]);
        }
        out.append(parts[i].as_str());
        i = i + 1;
    }
    assert(pv.take(parts@.len() as int) =~= pv);
    out
}

} // verus!

verus! {

pub(crate) fn key_is(key: &String, lit: &str) -> (r: bool)
    ensures
        r == (key@ == lit@),
{
    let k = chars_of(key.as_str());
    chars_are(&k, lit)
}

// ------------------------------------------------------------ [MegaTune]

/// What `[MegaTune]` says of the definition.
#[derive(Debug)]
pub struct MegaTune {
    /// The `MTversion` number's text, if it is a number.
    pub mt_version: Option<String>,
    pub query_command: String,
    pub signature: String,
    pub version_info: String,
}

pub struct SpecMegaTune {
    pub mt_version: Option<Seq<char>>,
    pub query_command: Seq<char>,
    pub signature: Seq<char>,
    pub version_info: Seq<char>,
}

impl View for MegaTune {
    type V = SpecMegaTune;

    open spec fn view(&self) -> SpecMegaTune {
        SpecMegaTune {
            mt_version: match self.mt_version {
                Some(s) => Some(s@),
                None => None,
            },
            query_command: self.query_command@,
            signature: self.signature@,
            version_info: self.version_info@,
        }
    }
}

/// A bare value that reads as a number: its text.
pub open spec fn number_text(t: SpecToken) -> Option<Seq<char>> {
    match t {
        SpecToken::Bare(s) => if is_float_literal(s) {
            Some(s)
        } else {
            None
        },
        _ => None,
    }
}

/// One `[MegaTune]` line, or `None` for a text key without its value.
pub open spec fn mt_line(m: SpecMegaTune, text: Seq<char>) -> Option<(SpecMegaTune, nat)> {
    match spec_kv(text) {
        None => Some((m, 1)),
        Some((key, ts)) => if key == "MTversion"@ {
            Some((SpecMegaTune { mt_version: if ts.len() > 0 { number_text(ts[0]) } else { None }, ..m }, 0))
        } else if key == "queryCommand"@ || key == "signature"@ || key == "versionInfo"@ {
            if ts.len() > 0 {
                let v = token_text(ts[0]);
                if key == "queryCommand"@ {
                    Some((SpecMegaTune { query_command: v, ..m }, 0))
                } else if key == "signature"@ {
                    Some((SpecMegaTune { signature: v, ..m }, 0))
                } else {
                    Some((SpecMegaTune { version_info: v, ..m }, 0))
                }
            } else {
                None
            }
        } else {
            Some((m, 1))
        },
    }
}

pub open spec fn spec_megatune(m: SpecMegaTune, lines: Seq<(u32, Seq<char>)>) -> Result<(SpecMegaTune, nat), u32>
    decreases lines.len(),
{
    if lines.len() == 0 {
        Ok((m, 0))
    } else {
        match mt_line(m, lines[0].1) {
            None => Err(lines[0].0),
            Some((m2, w)) => match spec_megatune(m2, lines.drop_first()) {
                Ok((m3, w2)) => Ok((m3, w + w2)),
                Err(n) => Err(n),
            },
        }
    }
}

/// Parse a `[MegaTune]` section into `mt`.
pub fn megatune(lines: &Vec<Line>, mt: &mut MegaTune, warnings: &mut Vec<String>) -> (r: Result<(), Error>)
    ensures
        final(warnings)@.len() >= old(warnings)@.len(),
        match spec_megatune(old(mt)@, lines_view(lines@)) {
            Ok((m, w)) => r is Ok && final(mt)@ == m && final(warnings)@.len() == old(warnings)@.len() + w,
            Err(n) => r matches Err(Error::Parse(k, _)) && k == n,
        },
{
    let ghost lv = lines_view(lines@);
    let ghost total = spec_megatune(old(mt)@, lv);
    let ghost mut done: nat = 0;
    assert(lv.skip(0) =~= lv);
    let mut i: usize = 0;
    while i < lines.len()
        invariant
            i <= lines@.len(),
            lv == lines_view(lines@),
            lv.len() == lines@.len(),
            total == spec_megatune(old(mt)@, lv),
            warnings@.len() == old(warnings)@.len() + done,
            total == match spec_megatune(mt@, lv.skip(i as int)) {
                Ok((m, w)) => Ok((m, done + w)),
                Err(n) => Err::<(SpecMegaTune, nat), u32>(n),
            },
        decreases lines@.len() - i,
    {
        let line = &lines[i];
        let ghost m0 = mt@;
        let ghost wl = warnings@.len();
        assert(lv.skip(i as int)[0] == (line.num, line.text@));
        assert(lv.skip(i as int).drop_first() =~= lv.skip(i + 1));
        let ghost step = mt_line(m0, line.text@);
        match kv(line, warnings) {
            None => {},
            Some((key, tokens)) => {
                let ghost tv = tokens_view(tokens@);
                if key_is(&key, "MTversion") {
                    mt.mt_version = if tokens.len() > 0 {
                        assert(tv[0] == token_view(tokens@[0]));
                        match tokens[0].number(line.num) {
                            Ok(t) => Some(t),
                            Err(_) => None,
                        }
                    } else {
                        None
                    };
                } else if key_is(&key, "queryCommand") || key_is(&key, "signature") || key_is(&key, "versionInfo") {
                    let v = match str_tok(&tokens, 0, line.num) {
                        Ok(t) => t,
                        Err(e) => {
                            return Err(e);
                        },
                    };
                    if key_is(&key, "queryCommand") {
                        mt.query_command = v;
                    } else if key_is(&key, "signature") {
                        mt.signature = v;
                    } else {
                        mt.version_info = v;
                    }
                } else {
                    let mut w = String::from_str("unknown [MegaTune] key `");
                    w.append(key.as_str());
                    w.append("`");
                    warn(warnings, line.num, &w);
                }
            },
        }
        proof {
            let ws = (warnings@.len() - wl) as nat;
            assert(step == Some((mt@, ws)));
            done = done + ws;
        }
        i = i + 1;
    }
    assert(lv.skip(lines@.len() as int) =~= Seq::<(u32, Seq<char>)>::empty());
    Ok(())
}

// ------------------------------------------------- [ConstantsExtensions]

/// What `[ConstantsExtensions]` says of the constants.
#[derive(Debug)]
pub struct ConstantsExtensions {
    pub requires_power_cycle: Vec<String>,
    /// (constant name, raw default text)
    pub default_values: Vec<(String, String)>,
    /// Constants the controller may change on its own (TS re-reads these).
    pub controller_priority: Vec<String>,
}

pub struct SpecExtensions {
    pub requires_power_cycle: Seq<Seq<char>>,
    pub default_values: Seq<(Seq<char>, Seq<char>)>,
    pub controller_priority: Seq<Seq<char>>,
}

impl View for ConstantsExtensions {
    type V = SpecExtensions;

    open spec fn view(&self) -> SpecExtensions {
        SpecExtensions {
            requires_power_cycle: string_views(self.requires_power_cycle@),
            default_values: self.default_values@.map_values(|p: (String, String)| (p.0@, p.1@)),
            controller_priority: string_views(self.controller_priority@),
        }
    }
}

pub open spec fn value_texts(ts: Seq<SpecToken>) -> Seq<Seq<char>> {
    ts.map_values(|t: SpecToken| token_text(t))
}

/// One `[ConstantsExtensions]` line, or `None` for a key without its first
/// value.
pub open spec fn ce_line(x: SpecExtensions, text: Seq<char>) -> Option<(SpecExtensions, nat)> {
    match spec_kv(text) {
        None => Some((x, 1)),
        Some((key, ts)) => if key == "requiresPowerCycle"@ || key == "defaultValue"@ || key == "controllerPriority"@ {
            if ts.len() > 0 {
                let v = token_text(ts[0]);
                if key == "requiresPowerCycle"@ {
                    Some((SpecExtensions { requires_power_cycle: x.requires_power_cycle.push(v), ..x }, 0))
                } else if key == "defaultValue"@ {
                    Some((
                        SpecExtensions {
                            default_values: x.default_values.push((v, spec_join_values(value_texts(ts.skip(1))))),
                            ..x
                        },
                        0,
                    ))
                } else {
                    Some((SpecExtensions { controller_priority: x.controller_priority.push(v), ..x }, 0))
                }
            } else {
                None
            }
        } else {
            Some((x, 1))
        },
    }
}

pub open spec fn spec_constants_extensions(x: SpecExtensions, lines: Seq<(u32, Seq<char>)>) -> Result<(SpecExtensions, nat), u32>
    decreases lines.len(),
{
    if lines.len() == 0 {
        Ok((x, 0))
    } else {
        match ce_line(x, lines[0].1) {
            None => Err(lines[0].0),
            Some((x2, w)) => match spec_constants_extensions(x2, lines.drop_first()) {
                Ok((x3, w2)) => Ok((x3, w + w2)),
                Err(n) => Err(n),
            },
        }
    }
}

/// Parse a `[ConstantsExtensions]` section into `ext`.
pub fn constants_extensions(lines: &Vec<Line>, ext: &mut ConstantsExtensions, warnings: &mut Vec<String>) -> (r: Result<(), Error>)
    ensures
        final(warnings)@.len() >= old(warnings)@.len(),
        match spec_constants_extensions(old(ext)@, lines_view(lines@)) {
            Ok((x, w)) => r is Ok && final(ext)@ == x && final(warnings)@.len() == old(warnings)@.len() + w,
            Err(n) => r matches Err(Error::Parse(k, _)) && k == n,
        },
{
    let ghost lv = lines_view(lines@);
    let ghost total = spec_constants_extensions(old(ext)@, lv);
    let ghost mut done: nat = 0;
    assert(lv.skip(0) =~= lv);
    let mut i: usize = 0;
    while i < lines.len()
        invariant
            i <= lines@.len(),
            lv == lines_view(lines@),
            lv.len() == lines@.len(),
            total == spec_constants_extensions(old(ext)@, lv),
            warnings@.len() == old(warnings)@.len() + done,
            total == match spec_constants_extensions(ext@, lv.skip(i as int)) {
                Ok((x, w)) => Ok((x, done + w)),
                Err(n) => Err::<(SpecExtensions, nat), u32>(n),
            },
        decreases lines@.len() - i,
    {
        let line = &lines[i];
        let ghost x0 = ext@;
        let ghost wl = warnings@.len();
        assert(lv.skip(i as int)[0] == (line.num, line.text@));
        assert(lv.skip(i as int).drop_first() =~= lv.skip(i + 1));
        let ghost step = ce_line(x0, line.text@);
        match kv(line, warnings) {
            None => {},
            Some((key, tokens)) => {
                let ghost tv = tokens_view(tokens@);
                if key_is(&key, "requiresPowerCycle") || key_is(&key, "defaultValue") || key_is(&key, "controllerPriority") {
                    let v = match str_tok(&tokens, 0, line.num) {
                        Ok(t) => t,
                        Err(e) => {
                            return Err(e);
                        },
                    };
                    if key_is(&key, "requiresPowerCycle") {
                        let ghost b = ext.requires_power_cycle@;
                        ext.requires_power_cycle.push(v);
                        assert(string_views(ext.requires_power_cycle@) =~= string_views(b).push(v@));
                    } else if key_is(&key, "defaultValue") {
                        let mut rest: Vec<String> = Vec::new();
                        let mut k: usize = 1;
                        while k < tokens.len()
                            invariant
                                1 <= k <= tokens@.len(),
                                tv == tokens_view(tokens@),
                                string_views(rest@) == value_texts(tv.subrange(1, k as int)),
                            decreases tokens@.len() - k,
                        {
                            let t = String::from_str(tokens[k].as_str());
                            assert(t@ == token_text(tv[k as int]));
                            let ghost before = rest@;
                            rest.push(t);
                            assert(string_views(rest@) =~= string_views(before).push(t@));
                            assert(tv.subrange(1, k + 1) =~= tv.subrange(1, k as int).push(tv[k as int]));
                            assert(value_texts(tv.subrange(1, k + 1)) =~= value_texts(tv.subrange(1, k as int)).push(
                                token_text(tv[k as int]),
                            ));
                            k = k + 1;
                        }
                        assert(tv.subrange(1, k as int) =~= tv.skip(1));
                        let joined = join_values(&rest);
                        let ghost b = ext.default_values@;
                        ext.default_values.push((v, joined));
                        assert(ext@.default_values =~= x0.default_values.push((v@, joined@)));
                    } else {
                        let ghost b = ext.controller_priority@;
                        ext.controller_priority.push(v);
                        assert(string_views(ext.controller_priority@) =~= string_views(b).push(v@));
                    }
                } else {
                    let mut w = String::from_str("unhandled [ConstantsExtensions] key `");
                    w.append(key.as_str());
                    w.append("`");
                    warn(warnings, line.num, &w);
                }
            },
        }
        proof {
            let ws = (warnings@.len() - wl) as nat;
            assert(step == Some((ext@, ws)));
            done = done + ws;
        }
        i = i + 1;
    }
    assert(lv.skip(lines@.len() as int) =~= Seq::<(u32, Seq<char>)>::empty());
    Ok(())
}

} // verus!
