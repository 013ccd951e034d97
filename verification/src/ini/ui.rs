//! The `[Menu]`, `[UserDefined]`, `[FrontPage]` and `[Datalog]` sections:
//! what a user interface shows of a definition. Each parser folds its
//! section's lines into the model; a line that cannot be read draws a
//! warning, and a missing required value is an error on its line.

use vstd::prelude::*;
use vstd::string::StringExecFns;
use super::Error;
use super::expr::{expr_view, parse, spec_parse, ExprTree, SpecExpr};
use super::lex::{token_text, token_view, tokens_view, SpecToken, Token};
use super::model::DatalogType;
use super::preprocess::{lines_view, Line};
use super::sections::{key_is, kv, spec_kv, str_tok, warn};
use crate::text::{
    chars_are, chars_of, find_char, first_index, string_from_chars, string_views, trim, trim_end_char, trim_end_chars,
    trimmed,
};

verus! {

broadcast use vstd::string::group_string_axioms;

// ----- conditions -----------------------------------------------------------

/// The texts of the `{ expression }` values, in order.
pub open spec fn expr_srcs(ts: Seq<SpecToken>) -> Seq<Seq<char>>
    decreases ts.len(),
{
    if ts.len() == 0 {
        seq![]
    } else {
        let r = expr_srcs(ts.drop_last());
        match ts.last() {
            SpecToken::Expr(s) => r.push(s),
            _ => r,
        }
    }
}

/// A condition: none for an empty `{}`, or for one that does not parse.
pub open spec fn cond_of(src: Seq<char>) -> Option<SpecExpr> {
    if src.len() == 0 {
        None
    } else {
        spec_parse(src)
    }
}

/// How many of the conditions do not parse (each draws a warning).
pub open spec fn failed_conds(srcs: Seq<Seq<char>>) -> nat
    decreases srcs.len(),
{
    if srcs.len() == 0 {
        0
    } else {
        failed_conds(srcs.drop_last()) + if srcs.last().len() > 0 && spec_parse(srcs.last()) is None {
            1nat
        } else {
            0nat
        }
    }
}

pub open spec fn spec_conditions(ts: Seq<SpecToken>) -> Seq<Option<SpecExpr>> {
    expr_srcs(ts).map_values(|s: Seq<char>| cond_of(s))
}

pub open spec fn opt_expr(o: Option<ExprTree>) -> Option<SpecExpr> {
    match o {
        Some(e) => Some(expr_view(e)),
        None => None,
    }
}

pub open spec fn conds_view(v: Seq<Option<ExprTree>>) -> Seq<Option<SpecExpr>> {
    v.map_values(|o: Option<ExprTree>| opt_expr(o))
}

/// The first condition that is there.
pub open spec fn first_some(s: Seq<Option<SpecExpr>>) -> Option<SpecExpr>
    decreases s.len(),
{
    if s.len() == 0 {
        None
    } else if s[0] is Some {
        s[0]
    } else {
        first_some(s.drop_first())
    }
}

/// The text of the first quoted value.
pub open spec fn first_str(ts: Seq<SpecToken>) -> Option<Seq<char>>
    decreases ts.len(),
{
    if ts.len() == 0 {
        None
    } else {
        match ts[0] {
            SpecToken::Str(s) => Some(s),
            _ => first_str(ts.drop_first()),
        }
    }
}

/// The `{ expression }` values of `tokens[from..]` in order, each parsed;
/// an empty `{}` or one that does not parse (with a warning) is `None`.
pub fn conditions(tokens: &Vec<Token>, from: usize, num: u32, warnings: &mut Vec<String>) -> (r: Vec<Option<ExprTree>>)
    requires
        from <= tokens@.len(),
    ensures
        conds_view(r@) == spec_conditions(tokens_view(tokens@).skip(from as int)),
        final(warnings)@.len() == old(warnings)@.len() + failed_conds(expr_srcs(tokens_view(tokens@).skip(from as int))),
        final(warnings)@.take(old(warnings)@.len() as int) == old(warnings)@,
{
    let ghost tv = tokens_view(tokens@);
    let mut out: Vec<Option<ExprTree>> = Vec::new();
    let mut i: usize = from;
    while i < tokens.len()
        invariant
            from <= i <= tokens@.len(),
            tv == tokens_view(tokens@),
            tv.len() == tokens@.len(),
            conds_view(out@) == spec_conditions(tv.subrange(from as int, i as int)),
            warnings@.len() == old(warnings)@.len() + failed_conds(expr_srcs(tv.subrange(from as int, i as int))),
            warnings@.take(old(warnings)@.len() as int) == old(warnings)@,
        decreases tokens@.len() - i,
    {
        let ghost sub = tv.subrange(from as int, i as int);
        let ghost next = tv.subrange(from as int, i + 1);
        assert(next.drop_last() =~= sub);
        assert(next.last() == token_view(tokens@[i as int]));
        let ghost before = out@;
        let ghost wb = warnings@;
        match &tokens[i] {
            Token::Expr(s) => {
                assert(expr_srcs(next) == expr_srcs(sub).push(s@));
                assert(expr_srcs(next).drop_last() =~= expr_srcs(sub));
                if s.as_str().unicode_len() == 0 {
                    out.push(None);
                } else {
                    match parse(s.as_str(), num) {
                        Ok(e) => {
                            out.push(Some(e));
                        },
                        Err(e) => {
                            let mut m = String::from_str("unparsable condition: ");
                            m.append(e.message().as_str());
                            warn(warnings, num, &m);
                            assert(warnings@.take(old(warnings)@.len() as int) =~= old(warnings)@) by {
                                assert(warnings@.take(wb.len() as int) == wb);
                            }
                            out.push(None);
                        },
                    }
                }
                assert(conds_view(out@) =~= conds_view(before).push(cond_of(s@)));
            },
            Token::Bare(_) => {
                assert(expr_srcs(next) == expr_srcs(sub));
            },
            Token::Str(_) => {
                assert(expr_srcs(next) == expr_srcs(sub));
            },
        }
        i = i + 1;
        assert(conds_view(out@) =~= spec_conditions(tv.subrange(from as int, i as int)));
    }
    assert(tv.subrange(from as int, i as int) =~= tv.skip(from as int));
    out
}

/// The first of the conditions that is there.
pub fn first_condition(tokens: &Vec<Token>, from: usize, num: u32, warnings: &mut Vec<String>) -> (r: Option<ExprTree>)
    requires
        from <= tokens@.len(),
    ensures
        opt_expr(r) == first_some(spec_conditions(tokens_view(tokens@).skip(from as int))),
        final(warnings)@.len() == old(warnings)@.len() + failed_conds(expr_srcs(tokens_view(tokens@).skip(from as int))),
        final(warnings)@.take(old(warnings)@.len() as int) == old(warnings)@,
{
    let mut conds = conditions(tokens, from, num, warnings);
    let ghost all = conds_view(conds@);
    assert(all.skip(0) =~= all);
    let n: usize = conds.len();
    assert(all.len() == n);
    let mut k: usize = 0;
    while conds.len() > 0
        invariant
            k + conds@.len() == all.len(),
            all.len() <= usize::MAX,
            all == spec_conditions(tokens_view(tokens@).skip(from as int)),
            warnings@.len() == old(warnings)@.len() + failed_conds(expr_srcs(tokens_view(tokens@).skip(from as int))),
            warnings@.take(old(warnings)@.len() as int) == old(warnings)@,
            conds_view(conds@) == all.skip(k as int),
            first_some(all) == first_some(all.skip(k as int)),
        decreases conds@.len(),
    {
        let c = conds.remove(0);
        assert(all.skip(k as int)[0] == opt_expr(c));
        assert(all.skip(k as int).drop_first() =~= all.skip(k + 1));
        assert(conds_view(conds@) =~= all.skip(k + 1));
        if c.is_some() {
            return c;
        }
        k = k + 1;
    }
    None
}

// ----- menus ----------------------------------------------------------------

/// One clickable menu entry. `target` names a dialog, table, curve, or a
/// TunerStudio built-in editor (`std_*`).
#[derive(Debug)]
pub struct MenuEntry {
    pub target: String,
    pub label: String,
    /// Grey the entry out unless this evaluates truthy.
    pub enable: Option<ExprTree>,
}

#[derive(Debug)]
pub enum MenuItem {
    Entry(MenuEntry),
    Separator,
    /// `groupMenu` with its `groupChildMenu` children.
    Group { label: String, children: Vec<MenuEntry> },
}

#[derive(Debug)]
pub struct MenuDef {
    /// Menu-bar title with the `&` mnemonic markers taken out.
    pub title: String,
    pub items: Vec<MenuItem>,
}

pub struct SpecEntry {
    pub target: Seq<char>,
    pub label: Seq<char>,
    pub enable: Option<SpecExpr>,
}

pub enum SpecItem {
    Entry(SpecEntry),
    Separator,
    Group(Seq<char>, Seq<SpecEntry>),
}

pub struct SpecMenu {
    pub title: Seq<char>,
    pub items: Seq<SpecItem>,
}

impl View for MenuEntry {
    type V = SpecEntry;

    open spec fn view(&self) -> SpecEntry {
        SpecEntry { target: self.target@, label: self.label@, enable: opt_expr(self.enable) }
    }
}

pub open spec fn menu_entries_view(v: Seq<MenuEntry>) -> Seq<SpecEntry> {
    v.map_values(|e: MenuEntry| e@)
}

impl View for MenuItem {
    type V = SpecItem;

    open spec fn view(&self) -> SpecItem {
        match self {
            MenuItem::Entry(e) => SpecItem::Entry(e@),
            MenuItem::Separator => SpecItem::Separator,
            MenuItem::Group { label, children } => SpecItem::Group(label@, menu_entries_view(children@)),
        }
    }
}

pub open spec fn items_view(v: Seq<MenuItem>) -> Seq<SpecItem> {
    v.map_values(|i: MenuItem| i@)
}

impl View for MenuDef {
    type V = SpecMenu;

    open spec fn view(&self) -> SpecMenu {
        SpecMenu { title: self.title@, items: items_view(self.items@) }
    }
}

pub open spec fn menus_view(v: Seq<MenuDef>) -> Seq<SpecMenu> {
    v.map_values(|m: MenuDef| m@)
}

/// `s` without the character `c`.
pub open spec fn drop_char(s: Seq<char>, c: char) -> Seq<char>
    decreases s.len(),
{
    if s.len() == 0 {
        seq![]
    } else if s.last() == c {
        drop_char(s.drop_last(), c)
    } else {
        drop_char(s.drop_last(), c).push(s.last())
    }
}

/// `target[, "Label"][, page][, { enable }]`: the target is the first value,
/// a bare word; written without its comma, `target "Label"` in one word
/// gives both. The label is that inline one, else the first quoted value,
/// else the target. `None` when the first value is not a bare word.
pub open spec fn spec_menu_entry(ts: Seq<SpecToken>) -> Option<SpecEntry> {
    if ts.len() > 0 && ts[0] is Bare && ts[0]->Bare_0.len() > 0 {
        let first = ts[0]->Bare_0;
        let target = match first_index(first, '"') {
            Some(q) => trim(first.take(q as int)),
            None => first,
        };
        let label = match first_index(first, '"') {
            Some(q) => trim_end_char(first.skip(q as int + 1), '"'),
            None => match first_str(ts) {
                Some(s) => s,
                None => target,
            },
        };
        Some(SpecEntry { target, label, enable: first_some(spec_conditions(ts.skip(1))) })
    } else {
        None
    }
}

/// The warnings reading a menu entry draws.
pub open spec fn entry_warnings(ts: Seq<SpecToken>) -> nat {
    if spec_menu_entry(ts) is None {
        1
    } else {
        failed_conds(expr_srcs(ts.skip(1)))
    }
}

fn first_quoted(tokens: &Vec<Token>) -> (r: Option<String>)
    ensures
        opt_str(r) == first_str(tokens_view(tokens@)),
{
    let ghost tv = tokens_view(tokens@);
    assert(tv.skip(0) =~= tv);
    let mut i: usize = 0;
    while i < tokens.len()
        invariant
            i <= tokens@.len(),
            tv == tokens_view(tokens@),
            tv.len() == tokens@.len(),
            first_str(tv) == first_str(tv.skip(i as int)),
        decreases tokens@.len() - i,
    {
        assert(tv.skip(i as int)[0] == token_view(tokens@[i as int]));
        assert(tv.skip(i as int).drop_first() =~= tv.skip(i + 1));
        match &tokens[i] {
            Token::Str(s) => {
                return Some(s.clone());
            },
            _ => {},
        }
        i = i + 1;
    }
    None
}

pub open spec fn opt_str(o: Option<String>) -> Option<Seq<char>> {
    match o {
        Some(s) => Some(s@),
        None => None,
    }
}

/// A menu entry from a `subMenu` or `groupChildMenu` line's values.
pub fn menu_entry(tokens: &Vec<Token>, num: u32, warnings: &mut Vec<String>) -> (r: Option<MenuEntry>)
    ensures
        match spec_menu_entry(tokens_view(tokens@)) {
            Some(e) => r matches Some(x) && x@ == e,
            None => r is None,
        },
        final(warnings)@.len() == old(warnings)@.len() + entry_warnings(tokens_view(tokens@)),
        final(warnings)@.take(old(warnings)@.len() as int) == old(warnings)@,
{
    let ghost tv = tokens_view(tokens@);
    let first = if tokens.len() > 0 {
        match &tokens[0] {
            Token::Bare(s) => if s.as_str().unicode_len() > 0 {
                Some(chars_of(s.as_str()))
            } else {
                None
            },
            _ => None,
        }
    } else {
        None
    };
    let first = match first {
        Some(f) => f,
        None => {
            warn(warnings, num, &String::from_str("menu entry without a target"));
            return None;
        },
    };
    assert(tv[0] == token_view(tokens@[0]));
    let (target, label) = match find_char(&first, '"') {
        Some(q) => {
            let t = trimmed(&first, 0, q);
            let rest = crate::text::slice_chars(&first, q + 1, first.len());
            assert(rest@ =~= first@.skip(q + 1));
            let l = trim_end_chars(&rest, '"');
            assert(t@ =~= trim(first@.take(q as int))) by {
                assert(first@.subrange(0, q as int) =~= first@.take(q as int));
            }
            (string_from_chars(t.as_slice()), string_from_chars(l.as_slice()))
        },
        None => {
            let t = string_from_chars(first.as_slice());
            let l = match first_quoted(tokens) {
                Some(s) => s,
                None => t.clone(),
            };
            (t, l)
        },
    };
    let enable = first_condition(tokens, 1, num, warnings);
    Some(MenuEntry { target, label, enable })
}

/// Add an item to the last menu.
pub open spec fn push_item(ms: Seq<SpecMenu>, it: SpecItem) -> Seq<SpecMenu> {
    ms.update(ms.len() - 1, SpecMenu { title: ms.last().title, items: ms.last().items.push(it) })
}

/// Add an entry to the last menu's last item, a group.
pub open spec fn push_child(ms: Seq<SpecMenu>, e: SpecEntry) -> Seq<SpecMenu> {
    let items = ms.last().items;
    let g = items.last();
    ms.update(
        ms.len() - 1,
        SpecMenu {
            title: ms.last().title,
            items: items.update(items.len() - 1, SpecItem::Group(g->Group_0, g->Group_1.push(e))),
        },
    )
}

/// One `[Menu]` line: the menus afterwards and the warnings it drew, or
/// `None` for an error (a `menu` or `groupMenu` without its title).
pub open spec fn menu_line(ms: Seq<SpecMenu>, text: Seq<char>) -> Option<(Seq<SpecMenu>, nat)> {
    match spec_kv(text) {
        None => Some((ms, 1)),
        Some((key, ts)) => if key == "menuDialog"@ {
            Some((ms, 0))
        } else if key == "menu"@ {
            if ts.len() > 0 {
                Some((ms.push(SpecMenu { title: drop_char(token_text(ts[0]), '&'), items: seq![] }), 0))
            } else {
                None
            }
        } else if key == "subMenu"@ || key == "groupMenu"@ || key == "groupChildMenu"@ {
            if ms.len() == 0 {
                Some((ms, 1))
            } else if key == "groupMenu"@ {
                if ts.len() > 0 {
                    Some((push_item(ms, SpecItem::Group(token_text(ts[0]), seq![])), 0))
                } else {
                    None
                }
            } else if ts.len() > 0 && ts[0] == SpecToken::Bare("std_separator"@) {
                Some((push_item(ms, SpecItem::Separator), 0))
            } else {
                let w = entry_warnings(ts);
                match spec_menu_entry(ts) {
                    None => Some((ms, w)),
                    Some(e) => if key == "groupChildMenu"@ {
                        if ms.last().items.len() > 0 && ms.last().items.last() is Group {
                            Some((push_child(ms, e), w))
                        } else {
                            Some((ms, w + 1))
                        }
                    } else {
                        Some((push_item(ms, SpecItem::Entry(e)), w))
                    },
                }
            }
        } else {
            Some((ms, 1))
        },
    }
}

/// The `[Menu]` lines in order: the menus and the number of warnings, or
/// the number of the line in error.
pub open spec fn spec_menu(ms: Seq<SpecMenu>, lines: Seq<(u32, Seq<char>)>) -> Result<(Seq<SpecMenu>, nat), u32>
    decreases lines.len(),
{
    if lines.len() == 0 {
        Ok((ms, 0))
    } else {
        match menu_line(ms, lines[0].1) {
            None => Err(lines[0].0),
            Some((m2, w)) => match spec_menu(m2, lines.drop_first()) {
                Ok((m3, w2)) => Ok((m3, w + w2)),
                Err(n) => Err(n),
            },
        }
    }
}

/// `s` without its `&`s.
fn without_ampersands(s: &str) -> (r: String)
    ensures
        r@ == drop_char(s@, '&'),
{
    let v = chars_of(s);
    let mut out: Vec<char> = Vec::new();
    let mut i: usize = 0;
    while i < v.len()
        invariant
            i <= v@.len(),
            out@ == drop_char(v@.take(i as int), '&'),
        decreases v@.len() - i,
    {
        assert(v@.take(i + 1).drop_last() =~= v@.take(i as int));
        if v[i] != '&' {
            out.push(v[i]);
        }
        i = i + 1;
    }
    assert(v@.take(v@.len() as int) =~= v@);
    string_from_chars(out.as_slice())
}


/// Parse a `[Menu]` section into `menus`.
pub fn menu(lines: &Vec<Line>, menus: &mut Vec<MenuDef>, warnings: &mut Vec<String>) -> (r: Result<(), Error>)
    ensures
        final(warnings)@.len() >= old(warnings)@.len(),
        match spec_menu(menus_view(old(menus)@), lines_view(lines@)) {
            Ok((ms, w)) => r is Ok && menus_view(final(menus)@) == ms && final(warnings)@.len() == old(warnings)@.len() + w,
            Err(n) => r matches Err(Error::Parse(m, _)) && m == n,
        },
{
    let ghost lv = lines_view(lines@);
    let ghost total = spec_menu(menus_view(old(menus)@), lv);
    let ghost mut done: nat = 0;
    assert(lv.skip(0) =~= lv);
    let mut i: usize = 0;
    while i < lines.len()
        invariant
            i <= lines@.len(),
            lv == lines_view(lines@),
            lv.len() == lines@.len(),
            total == spec_menu(menus_view(old(menus)@), lv),
            warnings@.len() == old(warnings)@.len() + done,
            total == match spec_menu(menus_view(menus@), lv.skip(i as int)) {
                Ok((ms, w)) => Ok((ms, done + w)),
                Err(n) => Err::<(Seq<SpecMenu>, nat), u32>(n),
            },
        decreases lines@.len() - i,
    {
        let line = &lines[i];
        let ghost ms = menus_view(menus@);
        let ghost wl = warnings@.len();
        assert(lv.skip(i as int)[0] == (line.num, line.text@));
        assert(lv.skip(i as int).drop_first() =~= lv.skip(i + 1));
        let ghost step = menu_line(ms, line.text@);
        match kv(line, warnings) {
            None => {},
            Some((key, tokens)) => {
                let ghost tv = tokens_view(tokens@);
                if key_is(&key, "menuDialog") {
                } else if key_is(&key, "menu") {
                    let title = match str_tok(&tokens, 0, line.num) {
                        Ok(t) => t,
                        Err(e) => {
                            return Err(e);
                        },
                    };
                    let m = MenuDef { title: without_ampersands(title.as_str()), items: Vec::new() };
                    assert(m@.items =~= Seq::<SpecItem>::empty());
                    menus.push(m);
                    assert(menus_view(menus@) =~= ms.push(m@));
                } else if key_is(&key, "subMenu") || key_is(&key, "groupMenu") || key_is(&key, "groupChildMenu") {
                    if menus.len() == 0 {
                        let mut w = String::from_str("`");
                        w.append(key.as_str());
                        w.append("` before any `menu`");
                        warn(warnings, line.num, &w);
                    } else if key_is(&key, "groupMenu") {
                        let label = match str_tok(&tokens, 0, line.num) {
                            Ok(t) => t,
                            Err(e) => {
                                return Err(e);
                            },
                        };
                        let mut m = menus.pop().unwrap();
                        let ghost mv = m@;
                        let g = MenuItem::Group { label, children: Vec::new() };
                        assert(g@ == SpecItem::Group(label@, seq![])) by {
                            assert(menu_entries_view(Seq::<MenuEntry>::empty()) =~= seq![]);
                        }
                        m.items.push(g);
                        assert(m@.items =~= mv.items.push(g@));
                        menus.push(m);
                        assert(menus_view(menus@) =~= push_item(ms, SpecItem::Group(label@, seq![])));
                    } else {
                        let sep = tokens.len() > 0 && match &tokens[0] {
                            Token::Bare(s) => key_is(s, "std_separator"),
                            _ => false,
                        };
                        if sep {
                            assert(tv[0] == token_view(tokens@[0]));
                            let mut m = menus.pop().unwrap();
                            let ghost mv = m@;
                            m.items.push(MenuItem::Separator);
                            assert(m@.items =~= mv.items.push(SpecItem::Separator));
                            menus.push(m);
                            assert(menus_view(menus@) =~= push_item(ms, SpecItem::Separator));
                        } else {
                            assert(!(tv.len() > 0 && tv[0] == SpecToken::Bare("std_separator"@))) by {
                                if tv.len() > 0 {
                                    assert(tv[0] == token_view(tokens@[0]));
                                }
                            }
                            let child = key_is(&key, "groupChildMenu");
                            match menu_entry(&tokens, line.num, warnings) {
                                None => {},
                                Some(entry) => {
                                    let mut m = menus.pop().unwrap();
                                    let ghost mv = m@;
                                    if child {
                                        let n = m.items.len();
                                        let grouped = n > 0 && match &m.items[n - 1] {
                                            MenuItem::Group { .. } => true,
                                            _ => false,
                                        };
                                        if grouped {
                                            let last = m.items.pop().unwrap();
                                            match last {
                                                MenuItem::Group { label, mut children } => {
                                                    let ghost cv = menu_entries_view(children@);
                                                    let ghost ev = entry@;
                                                    children.push(entry);
                                                    assert(menu_entries_view(children@) =~= cv.push(ev));
                                                    m.items.push(MenuItem::Group { label, children });
                                                    assert(m@.items =~= mv.items.update(
                                                        mv.items.len() - 1,
                                                        SpecItem::Group(label@, cv.push(ev)),
                                                    ));
                                                    menus.push(m);
                                                    assert(menus_view(menus@) =~= push_child(ms, ev));
                                                },
                                                _ => {
                                                    m.items.push(last);
                                                    menus.push(m);
                                                },
                                            }
                                        } else {
                                            menus.push(m);
                                            assert(menus_view(menus@) =~= ms);
                                            warn(warnings, line.num, &String::from_str("`groupChildMenu` outside a `groupMenu`"));
                                        }
                                    } else {
                                        let ghost ev = entry@;
                                        m.items.push(MenuItem::Entry(entry));
                                        assert(m@.items =~= mv.items.push(SpecItem::Entry(ev)));
                                        menus.push(m);
                                        assert(menus_view(menus@) =~= push_item(ms, SpecItem::Entry(ev)));
                                    }
                                },
                            }
                        }
                    }
                } else {
                    let mut w = String::from_str("unknown [Menu] key `");
                    w.append(key.as_str());
                    w.append("`");
                    warn(warnings, line.num, &w);
                }
            },
        }
        proof {
            let ws = (warnings@.len() - wl) as nat;
            assert(step == Some((menus_view(menus@), ws)));
            done = done + ws;
        }
        i = i + 1;
    }
    assert(lv.skip(lines@.len() as int) =~= Seq::<(u32, Seq<char>)>::empty());
    Ok(())
}

/// The label of the first child entry for `target`.
pub open spec fn child_label(es: Seq<SpecEntry>, target: Seq<char>) -> Option<Seq<char>>
    decreases es.len(),
{
    if es.len() == 0 {
        None
    } else if es[0].target == target {
        Some(es[0].label)
    } else {
        child_label(es.drop_first(), target)
    }
}

/// The label an item gives `target`: an entry's own, or a group's first
/// child entry for it.
pub open spec fn item_label(it: SpecItem, target: Seq<char>) -> Option<Seq<char>> {
    match it {
        SpecItem::Entry(e) => if e.target == target {
            Some(e.label)
        } else {
            None
        },
        SpecItem::Group(_, children) => child_label(children, target),
        SpecItem::Separator => None,
    }
}

pub open spec fn items_label(items: Seq<SpecItem>, target: Seq<char>) -> Option<Seq<char>>
    decreases items.len(),
{
    if items.len() == 0 {
        None
    } else if item_label(items[0], target) is Some {
        item_label(items[0], target)
    } else {
        items_label(items.drop_first(), target)
    }
}

pub open spec fn spec_menu_label(ms: Seq<SpecMenu>, target: Seq<char>) -> Option<Seq<char>>
    decreases ms.len(),
{
    if ms.len() == 0 {
        None
    } else if items_label(ms[0].items, target) is Some {
        items_label(ms[0].items, target)
    } else {
        spec_menu_label(ms.drop_first(), target)
    }
}

fn entry_label_in(es: &Vec<MenuEntry>, target: &String) -> (r: Option<String>)
    ensures
        opt_str(r) == child_label(menu_entries_view(es@), target@),
{
    let ghost ev = menu_entries_view(es@);
    assert(ev.skip(0) =~= ev);
    let mut i: usize = 0;
    while i < es.len()
        invariant
            i <= es@.len(),
            ev == menu_entries_view(es@),
            ev.len() == es@.len(),
            child_label(ev, target@) == child_label(ev.skip(i as int), target@),
        decreases es@.len() - i,
    {
        assert(ev.skip(i as int)[0] == es@[i as int]@);
        assert(ev.skip(i as int).drop_first() =~= ev.skip(i + 1));
        if es[i].target == *target {
            return Some(es[i].label.clone());
        }
        i = i + 1;
    }
    None
}

/// The label the menus give `target`: that of its first entry, where a
/// group's children stand in their group's place. Dialogs defined with an
/// empty title are shown under it.
pub fn menu_label(menus: &Vec<MenuDef>, target: &String) -> (r: Option<String>)
    ensures
        opt_str(r) == spec_menu_label(menus_view(menus@), target@),
{
    let ghost mv = menus_view(menus@);
    assert(mv.skip(0) =~= mv);
    let mut m: usize = 0;
    while m < menus.len()
        invariant
            m <= menus@.len(),
            mv == menus_view(menus@),
            mv.len() == menus@.len(),
            spec_menu_label(mv, target@) == spec_menu_label(mv.skip(m as int), target@),
        decreases menus@.len() - m,
    {
        let items = &menus[m].items;
        let ghost iv = items_view(items@);
        assert(mv.skip(m as int)[0] == menus@[m as int]@);
        assert(mv.skip(m as int).drop_first() =~= mv.skip(m + 1));
        assert(iv.skip(0) =~= iv);
        let mut k: usize = 0;
        while k < items.len()
            invariant
                k <= items@.len(),
                iv == items_view(items@),
                mv == menus_view(menus@),
                m < mv.len(),
                mv.skip(m as int)[0].items == iv,
                spec_menu_label(mv, target@) == spec_menu_label(mv.skip(m as int), target@),
                iv.len() == items@.len(),
                items_label(iv, target@) == items_label(iv.skip(k as int), target@),
            decreases items@.len() - k,
        {
            assert(iv.skip(k as int)[0] == items@[k as int]@);
            assert(iv.skip(k as int).drop_first() =~= iv.skip(k + 1));
            let found = match &items[k] {
                MenuItem::Entry(e) => if e.target == *target {
                    Some(e.label.clone())
                } else {
                    None
                },
                MenuItem::Group { children, .. } => entry_label_in(children, target),
                MenuItem::Separator => None,
            };
            if found.is_some() {
                return found;
            }
            k = k + 1;
        }
        m = m + 1;
    }
    None
}

// ----- dialogs --------------------------------------------------------------

/// An element of a `[UserDefined]` dialog that a settings form can show.
#[derive(Debug)]
pub enum DialogItem {
    /// `field`/`slider`. `constant: None` is a header or spacer row.
    Field {
        label: String,
        constant: Option<String>,
        /// Grey out unless truthy.
        enable: Option<ExprTree>,
        /// Hide entirely unless truthy.
        visible: Option<ExprTree>,
    },
    /// A read-only constant value, optionally greyed out or hidden.
    DisplayOnly { label: String, constant: Option<String>, enable: Option<ExprTree>, visible: Option<ExprTree> },
    /// Embedded sub-dialog (or curve/table editor) by name.
    Panel { target: String, enable: Option<ExprTree> },
}

#[derive(Debug)]
pub struct DialogDef {
    pub name: String,
    pub title: String,
    pub items: Vec<DialogItem>,
    pub topic_help: Option<String>,
    pub line: u32,
}

pub enum SpecDialogItem {
    Field(Seq<char>, Option<Seq<char>>, Option<SpecExpr>, Option<SpecExpr>),
    DisplayOnly(Seq<char>, Option<Seq<char>>, Option<SpecExpr>, Option<SpecExpr>),
    Panel(Seq<char>, Option<SpecExpr>),
}

pub struct SpecDialog {
    pub name: Seq<char>,
    pub title: Seq<char>,
    pub items: Seq<SpecDialogItem>,
    pub topic_help: Option<Seq<char>>,
    pub line: u32,
}

impl View for DialogItem {
    type V = SpecDialogItem;

    open spec fn view(&self) -> SpecDialogItem {
        match self {
            DialogItem::Field { label, constant, enable, visible } => SpecDialogItem::Field(
                label@,
                opt_str(*constant),
                opt_expr(*enable),
                opt_expr(*visible),
            ),
            DialogItem::DisplayOnly { label, constant, enable, visible } => SpecDialogItem::DisplayOnly(
                label@,
                opt_str(*constant),
                opt_expr(*enable),
                opt_expr(*visible),
            ),
            DialogItem::Panel { target, enable } => SpecDialogItem::Panel(target@, opt_expr(*enable)),
        }
    }
}

pub open spec fn dialog_items_view(v: Seq<DialogItem>) -> Seq<SpecDialogItem> {
    v.map_values(|i: DialogItem| i@)
}

impl View for DialogDef {
    type V = SpecDialog;

    open spec fn view(&self) -> SpecDialog {
        SpecDialog {
            name: self.name@,
            title: self.title@,
            items: dialog_items_view(self.items@),
            topic_help: opt_str(self.topic_help),
            line: self.line,
        }
    }
}

pub open spec fn dialogs_view(v: Seq<(String, DialogDef)>) -> Seq<(Seq<char>, SpecDialog)> {
    keyed_view(v)
}

/// Entry `i` is the first one named `k`.
pub open spec fn first_key<V>(m: Seq<(Seq<char>, V)>, k: Seq<char>, i: int) -> bool {
    0 <= i < m.len() && m[i].0 == k && forall|j: int| 0 <= j < i ==> m[j].0 != k
}

/// Insertion into an insertion-ordered map: a known name gets the new value
/// in place, a new one goes last.
pub open spec fn keyed_insert<V>(m: Seq<(Seq<char>, V)>, k: Seq<char>, v: V) -> Seq<(Seq<char>, V)> {
    if exists|i: int| first_key(m, k, i) {
        m.update(choose|i: int| first_key(m, k, i), (k, v))
    } else {
        m.push((k, v))
    }
}

/// No name occurs twice.
pub open spec fn keys_distinct<V>(m: Seq<(Seq<char>, V)>) -> bool {
    forall|i: int, j: int| 0 <= i < j < m.len() ==> m[i].0 != m[j].0
}

/// Inserting into an insertion-ordered map keeps its names distinct, and
/// the name then holds the value inserted.
pub proof fn lemma_keyed_insert<V>(m: Seq<(Seq<char>, V)>, k: Seq<char>, v: V)
    requires
        keys_distinct(m),
    ensures
        keys_distinct(keyed_insert(m, k, v)),
        exists|i: int| 0 <= i < keyed_insert(m, k, v).len() && #[trigger] keyed_insert(m, k, v)[i] == (k, v),
{
    if exists|i: int| first_key(m, k, i) {
        let i = choose|i: int| first_key(m, k, i);
        assert(m.update(i, (k, v))[i] == (k, v));
    } else {
        assert forall|j: int| 0 <= j < m.len() implies m[j].0 != k by {
            if m[j].0 == k {
                assert(first_key(m, k, j));
            }
        }
        assert(m.push((k, v))[m.len() as int] == (k, v));
    }
}

/// The names and views of an insertion-ordered map held as pairs.
pub open spec fn keyed_view<T: View>(v: Seq<(String, T)>) -> Seq<(Seq<char>, T::V)> {
    v.map_values(|p: (String, T)| (p.0@, p.1@))
}

/// Insert into an insertion-ordered map held as a vector of pairs.
pub fn insert_keyed<T: View>(m: &mut Vec<(String, T)>, k: String, v: T)
    ensures
        keyed_view(final(m)@) == keyed_insert(keyed_view(old(m)@), k@, v@),
{
    let ghost mv = keyed_view(m@);
    let ghost vv = v@;
    let mut i: usize = 0;
    while i < m.len()
        invariant
            i <= m@.len(),
            m@ == old(m)@,
            mv == keyed_view(m@),
            mv.len() == m@.len(),
            vv == v@,
            forall|j: int| 0 <= j < i ==> mv[j].0 != k@,
        decreases m@.len() - i,
    {
        if m[i].0 == k {
            proof {
                assert(mv[i as int].0 == m@[i as int].0@);
                assert(first_key(mv, k@, i as int));
                assert forall|q: int| first_key(mv, k@, q) implies q == i by {
                    if q > i {
                        assert(mv[i as int].0 == k@);
                    }
                }
            }
            m.set(i, (k, v));
            assert(keyed_view(m@) =~= mv.update(i as int, (k@, vv)));
            return;
        }
        assert(mv[i as int].0 == m@[i as int].0@);
        i = i + 1;
    }
    m.push((k, v));
    assert(keyed_view(m@) =~= mv.push((k@, vv)));
}

/// Add an item to the last dialog.
pub open spec fn push_dialog_item(ds: Seq<(Seq<char>, SpecDialog)>, it: SpecDialogItem) -> Seq<(Seq<char>, SpecDialog)> {
    let (n, d) = ds.last();
    ds.update(ds.len() - 1, (n, SpecDialog { items: d.items.push(it), ..d }))
}

/// Set the last dialog's help topic.
pub open spec fn set_topic_help(ds: Seq<(Seq<char>, SpecDialog)>, h: Option<Seq<char>>) -> Seq<(Seq<char>, SpecDialog)> {
    let (n, d) = ds.last();
    ds.update(ds.len() - 1, (n, SpecDialog { topic_help: h, ..d }))
}

pub open spec fn is_item_key(key: Seq<char>) -> bool {
    key == "field"@ || key == "slider"@ || key == "displayOnlyField"@ || key == "panel"@ || key == "topicHelp"@
}

/// Keys of elements a settings form does not show (gauges, live graphs,
/// command buttons, ...).
pub open spec fn is_visual_key(key: Seq<char>) -> bool {
    ||| key == "commandButton"@
    ||| key == "gauge"@
    ||| key == "liveGraph"@
    ||| key == "graphLine"@
    ||| key == "indicator"@
    ||| key == "indicatorPanel"@
    ||| key == "text"@
    ||| key == "settingSelector"@
    ||| key == "settingOption"@
    ||| key == "radio"@
    ||| key == "help"@
    ||| key == "webHelp"@
}

/// Value 1 when it is a non-empty bare word: the constant of a field.
pub open spec fn field_constant(ts: Seq<SpecToken>) -> Option<Seq<char>> {
    if ts.len() > 1 && ts[1] is Bare && ts[1]->Bare_0.len() > 0 {
        Some(ts[1]->Bare_0)
    } else {
        None
    }
}

pub open spec fn nth_cond(c: Seq<Option<SpecExpr>>, i: int) -> Option<SpecExpr> {
    if 0 <= i < c.len() {
        c[i]
    } else {
        None
    }
}

/// What one `[UserDefined]` line does.
pub enum UdStep {
    /// The dialogs afterwards, and the warnings drawn.
    Next(Seq<(Seq<char>, SpecDialog)>, nat),
    /// A missing required value.
    Fail,
    /// A `field`, `slider` or `displayOnlyField` line with no values at all
    /// inside a dialog, which the format's reader does not handle.
    Unhandled,
}

pub open spec fn ud_line(ds: Seq<(Seq<char>, SpecDialog)>, num: u32, text: Seq<char>) -> UdStep {
    match spec_kv(text) {
        None => UdStep::Next(ds, 1),
        Some((key, ts)) => if key == "dialog"@ {
            if ts.len() > 0 {
                let name = token_text(ts[0]);
                let title = match first_str(ts) {
                    Some(t) => t,
                    None => seq![],
                };
                UdStep::Next(
                    keyed_insert(ds, name, SpecDialog { name, title, items: seq![], topic_help: None, line: num }),
                    0,
                )
            } else {
                UdStep::Fail
            }
        } else if is_item_key(key) {
            if ds.len() == 0 {
                UdStep::Next(ds, 1)
            } else if key == "field"@ || key == "slider"@ || key == "displayOnlyField"@ {
                if ts.len() == 0 {
                    UdStep::Unhandled
                } else {
                    let c = spec_conditions(ts.skip(1));
                    let label = token_text(ts[0]);
                    let it = if key == "displayOnlyField"@ {
                        SpecDialogItem::DisplayOnly(label, field_constant(ts), nth_cond(c, 0), nth_cond(c, 1))
                    } else {
                        SpecDialogItem::Field(label, field_constant(ts), nth_cond(c, 0), nth_cond(c, 1))
                    };
                    UdStep::Next(push_dialog_item(ds, it), failed_conds(expr_srcs(ts.skip(1))))
                }
            } else if key == "panel"@ {
                if ts.len() > 0 && ts[0] is Bare && ts[0]->Bare_0.len() > 0 {
                    UdStep::Next(
                        push_dialog_item(ds, SpecDialogItem::Panel(ts[0]->Bare_0, first_some(spec_conditions(ts.skip(1))))),
                        failed_conds(expr_srcs(ts.skip(1))),
                    )
                } else {
                    UdStep::Next(ds, 1)
                }
            } else {
                UdStep::Next(set_topic_help(ds, if ts.len() > 0 { Some(token_text(ts[0])) } else { None }), 0)
            }
        } else if is_visual_key(key) {
            UdStep::Next(ds, 0)
        } else {
            UdStep::Next(ds, 1)
        },
    }
}

/// What a `[UserDefined]` section gives.
pub enum UdRun {
    Done(Seq<(Seq<char>, SpecDialog)>, nat),
    /// The number of the line in error.
    Failed(u32),
    Unhandled,
}

pub open spec fn spec_user_defined(ds: Seq<(Seq<char>, SpecDialog)>, lines: Seq<(u32, Seq<char>)>) -> UdRun
    decreases lines.len(),
{
    if lines.len() == 0 {
        UdRun::Done(ds, 0)
    } else {
        match ud_line(ds, lines[0].0, lines[0].1) {
            UdStep::Fail => UdRun::Failed(lines[0].0),
            UdStep::Unhandled => UdRun::Unhandled,
            UdStep::Next(d2, w) => match spec_user_defined(d2, lines.drop_first()) {
                UdRun::Done(d3, w2) => UdRun::Done(d3, w + w2),
                other => other,
            },
        }
    }
}

/// A `[UserDefined]` section names no dialog twice: a dialog defined
/// again replaces the earlier one in its place.
pub proof fn lemma_dialogs_keep_names(ds: Seq<(Seq<char>, SpecDialog)>, lines: Seq<(u32, Seq<char>)>)
    requires
        keys_distinct(ds),
    ensures
        spec_user_defined(ds, lines) matches UdRun::Done(e, _) ==> keys_distinct(e),
    decreases lines.len(),
{
    if lines.len() > 0 {
        let (num, text) = lines[0];
        match spec_kv(text) {
            Some((key, ts)) => {
                if ts.len() > 0 {
                    let name = token_text(ts[0]);
                    let title = match first_str(ts) {
                        Some(t) => t,
                        None => seq![],
                    };
                    lemma_keyed_insert(ds, name, SpecDialog { name, title, items: seq![], topic_help: None, line: num });
                }
            },
            None => {},
        }
        match ud_line(ds, num, text) {
            UdStep::Next(d2, _) => {
                assert forall|i: int, j: int| 0 <= i < j < d2.len() implies d2[i].0 != d2[j].0 by {
                    if d2.len() == ds.len() {
                        assert(d2[i].0 == ds[i].0 || keyed_insert(ds, d2[i].0, d2[i].1) == d2);
                    }
                }
                lemma_dialogs_keep_names(d2, lines.drop_first());
            },
            _ => {},
        }
    }
}

fn is_visual(key: &String) -> (r: bool)
    ensures
        r == is_visual_key(key@),
{
    key_is(key, "commandButton") || key_is(key, "gauge") || key_is(key, "liveGraph") || key_is(key, "graphLine")
        || key_is(key, "indicator") || key_is(key, "indicatorPanel") || key_is(key, "text") || key_is(
        key,
        "settingSelector",
    ) || key_is(key, "settingOption") || key_is(key, "radio") || key_is(key, "help") || key_is(key, "webHelp")
}

/// Take the last dialog off, to change it and put it back.
fn pop_last_dialog(dialogs: &mut Vec<(String, DialogDef)>) -> (r: (String, DialogDef))
    requires
        old(dialogs)@.len() > 0,
    ensures
        final(dialogs)@ == old(dialogs)@.drop_last(),
        r == old(dialogs)@.last(),
{
    dialogs.pop().unwrap()
}

/// Parse a `[UserDefined]` section into `dialogs`.
pub fn user_defined(lines: &Vec<Line>, dialogs: &mut Vec<(String, DialogDef)>, warnings: &mut Vec<String>) -> (r: Result<(), Error>)
    requires
        !(spec_user_defined(dialogs_view(old(dialogs)@), lines_view(lines@)) is Unhandled),
    ensures
        final(warnings)@.len() >= old(warnings)@.len(),
        match spec_user_defined(dialogs_view(old(dialogs)@), lines_view(lines@)) {
            UdRun::Done(ds, w) => r is Ok && dialogs_view(final(dialogs)@) == ds
                && final(warnings)@.len() == old(warnings)@.len() + w,
            UdRun::Failed(n) => r matches Err(Error::Parse(m, _)) && m == n,
            UdRun::Unhandled => false,
        },
{
    let ghost lv = lines_view(lines@);
    let ghost total = spec_user_defined(dialogs_view(old(dialogs)@), lv);
    let ghost mut done: nat = 0;
    assert(lv.skip(0) =~= lv);
    let mut i: usize = 0;
    while i < lines.len()
        invariant
            i <= lines@.len(),
            lv == lines_view(lines@),
            lv.len() == lines@.len(),
            total == spec_user_defined(dialogs_view(old(dialogs)@), lv),
            !(total is Unhandled),
            warnings@.len() == old(warnings)@.len() + done,
            total == match spec_user_defined(dialogs_view(dialogs@), lv.skip(i as int)) {
                UdRun::Done(ds, w) => UdRun::Done(ds, done + w),
                other => other,
            },
        decreases lines@.len() - i,
    {
        let line = &lines[i];
        let ghost ds = dialogs_view(dialogs@);
        let ghost wl = warnings@.len();
        assert(lv.skip(i as int)[0] == (line.num, line.text@));
        assert(lv.skip(i as int).drop_first() =~= lv.skip(i + 1));
        let ghost step = ud_line(ds, line.num, line.text@);
        match kv(line, warnings) {
            None => {},
            Some((key, tokens)) => {
                let ghost tv = tokens_view(tokens@);
                if key_is(&key, "dialog") {
                    let name = match str_tok(&tokens, 0, line.num) {
                        Ok(t) => t,
                        Err(e) => {
                            return Err(e);
                        },
                    };
                    let title = match first_quoted(&tokens) {
                        Some(t) => t,
                        None => String::new(),
                    };
                    let d = DialogDef { name: name.clone(), title, items: Vec::new(), topic_help: None, line: line.num };
                    assert(d@.items =~= Seq::<SpecDialogItem>::empty());
                    insert_keyed(dialogs, name, d);
                } else if key_is(&key, "field") || key_is(&key, "slider") || key_is(&key, "displayOnlyField") || key_is(
                    &key,
                    "panel",
                ) || key_is(&key, "topicHelp") {
                    if dialogs.len() == 0 {
                        let mut w = String::from_str("`");
                        w.append(key.as_str());
                        w.append("` before any `dialog`");
                        warn(warnings, line.num, &w);
                    } else if key_is(&key, "field") || key_is(&key, "slider") || key_is(&key, "displayOnlyField") {
                        let label = match str_tok(&tokens, 0, line.num) {
                            Ok(t) => t,
                            Err(_) => String::new(),
                        };
                        let constant = if tokens.len() > 1 {
                            match &tokens[1] {
                                Token::Bare(s) => if s.as_str().unicode_len() > 0 {
                                    Some(s.clone())
                                } else {
                                    None
                                },
                                _ => None,
                            }
                        } else {
                            None
                        };
                        assert(tokens.len() > 1 ==> tv[1] == token_view(tokens@[1]));
                        let mut conds = conditions(&tokens, 1, line.num, warnings);
                        let ghost cv = conds_view(conds@);
                        let enable = if conds.len() > 0 {
                            conds.remove(0)
                        } else {
                            None
                        };
                        assert(opt_expr(enable) == nth_cond(cv, 0));
                        let visible = if conds.len() > 0 {
                            conds.remove(0)
                        } else {
                            None
                        };
                        assert(opt_expr(visible) == nth_cond(cv, 1));
                        let item = if key_is(&key, "displayOnlyField") {
                            DialogItem::DisplayOnly { label, constant, enable, visible }
                        } else {
                            DialogItem::Field { label, constant, enable, visible }
                        };
                        let ghost iv = item@;
                        let (n, mut d) = pop_last_dialog(dialogs);
                        let ghost dv = d@;
                        d.items.push(item);
                        assert(d@ == SpecDialog { items: dv.items.push(iv), ..dv }) by {
                            assert(d@.items =~= dv.items.push(iv));
                        }
                        dialogs.push((n, d));
                        assert(dialogs_view(dialogs@) =~= push_dialog_item(ds, iv));
                    } else if key_is(&key, "panel") {
                        let target = if tokens.len() > 0 {
                            match &tokens[0] {
                                Token::Bare(s) => if s.as_str().unicode_len() > 0 {
                                    Some(s.clone())
                                } else {
                                    None
                                },
                                _ => None,
                            }
                        } else {
                            None
                        };
                        assert(tokens.len() > 0 ==> tv[0] == token_view(tokens@[0]));
                        match target {
                            Some(t) => {
                                let enable = first_condition(&tokens, 1, line.num, warnings);
                                let item = DialogItem::Panel { target: t, enable };
                                let ghost iv = item@;
                                let (n, mut d) = pop_last_dialog(dialogs);
                                let ghost dv = d@;
                                d.items.push(item);
                                assert(d@ == SpecDialog { items: dv.items.push(iv), ..dv }) by {
                                    assert(d@.items =~= dv.items.push(iv));
                                }
                                dialogs.push((n, d));
                                assert(dialogs_view(dialogs@) =~= push_dialog_item(ds, iv));
                            },
                            None => {
                                warn(warnings, line.num, &String::from_str("panel without a target"));
                            },
                        }
                    } else {
                        let help = match str_tok(&tokens, 0, line.num) {
                            Ok(t) => Some(t),
                            Err(_) => None,
                        };
                        let (n, mut d) = pop_last_dialog(dialogs);
                        let ghost dv = d@;
                        d.topic_help = help;
                        dialogs.push((n, d));
                        assert(dialogs_view(dialogs@) =~= set_topic_help(ds, opt_str(help)));
                    }
                } else if is_visual(&key) {
                } else {
                    let mut w = String::from_str("unknown [UserDefined] key `");
                    w.append(key.as_str());
                    w.append("`");
                    warn(warnings, line.num, &w);
                }
            },
        }
        proof {
            let ws = (warnings@.len() - wl) as nat;
            assert(step == UdStep::Next(dialogs_view(dialogs@), ws));
            done = done + ws;
        }
        i = i + 1;
    }
    assert(lv.skip(lines@.len() as int) =~= Seq::<(u32, Seq<char>)>::empty());
    Ok(())
}

// ----- datalog --------------------------------------------------------------

/// One `[Datalog]` entry.
#[derive(Debug)]
pub struct DatalogEntry {
    pub channel: String,
    pub label: String,
    pub ty: DatalogType,
    pub format: String,
    /// Only log when this evaluates truthy (e.g. `{ vvtEnabled > 0 }`).
    pub condition: Option<ExprTree>,
}

pub struct SpecLogEntry {
    pub channel: Seq<char>,
    pub label: Seq<char>,
    pub ty: DatalogType,
    pub format: Seq<char>,
    pub condition: Option<SpecExpr>,
}

impl View for DatalogEntry {
    type V = SpecLogEntry;

    open spec fn view(&self) -> SpecLogEntry {
        SpecLogEntry {
            channel: self.channel@,
            label: self.label@,
            ty: self.ty,
            format: self.format@,
            condition: opt_expr(self.condition),
        }
    }
}

pub open spec fn log_entries_view(v: Seq<DatalogEntry>) -> Seq<SpecLogEntry> {
    v.map_values(|e: DatalogEntry| e@)
}

/// The logging type value 2 names, `int` or `float`.
pub open spec fn log_type(ts: Seq<SpecToken>) -> Option<DatalogType> {
    if ts.len() > 2 && token_text(ts[2]) == "int"@ {
        Some(DatalogType::Int)
    } else if ts.len() > 2 && token_text(ts[2]) == "float"@ {
        Some(DatalogType::Float)
    } else {
        None
    }
}

/// `entry = channel, label, type, format[, { condition }]`: the entries
/// afterwards and the warnings drawn, or `None` for an error (a condition
/// that does not parse, or no format).
pub open spec fn dl_line(es: Seq<SpecLogEntry>, text: Seq<char>) -> Option<(Seq<SpecLogEntry>, nat)> {
    match spec_kv(text) {
        None => Some((es, 1)),
        Some((key, ts)) => if key != "entry"@ {
            Some((es, 1))
        } else {
            match log_type(ts) {
                None => Some((es, 1)),
                Some(ty) => {
                    let cond_ok = !(ts.len() > 4 && ts[4] is Expr && spec_parse(ts[4]->Expr_0) is None);
                    if !cond_ok || ts.len() <= 3 {
                        None
                    } else {
                        let condition = if ts.len() > 4 && ts[4] is Expr {
                            spec_parse(ts[4]->Expr_0)
                        } else {
                            None
                        };
                        Some((
                            es.push(
                                SpecLogEntry {
                                    channel: token_text(ts[0]),
                                    label: token_text(ts[1]),
                                    ty,
                                    format: token_text(ts[3]),
                                    condition,
                                },
                            ),
                            0,
                        ))
                    }
                },
            }
        },
    }
}

pub open spec fn spec_datalog(es: Seq<SpecLogEntry>, lines: Seq<(u32, Seq<char>)>) -> Result<(Seq<SpecLogEntry>, nat), u32>
    decreases lines.len(),
{
    if lines.len() == 0 {
        Ok((es, 0))
    } else {
        match dl_line(es, lines[0].1) {
            None => Err(lines[0].0),
            Some((e2, w)) => match spec_datalog(e2, lines.drop_first()) {
                Ok((e3, w2)) => Ok((e3, w + w2)),
                Err(n) => Err(n),
            },
        }
    }
}

/// Parse a `[Datalog]` section into `entries`.
pub fn datalog(lines: &Vec<Line>, entries: &mut Vec<DatalogEntry>, warnings: &mut Vec<String>) -> (r: Result<(), Error>)
    ensures
        final(warnings)@.len() >= old(warnings)@.len(),
        match spec_datalog(log_entries_view(old(entries)@), lines_view(lines@)) {
            Ok((es, w)) => r is Ok && log_entries_view(final(entries)@) == es
                && final(warnings)@.len() == old(warnings)@.len() + w,
            Err(n) => r matches Err(Error::Parse(m, _)) && m == n,
        },
{
    let ghost lv = lines_view(lines@);
    let ghost total = spec_datalog(log_entries_view(old(entries)@), lv);
    let ghost mut done: nat = 0;
    assert(lv.skip(0) =~= lv);
    let mut i: usize = 0;
    while i < lines.len()
        invariant
            i <= lines@.len(),
            lv == lines_view(lines@),
            lv.len() == lines@.len(),
            total == spec_datalog(log_entries_view(old(entries)@), lv),
            warnings@.len() == old(warnings)@.len() + done,
            total == match spec_datalog(log_entries_view(entries@), lv.skip(i as int)) {
                Ok((es, w)) => Ok((es, done + w)),
                Err(n) => Err::<(Seq<SpecLogEntry>, nat), u32>(n),
            },
        decreases lines@.len() - i,
    {
        let line = &lines[i];
        let ghost es = log_entries_view(entries@);
        let ghost wl = warnings@.len();
        assert(lv.skip(i as int)[0] == (line.num, line.text@));
        assert(lv.skip(i as int).drop_first() =~= lv.skip(i + 1));
        let ghost step = dl_line(es, line.text@);
        match kv(line, warnings) {
            None => {},
            Some((key, tokens)) => {
                let ghost tv = tokens_view(tokens@);
                if !key_is(&key, "entry") {
                    let mut w = String::from_str("unknown [Datalog] key `");
                    w.append(key.as_str());
                    w.append("`");
                    warn(warnings, line.num, &w);
                } else {
                    let ty = if tokens.len() > 2 {
                        assert(tv[2] == token_view(tokens@[2]));
                        let t = chars_of(tokens[2].as_str());
                        if chars_are(&t, "int") {
                            Some(DatalogType::Int)
                        } else if chars_are(&t, "float") {
                            Some(DatalogType::Float)
                        } else {
                            None
                        }
                    } else {
                        None
                    };
                    match ty {
                        None => {
                            let mut w = String::from_str("unknown datalog type ");
                            if tokens.len() > 2 {
                                w.append("Some(\"");
                                w.append(tokens[2].as_str());
                                w.append("\")");
                            } else {
                                w.append("None");
                            }
                            warn(warnings, line.num, &w);
                        },
                        Some(ty) => {
                            let condition = if tokens.len() > 4 {
                                assert(tv[4] == token_view(tokens@[4]));
                                match &tokens[4] {
                                    Token::Expr(src) => match parse(src.as_str(), line.num) {
                                        Ok(e) => Some(e),
                                        Err(e) => {
                                            return Err(e);
                                        },
                                    },
                                    _ => None,
                                }
                            } else {
                                None
                            };
                            let channel = match str_tok(&tokens, 0, line.num) {
                                Ok(t) => t,
                                Err(e) => {
                                    return Err(e);
                                },
                            };
                            let label = match str_tok(&tokens, 1, line.num) {
                                Ok(t) => t,
                                Err(e) => {
                                    return Err(e);
                                },
                            };
                            let format = match str_tok(&tokens, 3, line.num) {
                                Ok(t) => t,
                                Err(e) => {
                                    return Err(e);
                                },
                            };
                            let e = DatalogEntry { channel, label, ty, format, condition };
                            let ghost ev = e@;
                            entries.push(e);
                            assert(log_entries_view(entries@) =~= es.push(ev));
                        },
                    }
                }
            },
        }
        proof {
            let ws = (warnings@.len() - wl) as nat;
            assert(step == Some((log_entries_view(entries@), ws)));
            done = done + ws;
        }
        i = i + 1;
    }
    assert(lv.skip(lines@.len() as int) =~= Seq::<(u32, Seq<char>)>::empty());
    Ok(())
}

// ----- front page -----------------------------------------------------------

#[derive(Debug)]
pub struct Indicator {
    pub condition: ExprTree,
    pub off_label: String,
    pub on_label: String,
    /// off-bg, off-fg, on-bg, on-fg
    pub colors: Vec<String>,
}

#[derive(Debug)]
pub struct FrontPage {
    /// Gauge names in position order (gauge1..gaugeN).
    pub gauges: Vec<String>,
    pub indicators: Vec<Indicator>,
}

pub struct SpecIndicator {
    pub condition: SpecExpr,
    pub off_label: Seq<char>,
    pub on_label: Seq<char>,
    pub colors: Seq<Seq<char>>,
}

impl View for Indicator {
    type V = SpecIndicator;

    open spec fn view(&self) -> SpecIndicator {
        SpecIndicator {
            condition: expr_view(self.condition),
            off_label: self.off_label@,
            on_label: self.on_label@,
            colors: string_views(self.colors@),
        }
    }
}

pub open spec fn indicators_view(v: Seq<Indicator>) -> Seq<SpecIndicator> {
    v.map_values(|x: Indicator| x@)
}

/// The names of placed entries, in their order.
pub open spec fn place_names(s: Seq<(u32, Seq<char>)>) -> Seq<Seq<char>> {
    s.map_values(|p: (u32, Seq<char>)| p.1)
}

pub open spec fn texts(ts: Seq<SpecToken>) -> Seq<Seq<char>> {
    ts.map_values(|t: SpecToken| token_text(t))
}

/// Place `x` after every entry whose position is not greater than its own.
pub open spec fn insert_by_pos(sorted: Seq<(u32, Seq<char>)>, x: (u32, Seq<char>)) -> Seq<(u32, Seq<char>)>
    decreases sorted.len(),
{
    if sorted.len() == 0 {
        seq![x]
    } else if sorted.last().0 <= x.0 {
        sorted.push(x)
    } else {
        insert_by_pos(sorted.drop_last(), x).push(sorted.last())
    }
}

/// The entries ordered by position, entries with equal positions in the
/// order they came (a stable sort).
pub open spec fn sort_by_pos(s: Seq<(u32, Seq<char>)>) -> Seq<(u32, Seq<char>)>
    decreases s.len(),
{
    if s.len() == 0 {
        seq![]
    } else {
        insert_by_pos(sort_by_pos(s.drop_last()), s.last())
    }
}

/// Entries are in position order.
pub open spec fn pos_sorted(s: Seq<(u32, Seq<char>)>) -> bool {
    forall|i: int, j: int| 0 <= i < j < s.len() ==> s[i].0 <= s[j].0
}

proof fn lemma_insert_keeps_order(s: Seq<(u32, Seq<char>)>, x: (u32, Seq<char>))
    requires
        pos_sorted(s),
    ensures
        pos_sorted(insert_by_pos(s, x)),
        insert_by_pos(s, x).to_multiset() =~= s.to_multiset().insert(x),
    decreases s.len(),
{
    broadcast use vstd::seq_lib::group_to_multiset_ensures;

    if s.len() == 0 {
        assert(seq![x] =~= Seq::<(u32, Seq<char>)>::empty().push(x));
    } else if s.last().0 <= x.0 {
    } else {
        let d = s.drop_last();
        let l = s.last();
        lemma_insert_keeps_order(d, x);
        let r = insert_by_pos(d, x);
        assert forall|i: int| 0 <= i < r.len() implies r[i].0 <= l.0 by {
            assert(r.contains(r[i]));
            assert(r.to_multiset().count(r[i]) > 0);
            if r[i] != x {
                assert(d.to_multiset().count(r[i]) > 0);
                assert(d.contains(r[i]));
                let j = choose|j: int| 0 <= j < d.len() && d[j] == r[i];
                assert(s[j] == d[j]);
            }
        }
        assert(s =~= d.push(l));
    }
}

/// The gauges of a front page come out in position order, and none is
/// lost or added.
pub proof fn lemma_gauges_in_position_order(s: Seq<(u32, Seq<char>)>)
    ensures
        pos_sorted(sort_by_pos(s)),
        sort_by_pos(s).to_multiset() =~= s.to_multiset(),
    decreases s.len(),
{
    broadcast use vstd::seq_lib::group_to_multiset_ensures;

    if s.len() > 0 {
        lemma_gauges_in_position_order(s.drop_last());
        lemma_insert_keeps_order(sort_by_pos(s.drop_last()), s.last());
        assert(s =~= s.drop_last().push(s.last()));
    }
}

/// `gaugeN` for a number `N`.
pub open spec fn gauge_pos(key: Seq<char>) -> Option<nat> {
    if key.len() >= 5 && key.take(5) == "gauge"@ {
        crate::text::parse_uint(key.skip(5), u32::MAX as nat)
    } else {
        None
    }
}

/// One `[FrontPage]` line: `gaugeN = name` places a gauge, `indicator =
/// { condition }, off, on, colours...` adds a lamp. The gauges so far, the
/// lamps, and the warnings drawn, or `None` for an error (a gauge without a
/// name, a condition that does not parse, missing labels).
pub open spec fn fp_line(
    gs: Seq<(u32, Seq<char>)>,
    inds: Seq<SpecIndicator>,
    text: Seq<char>,
) -> Option<(Seq<(u32, Seq<char>)>, Seq<SpecIndicator>, nat)> {
    match spec_kv(text) {
        None => Some((gs, inds, 1)),
        Some((key, ts)) => match gauge_pos(key) {
            Some(n) => if ts.len() > 0 {
                Some((gs.push((n as u32, token_text(ts[0]))), inds, 0))
            } else {
                None
            },
            None => if key == "indicator"@ {
                if ts.len() > 0 && ts[0] is Expr {
                    match spec_parse(ts[0]->Expr_0) {
                        Some(c) => if ts.len() > 2 {
                            Some((
                                gs,
                                inds.push(
                                    SpecIndicator {
                                        condition: c,
                                        off_label: token_text(ts[1]),
                                        on_label: token_text(ts[2]),
                                        colors: texts(ts.skip(3)),
                                    },
                                ),
                                0,
                            ))
                        } else {
                            None
                        },
                        None => None,
                    }
                } else {
                    Some((gs, inds, 1))
                }
            } else {
                Some((gs, inds, 1))
            },
        },
    }
}

pub open spec fn spec_front_page(
    gs: Seq<(u32, Seq<char>)>,
    inds: Seq<SpecIndicator>,
    lines: Seq<(u32, Seq<char>)>,
) -> Result<(Seq<(u32, Seq<char>)>, Seq<SpecIndicator>, nat), u32>
    decreases lines.len(),
{
    if lines.len() == 0 {
        Ok((gs, inds, 0))
    } else {
        match fp_line(gs, inds, lines[0].1) {
            None => Err(lines[0].0),
            Some((g2, i2, w)) => match spec_front_page(g2, i2, lines.drop_first()) {
                Ok((g3, i3, w2)) => Ok((g3, i3, w + w2)),
                Err(n) => Err(n),
            },
        }
    }
}

pub open spec fn placed_view(v: Seq<(u32, String)>) -> Seq<(u32, Seq<char>)> {
    v.map_values(|p: (u32, String)| (p.0, p.1@))
}

/// Inserting at the place found by scanning back over greater positions.
proof fn lemma_insert_at(s: Seq<(u32, Seq<char>)>, x: (u32, Seq<char>), p: int)
    requires
        0 <= p <= s.len(),
        forall|j: int| p <= j < s.len() ==> s[j].0 > x.0,
        p == 0 || s[p - 1].0 <= x.0,
    ensures
        insert_by_pos(s, x) == s.take(p).push(x) + s.skip(p),
    decreases s.len(),
{
    if s.len() == 0 {
        assert(s.take(p).push(x) + s.skip(p) =~= seq![x]);
    } else if s.last().0 <= x.0 {
        assert(p == s.len());
        assert(s.take(p).push(x) + s.skip(p) =~= s.push(x));
    } else {
        lemma_insert_at(s.drop_last(), x, p);
        assert(s.take(p).push(x) + s.skip(p) =~= (s.drop_last().take(p).push(x) + s.drop_last().skip(p)).push(s.last()));
    }
}

/// The names in position order.
fn sorted_names(placed: &Vec<(u32, String)>) -> (r: Vec<String>)
    ensures
        string_views(r@) == place_names(sort_by_pos(placed_view(placed@))),
{
    let ghost pv = placed_view(placed@);
    let mut sorted: Vec<(u32, String)> = Vec::new();
    let mut i: usize = 0;
    while i < placed.len()
        invariant
            i <= placed@.len(),
            pv == placed_view(placed@),
            pv.len() == placed@.len(),
            placed_view(sorted@) == sort_by_pos(pv.take(i as int)),
        decreases placed@.len() - i,
    {
        let (n, g) = (placed[i].0, placed[i].1.clone());
        assert(pv[i as int] == (n, g@));
        let mut p: usize = sorted.len();
        while p > 0 && sorted[p - 1].0 > n
            invariant
                p <= sorted@.len(),
                forall|j: int| p <= j < sorted@.len() ==> sorted@[j].0 > n,
            decreases p,
        {
            p = p - 1;
        }
        let ghost sv = placed_view(sorted@);
        proof {
            assert forall|j: int| p <= j < sv.len() implies sv[j].0 > n by {
                assert(sv[j].0 == sorted@[j].0);
            }
            if p > 0 {
                assert(sv[p - 1].0 == sorted@[p - 1].0);
            }
            lemma_insert_at(sv, (n, g@), p as int);
            assert(pv.take(i + 1).drop_last() =~= pv.take(i as int));
        }
        sorted.insert(p, (n, g));
        assert(placed_view(sorted@) =~= sv.take(p as int).push((n, g@)) + sv.skip(p as int));
        i = i + 1;
    }
    assert(pv.take(placed@.len() as int) =~= pv);
    let mut names: Vec<String> = Vec::new();
    let mut k: usize = 0;
    while k < sorted.len()
        invariant
            k <= sorted@.len(),
            string_views(names@) == place_names(placed_view(sorted@).take(k as int)),
        decreases sorted@.len() - k,
    {
        let ghost before = names@;
        assert(placed_view(sorted@)[k as int].1 == sorted@[k as int].1@);
        let nm = sorted[k].1.clone();
        assert(nm@ == placed_view(sorted@)[k as int].1);
        names.push(nm);
        assert(string_views(names@) =~= string_views(before).push(nm@));
        assert(placed_view(sorted@).take(k + 1) =~= placed_view(sorted@).take(k as int).push(placed_view(sorted@)[k as int]));
        assert(string_views(names@) =~= place_names(placed_view(sorted@).take(k + 1)));
        k = k + 1;
    }
    assert(placed_view(sorted@).take(sorted@.len() as int) =~= placed_view(sorted@));
    names
}

/// Parse a `[FrontPage]` section: its gauges replace `front.gauges`, its
/// lamps are added to `front.indicators`.
pub fn front_page(lines: &Vec<Line>, front: &mut FrontPage, warnings: &mut Vec<String>) -> (r: Result<(), Error>)
    ensures
        final(warnings)@.len() >= old(warnings)@.len(),
        match spec_front_page(seq![], indicators_view(old(front).indicators@), lines_view(lines@)) {
            Ok((gs, inds, w)) => r is Ok && string_views(final(front).gauges@) == place_names(sort_by_pos(gs)) && indicators_view(final(front).indicators@) == inds && final(warnings)@.len() == old(warnings)@.len() + w,
            Err(n) => r matches Err(Error::Parse(m, _)) && m == n,
        },
{
    let ghost lv = lines_view(lines@);
    let ghost total = spec_front_page(seq![], indicators_view(old(front).indicators@), lv);
    let ghost mut done: nat = 0;
    let mut placed: Vec<(u32, String)> = Vec::new();
    assert(lv.skip(0) =~= lv);
    assert(placed_view(placed@) =~= seq![]);
    let mut i: usize = 0;
    while i < lines.len()
        invariant
            i <= lines@.len(),
            lv == lines_view(lines@),
            lv.len() == lines@.len(),
            total == spec_front_page(seq![], indicators_view(old(front).indicators@), lv),
            warnings@.len() == old(warnings)@.len() + done,
            total == match spec_front_page(placed_view(placed@), indicators_view(front.indicators@), lv.skip(i as int)) {
                Ok((gs, inds, w)) => Ok((gs, inds, done + w)),
                Err(n) => Err::<(Seq<(u32, Seq<char>)>, Seq<SpecIndicator>, nat), u32>(n),
            },
        decreases lines@.len() - i,
    {
        let line = &lines[i];
        let ghost gs = placed_view(placed@);
        let ghost inds = indicators_view(front.indicators@);
        let ghost wl = warnings@.len();
        assert(lv.skip(i as int)[0] == (line.num, line.text@));
        assert(lv.skip(i as int).drop_first() =~= lv.skip(i + 1));
        let ghost step = fp_line(gs, inds, line.text@);
        match kv(line, warnings) {
            None => {},
            Some((key, tokens)) => {
                let ghost tv = tokens_view(tokens@);
                let kc = chars_of(key.as_str());
                let pos = if kc.len() >= 5 && crate::text::starts_with_str(&kc, "gauge") {
                    proof {
                        reveal_strlit("gauge");
                        assert(kc@.take(5) =~= "gauge"@);
                    }
                    crate::text::parse_uint_chars(&kc, 5, kc.len(), 0xffff_ffff)
                } else {
                    proof {
                        reveal_strlit("gauge");
                        if kc@.len() >= 5 {
                            assert(!(kc@.take(5) =~= "gauge"@)) by {
                                assert(!crate::text::has_prefix(kc@, "gauge"@));
                            }
                        }
                    }
                    None
                };
                match pos {
                    Some(n) => {
                        assert(kc@.subrange(5, kc@.len() as int) =~= kc@.skip(5));
                        let name = match str_tok(&tokens, 0, line.num) {
                            Ok(t) => t,
                            Err(e) => {
                                return Err(e);
                            },
                        };
                        placed.push((n as u32, name));
                        assert(placed_view(placed@) =~= gs.push((n as u32, token_text(tv[0]))));
                    },
                    None => {
                        assert(kc@.len() >= 5 && kc@.take(5) == "gauge"@ ==> kc@.subrange(5, kc@.len() as int) =~= kc@.skip(5));
                        if key_is(&key, "indicator") {
                            let src = if tokens.len() > 0 {
                                assert(tv[0] == token_view(tokens@[0]));
                                match &tokens[0] {
                                    Token::Expr(s) => Some(s),
                                    _ => None,
                                }
                            } else {
                                None
                            };
                            match src {
                                None => {
                                    warn(warnings, line.num, &String::from_str("indicator without { condition }"));
                                },
                                Some(src) => {
                                    let condition = match parse(src.as_str(), line.num) {
                                        Ok(e) => e,
                                        Err(e) => {
                                            return Err(e);
                                        },
                                    };
                                    let off_label = match str_tok(&tokens, 1, line.num) {
                                        Ok(t) => t,
                                        Err(e) => {
                                            return Err(e);
                                        },
                                    };
                                    let on_label = match str_tok(&tokens, 2, line.num) {
                                        Ok(t) => t,
                                        Err(e) => {
                                            return Err(e);
                                        },
                                    };
                                    let mut colors: Vec<String> = Vec::new();
                                    let mut k: usize = 3;
                                    while k < tokens.len()
                                        invariant
                                            3 <= k <= tokens@.len(),
                                            tv == tokens_view(tokens@),
                                            string_views(colors@) == texts(tv.subrange(3, k as int)),
                                        decreases tokens@.len() - k,
                                    {
                                        assert(tv[k as int] == token_view(tokens@[k as int]));
                                        let c = String::from_str(tokens[k].as_str());
                                        assert(c@ == token_text(tv[k as int]));
                                        let ghost before = colors@;
                                        colors.push(c);
                                        assert(tv.subrange(3, k + 1) =~= tv.subrange(3, k as int).push(tv[k as int]));
                                        assert(string_views(colors@) =~= string_views(before).push(c@));
                                        assert(texts(tv.subrange(3, k + 1)) =~= texts(tv.subrange(3, k as int)).push(token_text(tv[k as int])));
                                        assert(string_views(colors@) =~= texts(tv.subrange(3, k + 1)));
                                        k = k + 1;
                                    }
                                    assert(tv.subrange(3, k as int) =~= tv.skip(3));
                                    let ind = Indicator { condition, off_label, on_label, colors };
                                    let ghost iv = ind@;
                                    front.indicators.push(ind);
                                    assert(indicators_view(front.indicators@) =~= inds.push(iv));
                                },
                            }
                        } else {
                            let mut w = String::from_str("unknown [FrontPage] key `");
                            w.append(key.as_str());
                            w.append("`");
                            warn(warnings, line.num, &w);
                        }
                    },
                }
            },
        }
        proof {
            let ws = (warnings@.len() - wl) as nat;
            assert(step == Some((placed_view(placed@), indicators_view(front.indicators@), ws)));
            done = done + ws;
        }
        i = i + 1;
    }
    assert(lv.skip(lines@.len() as int) =~= Seq::<(u32, Seq<char>)>::empty());
    front.gauges = sorted_names(&placed);
    Ok(())
}

} // verus!
