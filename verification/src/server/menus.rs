//! What the tune menus show of a definition's `[Menu]` section: each entry
//! whose target is a dialog, a table or a curve the definition has, groups
//! that keep at least one such entry, separators only between what is
//! shown, and menus that keep at least one item. Whether an entry is
//! enabled is decided by evaluating its condition, which is left to the
//! caller: each shown entry carries that condition.

use vstd::prelude::*;
use crate::ini::curves::CurveDef;
use crate::ini::expr::{copy_expr, ExprTree, SpecExpr};
use crate::ini::tables::TableDef;
use crate::ini::ui::{
    items_view, keyed_view, menu_entries_view, menus_view, opt_expr, DialogDef, MenuDef, MenuEntry,
    MenuItem, SpecEntry, SpecItem, SpecMenu,
};

verus! {

/// What a menu entry opens.
#[derive(Debug, Clone, Copy, PartialEq, Eq, Structural)]
pub enum TargetKind {
    Dialog,
    Table,
    Curve,
}

/// A menu entry that is shown, with what it opens.
#[derive(Debug)]
pub struct ShownEntry {
    pub kind: TargetKind,
    pub name: String,
    pub label: String,
    /// The entry is enabled unless this evaluates false.
    pub enable: Option<ExprTree>,
}

#[derive(Debug)]
pub enum ShownItem {
    Entry(ShownEntry),
    Group { label: String, items: Vec<ShownEntry> },
    Separator,
}

#[derive(Debug)]
pub struct ShownMenu {
    pub title: String,
    pub items: Vec<ShownItem>,
}

pub struct SpecShownEntry {
    pub kind: TargetKind,
    pub name: Seq<char>,
    pub label: Seq<char>,
    pub enable: Option<SpecExpr>,
}

pub enum SpecShownItem {
    Entry(SpecShownEntry),
    Group(Seq<char>, Seq<SpecShownEntry>),
    Separator,
}

pub struct SpecShownMenu {
    pub title: Seq<char>,
    pub items: Seq<SpecShownItem>,
}

impl View for ShownEntry {
    type V = SpecShownEntry;

    open spec fn view(&self) -> SpecShownEntry {
        SpecShownEntry { kind: self.kind, name: self.name@, label: self.label@, enable: opt_expr(self.enable) }
    }
}

pub open spec fn shown_entries_view(v: Seq<ShownEntry>) -> Seq<SpecShownEntry> {
    v.map_values(|e: ShownEntry| e@)
}

impl View for ShownItem {
    type V = SpecShownItem;

    open spec fn view(&self) -> SpecShownItem {
        match self {
            ShownItem::Entry(e) => SpecShownItem::Entry(e@),
            ShownItem::Group { label, items } => SpecShownItem::Group(label@, shown_entries_view(items@)),
            ShownItem::Separator => SpecShownItem::Separator,
        }
    }
}

pub open spec fn shown_items_view(v: Seq<ShownItem>) -> Seq<SpecShownItem> {
    v.map_values(|i: ShownItem| i@)
}

impl View for ShownMenu {
    type V = SpecShownMenu;

    open spec fn view(&self) -> SpecShownMenu {
        SpecShownMenu { title: self.title@, items: shown_items_view(self.items@) }
    }
}

pub open spec fn shown_menus_view(v: Seq<ShownMenu>) -> Seq<SpecShownMenu> {
    v.map_values(|m: ShownMenu| m@)
}

/// The names of the dialogs, tables and curves a definition has.
pub struct Targets {
    pub dialogs: Seq<Seq<char>>,
    pub tables: Seq<Seq<char>>,
    pub curves: Seq<Seq<char>>,
}

/// The names of an insertion-ordered map.
pub open spec fn keys_of<V>(m: Seq<(Seq<char>, V)>) -> Seq<Seq<char>> {
    m.map_values(|p: (Seq<char>, V)| p.0)
}

pub open spec fn targets_of(
    dialogs: Seq<(String, DialogDef)>,
    tables: Seq<(String, TableDef)>,
    curves: Seq<(String, CurveDef)>,
) -> Targets {
    Targets {
        dialogs: keys_of(keyed_view(dialogs)),
        tables: keys_of(keyed_view(tables)),
        curves: keys_of(keyed_view(curves)),
    }
}

/// What `target` opens: a dialog before a table before a curve of that
/// name; `None` for anything else (TunerStudio's built-in editors).
pub open spec fn spec_target_kind(k: Targets, target: Seq<char>) -> Option<TargetKind> {
    if k.dialogs.contains(target) {
        Some(TargetKind::Dialog)
    } else if k.tables.contains(target) {
        Some(TargetKind::Table)
    } else if k.curves.contains(target) {
        Some(TargetKind::Curve)
    } else {
        None
    }
}

pub open spec fn spec_shown_entry(k: Targets, e: SpecEntry) -> Option<SpecShownEntry> {
    match spec_target_kind(k, e.target) {
        Some(kind) => Some(SpecShownEntry { kind, name: e.target, label: e.label, enable: e.enable }),
        None => None,
    }
}

/// The shown entries among `es`, in order.
pub open spec fn spec_shown_children(k: Targets, es: Seq<SpecEntry>) -> Seq<SpecShownEntry>
    decreases es.len(),
{
    if es.len() == 0 {
        seq![]
    } else {
        let r = spec_shown_children(k, es.drop_last());
        match spec_shown_entry(k, es.last()) {
            Some(s) => r.push(s),
            None => r,
        }
    }
}

/// One menu item added to what is shown so far: a separator only after a
/// shown item that is not itself a separator.
pub open spec fn shown_step(k: Targets, acc: Seq<SpecShownItem>, it: SpecItem) -> Seq<SpecShownItem> {
    match it {
        SpecItem::Entry(e) => match spec_shown_entry(k, e) {
            Some(s) => acc.push(SpecShownItem::Entry(s)),
            None => acc,
        },
        SpecItem::Group(label, children) => {
            let kids = spec_shown_children(k, children);
            if kids.len() > 0 {
                acc.push(SpecShownItem::Group(label, kids))
            } else {
                acc
            }
        },
        SpecItem::Separator => {
            if acc.len() > 0 && !(acc.last() is Separator) {
                acc.push(SpecShownItem::Separator)
            } else {
                acc
            }
        },
    }
}

pub open spec fn shown_fold(k: Targets, items: Seq<SpecItem>) -> Seq<SpecShownItem>
    decreases items.len(),
{
    if items.len() == 0 {
        seq![]
    } else {
        shown_step(k, shown_fold(k, items.drop_last()), items.last())
    }
}

pub open spec fn drop_trailing_separators(s: Seq<SpecShownItem>) -> Seq<SpecShownItem>
    decreases s.len(),
{
    if s.len() > 0 && s.last() is Separator {
        drop_trailing_separators(s.drop_last())
    } else {
        s
    }
}

/// A menu as shown; `None` when nothing of it is.
pub open spec fn spec_shown_menu(k: Targets, m: SpecMenu) -> Option<SpecShownMenu> {
    let items = drop_trailing_separators(shown_fold(k, m.items));
    if items.len() > 0 {
        Some(SpecShownMenu { title: m.title, items })
    } else {
        None
    }
}

pub open spec fn spec_menu_tree(k: Targets, ms: Seq<SpecMenu>) -> Seq<SpecShownMenu>
    decreases ms.len(),
{
    if ms.len() == 0 {
        seq![]
    } else {
        let r = spec_menu_tree(k, ms.drop_last());
        match spec_shown_menu(k, ms.last()) {
            Some(m) => r.push(m),
            None => r,
        }
    }
}

/// A group shows at least one entry.
pub open spec fn group_ok(it: SpecShownItem) -> bool {
    match it {
        SpecShownItem::Group(_, kids) => kids.len() > 0,
        _ => true,
    }
}

pub open spec fn no_leading_separator(s: Seq<SpecShownItem>) -> bool {
    s.len() > 0 ==> !(s[0] is Separator)
}

pub open spec fn no_double_separator(s: Seq<SpecShownItem>) -> bool {
    forall|i: int, j: int|
        #![trigger s[i], s[j]]
        0 <= i && j == i + 1 && j < s.len() ==> !(s[i] is Separator && s[j] is Separator)
}

pub open spec fn groups_ok(s: Seq<SpecShownItem>) -> bool {
    forall|i: int| 0 <= i < s.len() ==> group_ok(#[trigger] s[i])
}

/// The items of a shown menu: at least one, no separator first or last,
/// never two separators in a row, and no group without an entry.
pub open spec fn tidy_items(s: Seq<SpecShownItem>) -> bool {
    &&& s.len() > 0
    &&& no_leading_separator(s)
    &&& !(s.last() is Separator)
    &&& no_double_separator(s)
    &&& groups_ok(s)
}

proof fn lemma_fold_tidy(k: Targets, items: Seq<SpecItem>)
    ensures
        no_leading_separator(shown_fold(k, items)),
        no_double_separator(shown_fold(k, items)),
        groups_ok(shown_fold(k, items)),
    decreases items.len(),
{
    if items.len() > 0 {
        lemma_fold_tidy(k, items.drop_last());
        let acc = shown_fold(k, items.drop_last());
        let s = shown_fold(k, items);
        assert(s == shown_step(k, acc, items.last()));
        if s.len() > acc.len() {
            assert(s == acc.push(s.last()));
            assert forall|i: int| 0 <= i < s.len() implies group_ok(#[trigger] s[i]) by {
                if i < acc.len() {
                    assert(s[i] == acc[i]);
                }
            }
            assert forall|i: int, j: int|
                #![trigger s[i], s[j]]
                0 <= i && j == i + 1 && j < s.len() implies !(s[i] is Separator && s[j] is Separator) by {
                if j < acc.len() {
                    assert(s[i] == acc[i]);
                    assert(s[j] == acc[j]);
                } else {
                    assert(s[i] == acc.last());
                }
            }
            if acc.len() > 0 {
                assert(s[0] == acc[0]);
            }
        } else {
            assert(s == acc);
        }
    }
}

proof fn lemma_drop_trailing_tidy(s: Seq<SpecShownItem>)
    requires
        no_leading_separator(s),
        no_double_separator(s),
        groups_ok(s),
    ensures
        no_leading_separator(drop_trailing_separators(s)),
        no_double_separator(drop_trailing_separators(s)),
        groups_ok(drop_trailing_separators(s)),
        drop_trailing_separators(s).len() > 0 ==> !(drop_trailing_separators(s).last() is Separator),
    decreases s.len(),
{
    if s.len() > 0 && s.last() is Separator {
        let t = s.drop_last();
        assert forall|i: int| 0 <= i < t.len() implies group_ok(#[trigger] t[i]) by {
            assert(t[i] == s[i]);
        }
        assert forall|i: int, j: int|
            #![trigger t[i], t[j]]
            0 <= i && j == i + 1 && j < t.len() implies !(t[i] is Separator && t[j] is Separator) by {
            assert(t[i] == s[i]);
            assert(t[j] == s[j]);
        }
        if t.len() > 0 {
            assert(t[0] == s[0]);
        }
        lemma_drop_trailing_tidy(t);
    }
}

/// Every menu shown keeps at least one item; none starts or ends with a
/// separator or has two separators in a row, and every group shown keeps
/// at least one entry.
pub proof fn lemma_menus_tidy(k: Targets, ms: Seq<SpecMenu>)
    ensures
        forall|j: int| 0 <= j < spec_menu_tree(k, ms).len() ==> tidy_items(#[trigger] spec_menu_tree(k, ms)[j].items),
    decreases ms.len(),
{
    if ms.len() > 0 {
        lemma_menus_tidy(k, ms.drop_last());
        let r = spec_menu_tree(k, ms.drop_last());
        lemma_fold_tidy(k, ms.last().items);
        lemma_drop_trailing_tidy(shown_fold(k, ms.last().items));
        let t = spec_menu_tree(k, ms);
        assert forall|j: int| 0 <= j < t.len() implies tidy_items(#[trigger] t[j].items) by {
            if j < r.len() {
                assert(t[j] == r[j]);
            }
        }
    }
}

// ----- exec -------------------------------------------------------------------

fn has_key<T: View>(m: &Vec<(String, T)>, k: &String) -> (b: bool)
    ensures
        b == keys_of(keyed_view(m@)).contains(k@),
{
    let ghost ks = keys_of(keyed_view(m@));
    let mut i: usize = 0;
    while i < m.len()
        invariant
            i <= m@.len(),
            ks == keys_of(keyed_view(m@)),
            ks.len() == m@.len(),
            forall|j: int| 0 <= j < i ==> ks[j] != k@,
        decreases m@.len() - i,
    {
        assert(ks[i as int] == m@[i as int].0@);
        if m[i].0 == *k {
            return true;
        }
        i = i + 1;
    }
    false
}

fn copy_opt_expr(o: &Option<ExprTree>) -> (r: Option<ExprTree>)
    ensures
        opt_expr(r) == opt_expr(*o),
{
    match o {
        Some(e) => Some(copy_expr(e)),
        None => None,
    }
}

/// What a menu entry opens: a dialog, a table or a curve of the
/// definition, looked up in that order.
pub fn target_kind(
    dialogs: &Vec<(String, DialogDef)>,
    tables: &Vec<(String, TableDef)>,
    curves: &Vec<(String, CurveDef)>,
    target: &String,
) -> (r: Option<TargetKind>)
    ensures
        r == spec_target_kind(targets_of(dialogs@, tables@, curves@), target@),
{
    if has_key(dialogs, target) {
        Some(TargetKind::Dialog)
    } else if has_key(tables, target) {
        Some(TargetKind::Table)
    } else if has_key(curves, target) {
        Some(TargetKind::Curve)
    } else {
        None
    }
}

fn shown_entry(
    dialogs: &Vec<(String, DialogDef)>,
    tables: &Vec<(String, TableDef)>,
    curves: &Vec<(String, CurveDef)>,
    e: &MenuEntry,
) -> (r: Option<ShownEntry>)
    ensures
        match r {
            Some(s) => spec_shown_entry(targets_of(dialogs@, tables@, curves@), e@) == Some(s@),
            None => spec_shown_entry(targets_of(dialogs@, tables@, curves@), e@) is None,
        },
{
    match target_kind(dialogs, tables, curves, &e.target) {
        Some(kind) => Some(ShownEntry {
            kind,
            name: e.target.clone(),
            label: e.label.clone(),
            enable: copy_opt_expr(&e.enable),
        }),
        None => None,
    }
}

fn shown_children(
    dialogs: &Vec<(String, DialogDef)>,
    tables: &Vec<(String, TableDef)>,
    curves: &Vec<(String, CurveDef)>,
    children: &Vec<MenuEntry>,
) -> (r: Vec<ShownEntry>)
    ensures
        shown_entries_view(r@) == spec_shown_children(
            targets_of(dialogs@, tables@, curves@),
            menu_entries_view(children@),
        ),
{
    let ghost k = targets_of(dialogs@, tables@, curves@);
    let ghost cv = menu_entries_view(children@);
    let mut out: Vec<ShownEntry> = Vec::new();
    let mut i: usize = 0;
    while i < children.len()
        invariant
            i <= children@.len(),
            k == targets_of(dialogs@, tables@, curves@),
            cv == menu_entries_view(children@),
            shown_entries_view(out@) == spec_shown_children(k, cv.take(i as int)),
        decreases children@.len() - i,
    {
        let ghost before = shown_entries_view(out@);
        assert(cv.take(i + 1).drop_last() =~= cv.take(i as int));
        assert(cv.take(i + 1).last() == children@[i as int]@);
        match shown_entry(dialogs, tables, curves, &children[i]) {
            Some(s) => {
                out.push(s);
                assert(shown_entries_view(out@) =~= before.push(out@.last()@));
            },
            None => {},
        }
        i = i + 1;
    }
    assert(cv.take(children@.len() as int) =~= cv);
    out
}

fn is_separator(it: &ShownItem) -> (b: bool)
    ensures
        b == (it@ is Separator),
{
    match it {
        ShownItem::Separator => true,
        _ => false,
    }
}

fn shown_menu(
    dialogs: &Vec<(String, DialogDef)>,
    tables: &Vec<(String, TableDef)>,
    curves: &Vec<(String, CurveDef)>,
    m: &MenuDef,
) -> (r: Option<ShownMenu>)
    ensures
        match r {
            Some(s) => spec_shown_menu(targets_of(dialogs@, tables@, curves@), m@) == Some(s@),
            None => spec_shown_menu(targets_of(dialogs@, tables@, curves@), m@) is None,
        },
{
    let ghost k = targets_of(dialogs@, tables@, curves@);
    let ghost iv = items_view(m.items@);
    let mut acc: Vec<ShownItem> = Vec::new();
    let mut i: usize = 0;
    while i < m.items.len()
        invariant
            i <= m.items@.len(),
            k == targets_of(dialogs@, tables@, curves@),
            iv == items_view(m.items@),
            shown_items_view(acc@) == shown_fold(k, iv.take(i as int)),
        decreases m.items@.len() - i,
    {
        let ghost before = shown_items_view(acc@);
        assert(iv.take(i + 1).drop_last() =~= iv.take(i as int));
        assert(iv.take(i + 1).last() == m.items@[i as int]@);
        match &m.items[i] {
            MenuItem::Entry(e) => {
                match shown_entry(dialogs, tables, curves, e) {
                    Some(s) => {
                        acc.push(ShownItem::Entry(s));
                        assert(shown_items_view(acc@) =~= before.push(acc@.last()@));
                    },
                    None => {},
                }
            },
            MenuItem::Group { label, children } => {
                let kids = shown_children(dialogs, tables, curves, children);
                if kids.len() > 0 {
                    acc.push(ShownItem::Group { label: label.clone(), items: kids });
                    assert(shown_items_view(acc@) =~= before.push(acc@.last()@));
                }
            },
            MenuItem::Separator => {
                let n = acc.len();
                if n > 0 && !is_separator(&acc[n - 1]) {
                    acc.push(ShownItem::Separator);
                    assert(shown_items_view(acc@) =~= before.push(SpecShownItem::Separator));
                }
            },
        }
        i = i + 1;
    }
    assert(iv.take(m.items@.len() as int) =~= iv);
    let ghost folded = shown_items_view(acc@);
    loop
        invariant
            drop_trailing_separators(shown_items_view(acc@)) == drop_trailing_separators(folded),
        ensures
            shown_items_view(acc@) == drop_trailing_separators(folded),
        decreases acc@.len(),
    {
        let n = acc.len();
        if n == 0 || !is_separator(&acc[n - 1]) {
            break;
        }
        let ghost before = shown_items_view(acc@);
        acc.pop();
        assert(shown_items_view(acc@) =~= before.drop_last());
    }
    if acc.len() > 0 {
        Some(ShownMenu { title: m.title.clone(), items: acc })
    } else {
        None
    }
}

/// The tune menus as shown: each menu of `menus` that keeps an item, in
/// order, with the entries whose targets are among `dialogs`, `tables`
/// and `curves`.
pub fn menu_tree(
    menus: &Vec<MenuDef>,
    dialogs: &Vec<(String, DialogDef)>,
    tables: &Vec<(String, TableDef)>,
    curves: &Vec<(String, CurveDef)>,
) -> (r: Vec<ShownMenu>)
    ensures
        shown_menus_view(r@) == spec_menu_tree(targets_of(dialogs@, tables@, curves@), menus_view(menus@)),
{
    let ghost k = targets_of(dialogs@, tables@, curves@);
    let ghost mv = menus_view(menus@);
    let mut out: Vec<ShownMenu> = Vec::new();
    let mut i: usize = 0;
    while i < menus.len()
        invariant
            i <= menus@.len(),
            k == targets_of(dialogs@, tables@, curves@),
            mv == menus_view(menus@),
            shown_menus_view(out@) == spec_menu_tree(k, mv.take(i as int)),
        decreases menus@.len() - i,
    {
        let ghost before = shown_menus_view(out@);
        assert(mv.take(i + 1).drop_last() =~= mv.take(i as int));
        assert(mv.take(i + 1).last() == menus@[i as int]@);
        match shown_menu(dialogs, tables, curves, &menus[i]) {
            Some(m) => {
                out.push(m);
                assert(shown_menus_view(out@) =~= before.push(out@.last()@));
            },
            None => {},
        }
        i = i + 1;
    }
    assert(mv.take(menus@.len() as int) =~= mv);
    out
}

} // verus!
