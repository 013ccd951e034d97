//! Comparing a `.msq` file with the tune, and applying it, constant by
//! constant. The comparison works on raw values: what the file says is encoded the way an edit would be, so the
//! comparison is exact at the byte level. Encoding a file's numbers, and
//! reading the tune's current values, is the caller's part (it works in
//! floating point); this module decides what differs, what the definition
//! does not know, and what could not be compared.

use vstd::prelude::*;
use vstd::string::StringExecFns;
use crate::ini::model::ConstantClass;
use crate::text::string_views;

verus! {

/// A file constant's value, as the comparison needs it.
#[derive(Debug)]
pub enum FileValue {
    /// A number: its raw encoding (`None` where the scale does not resolve),
    /// and the number cut to an integer (a bit field's index).
    Num { raw: Option<i64>, index: i64 },
    /// Quoted text: the text, and its position in the constant's option
    /// labels (`None` where it is not one, or is `INVALID`).
    Text { text: String, index: Option<i64> },
    /// Array values, each raw-encoded (`None` where that fails).
    Array(Vec<Option<i64>>),
}

/// One constant of the file, with what the definition and the tune hold
/// for it.
#[derive(Debug)]
pub struct RawCompare {
    pub name: String,
    /// The definition's constant of that name: its class, page, and element
    /// count (0 where it has no shape); `None` when it has none.
    pub def: Option<(ConstantClass, Option<u8>, usize)>,
    pub file: FileValue,
    /// The tune's raw value (a scalar's, or a bit field's index).
    pub cur: Option<i64>,
    /// The tune's raw values of an array, element by element.
    pub cells: Vec<Option<i64>>,
    /// The tune's text, for a string constant.
    pub text: Option<String>,
}

/// How a constant differs.
#[derive(Debug, Clone)]
pub enum RawKind {
    /// Raw values of a scalar: the tune's, then the file's.
    Scalar { ecu: i64, file: i64 },
    /// Option indices of a bit field: the tune's, then the file's.
    Bits { ecu: i64, file: i64 },
    /// A string constant's text: the tune's, then the file's.
    Text { ecu: String, file: String },
    /// The positions (in memory order) of an array's differing elements.
    Array { changed: Vec<usize>, len: usize },
}

#[derive(Debug, Clone)]
pub struct RawEntry {
    pub name: String,
    pub page: Option<u8>,
    pub kind: RawKind,
}

#[derive(Debug, Clone)]
pub struct RawDiff {
    pub entries: Vec<RawEntry>,
    /// Constants of the file the definition does not know.
    pub only_in_file: Vec<String>,
    /// Constants that could not be compared, with the reason.
    pub unresolved: Vec<(String, String)>,
}

pub enum SpecFile {
    Num(Option<i64>, i64),
    Text(Seq<char>, Option<i64>),
    Array(Seq<Option<i64>>),
}

pub struct SpecCompare {
    pub name: Seq<char>,
    pub def: Option<(ConstantClass, Option<u8>, usize)>,
    pub file: SpecFile,
    pub cur: Option<i64>,
    pub cells: Seq<Option<i64>>,
    pub text: Option<Seq<char>>,
}

pub enum SpecKind {
    Scalar(i64, i64),
    Bits(i64, i64),
    Text(Seq<char>, Seq<char>),
    Array(Seq<usize>, usize),
}

pub struct SpecEntry {
    pub name: Seq<char>,
    pub page: Option<u8>,
    pub kind: SpecKind,
}

pub struct SpecDiff {
    pub entries: Seq<SpecEntry>,
    pub only_in_file: Seq<Seq<char>>,
    pub unresolved: Seq<(Seq<char>, Seq<char>)>,
}

pub open spec fn opt_chars(o: Option<String>) -> Option<Seq<char>> {
    match o {
        Some(s) => Some(s@),
        None => None,
    }
}

impl View for FileValue {
    type V = SpecFile;

    open spec fn view(&self) -> SpecFile {
        match self {
            FileValue::Num { raw, index } => SpecFile::Num(*raw, *index),
            FileValue::Text { text, index } => SpecFile::Text(text@, *index),
            FileValue::Array(v) => SpecFile::Array(v@),
        }
    }
}

impl View for RawCompare {
    type V = SpecCompare;

    open spec fn view(&self) -> SpecCompare {
        SpecCompare {
            name: self.name@,
            def: self.def,
            file: self.file@,
            cur: self.cur,
            cells: self.cells@,
            text: opt_chars(self.text),
        }
    }
}

impl View for RawKind {
    type V = SpecKind;

    open spec fn view(&self) -> SpecKind {
        match self {
            RawKind::Scalar { ecu, file } => SpecKind::Scalar(*ecu, *file),
            RawKind::Bits { ecu, file } => SpecKind::Bits(*ecu, *file),
            RawKind::Text { ecu, file } => SpecKind::Text(ecu@, file@),
            RawKind::Array { changed, len } => SpecKind::Array(changed@, *len),
        }
    }
}

impl View for RawEntry {
    type V = SpecEntry;

    open spec fn view(&self) -> SpecEntry {
        SpecEntry { name: self.name@, page: self.page, kind: self.kind@ }
    }
}

pub open spec fn entries_view(v: Seq<RawEntry>) -> Seq<SpecEntry> {
    v.map_values(|e: RawEntry| e@)
}

pub open spec fn pairs_view(v: Seq<(String, String)>) -> Seq<(Seq<char>, Seq<char>)> {
    v.map_values(|p: (String, String)| (p.0@, p.1@))
}

impl View for RawDiff {
    type V = SpecDiff;

    open spec fn view(&self) -> SpecDiff {
        SpecDiff {
            entries: entries_view(self.entries@),
            only_in_file: string_views(self.only_in_file@),
            unresolved: pairs_view(self.unresolved@),
        }
    }
}

pub open spec fn compares_view(v: Seq<RawCompare>) -> Seq<SpecCompare> {
    v.map_values(|c: RawCompare| c@)
}

/// The tune's raw value of element `i`, where it has one.
pub open spec fn cell_at(cells: Seq<Option<i64>>, i: int) -> Option<i64> {
    if 0 <= i < cells.len() {
        cells[i]
    } else {
        None
    }
}

/// The first `n` elements compared: the positions that differ, or `None`
/// when some element's value on either side is missing.
pub open spec fn changed_cells(file: Seq<Option<i64>>, cur: Seq<Option<i64>>, n: int) -> Option<Seq<usize>>
    decreases n,
{
    if n <= 0 {
        Some(seq![])
    } else {
        match changed_cells(file, cur, n - 1) {
            None => None,
            Some(ch) => match (cell_at(cur, n - 1), cell_at(file, n - 1)) {
                (Some(a), Some(b)) => Some(if a != b { ch.push((n - 1) as usize) } else { ch }),
                _ => None,
            },
        }
    }
}

/// The option index a file value names for a bit field.
pub open spec fn file_index(f: SpecFile) -> Option<i64> {
    match f {
        SpecFile::Num(_, i) => Some(i),
        SpecFile::Text(_, i) => i,
        SpecFile::Array(_) => None,
    }
}

pub open spec fn add_entry(d: SpecDiff, name: Seq<char>, page: Option<u8>, kind: SpecKind) -> SpecDiff {
    SpecDiff { entries: d.entries.push(SpecEntry { name, page, kind }), ..d }
}

pub open spec fn add_unresolved(d: SpecDiff, name: Seq<char>, why: Seq<char>) -> SpecDiff {
    SpecDiff { unresolved: d.unresolved.push((name, why)), ..d }
}

/// One file constant compared.
pub open spec fn diff_step(d: SpecDiff, c: SpecCompare) -> SpecDiff {
    match c.def {
        None => SpecDiff { only_in_file: d.only_in_file.push(c.name), ..d },
        Some((class, page, len)) => match (class, c.file) {
            (ConstantClass::Scalar, SpecFile::Num(raw, _)) => match (c.cur, raw) {
                (Some(a), Some(b)) => if a != b {
                    add_entry(d, c.name, page, SpecKind::Scalar(a, b))
                } else {
                    d
                },
                _ => add_unresolved(d, c.name, "scale did not resolve"@),
            },
            (ConstantClass::Bits, _) => match (c.cur, file_index(c.file)) {
                (Some(a), Some(b)) => if a != b {
                    add_entry(d, c.name, page, SpecKind::Bits(a, b))
                } else {
                    d
                },
                _ => add_unresolved(d, c.name, "label not in combo list"@),
            },
            (ConstantClass::Array, SpecFile::Array(vs)) => if vs.len() != len {
                add_unresolved(d, c.name, "array length mismatch"@)
            } else {
                match changed_cells(vs, c.cells, len as int) {
                    Some(ch) => if ch.len() > 0 {
                        add_entry(d, c.name, page, SpecKind::Array(ch, len))
                    } else {
                        d
                    },
                    None => d,
                }
            },
            (ConstantClass::String, SpecFile::Text(t, _)) => match c.text {
                Some(cur) => if cur != t {
                    add_entry(d, c.name, page, SpecKind::Text(cur, t))
                } else {
                    d
                },
                None => d,
            },
            _ => add_unresolved(d, c.name, "value shape mismatch"@),
        },
    }
}

/// The comparison of the file's constants, in the file's order.
pub open spec fn spec_diff(cs: Seq<SpecCompare>) -> SpecDiff
    decreases cs.len(),
{
    if cs.len() == 0 {
        SpecDiff { entries: seq![], only_in_file: seq![], unresolved: seq![] }
    } else {
        diff_step(spec_diff(cs.drop_last()), cs.last())
    }
}

fn changed(file: &Vec<Option<i64>>, cur: &Vec<Option<i64>>, n: usize) -> (r: Option<Vec<usize>>)
    requires
        n <= file@.len(),
    ensures
        match changed_cells(file@, cur@, n as int) {
            Some(ch) => r matches Some(v) && v@ == ch,
            None => r is None,
        },
{
    let mut out: Vec<usize> = Vec::new();
    let mut i: usize = 0;
    while i < n
        invariant
            i <= n,
            n <= file@.len(),
            changed_cells(file@, cur@, i as int) == Some(out@),
        decreases n - i,
    {
        let a = if i < cur.len() { cur[i] } else { None };
        let b = file[i];
        match (a, b) {
            (Some(x), Some(y)) => {
                if x != y {
                    out.push(i);
                }
            },
            _ => {
                proof {
                    lemma_changed_stays_none(file@, cur@, i as int + 1, n as int);
                }
                return None;
            },
        }
        i = i + 1;
    }
    Some(out)
}

proof fn lemma_changed_stays_none(file: Seq<Option<i64>>, cur: Seq<Option<i64>>, k: int, n: int)
    requires
        0 <= k <= n,
        changed_cells(file, cur, k) is None,
    ensures
        changed_cells(file, cur, n) is None,
    decreases n - k,
{
    if k < n {
        lemma_changed_stays_none(file, cur, k + 1, n);
    }
}

fn diff_one(d: &mut RawDiff, c: &RawCompare)
    ensures
        final(d)@ == diff_step(old(d)@, c@),
{
    let ghost before = d@;
    match c.def {
        None => {
            d.only_in_file.push(c.name.clone());
            assert(string_views(d.only_in_file@) =~= before.only_in_file.push(c.name@));
        },
        Some((class, page, len)) => {
            match (class, &c.file) {
                (ConstantClass::Scalar, FileValue::Num { raw, index: _ }) => match (c.cur, *raw) {
                    (Some(a), Some(b)) => {
                        if a != b {
                            push_entry(d, &c.name, page, RawKind::Scalar { ecu: a, file: b });
                        }
                    },
                    _ => push_unresolved(d, &c.name, "scale did not resolve"),
                },
                (ConstantClass::Bits, f) => {
                    let idx: Option<i64> = match f {
                        FileValue::Num { raw: _, index } => Some(*index),
                        FileValue::Text { text: _, index } => *index,
                        FileValue::Array(_) => None,
                    };
                    match (c.cur, idx) {
                        (Some(a), Some(b)) => {
                            if a != b {
                                push_entry(d, &c.name, page, RawKind::Bits { ecu: a, file: b });
                            }
                        },
                        _ => push_unresolved(d, &c.name, "label not in combo list"),
                    }
                },
                (ConstantClass::Array, FileValue::Array(vs)) => {
                    if vs.len() != len {
                        push_unresolved(d, &c.name, "array length mismatch");
                    } else {
                        match changed(vs, &c.cells, len) {
                            Some(ch) => {
                                if ch.len() > 0 {
                                    push_entry(d, &c.name, page, RawKind::Array { changed: ch, len });
                                }
                            },
                            None => {},
                        }
                    }
                },
                (ConstantClass::String, FileValue::Text { text, index: _ }) => match &c.text {
                    Some(cur) => {
                        if !(*cur == *text) {
                            push_entry(d, &c.name, page, RawKind::Text { ecu: cur.clone(), file: text.clone() });
                        }
                    },
                    None => {},
                },
                _ => push_unresolved(d, &c.name, "value shape mismatch"),
            }
        },
    }
}

fn push_entry(d: &mut RawDiff, name: &String, page: Option<u8>, kind: RawKind)
    ensures
        final(d)@ == add_entry(old(d)@, name@, page, kind@),
{
    let ghost before = d@;
    d.entries.push(RawEntry { name: name.clone(), page, kind });
    assert(entries_view(d.entries@) =~= before.entries.push(SpecEntry { name: name@, page, kind: kind@ }));
}

fn push_unresolved(d: &mut RawDiff, name: &String, why: &str)
    ensures
        final(d)@ == add_unresolved(old(d)@, name@, why@),
{
    let ghost before = d@;
    d.unresolved.push((name.clone(), String::from_str(why)));
    assert(pairs_view(d.unresolved@) =~= before.unresolved.push((name@, why@)));
}

/// Compare a file with the tune: each constant the tune holds a different
/// value for, each the definition does not know, and each that could not
/// be compared, in the file's order.
pub fn diff_raw(items: &Vec<RawCompare>) -> (d: RawDiff)
    ensures
        d@ == spec_diff(compares_view(items@)),
{
    let ghost cv = compares_view(items@);
    let mut d = RawDiff { entries: Vec::new(), only_in_file: Vec::new(), unresolved: Vec::new() };
    assert(d@.entries =~= seq![]);
    assert(d@.only_in_file =~= seq![]);
    assert(d@.unresolved =~= seq![]);
    let mut i: usize = 0;
    while i < items.len()
        invariant
            i <= items@.len(),
            cv == compares_view(items@),
            d@ == spec_diff(cv.take(i as int)),
        decreases items@.len() - i,
    {
        assert(cv.take(i + 1).drop_last() =~= cv.take(i as int));
        assert(cv.take(i + 1).last() == items@[i as int]@);
        diff_one(&mut d, &items[i]);
        i = i + 1;
    }
    assert(cv.take(items@.len() as int) =~= cv);
    d
}

// ----- apply ------------------------------------------------------------------

/// The shape of a file constant's value.
#[derive(Debug, Clone, Copy, PartialEq, Eq, Structural)]
pub enum FileShape {
    Num,
    Text,
    Array,
}

/// One constant of the file, with what applying it needs to know.
#[derive(Debug)]
pub struct ApplyItem {
    pub name: String,
    /// The definition's class for the name; `None` when it has none.
    pub class: Option<ConstantClass>,
    pub shape: FileShape,
    /// The option index the value names for a bit field, where it names one.
    pub index: Option<i64>,
    /// How many values the file gives for an array.
    pub file_len: usize,
    /// How many elements the definition's array has.
    pub def_len: usize,
}

/// What applying one file constant does.
#[derive(Debug, Clone, PartialEq, Eq)]
pub enum ApplyAction {
    /// Write the scalar's value.
    SetValue,
    /// Write this option index into the bit field.
    SetIndex(i64),
    /// Write the array's values, element by element.
    SetCells,
    /// Skip it, for this reason.
    Skip(String),
}

pub enum SpecAction {
    SetValue,
    SetIndex(i64),
    SetCells,
    Skip(Seq<char>),
}

impl View for ApplyAction {
    type V = SpecAction;

    open spec fn view(&self) -> SpecAction {
        match self {
            ApplyAction::SetValue => SpecAction::SetValue,
            ApplyAction::SetIndex(i) => SpecAction::SetIndex(*i),
            ApplyAction::SetCells => SpecAction::SetCells,
            ApplyAction::Skip(m) => SpecAction::Skip(m@),
        }
    }
}

pub struct SpecItem {
    pub name: Seq<char>,
    pub class: Option<ConstantClass>,
    pub shape: FileShape,
    pub index: Option<i64>,
    pub file_len: usize,
    pub def_len: usize,
}

impl View for ApplyItem {
    type V = SpecItem;

    open spec fn view(&self) -> SpecItem {
        SpecItem {
            name: self.name@,
            class: self.class,
            shape: self.shape,
            index: self.index,
            file_len: self.file_len,
            def_len: self.def_len,
        }
    }
}

pub open spec fn apply_items_view(v: Seq<ApplyItem>) -> Seq<SpecItem> {
    v.map_values(|i: ApplyItem| i@)
}

pub open spec fn plan_view(v: Seq<(String, ApplyAction)>) -> Seq<(Seq<char>, SpecAction)> {
    v.map_values(|p: (String, ApplyAction)| (p.0@, p.1@))
}

/// What applying one constant does, by its class and its value's shape.
pub open spec fn spec_action(it: SpecItem) -> SpecAction {
    match it.class {
        None => SpecAction::Skip("not in definition"@),
        Some(ConstantClass::Scalar) => if it.shape == FileShape::Num {
            SpecAction::SetValue
        } else {
            SpecAction::Skip("value shape mismatch"@)
        },
        Some(ConstantClass::Bits) => match it.index {
            Some(i) => SpecAction::SetIndex(i),
            None => SpecAction::Skip("label not found"@),
        },
        Some(ConstantClass::Array) => if it.shape != FileShape::Array {
            SpecAction::Skip("value shape mismatch"@)
        } else if it.file_len != it.def_len {
            SpecAction::Skip("array length mismatch"@)
        } else {
            SpecAction::SetCells
        },
        Some(ConstantClass::String) => SpecAction::Skip("string constant"@),
    }
}

/// The plan for the file's constants in order, those outside `only` (when
/// given) left out.
pub open spec fn spec_plan(items: Seq<SpecItem>, only: Option<Seq<Seq<char>>>) -> Seq<(Seq<char>, SpecAction)>
    decreases items.len(),
{
    if items.len() == 0 {
        seq![]
    } else {
        let r = spec_plan(items.drop_last(), only);
        let it = items.last();
        match only {
            Some(ns) if !ns.contains(it.name) => r,
            _ => r.push((it.name, spec_action(it))),
        }
    }
}

fn action(it: &ApplyItem) -> (a: ApplyAction)
    ensures
        a@ == spec_action(it@),
{
    match it.class {
        None => ApplyAction::Skip(String::from_str("not in definition")),
        Some(ConstantClass::Scalar) => if it.shape == FileShape::Num {
            ApplyAction::SetValue
        } else {
            ApplyAction::Skip(String::from_str("value shape mismatch"))
        },
        Some(ConstantClass::Bits) => match it.index {
            Some(i) => ApplyAction::SetIndex(i),
            None => ApplyAction::Skip(String::from_str("label not found")),
        },
        Some(ConstantClass::Array) => if it.shape != FileShape::Array {
            ApplyAction::Skip(String::from_str("value shape mismatch"))
        } else if it.file_len != it.def_len {
            ApplyAction::Skip(String::from_str("array length mismatch"))
        } else {
            ApplyAction::SetCells
        },
        Some(ConstantClass::String) => ApplyAction::Skip(String::from_str("string constant")),
    }
}

fn listed(names: &Vec<String>, name: &String) -> (b: bool)
    ensures
        b == string_views(names@).contains(name@),
{
    let ghost sv = string_views(names@);
    let mut i: usize = 0;
    while i < names.len()
        invariant
            i <= names@.len(),
            sv == string_views(names@),
            sv.len() == names@.len(),
            forall|j: int| 0 <= j < i ==> sv[j] != name@,
        decreases names@.len() - i,
    {
        assert(sv[i as int] == names@[i as int]@);
        if names[i] == *name {
            return true;
        }
        i = i + 1;
    }
    false
}

pub open spec fn opt_names(o: Option<&Vec<String>>) -> Option<Seq<Seq<char>>> {
    match o {
        Some(v) => Some(string_views(v@)),
        None => None,
    }
}

/// What applying a file to the tune does, constant by constant, in the
/// file's order: only the names in `only` when it is given, each written
/// or skipped with the reason. Writing is the caller's part; a write the
/// tune refuses is skipped with the tune's reason.
pub fn apply_plan(items: &Vec<ApplyItem>, only: Option<&Vec<String>>) -> (plan: Vec<(String, ApplyAction)>)
    ensures
        plan_view(plan@) == spec_plan(apply_items_view(items@), opt_names(only)),
{
    let ghost iv = apply_items_view(items@);
    let mut out: Vec<(String, ApplyAction)> = Vec::new();
    let mut i: usize = 0;
    while i < items.len()
        invariant
            i <= items@.len(),
            iv == apply_items_view(items@),
            plan_view(out@) == spec_plan(iv.take(i as int), opt_names(only)),
        decreases items@.len() - i,
    {
        assert(iv.take(i + 1).drop_last() =~= iv.take(i as int));
        assert(iv.take(i + 1).last() == items@[i as int]@);
        let it = &items[i];
        let keep = match only {
            Some(ns) => listed(ns, &it.name),
            None => true,
        };
        if keep {
            let ghost before = plan_view(out@);
            let a = action(it);
            out.push((it.name.clone(), a));
            assert(plan_view(out@) =~= before.push((it@.name, spec_action(it@))));
        }
        i = i + 1;
    }
    assert(iv.take(items@.len() as int) =~= iv);
    out
}

} // verus!

verus! {

/// `ch` lists, in ascending order, exactly the elements `i < n` whose
/// values differ between `cur` and `file`.
pub open spec fn exactly_the_differences(ch: Seq<usize>, file: Seq<Option<i64>>, cur: Seq<Option<i64>>, n: int) -> bool {
    &&& forall|k: int| 0 <= k < ch.len() ==> #[trigger] ch[k] < n && cur[ch[k] as int]->0 != file[ch[k] as int]->0
    &&& forall|i: int| 0 <= i < n && cur[i]->0 != file[i]->0 ==> exists|k: int| 0 <= k < ch.len() && #[trigger] ch[k] == i
    &&& forall|a: int, b: int| 0 <= a < b < ch.len() ==> ch[a] < ch[b]
}

/// Every element of the first `n` has a value on both sides.
pub open spec fn all_present(file: Seq<Option<i64>>, cur: Seq<Option<i64>>, n: int) -> bool {
    &&& n <= file.len()
    &&& n <= cur.len()
    &&& forall|i: int| 0 <= i < n ==> #[trigger] file[i] is Some && cur[i] is Some
}

proof fn lemma_changed_cells_exact(file: Seq<Option<i64>>, cur: Seq<Option<i64>>, n: int)
    requires
        0 <= n,
        n <= usize::MAX,
        all_present(file, cur, n),
    ensures
        changed_cells(file, cur, n) matches Some(ch) && exactly_the_differences(ch, file, cur, n),
    decreases n,
{
    if n > 0 {
        lemma_changed_cells_exact(file, cur, n - 1);
        let ch = changed_cells(file, cur, n - 1)->0;
        let m = n - 1;
        assert(file[m] is Some && cur[m] is Some);
        assert(cell_at(cur, m) == cur[m] && cell_at(file, m) == file[m]);
        let next = changed_cells(file, cur, n)->0;
        if cur[m]->0 != file[m]->0 {
            assert(next == ch.push(m as usize));
            assert forall|k: int| 0 <= k < next.len() implies #[trigger] next[k] < n
                && cur[next[k] as int]->0 != file[next[k] as int]->0 by {
                if k < ch.len() {
                    assert(next[k] == ch[k]);
                }
            }
            assert forall|i: int| 0 <= i < n && cur[i]->0 != file[i]->0 implies exists|k: int|
                0 <= k < next.len() && #[trigger] next[k] == i by {
                if i < m {
                    let k = choose|k: int| 0 <= k < ch.len() && #[trigger] ch[k] == i;
                    assert(next[k] == ch[k]);
                } else {
                    assert(next[ch.len() as int] == i);
                }
            }
            assert forall|a: int, b: int| 0 <= a < b < next.len() implies next[a] < next[b] by {
                assert(next[a] == ch[a]);
                if b < ch.len() {
                    assert(next[b] == ch[b]);
                }
            }
        } else {
            assert(next == ch);
            assert forall|i: int| 0 <= i < n && cur[i]->0 != file[i]->0 implies exists|k: int|
                0 <= k < next.len() && #[trigger] next[k] == i by {
                let k = choose|k: int| 0 <= k < ch.len() && #[trigger] ch[k] == i;
            }
        }
    }
}

/// An array constant whose every element has a value in the tune and in
/// the file is reported as changed exactly when some element differs, and
/// then with the ascending list of exactly the differing elements and the
/// array's length; the rest of the comparison is kept as it was.
pub proof fn lemma_array_changes_reported_exactly(d: SpecDiff, c: SpecCompare, page: Option<u8>, len: usize, vs: Seq<Option<i64>>)
    requires
        c.def == Some((ConstantClass::Array, page, len)),
        c.file == SpecFile::Array(vs),
        vs.len() == len,
        all_present(vs, c.cells, len as int),
    ensures
        ({
            let after = diff_step(d, c);
            &&& after.only_in_file == d.only_in_file
            &&& after.unresolved == d.unresolved
            &&& (exists|i: int| 0 <= i < len && c.cells[i]->0 != vs[i]->0) ==> {
                &&& after.entries.len() == d.entries.len() + 1
                &&& after.entries.drop_last() == d.entries
                &&& after.entries.last().name == c.name
                &&& after.entries.last().page == page
                &&& after.entries.last().kind matches SpecKind::Array(ch, n)
                    && n == len && exactly_the_differences(ch, vs, c.cells, len as int)
            }
            &&& !(exists|i: int| 0 <= i < len && c.cells[i]->0 != vs[i]->0) ==> after == d
        }),
{
    lemma_changed_cells_exact(vs, c.cells, len as int);
    let ch = changed_cells(vs, c.cells, len as int)->0;
    if exists|i: int| 0 <= i < len && c.cells[i]->0 != vs[i]->0 {
        let i = choose|i: int| 0 <= i < len && c.cells[i]->0 != vs[i]->0;
        let k = choose|k: int| 0 <= k < ch.len() && #[trigger] ch[k] == i;
        assert(ch.len() > 0);
        let after = diff_step(d, c);
        assert(after.entries.drop_last() =~= d.entries);
    } else {
        if ch.len() > 0 {
            assert(ch[0] < len);
        }
    }
}

/// A scalar or bit field whose value resolves on both sides is reported
/// exactly when the tune's raw value `a` and the file's `b` differ, as
/// the change from `a` (the tune's) to `b` (the file's); a string exactly
/// when the texts differ, tune's text first.
pub proof fn lemma_value_changes_reported(d: SpecDiff, c: SpecCompare, page: Option<u8>, len: usize)
    ensures
        c.file matches SpecFile::Num(Some(b), _) ==> c.cur matches Some(a) ==> c.def == Some((ConstantClass::Scalar, page, len)) ==> {
            let after = diff_step(d, c);
            &&& a != b ==> after.entries == d.entries.push(SpecEntry { name: c.name, page, kind: SpecKind::Scalar(a, b) })
            &&& a == b ==> after.entries == d.entries
            &&& after.only_in_file == d.only_in_file && after.unresolved == d.unresolved
        },
        c.file matches SpecFile::Num(_, b) ==> c.cur matches Some(a) ==> c.def == Some((ConstantClass::Bits, page, len)) ==> {
            let after = diff_step(d, c);
            &&& a != b ==> after.entries == d.entries.push(SpecEntry { name: c.name, page, kind: SpecKind::Bits(a, b) })
            &&& a == b ==> after.entries == d.entries
            &&& after.only_in_file == d.only_in_file && after.unresolved == d.unresolved
        },
        c.file matches SpecFile::Text(t, _) ==> c.text matches Some(cur) ==> c.def == Some((ConstantClass::String, page, len)) ==> {
            let after = diff_step(d, c);
            &&& cur != t ==> after.entries == d.entries.push(SpecEntry { name: c.name, page, kind: SpecKind::Text(cur, t) })
            &&& cur == t ==> after.entries == d.entries
            &&& after.only_in_file == d.only_in_file && after.unresolved == d.unresolved
        },
        c.def is None ==> diff_step(d, c).only_in_file == d.only_in_file.push(c.name)
            && diff_step(d, c).entries == d.entries && diff_step(d, c).unresolved == d.unresolved,
{
}

} // verus!
