//! Writing a `.msq` document from what a tune holds: the layout TunerStudio
//! writes (fileFormat 5.0), one numbered page per tune page, and the
//! settings symbols at the end.

use vstd::prelude::*;
use vstd::string::StringExecFns;
use super::{spec_xml_escape, xml_escape};
use super::read::opt_text;
use crate::ini::lex::Shape;
use crate::ini::model::ConstantClass;
use crate::text::{
    append_chars, chars_are, chars_of, decimal, decimal_chars, string_views, trim_end_char, trim_end_chars,
    trim_start_char, trim_start_chars,
};

verus! {

broadcast use vstd::string::group_string_axioms;

/// What the tune holds for a constant, as the writer needs it.
#[derive(Debug)]
pub enum TuneValue {
    /// The tune has no value of the kind the constant's class calls for.
    Missing,
    /// A number: as it is written, and cut to an integer (a bit field's
    /// index).
    Num { text: String, whole: i64 },
    Text(String),
    /// An array's values as they are written, in memory order.
    Cells(Vec<String>),
}

/// A constant of the definition, with what the tune holds for it.
#[derive(Debug)]
pub struct SaveConstant {
    pub name: String,
    pub class: ConstantClass,
    /// The INI page it lives on (1-based).
    pub page: Option<u8>,
    pub no_msq_save: bool,
    pub offset: Option<u32>,
    /// Bytes it occupies in its page.
    pub byte_size: u32,
    pub shape: Option<Shape>,
    /// A bit field's option labels.
    pub labels: Vec<String>,
    /// Its `digits` and `units`, evaluated against the tune.
    pub digits: u8,
    pub units: Option<String>,
    pub value: TuneValue,
}

/// What the writer reads of a tune: the definition's signature, the number
/// of pages, and every constant in definition order, each name once.
#[derive(Debug)]
pub struct TuneSnapshot {
    pub signature: String,
    pub page_count: usize,
    pub constants: Vec<SaveConstant>,
}

pub enum SpecTuneValue {
    Missing,
    Num(Seq<char>, i64),
    Text(Seq<char>),
    Cells(Seq<Seq<char>>),
}

pub struct SpecConst {
    pub name: Seq<char>,
    pub class: ConstantClass,
    pub page: Option<u8>,
    pub no_msq_save: bool,
    pub offset: Option<u32>,
    pub byte_size: u32,
    pub shape: Option<Shape>,
    pub labels: Seq<Seq<char>>,
    pub digits: u8,
    pub units: Option<Seq<char>>,
    pub value: SpecTuneValue,
}

impl View for TuneValue {
    type V = SpecTuneValue;

    open spec fn view(&self) -> SpecTuneValue {
        match self {
            TuneValue::Missing => SpecTuneValue::Missing,
            TuneValue::Num { text, whole } => SpecTuneValue::Num(text@, *whole),
            TuneValue::Text(s) => SpecTuneValue::Text(s@),
            TuneValue::Cells(v) => SpecTuneValue::Cells(string_views(v@)),
        }
    }
}

impl View for SaveConstant {
    type V = SpecConst;

    open spec fn view(&self) -> SpecConst {
        SpecConst {
            name: self.name@,
            class: self.class,
            page: self.page,
            no_msq_save: self.no_msq_save,
            offset: self.offset,
            byte_size: self.byte_size,
            shape: self.shape,
            labels: string_views(self.labels@),
            digits: self.digits,
            units: opt_text(self.units),
            value: self.value@,
        }
    }
}

pub open spec fn consts_view(v: Seq<SaveConstant>) -> Seq<SpecConst> {
    v.map_values(|c: SaveConstant| c@)
}

// ----- the text -------------------------------------------------------------

/// `s` without its leading and trailing `"`s.
pub open spec fn trim_quotes(s: Seq<char>) -> Seq<char> {
    trim_end_char(trim_start_char(s, '"'), '"')
}

/// The ` units="…"` attribute, where the constant has units.
pub open spec fn units_attr(units: Option<Seq<char>>) -> Seq<char> {
    match units {
        Some(u) => " units=\""@ + spec_xml_escape(trim_quotes(u)) + "\""@,
        None => seq![],
    }
}

/// An integer in decimal, with a `-` when negative.
pub open spec fn int_text(v: int) -> Seq<char> {
    if v < 0 {
        seq!['-'] + decimal((-v) as nat)
    } else {
        decimal(v as nat)
    }
}

/// Label `i` of a bit field, if it has one.
pub open spec fn label_at(labels: Seq<Seq<char>>, i: i64) -> Option<Seq<char>> {
    if 0 <= i < labels.len() {
        Some(labels[i as int])
    } else {
        None
    }
}

/// `vs[i..end]`, each value followed by a space.
pub open spec fn cells_line(vs: Seq<Seq<char>>, i: int, end: int) -> Seq<char>
    decreases end - i,
{
    if i >= end {
        seq![]
    } else {
        vs[i] + seq![' '] + cells_line(vs, i + 1, end)
    }
}

/// The rows of an array from value `i` on, `w` values to a row.
pub open spec fn cells_rows(vs: Seq<Seq<char>>, w: int, i: int) -> Seq<char>
    decreases vs.len() - i,
{
    if i >= vs.len() || w < 1 {
        seq![]
    } else {
        let end = if i + w < vs.len() { i + w } else { vs.len() as int };
        "         "@ + cells_line(vs, i, end) + seq!['\n'] + cells_rows(vs, w, end)
    }
}

/// An array constant's element: its shape's columns and rows in the opening
/// tag, then the values row by row.
pub open spec fn array_text(c: SpecConst, vs: Seq<Seq<char>>, cols: nat, rows: nat) -> Seq<char> {
    "<constant cols=\""@ + decimal(cols) + "\" digits=\""@ + decimal(c.digits as nat) + "\" name=\""@
        + c.name + "\" rows=\""@ + decimal(rows) + "\""@ + units_attr(c.units) + ">\n"@
        + cells_rows(vs, if cols < 1 { 1 } else { cols as int }, 0) + "      </constant>\n"@
}

/// A quoted text element: a bit field's label or a string constant.
pub open spec fn quoted_text(name: Seq<char>, t: Seq<char>) -> Seq<char> {
    "<constant name=\""@ + name + "\">&quot;"@ + spec_xml_escape(t) + "&quot;</constant>\n"@
}

/// The element for one constant, or nothing where the tune has no value
/// of its kind (or an array has no array shape). A bit field is written by
/// its label, or by its index where it has none or the label is `INVALID`.
pub open spec fn const_text(c: SpecConst) -> Seq<char> {
    match c.class {
        ConstantClass::Scalar => match c.value {
            SpecTuneValue::Num(t, _) => "<constant digits=\""@ + decimal(c.digits as nat) + "\" name=\""@ + c.name
                + "\""@ + units_attr(c.units) + ">"@ + t + "</constant>\n"@,
            _ => seq![],
        },
        ConstantClass::Bits => match c.value {
            SpecTuneValue::Num(_, w) => match label_at(c.labels, w) {
                Some(l) => if l != "INVALID"@ {
                    quoted_text(c.name, l)
                } else {
                    "<constant name=\""@ + c.name + "\">"@ + int_text(w as int) + "</constant>\n"@
                },
                None => "<constant name=\""@ + c.name + "\">"@ + int_text(w as int) + "</constant>\n"@,
            },
            _ => seq![],
        },
        ConstantClass::Array => match c.value {
            SpecTuneValue::Cells(vs) => match c.shape {
                Some(Shape::Array2D { x, y }) => array_text(c, vs, x as nat, y as nat),
                Some(Shape::Array1D(n)) => array_text(c, vs, 1, n as nat),
                _ => seq![],
            },
            _ => seq![],
        },
        ConstantClass::String => match c.value {
            SpecTuneValue::Text(s) => quoted_text(c.name, s),
            _ => seq![],
        },
    }
}

/// Where a constant's bytes start in its page.
pub open spec fn start_of(c: SpecConst) -> int {
    match c.offset {
        Some(o) => o as int,
        None => 0,
    }
}

/// Some range already written meets `[start, end)`.
pub open spec fn overlaps(owned: Seq<(int, int)>, start: int, end: int) -> bool {
    exists|k: int| 0 <= k < owned.len() && start < owned[k].1 && owned[k].0 < end
}

pub open spec fn on_page(c: SpecConst, page: u8) -> bool {
    c.page == Some(page) && !c.no_msq_save
}

/// The elements of page `page` for constants `cs[i..]`, given the byte
/// ranges already written: of constants whose bytes overlap, the first
/// one is written and the others are not; bit fields are exempt, since
/// several share a byte.
pub open spec fn page_text(cs: Seq<SpecConst>, page: u8, i: int, owned: Seq<(int, int)>) -> Seq<char>
    decreases cs.len() - i,
{
    if i >= cs.len() || i < 0 {
        seq![]
    } else if !on_page(cs[i], page) {
        page_text(cs, page, i + 1, owned)
    } else if cs[i].class != ConstantClass::Bits {
        let start = start_of(cs[i]);
        let end = start + cs[i].byte_size;
        if overlaps(owned, start, end) {
            page_text(cs, page, i + 1, owned)
        } else {
            const_text(cs[i]) + page_text(cs, page, i + 1, owned.push((start, end)))
        }
    } else {
        const_text(cs[i]) + page_text(cs, page, i + 1, owned)
    }
}

/// Pages `p..n`, each numbered from 0 and holding the constants of INI
/// page `p + 1` (taken modulo 256, as a page byte).
pub open spec fn pages_text(cs: Seq<SpecConst>, p: int, n: int) -> Seq<char>
    decreases n - p,
{
    if p >= n {
        seq![]
    } else {
        "<page number=\""@ + decimal(p as nat) + "\">\n"@ + page_text(cs, ((p + 1) as u8), 0, seq![]) + "</page>\n"@
            + pages_text(cs, p + 1, n)
    }
}

/// The `<setting>` elements for `symbols[i..]`.
pub open spec fn settings_text(symbols: Seq<Seq<char>>, i: int) -> Seq<char>
    decreases symbols.len() - i,
{
    if i >= symbols.len() || i < 0 {
        seq![]
    } else {
        "<setting name=\""@ + spec_xml_escape(symbols[i]) + "\" value=\""@ + spec_xml_escape(symbols[i]) + "\"/>\n"@
            + settings_text(symbols, i + 1)
    }
}

pub open spec fn spaces_to_plus(s: Seq<char>) -> Seq<char> {
    s.map_values(|c: char| if c == ' ' { '+' } else { c })
}

/// The whole document.
pub open spec fn spec_save(
    signature: Seq<char>,
    page_count: nat,
    cs: Seq<SpecConst>,
    symbols: Seq<Seq<char>>,
    author: Seq<char>,
    write_date: Seq<char>,
) -> Seq<char> {
    "<?xml version=\"1.0\" encoding=\"ISO-8859-1\"?>\n"@ + "<msq xmlns=\"http://www.msefi.com/:msq\">\n"@
        + "<bibliography author=\""@ + spec_xml_escape(author) + "\" tuneComment=\"\" writeDate=\""@
        + spec_xml_escape(write_date) + "\"/>\n"@
        + "<versionInfo fileFormat=\"5.0\" firmwareInfo=\""@ + spec_xml_escape(spaces_to_plus(signature))
        + "\" nPages=\""@ + decimal(page_count) + "\" signature=\""@ + spec_xml_escape(signature) + "\"/>\n"@
        + pages_text(cs, 0, page_count as int)
        + "<settings Comment=\"These setting are only used if this msq is opened without a project.\">\n"@
        + settings_text(symbols, 0) + "</settings>\n</msq>\n"@
}

/// A byte range can be formed for each constant that is not a bit field.
/// No two constants share a name, as in the definition they come from.
pub open spec fn names_distinct(cs: Seq<SpecConst>) -> bool {
    forall|i: int, j: int| 0 <= i < j < cs.len() ==> cs[i].name != cs[j].name
}

pub open spec fn ranges_fit(cs: Seq<SpecConst>) -> bool {
    forall|i: int| 0 <= i < cs.len() && cs[i].class != ConstantClass::Bits ==> start_of(cs[i]) + cs[i].byte_size <= u32::MAX
}

// ----- the writer -----------------------------------------------------------

fn push_decimal(out: &mut String, n: u64)
    ensures
        final(out)@ == old(out)@ + decimal(n as nat),
{
    let d = decimal_chars(n);
    append_chars(out, &d);
}

fn push_escaped(out: &mut String, s: &str)
    ensures
        final(out)@ == old(out)@ + spec_xml_escape(s@),
{
    let e = xml_escape(s);
    out.append(e.as_str());
}

fn push_units(out: &mut String, units: &Option<String>)
    ensures
        final(out)@ == old(out)@ + units_attr(opt_text(*units)),
{
    match units {
        Some(u) => {
            out.append(" units=\"");
            let t = trim_end_chars(&trim_start_chars(&chars_of(u.as_str()), '"'), '"');
            let ts = crate::text::string_from_chars(t.as_slice());
            push_escaped(out, ts.as_str());
            out.append("\"");
        },
        None => {
            assert(old(out)@ + units_attr(opt_text(*units)) =~= old(out)@);
        },
    }
}

pub(crate) fn push_int(out: &mut String, v: i64)
    ensures
        final(out)@ == old(out)@ + int_text(v as int),
{
    if v < 0 {
        let m: u64 = ((-(v + 1)) as u64) + 1;
        let ghost before = out@;
        proof {
            reveal_strlit("-");
        }
        out.append("-");
        push_decimal(out, m);
        assert("-"@ =~= seq!['-']);
        assert(out@ =~= before + (seq!['-'] + decimal((-v) as nat)));
    } else {
        push_decimal(out, v as u64);
    }
}

fn push_quoted(out: &mut String, name: &String, t: &String)
    ensures
        final(out)@ == old(out)@ + quoted_text(name@, t@),
{
    let ghost before = out@;
    out.append("<constant name=\"");
    out.append(name.as_str());
    out.append("\">&quot;");
    push_escaped(out, t.as_str());
    out.append("&quot;</constant>\n");
    assert(out@ =~= before + quoted_text(name@, t@));
}

fn push_index(out: &mut String, name: &String, w: i64)
    ensures
        final(out)@ == old(out)@ + ("<constant name=\""@ + name@ + "\">"@ + int_text(w as int) + "</constant>\n"@),
{
    let ghost before = out@;
    out.append("<constant name=\"");
    out.append(name.as_str());
    out.append("\">");
    push_int(out, w);
    out.append("</constant>\n");
    assert(out@ =~= before + ("<constant name=\""@ + name@ + "\">"@ + int_text(w as int) + "</constant>\n"@));
}

/// The values of an array, `w` to a row, from value `i` on.
fn push_rows(out: &mut String, vs: &Vec<String>, w: usize, i: usize)
    requires
        w >= 1,
        i <= vs@.len(),
    ensures
        final(out)@ == old(out)@ + cells_rows(string_views(vs@), w as int, i as int),
    decreases vs@.len() - i,
{
    let ghost sv = string_views(vs@);
    if i >= vs.len() {
        assert(old(out)@ + cells_rows(sv, w as int, i as int) =~= old(out)@);
        return;
    }
    let end: usize = if w < vs.len() - i { i + w } else { vs.len() };
    let ghost before = out@;
    out.append("         ");
    let ghost mid = out@;
    let mut k: usize = i;
    while k < end
        invariant
            i <= k <= end <= vs@.len(),
            sv == string_views(vs@),
            out@ + cells_line(sv, k as int, end as int) == mid + cells_line(sv, i as int, end as int),
        decreases end - k,
    {
        let ghost o = out@;
        out.append(vs[k].as_str());
        out.append(" ");
        proof {
            reveal_strlit(" ");
            assert(" "@ =~= seq![' ']);
            assert(sv[k as int] == vs@[k as int]@);
            assert(out@ + cells_line(sv, k + 1, end as int) =~= o + cells_line(sv, k as int, end as int));
        }
        k = k + 1;
    }
    assert(out@ =~= mid + cells_line(sv, i as int, end as int));
    proof {
        reveal_strlit("\n");
    }
    out.append("\n");
    assert("\n"@ =~= seq!['\n']);
    push_rows(out, vs, w, end);
    assert(out@ =~= before + cells_rows(sv, w as int, i as int));
}

fn push_array(out: &mut String, c: &SaveConstant, vs: &Vec<String>, cols: usize, rows: usize)
    requires
        c.value@ == SpecTuneValue::Cells(string_views(vs@)),
    ensures
        final(out)@ == old(out)@ + array_text(c@, string_views(vs@), cols as nat, rows as nat),
{
    let ghost before = out@;
    out.append("<constant cols=\"");
    push_decimal(out, cols as u64);
    out.append("\" digits=\"");
    push_decimal(out, c.digits as u64);
    out.append("\" name=\"");
    out.append(c.name.as_str());
    out.append("\" rows=\"");
    push_decimal(out, rows as u64);
    out.append("\"");
    push_units(out, &c.units);
    out.append(">\n");
    let ghost head = out@;
    let w: usize = if cols < 1 { 1 } else { cols };
    push_rows(out, vs, w, 0);
    out.append("      </constant>\n");
    assert(out@ =~= before + array_text(c@, string_views(vs@), cols as nat, rows as nat));
}

/// The element for one constant, appended to `out`.
fn push_constant(out: &mut String, c: &SaveConstant)
    ensures
        final(out)@ == old(out)@ + const_text(c@),
{
    let ghost before = out@;
    match c.class {
        ConstantClass::Scalar => match &c.value {
            TuneValue::Num { text, whole } => {
                out.append("<constant digits=\"");
                push_decimal(out, c.digits as u64);
                out.append("\" name=\"");
                out.append(c.name.as_str());
                out.append("\"");
                push_units(out, &c.units);
                out.append(">");
                out.append(text.as_str());
                out.append("</constant>\n");
                assert(out@ =~= before + const_text(c@));
            },
            _ => {
                assert(before + const_text(c@) =~= before);
            },
        },
        ConstantClass::Bits => match &c.value {
            TuneValue::Num { text, whole } => {
                let w: i64 = *whole;
                if w >= 0 && (w as u64) < (c.labels.len() as u64) {
                    let label = &c.labels[w as usize];
                    assert(label_at(c@.labels, w) == Some(label@));
                    let lv = chars_of(label.as_str());
                    if chars_are(&lv, "INVALID") {
                        push_index(out, &c.name, w);
                    } else {
                        push_quoted(out, &c.name, label);
                    }
                } else {
                    assert(label_at(c@.labels, w) is None);
                    push_index(out, &c.name, w);
                }
            },
            _ => {
                assert(before + const_text(c@) =~= before);
            },
        },
        ConstantClass::Array => match &c.value {
            TuneValue::Cells(vs) => match c.shape {
                Some(Shape::Array2D { x, y }) => {
                    push_array(out, c, vs, x as usize, y as usize);
                },
                Some(Shape::Array1D(n)) => {
                    push_array(out, c, vs, 1, n as usize);
                },
                _ => {
                    assert(before + const_text(c@) =~= before);
                },
            },
            _ => {
                assert(before + const_text(c@) =~= before);
            },
        },
        ConstantClass::String => match &c.value {
            TuneValue::Text(s) => {
                push_quoted(out, &c.name, s);
            },
            _ => {
                assert(before + const_text(c@) =~= before);
            },
        },
    }
}

/// Whether `[start, end)` meets a range already written.
fn meets(owned: &Vec<(u32, u32)>, start: u32, end: u32) -> (r: bool)
    ensures
        r == overlaps(owned@.map_values(|p: (u32, u32)| (p.0 as int, p.1 as int)), start as int, end as int),
{
    let ghost ov = owned@.map_values(|p: (u32, u32)| (p.0 as int, p.1 as int));
    let mut k: usize = 0;
    while k < owned.len()
        invariant
            k <= owned@.len(),
            ov == owned@.map_values(|p: (u32, u32)| (p.0 as int, p.1 as int)),
            forall|j: int| 0 <= j < k ==> !(start < ov[j].1 && ov[j].0 < end),
        decreases owned@.len() - k,
    {
        let (s, e) = owned[k];
        assert(ov[k as int] == (s as int, e as int));
        if start < e && s < end {
            return true;
        }
        k = k + 1;
    }
    false
}

/// The elements of INI page `page`.
fn push_page(out: &mut String, cs: &Vec<SaveConstant>, page: u8)
    requires
        ranges_fit(consts_view(cs@)),
    ensures
        final(out)@ == old(out)@ + page_text(consts_view(cs@), page, 0, seq![]),
{
    let ghost cv = consts_view(cs@);
    let mut owned: Vec<(u32, u32)> = Vec::new();
    let ghost total = old(out)@ + page_text(cv, page, 0, seq![]);
    assert(owned@.map_values(|p: (u32, u32)| (p.0 as int, p.1 as int)) =~= seq![]);
    let mut i: usize = 0;
    while i < cs.len()
        invariant
            i <= cs@.len(),
            cv == consts_view(cs@),
            cv.len() == cs@.len(),
            ranges_fit(cv),
            out@ + page_text(cv, page, i as int, owned@.map_values(|p: (u32, u32)| (p.0 as int, p.1 as int))) == total,
        decreases cs@.len() - i,
    {
        let c = &cs[i];
        let ghost ov = owned@.map_values(|p: (u32, u32)| (p.0 as int, p.1 as int));
        let ghost o = out@;
        assert(cv[i as int] == c@);
        let here = match c.page {
            Some(p) => p == page && !c.no_msq_save,
            None => false,
        };
        if here {
            if c.class != ConstantClass::Bits {
                let start: u32 = match c.offset {
                    Some(x) => x,
                    None => 0,
                };
                assert(start as int == start_of(cv[i as int]));
                let end: u32 = start + c.byte_size;
                if !meets(&owned, start, end) {
                    owned.push((start, end));
                    assert(owned@.map_values(|p: (u32, u32)| (p.0 as int, p.1 as int)) =~= ov.push((start as int, end as int)));
                    push_constant(out, c);
                    assert(out@ + page_text(cv, page, i + 1, ov.push((start as int, end as int))) =~= o + page_text(cv, page, i as int, ov));
                }
            } else {
                push_constant(out, c);
                assert(out@ + page_text(cv, page, i + 1, ov) =~= o + page_text(cv, page, i as int, ov));
            }
        }
        i = i + 1;
    }
    assert(out@ + page_text(cv, page, i as int, owned@.map_values(|p: (u32, u32)| (p.0 as int, p.1 as int))) =~= out@);
}

/// Serialize a tune as a TunerStudio-compatible `.msq` document.
pub fn save(tune: &TuneSnapshot, symbols: &[String], author: &str, write_date: &str) -> (r: String)
    requires
        ranges_fit(consts_view(tune.constants@)),
        names_distinct(consts_view(tune.constants@)),
    ensures
        r@ == spec_save(tune.signature@, tune.page_count as nat, consts_view(tune.constants@), string_views(symbols@), author@, write_date@),
{
    let mut out = String::new();
    out.append("<?xml version=\"1.0\" encoding=\"ISO-8859-1\"?>\n");
    out.append("<msq xmlns=\"http://www.msefi.com/:msq\">\n");
    out.append("<bibliography author=\"");
    push_escaped(&mut out, author);
    out.append("\" tuneComment=\"\" writeDate=\"");
    push_escaped(&mut out, write_date);
    out.append("\"/>\n");
    out.append("<versionInfo fileFormat=\"5.0\" firmwareInfo=\"");
    let sig = chars_of(tune.signature.as_str());
    let mut plus: Vec<char> = Vec::new();
    let mut j: usize = 0;
    while j < sig.len()
        invariant
            j <= sig@.len(),
            plus@ == spaces_to_plus(sig@.take(j as int)),
        decreases sig@.len() - j,
    {
        plus.push(if sig[j] == ' ' { '+' } else { sig[j] });
        j = j + 1;
        assert(plus@ =~= spaces_to_plus(sig@.take(j as int)));
    }
    assert(sig@.take(sig@.len() as int) =~= sig@);
    let ps = crate::text::string_from_chars(plus.as_slice());
    push_escaped(&mut out, ps.as_str());
    out.append("\" nPages=\"");
    push_decimal(&mut out, tune.page_count as u64);
    out.append("\" signature=\"");
    push_escaped(&mut out, tune.signature.as_str());
    out.append("\"/>\n");
    let ghost head = out@;
    let ghost cv = consts_view(tune.constants@);
    let n = tune.page_count;
    let mut p: usize = 0;
    while p < n
        invariant
            p <= n,
            n == tune.page_count,
            cv == consts_view(tune.constants@),
            ranges_fit(cv),
            out@ + pages_text(cv, p as int, n as int) == head + pages_text(cv, 0, n as int),
        decreases n - p,
    {
        let ghost o = out@;
        out.append("<page number=\"");
        push_decimal(&mut out, p as u64);
        out.append("\">\n");
        push_page(&mut out, &tune.constants, (p + 1) as u8);
        out.append("</page>\n");
        assert(out@ + pages_text(cv, p + 1, n as int) =~= o + pages_text(cv, p as int, n as int));
        p = p + 1;
    }
    assert(out@ =~= head + pages_text(cv, 0, n as int));
    let ghost mid = out@;
    out.append("<settings Comment=\"These setting are only used if this msq is opened without a project.\">\n");
    let ghost set0 = out@;
    let ghost sv = string_views(symbols@);
    let mut k: usize = 0;
    while k < symbols.len()
        invariant
            k <= symbols@.len(),
            sv == string_views(symbols@),
            out@ + settings_text(sv, k as int) == set0 + settings_text(sv, 0),
        decreases symbols@.len() - k,
    {
        let ghost o = out@;
        assert(sv[k as int] == symbols@[k as int]@);
        out.append("<setting name=\"");
        push_escaped(&mut out, symbols[k].as_str());
        out.append("\" value=\"");
        push_escaped(&mut out, symbols[k].as_str());
        out.append("\"/>\n");
        assert(out@ + settings_text(sv, k + 1) =~= o + settings_text(sv, k as int));
        k = k + 1;
    }
    assert(out@ + settings_text(sv, k as int) =~= out@);
    out.append("</settings>\n</msq>\n");
    out
}

} // verus!
