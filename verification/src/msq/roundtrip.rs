//! Reading back what was saved: the events of the pages of a document
//! that `save` writes (each numbered page element, and in it each
//! constant's element with its attributes and its text, as an XML reader
//! reports them once escapes are resolved, with the line break after
//! each element), and what the reading steps make of them.

use vstd::prelude::*;
use crate::ini::lex::Shape;
use crate::ini::model::ConstantClass;
use crate::text::decimal;
use super::latin1_char;
use super::read::{
    attr_hit, entries_insert, first_hit, latin1_text, spec_attr, spec_step, SpecMsqFile, SpecReading, SpecXml,
};
use super::write::{
    cells_rows, int_text, label_at, on_page, overlaps, start_of, trim_quotes, SpecConst, SpecTuneValue,
};

verus! {

/// The bytes of an ASCII text.
pub open spec fn ascii(s: Seq<char>) -> Seq<u8> {
    s.map_values(|c: char| c as u8)
}

/// An attribute as the reader reports it: its key's bytes and its value.
pub open spec fn attr(k: Seq<char>, v: Seq<char>) -> (Seq<u8>, Option<Seq<char>>) {
    (ascii(k), Some(v))
}

pub open spec fn name_key() -> Seq<char> {
    seq!['n', 'a', 'm', 'e']
}

pub open spec fn constant_tag() -> Seq<char> {
    seq!['c', 'o', 'n', 's', 't', 'a', 'n', 't']
}

pub open spec fn page_tag() -> Seq<char> {
    seq!['p', 'a', 'g', 'e']
}

pub open spec fn number_key() -> Seq<char> {
    seq!['n', 'u', 'm', 'b', 'e', 'r']
}

/// The `units` attribute, where the constant has units.
pub open spec fn units_attrs(units: Option<Seq<char>>) -> Seq<(Seq<u8>, Option<Seq<char>>)> {
    match units {
        Some(u) => seq![attr(seq!['u', 'n', 'i', 't', 's'], trim_quotes(u))],
        None => seq![],
    }
}

/// An array's columns and rows, from its shape.
pub open spec fn array_dims(shape: Option<Shape>) -> Option<(nat, nat)> {
    match shape {
        Some(Shape::Array2D { x, y }) => Some((x as nat, y as nat)),
        Some(Shape::Array1D(n)) => Some((1, n as nat)),
        _ => None,
    }
}

/// Whether `save` writes an element for the constant.
pub open spec fn written(c: SpecConst) -> bool {
    match c.class {
        ConstantClass::Scalar => c.value is Num,
        ConstantClass::Bits => c.value is Num,
        ConstantClass::Array => c.value is Cells && array_dims(c.shape) is Some,
        ConstantClass::String => c.value is Text,
    }
}

/// The attributes of the constant's start tag, in the order written.
pub open spec fn const_attrs(c: SpecConst) -> Seq<(Seq<u8>, Option<Seq<char>>)> {
    match c.class {
        ConstantClass::Scalar => seq![attr(seq!['d', 'i', 'g', 'i', 't', 's'], decimal(c.digits as nat)), attr(name_key(), c.name)]
            + units_attrs(c.units),
        ConstantClass::Array => match array_dims(c.shape) {
            Some((cols, rows)) => seq![
                attr(seq!['c', 'o', 'l', 's'], decimal(cols)),
                attr(seq!['d', 'i', 'g', 'i', 't', 's'], decimal(c.digits as nat)),
                attr(name_key(), c.name),
                attr(seq!['r', 'o', 'w', 's'], decimal(rows)),
            ] + units_attrs(c.units),
            None => seq![],
        },
        _ => seq![attr(name_key(), c.name)],
    }
}

/// The constant element's text, escapes resolved.
pub open spec fn const_body(c: SpecConst) -> Seq<char> {
    match c.class {
        ConstantClass::Scalar => match c.value {
            SpecTuneValue::Num(t, _) => t,
            _ => seq![],
        },
        ConstantClass::Bits => match c.value {
            SpecTuneValue::Num(_, w) => match label_at(c.labels, w) {
                Some(l) => if l != "INVALID"@ {
                    seq!['"'] + l + seq!['"']
                } else {
                    int_text(w as int)
                },
                None => int_text(w as int),
            },
            _ => seq![],
        },
        ConstantClass::Array => match (c.value, array_dims(c.shape)) {
            (SpecTuneValue::Cells(vs), Some((cols, _))) => seq!['\n'] + cells_rows(vs, if cols < 1 { 1 } else { cols as int }, 0)
                + seq![' ', ' ', ' ', ' ', ' ', ' '],
            _ => seq![],
        },
        ConstantClass::String => match c.value {
            SpecTuneValue::Text(s) => seq!['"'] + s + seq!['"'],
            _ => seq![],
        },
    }
}

/// The line break after an element.
pub open spec fn newline() -> SpecXml {
    SpecXml::Text(Ok(seq!['\n']))
}

/// The events of a written constant's element, and the line break after it.
/// `save` writes a constant's name, units and numeric texts as they are,
/// so these are its events where those hold no `&`, `<` or `"`, as the
/// names and numbers of a definition do; labels and strings are escaped.
pub open spec fn const_events(c: SpecConst) -> Seq<SpecXml> {
    if written(c) {
        seq![
            SpecXml::Open(ascii(constant_tag()), const_attrs(c)),
            SpecXml::Text(Ok(const_body(c))),
            SpecXml::Close(ascii(constant_tag())),
            newline(),
        ]
    } else {
        seq![]
    }
}

/// The body the steps file for a written constant.
pub open spec fn const_entry(c: SpecConst) -> Seq<(Seq<char>, Seq<char>)> {
    if written(c) {
        seq![(c.name, const_body(c) + seq![' '])]
    } else {
        seq![]
    }
}

/// The events of page `page`'s constants `cs[i..]`, following `save`'s
/// choice of which constants a page holds.
pub open spec fn page_events(cs: Seq<SpecConst>, page: u8, i: int, owned: Seq<(int, int)>) -> Seq<SpecXml>
    decreases cs.len() - i,
{
    if i >= cs.len() || i < 0 {
        seq![]
    } else if !on_page(cs[i], page) {
        page_events(cs, page, i + 1, owned)
    } else if cs[i].class != ConstantClass::Bits {
        let start = start_of(cs[i]);
        let end = start + cs[i].byte_size;
        if overlaps(owned, start, end) {
            page_events(cs, page, i + 1, owned)
        } else {
            const_events(cs[i]) + page_events(cs, page, i + 1, owned.push((start, end)))
        }
    } else {
        const_events(cs[i]) + page_events(cs, page, i + 1, owned)
    }
}

/// The entries page `page`'s constants `cs[i..]` are saved as.
pub open spec fn page_entries(cs: Seq<SpecConst>, page: u8, i: int, owned: Seq<(int, int)>) -> Seq<(Seq<char>, Seq<char>)>
    decreases cs.len() - i,
{
    if i >= cs.len() || i < 0 {
        seq![]
    } else if !on_page(cs[i], page) {
        page_entries(cs, page, i + 1, owned)
    } else if cs[i].class != ConstantClass::Bits {
        let start = start_of(cs[i]);
        let end = start + cs[i].byte_size;
        if overlaps(owned, start, end) {
            page_entries(cs, page, i + 1, owned)
        } else {
            const_entry(cs[i]) + page_entries(cs, page, i + 1, owned.push((start, end)))
        }
    } else {
        const_entry(cs[i]) + page_entries(cs, page, i + 1, owned)
    }
}

/// The events of pages `p..n`, each a numbered page element.
pub open spec fn pages_events(cs: Seq<SpecConst>, p: int, n: int) -> Seq<SpecXml>
    decreases n - p,
{
    if p >= n {
        seq![]
    } else {
        seq![SpecXml::Open(ascii(page_tag()), seq![attr(number_key(), decimal(p as nat))]), newline()]
            + page_events(cs, ((p + 1) as u8), 0, seq![])
            + seq![SpecXml::Close(ascii(page_tag())), newline()]
            + pages_events(cs, p + 1, n)
    }
}

pub open spec fn pages_entries(cs: Seq<SpecConst>, p: int, n: int) -> Seq<(Seq<char>, Seq<char>)>
    decreases n - p,
{
    if p >= n {
        seq![]
    } else {
        page_entries(cs, ((p + 1) as u8), 0, seq![]) + pages_entries(cs, p + 1, n)
    }
}

/// Filing each entry in turn.
pub open spec fn insert_all(m: Seq<(Seq<char>, Seq<char>)>, es: Seq<(Seq<char>, Seq<char>)>) -> Seq<(Seq<char>, Seq<char>)>
    decreases es.len(),
{
    if es.len() == 0 {
        m
    } else {
        insert_all(entries_insert(m, es[0].0, es[0].1), es.drop_first())
    }
}

/// The steps run over `evs` in order, stopping at the first error.
pub open spec fn run_events(st: SpecReading, evs: Seq<SpecXml>) -> Result<SpecReading, Seq<char>>
    decreases evs.len(),
{
    if evs.len() == 0 {
        Ok(st)
    } else {
        match spec_step(st, evs[0]) {
            Ok(s2) => run_events(s2, evs.drop_first()),
            Err(m) => Err(m),
        }
    }
}

proof fn lemma_run_append(st: SpecReading, a: Seq<SpecXml>, b: Seq<SpecXml>)
    ensures
        run_events(st, a + b) == match run_events(st, a) {
            Ok(s) => run_events(s, b),
            Err(m) => Err(m),
        },
    decreases a.len(),
{
    if a.len() == 0 {
        assert(a + b =~= b);
    } else {
        assert((a + b)[0] == a[0]);
        assert((a + b).drop_first() =~= a.drop_first() + b);
        match spec_step(st, a[0]) {
            Ok(s2) => lemma_run_append(s2, a.drop_first(), b),
            Err(_) => {},
        }
    }
}

proof fn lemma_insert_all_append(m: Seq<(Seq<char>, Seq<char>)>, a: Seq<(Seq<char>, Seq<char>)>, b: Seq<(Seq<char>, Seq<char>)>)
    ensures
        insert_all(m, a + b) == insert_all(insert_all(m, a), b),
    decreases a.len(),
{
    if a.len() == 0 {
        assert(a + b =~= b);
    } else {
        assert((a + b)[0] == a[0]);
        assert((a + b).drop_first() =~= a.drop_first() + b);
        lemma_insert_all_append(entries_insert(m, a[0].0, a[0].1), a.drop_first(), b);
    }
}

proof fn lemma_ascii_char(c: char)
    requires
        (c as int) < 128,
    ensures
        latin1_char(c as u8) == c,
{
    assert((c as u8) as int == c as int);
    assert(((c as u8) as char) as int == c as int);
}

proof fn lemma_ascii_text(s: Seq<char>)
    requires
        forall|i: int| 0 <= i < s.len() ==> (s[i] as int) < 128,
    ensures
        latin1_text(ascii(s)) == s,
{
    assert forall|i: int| 0 <= i < s.len() implies #[trigger] latin1_text(ascii(s))[i] == s[i] by {
        lemma_ascii_char(s[i]);
    }
    assert(latin1_text(ascii(s)) =~= s);
}

/// The reading is the same but for its file's constants and its element
/// state.
pub open spec fn same_else(a: SpecReading, b: SpecReading) -> bool {
    &&& b.file.signature == a.file.signature
    &&& b.file.firmware_info == a.file.firmware_info
    &&& b.file.author == a.file.author
    &&& b.file.write_date == a.file.write_date
    &&& b.file.settings == a.file.settings
    &&& b.file.pc_variables == a.file.pc_variables
}

proof fn lemma_name_pick(pre: Seq<(Seq<u8>, Option<Seq<char>>)>, v: Seq<char>, post: Seq<(Seq<u8>, Option<Seq<char>>)>)
    requires
        forall|i: int| 0 <= i < pre.len() ==> latin1_text(#[trigger] pre[i].0) != "name"@,
    ensures
        spec_attr(pre.push(attr(name_key(), v)) + post, "name"@) == Some(v),
{
    reveal_strlit("name");
    lemma_ascii_text(name_key());
    assert(name_key() =~= "name"@);
    let a = pre.push(attr(name_key(), v)) + post;
    let j = pre.len() as int;
    assert(a[j] == attr(name_key(), v));
    assert(attr_hit(a, "name"@, j));
    assert forall|i: int| 0 <= i < j implies !attr_hit(a, "name"@, i) by {
        assert(a[i] == pre[i]);
    }
    assert(first_hit(a, "name"@, j));
    assert forall|k: int| first_hit(a, "name"@, k) implies k == j by {
        if k > j {
            assert(attr_hit(a, "name"@, j));
        }
    }
}

proof fn lemma_key_not_name(k: Seq<char>)
    requires
        forall|i: int| 0 <= i < k.len() ==> (k[i] as int) < 128,
        k.len() != 4 || k[0] != 'n',
    ensures
        latin1_text(ascii(k)) != "name"@,
{
    reveal_strlit("name");
    lemma_ascii_text(k);
    if k.len() == 4 {
        assert("name"@[0] == 'n');
    }
}

proof fn lemma_const_events(st: SpecReading, c: SpecConst)
    requires
        st.element is None,
        st.in_page,
    ensures
        run_events(st, const_events(c)) matches Ok(t) && t.element is None && t.in_page && same_else(st, t)
            && t.file.constants == insert_all(st.file.constants, const_entry(c)),
{
    if written(c) {
        reveal_strlit("constant");
        reveal_strlit("pcVariable");
        reveal_strlit("bibliography");
        reveal_strlit("versionInfo");
        reveal_strlit("page");
        reveal_strlit("setting");
        lemma_ascii_text(constant_tag());
        assert(constant_tag() =~= "constant"@);
        let digits = seq!['d', 'i', 'g', 'i', 't', 's'];
        let cols = seq!['c', 'o', 'l', 's'];
        let rows = seq!['r', 'o', 'w', 's'];
        lemma_key_not_name(digits);
        lemma_key_not_name(cols);
        let attrs = const_attrs(c);
        match c.class {
            ConstantClass::Scalar => {
                let pre = seq![attr(digits, decimal(c.digits as nat))];
                assert(attrs =~= pre.push(attr(name_key(), c.name)) + units_attrs(c.units));
                lemma_name_pick(pre, c.name, units_attrs(c.units));
            },
            ConstantClass::Array => {
                let (cl, rw) = array_dims(c.shape)->0;
                let pre = seq![attr(cols, decimal(cl)), attr(digits, decimal(c.digits as nat))];
                assert(attrs =~= pre.push(attr(name_key(), c.name)) + (seq![attr(rows, decimal(rw))] + units_attrs(c.units)));
                lemma_name_pick(pre, c.name, seq![attr(rows, decimal(rw))] + units_attrs(c.units));
            },
            _ => {
                let pre = Seq::<(Seq<u8>, Option<Seq<char>>)>::empty();
                assert(attrs =~= pre.push(attr(name_key(), c.name)) + Seq::<(Seq<u8>, Option<Seq<char>>)>::empty());
                lemma_name_pick(pre, c.name, Seq::<(Seq<u8>, Option<Seq<char>>)>::empty());
            },
        }
        assert(spec_attr(attrs, "name"@) == Some(c.name));
        let evs = const_events(c);
        let s1 = SpecReading { element: Some((false, c.name)), body: seq![], ..st };
        assert(spec_step(st, evs[0]) == Ok::<SpecReading, Seq<char>>(s1));
        let s2 = SpecReading { body: seq![] + const_body(c) + seq![' '], ..s1 };
        assert(spec_step(s1, evs[1]) == Ok::<SpecReading, Seq<char>>(s2));
        assert(seq![] + const_body(c) + seq![' '] =~= const_body(c) + seq![' ']);
        let s3 = SpecReading {
            file: SpecMsqFile { constants: entries_insert(st.file.constants, c.name, const_body(c) + seq![' ']), ..st.file },
            element: None,
            ..s2
        };
        assert(spec_step(s2, evs[2]) == Ok::<SpecReading, Seq<char>>(s3));
        assert(evs.drop_first()[0] == evs[1]);
        assert(evs.drop_first().drop_first()[0] == evs[2]);
        let rest1 = evs.drop_first();
        let rest2 = rest1.drop_first();
        let rest3 = rest2.drop_first();
        assert(rest3[0] == newline());
        assert(spec_step(s3, rest3[0]) == Ok::<SpecReading, Seq<char>>(s3));
        assert(rest3.drop_first() =~= Seq::<SpecXml>::empty());
        assert(run_events(s3, rest3.drop_first()) == Ok::<SpecReading, Seq<char>>(s3));
        assert(run_events(s3, rest3) == Ok::<SpecReading, Seq<char>>(s3));
        assert(run_events(s2, rest2) == Ok::<SpecReading, Seq<char>>(s3));
        assert(run_events(s1, rest1) == Ok::<SpecReading, Seq<char>>(s3));
        assert(run_events(st, evs) == Ok::<SpecReading, Seq<char>>(s3));
        let e = const_entry(c);
        assert(e.drop_first() =~= Seq::<(Seq<char>, Seq<char>)>::empty());
        assert(insert_all(s3.file.constants, e.drop_first()) == s3.file.constants);
    } else {
        assert(const_entry(c) =~= Seq::<(Seq<char>, Seq<char>)>::empty());
    }
}

proof fn lemma_page_events(st: SpecReading, cs: Seq<SpecConst>, page: u8, i: int, owned: Seq<(int, int)>)
    requires
        st.element is None,
        st.in_page,
    ensures
        run_events(st, page_events(cs, page, i, owned)) matches Ok(t) && t.element is None && t.in_page && same_else(st, t)
            && t.file.constants == insert_all(st.file.constants, page_entries(cs, page, i, owned)),
    decreases cs.len() - i,
{
    if i >= cs.len() || i < 0 {
    } else if !on_page(cs[i], page) {
        lemma_page_events(st, cs, page, i + 1, owned);
    } else {
        let next = if cs[i].class != ConstantClass::Bits {
            let start = start_of(cs[i]);
            let end = start + cs[i].byte_size;
            if overlaps(owned, start, end) {
                owned
            } else {
                owned.push((start, end))
            }
        } else {
            owned
        };
        if cs[i].class != ConstantClass::Bits && overlaps(owned, start_of(cs[i]), start_of(cs[i]) + cs[i].byte_size) {
            lemma_page_events(st, cs, page, i + 1, owned);
        } else {
            lemma_const_events(st, cs[i]);
            let t1 = run_events(st, const_events(cs[i]))->Ok_0;
            lemma_page_events(t1, cs, page, i + 1, next);
            lemma_run_append(st, const_events(cs[i]), page_events(cs, page, i + 1, next));
            lemma_insert_all_append(st.file.constants, const_entry(cs[i]), page_entries(cs, page, i + 1, next));
        }
    }
}

proof fn lemma_pages_events(st: SpecReading, cs: Seq<SpecConst>, p: int, n: int)
    requires
        st.element is None,
    ensures
        run_events(st, pages_events(cs, p, n)) matches Ok(t) && t.element is None && same_else(st, t)
            && t.file.constants == insert_all(st.file.constants, pages_entries(cs, p, n)),
    decreases n - p,
{
    if p < n {
        reveal_strlit("constant");
        reveal_strlit("pcVariable");
        reveal_strlit("bibliography");
        reveal_strlit("versionInfo");
        reveal_strlit("page");
        reveal_strlit("setting");
        reveal_strlit("number");
        lemma_ascii_text(page_tag());
        assert(page_tag() =~= "page"@);
        lemma_ascii_text(number_key());
        assert(number_key() =~= "number"@);
        let attrs = seq![attr(number_key(), decimal(p as nat))];
        assert(attr_hit(attrs, "number"@, 0));
        assert(first_hit(attrs, "number"@, 0));
        assert(spec_attr(attrs, "number"@) is Some);
        let open = seq![SpecXml::Open(ascii(page_tag()), attrs), newline()];
        let body = page_events(cs, ((p + 1) as u8), 0, seq![]);
        let close = seq![SpecXml::Close(ascii(page_tag())), newline()];
        let rest = pages_events(cs, p + 1, n);
        let s1 = SpecReading { in_page: true, ..st };
        assert(spec_step(st, open[0]) == Ok::<SpecReading, Seq<char>>(s1));
        assert(run_events(s1, Seq::<SpecXml>::empty()) == Ok::<SpecReading, Seq<char>>(s1));
        assert(open.drop_first()[0] == newline());
        assert(spec_step(s1, newline()) == Ok::<SpecReading, Seq<char>>(s1));
        assert(open.drop_first().drop_first() =~= Seq::<SpecXml>::empty());
        assert(run_events(s1, open.drop_first()) == Ok::<SpecReading, Seq<char>>(s1));
        assert(run_events(st, open) == Ok::<SpecReading, Seq<char>>(s1));
        lemma_page_events(s1, cs, ((p + 1) as u8), 0, seq![]);
        let s2 = run_events(s1, body)->Ok_0;
        assert(spec_step(s2, close[0]) == Ok::<SpecReading, Seq<char>>(s2));
        assert(run_events(s2, Seq::<SpecXml>::empty()) == Ok::<SpecReading, Seq<char>>(s2));
        assert(close.drop_first()[0] == newline());
        assert(spec_step(s2, newline()) == Ok::<SpecReading, Seq<char>>(s2));
        assert(close.drop_first().drop_first() =~= Seq::<SpecXml>::empty());
        assert(run_events(s2, close.drop_first()) == Ok::<SpecReading, Seq<char>>(s2));
        assert(run_events(s2, close) == Ok::<SpecReading, Seq<char>>(s2));
        lemma_pages_events(s2, cs, p + 1, n);
        lemma_run_append(st, open, body);
        lemma_run_append(st, open + body, close);
        lemma_run_append(st, open + body + close, rest);
        lemma_run_append(s1, body, close);
        assert(pages_events(cs, p, n) == open + body + close + rest);
        lemma_insert_all_append(st.file.constants, page_entries(cs, ((p + 1) as u8), 0, seq![]), pages_entries(cs, p + 1, n));
    }
}

/// Saving then reading back: fed the events of the pages of a saved
/// document, from any reading with no constant open, the reading steps
/// file each constant `save` writes under its name with the text written
/// for it (and a space after it), in the order written, and leave the rest
/// of the file as it was.
pub proof fn lemma_saved_pages_read_back(st: SpecReading, cs: Seq<SpecConst>, page_count: nat)
    requires
        st.element is None,
    ensures
        run_events(st, pages_events(cs, 0, page_count as int)) matches Ok(t) && same_else(st, t)
            && t.file.constants == insert_all(st.file.constants, pages_entries(cs, 0, page_count as int)),
{
    lemma_pages_events(st, cs, 0, page_count as int);
}

} // verus!
