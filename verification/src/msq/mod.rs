//! TunerStudio `.msq` tune files: reading them, writing them, the
//! ISO-8859-1 decoding, XML escaping, and the error and report types.

pub mod diff;
pub mod read;
pub mod roundtrip;
pub mod write;

use vstd::prelude::*;
use vstd::string::StringExecFns;
use crate::ini::definition::IniDef;
use crate::ini::ui::{first_key, keyed_view};
use crate::ini::constants::SpecConstantDef;
use crate::text::{chars_of, string_from_chars};
use write::{int_text, label_at, push_int};

verus! {

#[derive(Debug)]
pub enum MsqError {
    Xml(String),
}

/// What an apply did: how many constants were written, and each skipped
/// name with the reason.
#[derive(Debug, Clone)]
pub struct ApplyReport {
    pub applied: usize,
    pub skipped: Vec<(String, String)>,
}

/// The character with the same code as the byte (ISO-8859-1).
pub open spec fn latin1_char(b: u8) -> char {
    b as char
}

/// `.msq` files declare ISO-8859-1; decode bytes losslessly.
pub fn decode_latin1(bytes: &[u8]) -> (s: String)
    ensures
        s@ == bytes@.map_values(|b: u8| latin1_char(b)),
{
    let mut v: Vec<char> = Vec::new();
    let mut i: usize = 0;
    while i < bytes.len()
        invariant
            i <= bytes@.len(),
            v@ == bytes@.take(i as int).map_values(|b: u8| latin1_char(b)),
        decreases bytes@.len() - i,
    {
        v.push(bytes[i] as char);
        i = i + 1;
        assert(v@ =~= bytes@.take(i as int).map_values(|b: u8| latin1_char(b)));
    }
    assert(bytes@.take(bytes@.len() as int) =~= bytes@);
    string_from_chars(v.as_slice())
}

/// The XML escape of one character.
pub open spec fn escape_char(c: char) -> Seq<char> {
    if c == '&' {
        seq!['&', 'a', 'm', 'p', ';']
    } else if c == '<' {
        seq!['&', 'l', 't', ';']
    } else if c == '>' {
        seq!['&', 'g', 't', ';']
    } else if c == '"' {
        seq!['&', 'q', 'u', 'o', 't', ';']
    } else {
        seq![c]
    }
}

/// Each character of `s` escaped, in order.
pub open spec fn spec_xml_escape(s: Seq<char>) -> Seq<char>
    decreases s.len(),
{
    if s.len() == 0 {
        seq![]
    } else {
        spec_xml_escape(s.drop_last()) + escape_char(s.last())
    }
}

/// Escape `&`, `<`, `>` and `"` for an XML attribute or text node.
pub fn xml_escape(s: &str) -> (r: String)
    ensures
        r@ == spec_xml_escape(s@),
{
    let v = chars_of(s);
    let mut out: Vec<char> = Vec::new();
    let mut i: usize = 0;
    while i < v.len()
        invariant
            i <= v@.len(),
            out@ == spec_xml_escape(v@.take(i as int)),
        decreases v@.len() - i,
    {
        let c = v[i];
        let ghost before = out@;
        if c == '&' {
            out.push('&');
            out.push('a');
            out.push('m');
            out.push('p');
            out.push(';');
        } else if c == '<' {
            out.push('&');
            out.push('l');
            out.push('t');
            out.push(';');
        } else if c == '>' {
            out.push('&');
            out.push('g');
            out.push('t');
            out.push(';');
        } else if c == '"' {
            out.push('&');
            out.push('q');
            out.push('u');
            out.push('o');
            out.push('t');
            out.push(';');
        } else {
            out.push(c);
        }
        assert(out@ =~= before + escape_char(c));
        assert(v@.take(i + 1).drop_last() =~= v@.take(i as int));
        i = i + 1;
    }
    assert(v@.take(v@.len() as int) =~= v@);
    string_from_chars(out.as_slice())
}

/// How a bit field's option `index` reads: the option label that the
/// definition gives the named constant, or the index in decimal where the
/// constant is unknown or has no label there.
pub open spec fn spec_bits_label(consts: Seq<(Seq<char>, SpecConstantDef)>, name: Seq<char>, index: i64) -> Seq<char> {
    if exists|i: int| first_key(consts, name, i) {
        match label_at(consts[choose|i: int| first_key(consts, name, i)].1.labels, index) {
            Some(l) => l,
            None => int_text(index as int),
        }
    } else {
        int_text(index as int)
    }
}

/// The label of option `index` of the bit field `name`, as a comparison
/// of a tune with a file shows it.
pub fn bits_label(def: &IniDef, name: &str, index: i64) -> (s: String)
    ensures
        s@ == spec_bits_label(keyed_view(def.constants@), name@, index),
{
    let ghost cv = keyed_view(def.constants@);
    let key = String::from_str(name);
    let mut i: usize = 0;
    while i < def.constants.len()
        invariant
            i <= def.constants@.len(),
            cv == keyed_view(def.constants@),
            cv.len() == def.constants@.len(),
            key@ == name@,
            forall|j: int| 0 <= j < i ==> cv[j].0 != name@,
        decreases def.constants@.len() - i,
    {
        if def.constants[i].0 == key {
            proof {
                assert(cv[i as int].0 == def.constants@[i as int].0@);
                assert(first_key(cv, name@, i as int));
                assert forall|q: int| first_key(cv, name@, q) implies q == i by {
                    if q > i {
                        assert(cv[i as int].0 == name@);
                    }
                }
                assert(cv[i as int].1.labels == crate::text::string_views(def.constants@[i as int].1.labels@));
            }
            let labels = &def.constants[i].1.labels;
            if 0 <= index && (index as u64) < (labels.len() as u64) {
                let l = labels[index as usize].clone();
                return l;
            }
            let mut out = String::new();
            push_int(&mut out, index);
            return out;
        }
        assert(cv[i as int].0 == def.constants@[i as int].0@);
        i = i + 1;
    }
    let mut out = String::new();
    push_int(&mut out, index);
    out
}

} // verus!
