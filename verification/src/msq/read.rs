//! Reading a `.msq` document. quick-xml turns the text into events; each
//! event is folded into the file model by a verified step, so what the
//! reader keeps of a document is exactly what those steps say.

use vstd::prelude::*;
use quick_xml::events::Event;
use super::{latin1_char, decode_latin1, MsqError};
use crate::text::{chars_are, chars_of, string_views};
use vstd::string::StringExecFns;

verus! {

broadcast use vstd::string::group_string_axioms;

// ----- quick-xml ------------------------------------------------------------

#[verifier::external_type_specification]
#[verifier::external_body]
#[verifier::reject_recursive_types(R)]
pub struct ExXmlReader<R>(quick_xml::Reader<R>);

/// quick-xml's reader over a text, with the text and how many events it
/// has given.
pub struct XmlEvents<'a> {
    reader: quick_xml::Reader<&'a [u8]>,
    text: &'a str,
    given: usize,
}

impl<'a> XmlEvents<'a> {
    /// The text being read.
    pub closed spec fn source(&self) -> Seq<char> {
        self.text@
    }

    /// How many events the reader has given.
    pub closed spec fn count(&self) -> nat {
        self.given as nat
    }
}

/// Event `k` (from 0) that quick-xml's reader, made by `Reader::from_str`
/// with its default configuration, gives for the text `src`: a start or
/// empty-element tag with its name and its attributes that parse (key, and
/// value unescaped where that succeeds), character data unescaped (or the
/// unescaping error), an end tag's name, the end of input, any other
/// event, or the reader's error message.
pub uninterp spec fn xml_event(src: Seq<char>, k: nat) -> Result<SpecXml, Seq<char>>;

/// `quick_xml::Reader::from_str`: a reader at the start of `src`.
#[verifier::external_body]
fn xml_events<'a>(src: &'a str) -> (r: XmlEvents<'a>)
    ensures
        r.source() == src@,
        r.count() == 0,
{
    XmlEvents { reader: quick_xml::Reader::from_str(src), text: src, given: 0 }
}

/// `quick_xml::Reader::read_event`: the reader's next event, as plain
/// values (see [`xml_event`]); the reader has then given one more.
#[verifier::external_body]
fn read_event(ev: &mut XmlEvents) -> (r: Result<XmlItem, String>)
    requires
        old(ev).count() < usize::MAX,
    ensures
        final(ev).source() == old(ev).source(),
        final(ev).count() == old(ev).count() + 1,
        match r {
            Ok(it) => xml_event(old(ev).source(), old(ev).count()) == Ok::<SpecXml, Seq<char>>(it@),
            Err(m) => xml_event(old(ev).source(), old(ev).count()) == Err::<SpecXml, Seq<char>>(m@),
        },
{
    ev.given += 1;
    let item = match ev.reader.read_event().map_err(|e| e.to_string())? {
        Event::Start(e) | Event::Empty(e) => XmlItem::Open {
            name: e.name().0.to_vec(),
            attrs: e.attributes().flatten().map(|a| (a.key.0.to_vec(), a.unescape_value().ok().map(String::from))).collect(),
        },
        Event::End(e) => XmlItem::Close(e.name().0.to_vec()),
        Event::Text(t) => XmlItem::Text(t.unescape().map(String::from).map_err(|e| e.to_string())),
        Event::Eof => XmlItem::Eof,
        _ => XmlItem::Other,
    };
    Ok(item)
}

} // verus!

verus! {

// ----- the model ------------------------------------------------------------

/// The characters whose codes are the bytes: how raw tag and attribute
/// names are compared with the ASCII names of the format.
pub open spec fn latin1_text(b: Seq<u8>) -> Seq<char> {
    b.map_values(|x: u8| latin1_char(x))
}

pub open spec fn opt_text(o: Option<String>) -> Option<Seq<char>> {
    match o {
        Some(s) => Some(s@),
        None => None,
    }
}

pub open spec fn attrs_view(a: Seq<(Vec<u8>, Option<String>)>) -> Seq<(Seq<u8>, Option<Seq<char>>)> {
    a.map_values(|p: (Vec<u8>, Option<String>)| (p.0@, opt_text(p.1)))
}

/// One event of a document as plain values.
#[derive(Debug)]
pub enum XmlItem {
    /// A start or empty-element tag: its name's bytes, and each attribute's
    /// key bytes with its unescaped value (`None` where unescaping failed).
    Open { name: Vec<u8>, attrs: Vec<(Vec<u8>, Option<String>)> },
    /// Character data, unescaped, or the error unescaping gave.
    Text(Result<String, String>),
    Close(Vec<u8>),
    Eof,
    Other,
}

pub enum SpecXml {
    Open(Seq<u8>, Seq<(Seq<u8>, Option<Seq<char>>)>),
    Text(Result<Seq<char>, Seq<char>>),
    Close(Seq<u8>),
    Eof,
    Other,
}

impl View for XmlItem {
    type V = SpecXml;

    open spec fn view(&self) -> SpecXml {
        match self {
            XmlItem::Open { name, attrs } => SpecXml::Open(name@, attrs_view(attrs@)),
            XmlItem::Text(t) => SpecXml::Text(
                match t {
                    Ok(x) => Ok(x@),
                    Err(m) => Err(m@),
                },
            ),
            XmlItem::Close(n) => SpecXml::Close(n@),
            XmlItem::Eof => SpecXml::Eof,
            XmlItem::Other => SpecXml::Other,
        }
    }
}

/// What a `.msq` document says, with each constant's body as text (the
/// numbers in it are read by the caller).
#[derive(Debug)]
pub struct MsqFile {
    pub signature: Option<String>,
    pub firmware_info: Option<String>,
    pub author: Option<String>,
    pub write_date: Option<String>,
    /// Symbol names from `<settings>` (e.g. FAHRENHEIT, AFR).
    pub settings: Vec<String>,
    /// The constants of numbered pages with their bodies, in the order
    /// their names first came; a name that comes again replaces the body in
    /// place.
    pub constants: Vec<(String, String)>,
    pub pc_variables: Vec<(String, String)>,
}

pub struct SpecMsqFile {
    pub signature: Option<Seq<char>>,
    pub firmware_info: Option<Seq<char>>,
    pub author: Option<Seq<char>>,
    pub write_date: Option<Seq<char>>,
    pub settings: Seq<Seq<char>>,
    pub constants: Seq<(Seq<char>, Seq<char>)>,
    pub pc_variables: Seq<(Seq<char>, Seq<char>)>,
}

pub open spec fn entries_view(v: Seq<(String, String)>) -> Seq<(Seq<char>, Seq<char>)> {
    v.map_values(|e: (String, String)| (e.0@, e.1@))
}

impl View for MsqFile {
    type V = SpecMsqFile;

    open spec fn view(&self) -> SpecMsqFile {
        SpecMsqFile {
            signature: opt_text(self.signature),
            firmware_info: opt_text(self.firmware_info),
            author: opt_text(self.author),
            write_date: opt_text(self.write_date),
            settings: string_views(self.settings@),
            constants: entries_view(self.constants@),
            pc_variables: entries_view(self.pc_variables@),
        }
    }
}

pub open spec fn spec_empty_file() -> SpecMsqFile {
    SpecMsqFile {
        signature: None,
        firmware_info: None,
        author: None,
        write_date: None,
        settings: seq![],
        constants: seq![],
        pc_variables: seq![],
    }
}

impl Default for MsqFile {
    fn default() -> (f: Self)
        ensures
            f@ == spec_empty_file(),
    {
        let f = MsqFile {
            signature: None,
            firmware_info: None,
            author: None,
            write_date: None,
            settings: Vec::new(),
            constants: Vec::new(),
            pc_variables: Vec::new(),
        };
        assert(f@.settings =~= seq![]);
        assert(f@.constants =~= seq![]);
        assert(f@.pc_variables =~= seq![]);
        f
    }
}

/// A document being read: the file so far, the `constant` or `pcVariable`
/// whose body is being gathered (whether it is a `pcVariable`, and its
/// name), that body, and whether the current page is a numbered one.
#[derive(Debug)]
pub struct MsqReading {
    pub file: MsqFile,
    pub element: Option<(bool, String)>,
    pub body: String,
    pub in_numbered_page: bool,
}

pub struct SpecReading {
    pub file: SpecMsqFile,
    pub element: Option<(bool, Seq<char>)>,
    pub body: Seq<char>,
    pub in_page: bool,
}

impl View for MsqReading {
    type V = SpecReading;

    open spec fn view(&self) -> SpecReading {
        SpecReading {
            file: self.file@,
            element: match self.element {
                Some((pc, n)) => Some((pc, n@)),
                None => None,
            },
            body: self.body@,
            in_page: self.in_numbered_page,
        }
    }
}

pub open spec fn spec_start() -> SpecReading {
    SpecReading { file: spec_empty_file(), element: None, body: seq![], in_page: false }
}

/// Attribute `i` is named `key` and its value unescaped.
pub open spec fn attr_hit(attrs: Seq<(Seq<u8>, Option<Seq<char>>)>, key: Seq<char>, i: int) -> bool {
    0 <= i < attrs.len() && latin1_text(attrs[i].0) == key && attrs[i].1 is Some
}

pub open spec fn first_hit(attrs: Seq<(Seq<u8>, Option<Seq<char>>)>, key: Seq<char>, i: int) -> bool {
    attr_hit(attrs, key, i) && forall|j: int| 0 <= j < i ==> !attr_hit(attrs, key, j)
}

/// The value of the first attribute named `key` whose value unescaped.
pub open spec fn spec_attr(attrs: Seq<(Seq<u8>, Option<Seq<char>>)>, key: Seq<char>) -> Option<Seq<char>> {
    if exists|i: int| first_hit(attrs, key, i) {
        attrs[choose|i: int| first_hit(attrs, key, i)].1
    } else {
        None
    }
}

/// Entry `i` is the first one named `k`.
pub open spec fn key_at(m: Seq<(Seq<char>, Seq<char>)>, k: Seq<char>, i: int) -> bool {
    0 <= i < m.len() && m[i].0 == k && forall|j: int| 0 <= j < i ==> m[j].0 != k
}

/// Insertion into an insertion-ordered map: a known name gets the new value
/// in place, a new one goes last.
pub open spec fn entries_insert(m: Seq<(Seq<char>, Seq<char>)>, k: Seq<char>, v: Seq<char>) -> Seq<(Seq<char>, Seq<char>)> {
    if exists|i: int| key_at(m, k, i) {
        m.update(choose|i: int| key_at(m, k, i), (k, v))
    } else {
        m.push((k, v))
    }
}

pub open spec fn distinct_keys(m: Seq<(Seq<char>, Seq<char>)>) -> bool {
    forall|i: int, j: int| 0 <= i < j < m.len() ==> m[i].0 != m[j].0
}

/// No constant, and no pcVariable, is named twice.
pub open spec fn wf_file(f: SpecMsqFile) -> bool {
    distinct_keys(f.constants) && distinct_keys(f.pc_variables)
}

pub open spec fn is_entry_tag(n: Seq<char>) -> bool {
    n == "constant"@ || n == "pcVariable"@
}

/// A start (or empty-element) tag named `n`.
pub open spec fn open_step(s: SpecReading, n: Seq<char>, attrs: Seq<(Seq<u8>, Option<Seq<char>>)>) -> SpecReading {
    if n == "bibliography"@ {
        SpecReading {
            file: SpecMsqFile {
                author: spec_attr(attrs, "author"@),
                write_date: spec_attr(attrs, "writeDate"@),
                ..s.file
            },
            ..s
        }
    } else if n == "versionInfo"@ {
        SpecReading {
            file: SpecMsqFile {
                signature: spec_attr(attrs, "signature"@),
                firmware_info: spec_attr(attrs, "firmwareInfo"@),
                ..s.file
            },
            ..s
        }
    } else if n == "page"@ {
        SpecReading { in_page: spec_attr(attrs, "number"@) is Some, ..s }
    } else if n == "setting"@ {
        match spec_attr(attrs, "name"@) {
            Some(v) => SpecReading { file: SpecMsqFile { settings: s.file.settings.push(v), ..s.file }, ..s },
            None => s,
        }
    } else if is_entry_tag(n) {
        match spec_attr(attrs, "name"@) {
            Some(v) => SpecReading { element: Some((n == "pcVariable"@, v)), body: seq![], ..s },
            None => s,
        }
    } else {
        s
    }
}

/// A closing tag named `n`: the end of a `constant` or `pcVariable` files
/// its gathered body under its name (constants only inside numbered pages).
pub open spec fn close_step(s: SpecReading, n: Seq<char>) -> SpecReading {
    if is_entry_tag(n) {
        match s.element {
            Some((pc, name)) => {
                let t = SpecReading { element: None, ..s };
                if pc {
                    SpecReading {
                        file: SpecMsqFile {
                            pc_variables: entries_insert(s.file.pc_variables, name, s.body),
                            ..s.file
                        },
                        ..t
                    }
                } else if s.in_page {
                    SpecReading {
                        file: SpecMsqFile { constants: entries_insert(s.file.constants, name, s.body), ..s.file },
                        ..t
                    }
                } else {
                    t
                }
            },
            None => s,
        }
    } else {
        s
    }
}

/// One event: text inside a `constant` or `pcVariable` is gathered with a
/// space after each piece, and an unescaping error there ends the read.
pub open spec fn spec_step(s: SpecReading, e: SpecXml) -> Result<SpecReading, Seq<char>> {
    match e {
        SpecXml::Open(name, attrs) => Ok(open_step(s, latin1_text(name), attrs)),
        SpecXml::Text(t) => if s.element is Some {
            match t {
                Ok(x) => Ok(SpecReading { body: s.body + x + seq![' '], ..s }),
                Err(m) => Err(m),
            }
        } else {
            Ok(s)
        },
        SpecXml::Close(name) => Ok(close_step(s, latin1_text(name))),
        _ => Ok(s),
    }
}

/// The message of a read that does not come to the end of its input.
pub open spec fn unfinished() -> Seq<char> {
    "the XML reader did not come to the end of the input"@
}

/// Reading `src` from event `k` on, with the reading so far `st` and
/// `left` more events allowed after this one: the file at the end of
/// input, or the first error (the reader's, an unescaping error inside a
/// `constant`, or running out of events).
pub open spec fn read_from(src: Seq<char>, st: SpecReading, k: nat, left: nat) -> Result<SpecMsqFile, Seq<char>>
    decreases left,
{
    match xml_event(src, k) {
        Err(m) => Err(m),
        Ok(SpecXml::Eof) => Ok(st.file),
        Ok(e) => match spec_step(st, e) {
            Err(m) => Err(m),
            Ok(st2) => if left == 0 {
                Err(unfinished())
            } else {
                read_from(src, st2, k + 1, (left - 1) as nat)
            },
        },
    }
}

/// What a `.msq` document says: quick-xml's events for it folded by the
/// steps, at most one event per character of the text and one more.
pub open spec fn spec_parse_msq(src: Seq<char>) -> Result<SpecMsqFile, Seq<char>> {
    read_from(src, spec_start(), 0, src.len())
}

/// Inserting into an insertion-ordered map keeps its names distinct.
pub proof fn lemma_insert_keeps_keys_distinct(m: Seq<(Seq<char>, Seq<char>)>, k: Seq<char>, v: Seq<char>)
    requires
        distinct_keys(m),
    ensures
        distinct_keys(entries_insert(m, k, v)),
        exists|i: int| 0 <= i < entries_insert(m, k, v).len() && #[trigger] entries_insert(m, k, v)[i] == (k, v),
{
    if exists|i: int| key_at(m, k, i) {
        let i = choose|i: int| key_at(m, k, i);
        let r = m.update(i, (k, v));
        assert(r[i] == (k, v));
    } else {
        assert forall|j: int| 0 <= j < m.len() implies m[j].0 != k by {
            if m[j].0 == k {
                assert(key_at(m, k, j));
            }
        }
        let r = m.push((k, v));
        assert(r[m.len() as int] == (k, v));
    }
}

/// Reading an event never files a name twice.
pub proof fn lemma_step_keeps_names_distinct(s: SpecReading, e: SpecXml)
    requires
        wf_file(s.file),
    ensures
        spec_step(s, e) matches Ok(t) ==> wf_file(t.file),
{
    match s.element {
        Some((pc, name)) => {
            lemma_insert_keeps_keys_distinct(s.file.pc_variables, name, s.body);
            lemma_insert_keeps_keys_distinct(s.file.constants, name, s.body);
        },
        None => {},
    }
}

// ----- the steps ------------------------------------------------------------

/// Whether the bytes spell `lit`.
fn name_is(b: &Vec<u8>, lit: &str) -> (r: bool)
    ensures
        r == (latin1_text(b@) == lit@),
{
    let s = decode_latin1(b.as_slice());
    let v = chars_of(s.as_str());
    assert(v@ =~= latin1_text(b@));
    chars_are(&v, lit)
}

/// The value of the first attribute named `key` whose value unescaped.
pub fn attr_of(attrs: &Vec<(Vec<u8>, Option<String>)>, key: &str) -> (r: Option<String>)
    ensures
        opt_text(r) == spec_attr(attrs_view(attrs@), key@),
{
    let ghost av = attrs_view(attrs@);
    let mut i: usize = 0;
    while i < attrs.len()
        invariant
            i <= attrs@.len(),
            av == attrs_view(attrs@),
            av.len() == attrs@.len(),
            forall|j: int| 0 <= j < i ==> !attr_hit(av, key@, j),
        decreases attrs@.len() - i,
    {
        let hit = name_is(&attrs[i].0, key);
        if hit {
            match &attrs[i].1 {
                Some(v) => {
                    proof {
                        assert(av[i as int] == (attrs@[i as int].0@, opt_text(attrs@[i as int].1)));
                        assert(first_hit(av, key@, i as int));
                        assert forall|k: int| first_hit(av, key@, k) implies k == i by {
                            if k < i {
                                assert(!attr_hit(av, key@, k));
                            } else if k > i {
                                assert(!attr_hit(av, key@, i as int));
                            }
                        }
                    }
                    return Some(v.clone());
                },
                None => {
                    assert(av[i as int] == (attrs@[i as int].0@, opt_text(attrs@[i as int].1)));
                },
            }
        } else {
            assert(av[i as int] == (attrs@[i as int].0@, opt_text(attrs@[i as int].1)));
        }
        i = i + 1;
    }
    None
}

/// Insert into an insertion-ordered map held as a vector of pairs.
fn insert_entry(m: &mut Vec<(String, String)>, k: String, v: String)
    ensures
        entries_view(final(m)@) == entries_insert(entries_view(old(m)@), k@, v@),
{
    let ghost mv = entries_view(m@);
    let mut i: usize = 0;
    while i < m.len()
        invariant
            i <= m@.len(),
            m@ == old(m)@,
            mv == entries_view(m@),
            mv.len() == m@.len(),
            forall|j: int| 0 <= j < i ==> mv[j].0 != k@,
        decreases m@.len() - i,
    {
        if m[i].0 == k {
            proof {
                assert(mv[i as int].0 == m@[i as int].0@);
                assert(key_at(mv, k@, i as int));
                assert forall|q: int| key_at(mv, k@, q) implies q == i by {
                    if q > i {
                        assert(mv[i as int].0 == k@);
                    }
                }
            }
            m.set(i, (k, v));
            assert(entries_view(m@) =~= mv.update(i as int, (k@, v@)));
            return;
        }
        assert(mv[i as int].0 == m@[i as int].0@);
        i = i + 1;
    }
    m.push((k, v));
    assert(entries_view(m@) =~= mv.push((k@, v@)));
}

impl MsqReading {
    /// Nothing read yet.
    pub fn new() -> (r: Self)
        ensures
            r@ == spec_start(),
    {
        MsqReading { file: MsqFile::default(), element: None, body: String::new(), in_numbered_page: false }
    }

    fn open_element(&mut self, name: &Vec<u8>, attrs: &Vec<(Vec<u8>, Option<String>)>)
        ensures
            final(self)@ == open_step(old(self)@, latin1_text(name@), attrs_view(attrs@)),
    {
        if name_is(name, "bibliography") {
            self.file.author = attr_of(attrs, "author");
            self.file.write_date = attr_of(attrs, "writeDate");
        } else if name_is(name, "versionInfo") {
            self.file.signature = attr_of(attrs, "signature");
            self.file.firmware_info = attr_of(attrs, "firmwareInfo");
        } else if name_is(name, "page") {
            self.in_numbered_page = attr_of(attrs, "number").is_some();
        } else if name_is(name, "setting") {
            match attr_of(attrs, "name") {
                Some(n) => {
                    let ghost before = self.file.settings@;
                    self.file.settings.push(n);
                    assert(string_views(self.file.settings@) =~= string_views(before).push(n@));
                },
                None => {},
            }
        } else if name_is(name, "constant") || name_is(name, "pcVariable") {
            match attr_of(attrs, "name") {
                Some(n) => {
                    let pc = name_is(name, "pcVariable");
                    self.element = Some((pc, n));
                    self.body = String::new();
                },
                None => {},
            }
        }
    }

    fn close_element(&mut self, name: &Vec<u8>)
        ensures
            final(self)@ == close_step(old(self)@, latin1_text(name@)),
    {
        if name_is(name, "constant") || name_is(name, "pcVariable") {
            match &self.element {
                Some((pc, n)) => {
                    let pc = *pc;
                    let n = n.clone();
                    let b = self.body.clone();
                    self.element = None;
                    if pc {
                        insert_entry(&mut self.file.pc_variables, n, b);
                    } else if self.in_numbered_page {
                        insert_entry(&mut self.file.constants, n, b);
                    }
                },
                None => {},
            }
        }
    }

    /// Read one event.
    pub fn feed(&mut self, item: XmlItem) -> (res: Result<(), MsqError>)
        ensures
            match spec_step(old(self)@, item@) {
                Ok(s) => res is Ok && final(self)@ == s,
                Err(m) => (res matches Err(MsqError::Xml(t)) && t@ == m),
            },
    {
        match item {
            XmlItem::Open { name, attrs } => {
                self.open_element(&name, &attrs);
                Ok(())
            },
            XmlItem::Text(t) => {
                if self.element.is_some() {
                    match t {
                        Ok(x) => {
                            StringExecFns::append(&mut self.body, x.as_str());
                            proof {
                                reveal_strlit(" ");
                            }
                            StringExecFns::append(&mut self.body, " ");
                            assert(" "@ =~= seq![' ']);
                            assert(self@ =~= SpecReading { body: old(self)@.body + x@ + seq![' '], ..old(self)@ });
                            Ok(())
                        },
                        Err(m) => Err(MsqError::Xml(m)),
                    }
                } else {
                    Ok(())
                }
            },
            XmlItem::Close(name) => {
                self.close_element(&name);
                Ok(())
            },
            _ => Ok(()),
        }
    }
}

/// Read a `.msq` document: quick-xml's events for the text, folded by the
/// verified steps up to the end of input. A file that comes back names
/// none of its constants or pcVariables twice.
pub fn parse(src: &str) -> (r: Result<MsqFile, MsqError>)
    requires
        src@.len() < usize::MAX,
    ensures
        match spec_parse_msq(src@) {
            Ok(f) => r matches Ok(x) && x@ == f,
            Err(m) => r matches Err(MsqError::Xml(t)) && t@ == m,
        },
        r matches Ok(f) ==> wf_file(f@),
{
    let mut ev = xml_events(src);
    let mut st = MsqReading::new();
    let mut left: usize = src.unicode_len();
    let ghost total = spec_parse_msq(src@);
    assert(st@.file.settings =~= seq![]);
    loop
        invariant
            ev.source() == src@,
            ev.count() + left == src@.len(),
            src@.len() < usize::MAX,
            total == spec_parse_msq(src@),
            total == read_from(src@, st@, ev.count(), left as nat),
            wf_file(st@.file),
        decreases left,
    {
        let item = match read_event(&mut ev) {
            Ok(it) => it,
            Err(m) => {
                return Err(MsqError::Xml(m));
            },
        };
        let ghost e = item@;
        match item {
            XmlItem::Eof => {
                return Ok(st.file);
            },
            _ => {},
        }
        proof {
            lemma_step_keeps_names_distinct(st@, e);
        }
        match st.feed(item) {
            Ok(()) => {},
            Err(err) => {
                return Err(err);
            },
        }
        if left == 0 {
            proof {
                reveal_strlit("the XML reader did not come to the end of the input");
            }
            return Err(MsqError::Xml(String::from_str("the XML reader did not come to the end of the input")));
        }
        left = left - 1;
    }
}

} // verus!
