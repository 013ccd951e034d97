use rustytune::ini::lex::Shape;
use rustytune::ini::model::ConstantClass;
use rustytune::msq::read::{attr_of, parse, MsqReading, XmlItem};
use rustytune::msq::write::{save, SaveConstant, TuneSnapshot, TuneValue};
use rustytune::msq::MsqError;

const DOC: &str = r#"<?xml version="1.0" encoding="ISO-8859-1"?>
<msq xmlns="http://www.msefi.com/:msq">
<bibliography author="me &amp; you" tuneComment="" writeDate="today"/>
<versionInfo fileFormat="5.0" firmwareInfo="speeduino+202501" nPages="2" signature="speeduino 202501"/>
<page>
<pcVariable name="rpmhigh">8000</pcVariable>
<constant name="loose">1</constant>
</page>
<page number="0">
<constant digits="0" name="aeColdPct" units="%">100</constant>
<constant name="aeMode">"TPS"</constant>
<constant cols="2" name="t" rows="2">
 1 2
 3 4
</constant>
<constant name="aeColdPct">101</constant>
</page>
<settings Comment="x"><setting name="FAHRENHEIT" value="FAHRENHEIT"/><setting value="nameless"/></settings>
</msq>
"#;

fn pairs(v: &[(&str, &str)]) -> Vec<(String, String)> {
    v.iter().map(|(a, b)| (a.to_string(), b.to_string())).collect()
}

#[test]
fn msq_parse_reads_header_pages_and_settings() {
    let f = parse(DOC).unwrap();
    assert_eq!(f.signature.as_deref(), Some("speeduino 202501"));
    assert_eq!(f.firmware_info.as_deref(), Some("speeduino+202501"));
    assert_eq!(f.author.as_deref(), Some("me & you"));
    assert_eq!(f.write_date.as_deref(), Some("today"));
    assert_eq!(f.settings, vec!["FAHRENHEIT".to_string()]);
    // A repeated name keeps its first place and takes the later body;
    // constants outside numbered pages are not kept, pcVariables are.
    assert_eq!(
        f.constants,
        pairs(&[("aeColdPct", "101 "), ("aeMode", "\"TPS\" "), ("t", "\n 1 2\n 3 4\n ")])
    );
    assert_eq!(f.pc_variables, pairs(&[("rpmhigh", "8000 ")]));
}

#[test]
fn msq_parse_reports_bad_escape_inside_constant() {
    let doc = "<msq><page number=\"0\"><constant name=\"x\">&bogus;</constant></page></msq>";
    assert!(matches!(parse(doc), Err(MsqError::Xml(_))));
    // Outside a constant the same text is never read.
    let doc = "<msq><page number=\"0\">&bogus;</page></msq>";
    assert!(parse(doc).unwrap().constants.is_empty());
}

#[test]
fn msq_parse_reports_mismatched_tags() {
    assert!(matches!(parse("<msq><page></msq>"), Err(MsqError::Xml(_))));
}

#[test]
fn msq_parse_empty_input_is_empty_file() {
    let f = parse("").unwrap();
    assert!(f.signature.is_none() && f.constants.is_empty() && f.settings.is_empty());
}

#[test]
fn attr_of_takes_first_value_that_unescaped() {
    let attrs = vec![
        (b"name".to_vec(), None),
        (b"other".to_vec(), Some("o".to_string())),
        (b"name".to_vec(), Some("second".to_string())),
        (b"name".to_vec(), Some("third".to_string())),
    ];
    assert_eq!(attr_of(&attrs, "name").as_deref(), Some("second"));
    assert_eq!(attr_of(&attrs, "missing"), None);
}

#[test]
fn reading_steps_gather_body_and_file_it() {
    let mut r = MsqReading::new();
    let open = |name: &str, attrs: &[(&str, &str)]| XmlItem::Open {
        name: name.as_bytes().to_vec(),
        attrs: attrs.iter().map(|(k, v)| (k.as_bytes().to_vec(), Some(v.to_string()))).collect(),
    };
    r.feed(open("page", &[("number", "1")])).unwrap();
    assert!(r.in_numbered_page);
    r.feed(open("constant", &[("name", "a")])).unwrap();
    r.feed(XmlItem::Text(Ok("1".into()))).unwrap();
    r.feed(XmlItem::Text(Ok("2".into()))).unwrap();
    assert_eq!(r.body, "1 2 ");
    r.feed(XmlItem::Close(b"constant".to_vec())).unwrap();
    assert!(r.element.is_none());
    assert_eq!(r.file.constants, pairs(&[("a", "1 2 ")]));
    // An unescaping error matters only inside a constant.
    r.feed(XmlItem::Text(Err("bad".into()))).unwrap();
    r.feed(open("pcVariable", &[("name", "p")])).unwrap();
    match r.feed(XmlItem::Text(Err("bad".into()))) {
        Err(MsqError::Xml(m)) => assert_eq!(m, "bad"),
        Ok(()) => panic!("error expected"),
    }
}

fn constant(name: &str, class: ConstantClass, page: u8, offset: u32, size: u32, value: TuneValue) -> SaveConstant {
    SaveConstant {
        name: name.into(),
        class,
        page: Some(page),
        no_msq_save: false,
        offset: Some(offset),
        byte_size: size,
        shape: None,
        labels: vec![],
        digits: 0,
        units: None,
        value,
    }
}

fn num(text: &str, whole: i64) -> TuneValue {
    TuneValue::Num { text: text.into(), whole }
}

fn snapshot() -> TuneSnapshot {
    let mut req = constant("reqFuel", ConstantClass::Scalar, 1, 0, 1, num("12.5", 12));
    req.digits = 1;
    req.units = Some("\"ms\"".into());
    let mut ae = constant("aeMode", ConstantClass::Bits, 1, 1, 1, num("1.0", 1));
    ae.labels = vec!["MAP".into(), "TPS".into()];
    let mut inv = constant("invalidBits", ConstantClass::Bits, 1, 1, 1, num("0.0", 0));
    inv.labels = vec!["INVALID".into()];
    let mut far = constant("farBits", ConstantClass::Bits, 1, 1, 1, num("-3.0", -3));
    far.labels = vec!["A".into()];
    let shadow = constant("reqFuelView", ConstantClass::Scalar, 1, 0, 1, num("1.0", 1));
    let mut hidden = constant("hidden", ConstantClass::Scalar, 1, 5, 1, num("1.0", 1));
    hidden.no_msq_save = true;
    let missing = constant("missing", ConstantClass::Scalar, 1, 6, 1, TuneValue::Missing);
    let mut ve = constant(
        "veTable",
        ConstantClass::Array,
        2,
        0,
        4,
        TuneValue::Cells(vec!["1.0".into(), "2.0".into(), "3.0".into(), "4.0".into(), "5.0".into()]),
    );
    ve.shape = Some(Shape::Array2D { x: 2, y: 3 });
    let text = constant("name", ConstantClass::String, 2, 10, 4, TuneValue::Text("a<b".into()));
    TuneSnapshot {
        signature: "speeduino 202405-dev".into(),
        page_count: 2,
        constants: vec![req, ae, inv, far, shadow, hidden, missing, ve, text],
    }
}

const SAVED: [&str; 22] = [
    "<?xml version=\"1.0\" encoding=\"ISO-8859-1\"?>\n",
    "<msq xmlns=\"http://www.msefi.com/:msq\">\n",
    "<bibliography author=\"t &amp; u\" tuneComment=\"\" writeDate=\"d\"/>\n",
    "<versionInfo fileFormat=\"5.0\" firmwareInfo=\"speeduino+202405-dev\" nPages=\"2\" signature=\"speeduino 202405-dev\"/>\n",
    "<page number=\"0\">\n",
    "<constant digits=\"1\" name=\"reqFuel\" units=\"ms\">12.5</constant>\n",
    "<constant name=\"aeMode\">&quot;TPS&quot;</constant>\n",
    "<constant name=\"invalidBits\">0</constant>\n",
    "<constant name=\"farBits\">-3</constant>\n",
    "</page>\n",
    "<page number=\"1\">\n",
    "<constant cols=\"2\" digits=\"0\" name=\"veTable\" rows=\"3\">\n",
    "         1.0 2.0 \n",
    "         3.0 4.0 \n",
    "         5.0 \n",
    "      </constant>\n",
    "<constant name=\"name\">&quot;a&lt;b&quot;</constant>\n",
    "</page>\n",
    "<settings Comment=\"These setting are only used if this msq is opened without a project.\">\n",
    "<setting name=\"AFR\" value=\"AFR\"/>\n",
    "</settings>\n",
    "</msq>\n",
];

#[test]
fn msq_save_writes_ts_layout() {
    let out = save(&snapshot(), &["AFR".to_string()], "t & u", "d");
    assert_eq!(out, SAVED.concat());
}

#[test]
fn msq_save_then_parse_reads_back() {
    let out = save(&snapshot(), &["AFR".to_string()], "t & u", "d");
    let f = parse(&out).unwrap();
    assert_eq!(f.signature.as_deref(), Some("speeduino 202405-dev"));
    assert_eq!(f.author.as_deref(), Some("t & u"));
    assert_eq!(f.settings, vec!["AFR".to_string()]);
    let names: Vec<&str> = f.constants.iter().map(|(n, _)| n.as_str()).collect();
    assert_eq!(names, vec!["reqFuel", "aeMode", "invalidBits", "farBits", "veTable", "name"]);
    assert_eq!(f.constants[1].1, "\"TPS\" ");
    assert_eq!(f.constants[5].1, "\"a<b\" ");
}

#[test]
fn msq_save_array_one_dimensional_and_unshaped() {
    let mut a = constant("curve", ConstantClass::Array, 1, 0, 2, TuneValue::Cells(vec!["7.0".into(), "8.0".into()]));
    a.shape = Some(Shape::Array1D(2));
    let b = constant("flat", ConstantClass::Array, 1, 4, 2, TuneValue::Cells(vec!["9.0".into()]));
    let t = TuneSnapshot { signature: "s".into(), page_count: 1, constants: vec![a, b] };
    let out = save(&t, &[], "a", "d");
    assert!(out.contains(
        "<page number=\"0\">\n<constant cols=\"1\" digits=\"0\" name=\"curve\" rows=\"2\">\n         7.0 \n         8.0 \n      </constant>\n</page>\n"
    ));
    assert!(!out.contains("flat"));
}
