use rustytune::ini::constants::{constant_def, OutputChannel, StrOrExpr};
use rustytune::ini::curves::NumOrExpr;
use rustytune::ini::definition::{parse, parse_with_symbols};
use rustytune::ini::expr::ExprTree;
use rustytune::ini::lex::{float_literal, Shape, Token};
use rustytune::ini::model::{ConstantClass, DataType};
use rustytune::ini::Error;
use rustytune::msq::bits_label;

const INI: &str = r#"
#if LOUD
[Ignored]
#endif
[MegaTune]
MTversion = 2.25
queryCommand = "Q"
signature = "speeduino 202501"
versionInfo = "S"
bogusKey = 1

[SettingGroups]
settingGroup = mcu, "Controller"
settingOption = mcu_teensy, "Teensy"

[PcVariables]
rpmhigh = scalar, U16, "rpm", 1, 0, 0, 30000, 0
tsCanId = bits, U08, [0:3], "CAN ID 0", "CAN ID 1"
bad = 5

[Constants]
endianness = little
nPages = 2
pageSize = 128, 288
pageIdentifier = "\x00\x01", "\x00\x02"
burnCommand = "b%2i", "b%2i"
blockingFactor = 121
tsWriteBlocks = on
customKey = a, b
page = 1
reqFuel = scalar, U08, 0, "ms", 0.1, 0.0, 0.0, 25.5, 1
aseTaperTime = scalar, U08, lastOffset, "S", 0.1, 0, 0, 25, 1, noMsqSave
injLayout = bits, U08, 2, [0:1], "Paired", "Semi", "INVALID", "Seq"
veTable = array, U08, 3, [4x4], "%", 1, 0, 0, 255, 0
page = 2
name = string, ASCII, 10, 20

[ConstantsExtensions]
requiresPowerCycle = nCylinders
defaultValue = reqFuel, 10, 11
controllerPriority = bootloaderCaps
weird = 1

[OutputChannels]
ochGetCommand = "r\$tsCanId\x30%2o%2c"
ochBlockSize = 119
secl = scalar, U08, 0, "sec", 1.000, 0.000
status1 = bits, U08, 1, [0:0]
coolant = { coolantRaw - 40 }, "C"
junk = whatever

[TableEditor]
xBins = stray
table = veTable1Tbl, veTable1Map, "VE Table", 1
xBins = rpmBins, rpm
yBins = fuelLoadBins, fuelLoad
zBins = veTable
upDownLabel = "RICHER", "LEANER"
gridHeight = 2.0
gridOrient = 250, 0, 340
something = 1, 2

[CurveEditor]
curve = warmup_curve, "Warmup Enrichment"
columnLabel = "Coolant", "WUE %"
xAxis = -40, 210, 9
yAxis = 0, { wueMax }, 5
xBins = wueBins, coolant
yBins = wueRates

[GaugeConfigurations]
gaugeCategory = "Main"
tachometer = rpm, "Engine Speed", "RPM", 0, {rpmhigh}, 300, 600, 3000, 5000, 0, 0
short = a, b

[FrontPage]
gauge1 = tachometer
indicator = { running }, "Not Running", "Running", white, black, green, black

[Datalog]
entry = time, "Time", float, "%.3f"

[Menu]
menu = "&Fuel"
"#;

fn num(n: &NumOrExpr) -> &str {
    match n {
        NumOrExpr::Num(s) => s,
        NumOrExpr::Expr(e) => panic!("number expected, got {e:?}"),
    }
}

#[test]
fn float_literals_follow_the_documented_grammar() {
    for ok in ["1", "-1.5e3", ".5", "5.", "inf", "NaN", "+infinity", "1E+05", "-0"] {
        assert!(float_literal(ok), "{ok}");
    }
    for bad in ["", ".", "e5", "1e", "1.2.3", "0x10", " 1", "1 ", "--1", "in", "1e5.0"] {
        assert!(!float_literal(bad), "{bad}");
    }
}

#[test]
fn token_number_keeps_the_literal() {
    assert_eq!(Token::Bare("2.25".into()).number(3).unwrap(), "2.25");
    assert!(matches!(Token::Bare("x".into()).number(3), Err(Error::Parse(3, _))));
    assert!(matches!(Token::Str("1".into()).number(4), Err(Error::Parse(4, _))));
}

#[test]
fn definition_sections_parse() {
    let def = parse(INI).unwrap();
    let mt = &def.megatune;
    assert_eq!(mt.mt_version.as_deref(), Some("2.25"));
    assert_eq!((mt.query_command.as_str(), mt.signature.as_str()), ("Q", "speeduino 202501"));
    assert_eq!(def.setting_groups.len(), 1);
    assert_eq!(def.setting_groups[0].options, vec![("mcu_teensy".to_string(), "Teensy".to_string())]);

    let pcs: Vec<&str> = def.pc_variables.iter().map(|(n, _)| n.as_str()).collect();
    assert_eq!(pcs, vec!["rpmhigh", "tsCanId"]);
    assert!(def.pc_variables[0].1.offset.is_none());

    let h = &def.header;
    assert_eq!(h.endianness, "little");
    assert_eq!(h.n_pages.as_deref(), Some("2"));
    assert_eq!(h.page_sizes, vec!["128", "288"]);
    assert_eq!(h.page_identifiers, vec!["\\x00\\x01", "\\x00\\x02"]);
    assert_eq!(h.blocking_factor.as_deref(), Some("121"));
    assert!(h.ts_write_blocks);
    assert_eq!(h.misc, vec![("customKey".to_string(), "a, b".to_string())]);

    let names: Vec<&str> = def.constants.iter().map(|(n, _)| n.as_str()).collect();
    assert_eq!(names, vec!["reqFuel", "aseTaperTime", "injLayout", "veTable", "name"]);
    let req = &def.constants[0].1;
    assert_eq!((req.class, req.ty), (ConstantClass::Scalar, DataType::U08));
    assert_eq!((req.page.as_deref(), req.offset.as_deref()), (Some("1"), Some("0")));
    assert!(matches!(&req.units, Some(StrOrExpr::Str(u)) if u == "ms"));
    assert_eq!(num(&req.scale), "0.1");
    assert_eq!(num(req.hi.as_ref().unwrap()), "25.5");
    assert_eq!(num(req.digits.as_ref().unwrap()), "1");
    assert!(!req.no_msq_save);
    let ase = &def.constants[1].1;
    assert_eq!(ase.offset.as_deref(), Some("0"));
    assert!(ase.no_msq_save);
    let inj = &def.constants[2].1;
    assert_eq!(inj.shape, Some(Shape::Bits { lo: 0, hi: 1 }));
    assert_eq!(inj.labels, vec!["Paired", "Semi", "INVALID", "Seq"]);
    let ve = &def.constants[3].1;
    assert_eq!(ve.shape, Some(Shape::Array2D { x: 4, y: 4 }));
    let name = &def.constants[4].1;
    assert_eq!((name.page.as_deref(), name.string_len.as_deref()), (Some("2"), Some("20")));
    assert_eq!(num(&name.scale), "1");

    let x = &def.extensions;
    assert_eq!(x.requires_power_cycle, vec!["nCylinders"]);
    assert_eq!(x.default_values, vec![("reqFuel".to_string(), "10, 11".to_string())]);
    assert_eq!(x.controller_priority, vec!["bootloaderCaps"]);

    let o = &def.outputs;
    assert_eq!(o.och_get_command, "r\\$tsCanId\\x30%2o%2c");
    assert_eq!(o.och_block_size.as_deref(), Some("119"));
    let chans: Vec<&str> = o.channels.iter().map(|(n, _)| n.as_str()).collect();
    assert_eq!(chans, vec!["secl", "status1", "coolant"]);
    assert!(matches!(&o.channels[0].1, OutputChannel::Scalar { offset, .. } if offset == "0"));
    assert!(matches!(&o.channels[1].1, OutputChannel::Bits { offset, lo: 0, hi: 0, .. } if offset == "1"));
    assert!(matches!(&o.channels[2].1, OutputChannel::Derived { units: Some(u), .. } if u == "C"));

    assert_eq!(def.tables.len(), 1);
    let t = &def.tables[0].1;
    assert_eq!((t.id.as_str(), t.map_id.as_str(), t.title.as_str(), t.page.as_str()), ("veTable1Tbl", "veTable1Map", "VE Table", "1"));
    assert_eq!(t.x_bins, ("rpmBins".to_string(), Some("rpm".to_string())));
    assert_eq!(t.z_bins, "veTable");
    assert_eq!(t.grid_height.as_deref(), Some("2.0"));
    assert_eq!(t.grid_orient, vec!["250", "0", "340"]);
    assert_eq!(t.misc, vec![("something".to_string(), "1, 2".to_string())]);

    assert_eq!(def.curves.len(), 1);
    let c = &def.curves[0].1;
    assert_eq!((c.id.as_str(), c.title.as_str()), ("warmup_curve", "Warmup Enrichment"));
    assert_eq!(c.column_label, vec!["Coolant", "WUE %"]);
    assert_eq!(c.x_axis.iter().map(num).collect::<Vec<_>>(), vec!["-40", "210", "9"]);
    assert!(matches!(&c.y_axis[1], NumOrExpr::Expr(ExprTree::Ident(s)) if s == "wueMax"));
    assert_eq!(c.y_bins, vec!["wueRates"]);

    assert_eq!(def.gauges.len(), 1);
    let g = &def.gauges[0].1;
    assert_eq!((g.channel.as_str(), g.title.as_str(), g.category.as_str()), ("rpm", "Engine Speed", "Main"));
    assert!(matches!(&g.hi, NumOrExpr::Expr(ExprTree::Ident(s)) if s == "rpmhigh"));
    assert_eq!(g.value_digits.as_deref(), Some("0"));

    assert_eq!(def.front_page.gauges, vec!["tachometer"]);
    assert_eq!(def.front_page.indicators.len(), 1);
    assert_eq!(def.datalog.len(), 1);

    // bogusKey, bad, weird, junk, the stray xBins, short
    assert_eq!(def.warnings.len(), 6, "{:?}", def.warnings);
}

#[test]
fn definition_symbols_select_sections() {
    let src = "#if CELSIUS\n[MegaTune]\nsignature = \"c\"\n#else\n[MegaTune]\nsignature = \"f\"\n#endif\n";
    assert_eq!(parse(src).unwrap().megatune.signature, "f");
    assert_eq!(parse_with_symbols(src, &vec!["CELSIUS".to_string()]).unwrap().megatune.signature, "c");
}

#[test]
fn definition_errors_name_their_line() {
    assert!(matches!(parse("[Constants]\npage = x\n"), Err(Error::Parse(2, _))));
    assert!(matches!(parse("[Constants]\nreq = scalar, U08, 0\n"), Err(Error::Parse(2, _))));
    assert!(matches!(parse("[Constants]\npage = 1\nreq = scalar, U08, zero\n"), Err(Error::Parse(3, _))));
    assert!(matches!(parse("[Constants]\npage = 1\nb = bits, U08, 0, [4]\n"), Err(Error::Parse(3, _))));
    assert!(matches!(parse("[TableEditor]\ntable = a, b, \"t\", 1\ngridOrient = 1, x\n"), Err(Error::Parse(3, _))));
    assert!(matches!(parse("[CurveEditor]\ncurve = c\nxAxis = 1, \"q\"\n"), Err(Error::Parse(3, _))));
    assert!(matches!(parse("[GaugeConfigurations]\ng = a, b, c, 0, 1, 2, 3, 4, x\n"), Err(Error::Parse(2, _))));
    assert!(matches!(parse("[MegaTune]\nsignature =\n"), Err(Error::Parse(2, _))));
    assert!(matches!(parse("[PcVariables]\nv = scalar, U09\n"), Err(Error::Parse(2, _))));
}

#[test]
fn constant_def_without_offset_context() {
    let toks = vec![
        Token::Bare("scalar".into()),
        Token::Bare("S16".into()),
        Token::Expr("unitsExpr".into()),
        Token::Bare("1".into()),
    ];
    let d = constant_def("v", ConstantClass::Scalar, &toks, None, None, 9).unwrap();
    assert!(d.offset.is_none() && d.page.is_none());
    assert!(matches!(&d.units, Some(StrOrExpr::Expr(ExprTree::Ident(s))) if s == "unitsExpr"));
    assert_eq!(num(&d.scale), "1");
    assert_eq!(num(&d.translate), "0");
    assert!(d.lo.is_none());
}

#[test]
fn repeated_ids_replace_in_place() {
    let src = "[TableEditor]\ntable = t1, m1, \"A\", 1\ntable = t2, m2, \"B\", 2\ntable = t1, m3, \"C\", 3\n\
               [CurveEditor]\ncurve = c1\nyBins = a\ncurve = c1, \"again\"\n";
    let def = parse(src).unwrap();
    let ids: Vec<&str> = def.tables.iter().map(|(n, _)| n.as_str()).collect();
    assert_eq!(ids, vec!["t1", "t2"]);
    assert_eq!(def.tables[0].1.title, "C");
    assert_eq!(def.curves.len(), 1);
    assert_eq!(def.curves[0].1.title, "again");
    assert!(def.curves[0].1.y_bins.is_empty());
}

#[test]
fn bits_label_reads_the_definition() {
    let def = parse(INI).expect("parses");
    assert_eq!(bits_label(&def, "injLayout", 1), "Semi");
    assert_eq!(bits_label(&def, "injLayout", 2), "INVALID");
    assert_eq!(bits_label(&def, "injLayout", 4), "4");
    assert_eq!(bits_label(&def, "injLayout", -1), "-1");
    assert_eq!(bits_label(&def, "noSuchField", 0), "0");
    assert_eq!(bits_label(&def, "tsCanId", 1), "1");
}

#[test]
fn menus_and_dialogs_are_parsed() {
    let src = "[Menu]\nmenu = \"&Fuel\"\nsubMenu = injChars, \"Injectors\"\n\
               [UserDefined]\ndialog = injChars, \"Injector Characteristics\"\nfield = \"Open time\", injOpen\n";
    let def = parse(src).unwrap();
    assert_eq!(def.menus.len(), 1);
    assert_eq!(def.menus[0].title, "Fuel");
    assert_eq!(def.dialogs.len(), 1);
    assert_eq!(def.dialogs[0].0, "injChars");
    assert_eq!(def.dialogs[0].1.title, "Injector Characteristics");
    assert_eq!(def.dialogs[0].1.items.len(), 1);
    assert!(def.warnings.is_empty());
}

#[test]
fn parse_checked_refuses_indexed_keys_without_values() {
    let none: Vec<String> = Vec::new();
    assert!(rustytune::ini::definition::parse_checked("[Constants]\nnPages =\n", &none).is_none());
    assert!(rustytune::ini::definition::parse_checked("[OutputChannels]\nochBlockSize =\n", &none).is_none());
    match rustytune::ini::definition::parse_checked("[MegaTune]\nsignature = \"x\"\n", &none) {
        Some(Ok(def)) => assert_eq!(def.megatune.signature, "x"),
        other => panic!("unexpected {other:?}"),
    }
    assert!(matches!(
        rustytune::ini::definition::parse_checked("[Constants]\npage = 1\nb = bits, U08, 0, [4]\n", &none),
        Some(Err(Error::Parse(3, _)))
    ));
}
