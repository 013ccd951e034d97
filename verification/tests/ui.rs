use rustytune::ini::expr::{BinOp, ExprTree};
use rustytune::ini::lex::Token;
use rustytune::ini::model::DatalogType;
use rustytune::ini::preprocess::Line;
use rustytune::ini::ui::{
    conditions, datalog, first_condition, front_page, menu, menu_entry, menu_label, user_defined, DialogDef, DialogItem,
    FrontPage, MenuDef, MenuItem,
};
use rustytune::ini::Error;

fn lines(texts: &[&str]) -> Vec<Line> {
    texts
        .iter()
        .enumerate()
        .map(|(i, t)| Line { num: i as u32 + 1, text: t.to_string() })
        .collect()
}

fn ident(e: &Option<ExprTree>, name: &str) -> bool {
    matches!(e, Some(ExprTree::Ident(s)) if s == name)
}

#[test]
fn conditions_parse_each_expression_value() {
    let toks = vec![
        Token::Bare("name".into()),
        Token::Expr("".into()),
        Token::Expr("a".into()),
        Token::Expr("1 +".into()),
        Token::Str("x".into()),
    ];
    let mut w = Vec::new();
    let c = conditions(&toks, 0, 7, &mut w);
    assert_eq!(c.len(), 3);
    assert!(c[0].is_none());
    assert!(ident(&c[1], "a"));
    assert!(c[2].is_none());
    assert_eq!(w.len(), 1);
    assert!(w[0].starts_with("line 7: unparsable condition: line 7:"));
    let mut w = Vec::new();
    assert!(ident(&first_condition(&toks, 0, 7, &mut w), "a"));
    let mut w = Vec::new();
    assert!(first_condition(&toks, 3, 7, &mut w).is_none());
}

#[test]
fn menu_entry_target_and_label() {
    let mut w = Vec::new();
    let e = menu_entry(&vec![Token::Bare("dwell_tblMap \"Dwell Map\"".into())], 1, &mut w).unwrap();
    assert_eq!((e.target.as_str(), e.label.as_str()), ("dwell_tblMap", "Dwell Map"));
    let toks = vec![Token::Bare("injChars".into()), Token::Str("Injectors".into()), Token::Bare("0".into())];
    let e = menu_entry(&toks, 1, &mut w).unwrap();
    assert_eq!((e.target.as_str(), e.label.as_str()), ("injChars", "Injectors"));
    let e = menu_entry(&vec![Token::Bare("std_realtime".into())], 1, &mut w).unwrap();
    assert_eq!(e.label, "std_realtime");
    assert!(w.is_empty());
    assert!(menu_entry(&vec![Token::Str("no target".into())], 4, &mut w).is_none());
    assert_eq!(w, vec!["line 4: menu entry without a target".to_string()]);
}

#[test]
fn menu_section_builds_menus() {
    let src = lines(&[
        "subMenu = early",
        "menuDialog = main",
        "menu = \"&Fuel\"",
        "subMenu = injChars, \"Injector Characteristics\"",
        "subMenu = std_separator",
        "groupMenu = \"Tables\"",
        "groupChildMenu = veTable1Map, \"VE Table\", 0, { fuelAlgorithm == 1 }",
        "subMenu = dwell_tblMap \"Dwell Map\"",
        "groupChildMenu = stray",
        "bogus = 1",
    ]);
    let mut menus: Vec<MenuDef> = Vec::new();
    let mut w = Vec::new();
    menu(&src, &mut menus, &mut w).unwrap();
    assert_eq!(menus.len(), 1);
    assert_eq!(menus[0].title, "Fuel");
    let items = &menus[0].items;
    assert_eq!(items.len(), 4);
    assert!(matches!(&items[0], MenuItem::Entry(e) if e.target == "injChars" && e.label == "Injector Characteristics"));
    assert!(matches!(&items[1], MenuItem::Separator));
    match &items[2] {
        MenuItem::Group { label, children } => {
            assert_eq!(label, "Tables");
            assert_eq!(children.len(), 1);
            assert_eq!(children[0].target, "veTable1Map");
            assert!(matches!(&children[0].enable, Some(ExprTree::Binary(BinOp::Eq, _, _))));
        },
        other => panic!("group expected, got {other:?}"),
    }
    assert!(matches!(&items[3], MenuItem::Entry(e) if e.target == "dwell_tblMap" && e.label == "Dwell Map"));
    assert_eq!(w.len(), 3);
    assert_eq!(w[0], "line 1: `subMenu` before any `menu`");
    assert_eq!(w[1], "line 9: `groupChildMenu` outside a `groupMenu`");
    assert_eq!(w[2], "line 10: unknown [Menu] key `bogus`");
}

#[test]
fn menu_without_title_is_an_error() {
    let mut menus: Vec<MenuDef> = Vec::new();
    let mut w = Vec::new();
    let r = menu(&lines(&["menu = \"A\"", "menu ="]), &mut menus, &mut w);
    assert!(matches!(r, Err(Error::Parse(2, _))));
}

#[test]
fn user_defined_dialogs_and_items() {
    let src = lines(&[
        "field = \"orphan\", x",
        "dialog = injChars, \"Injector Characteristics\"",
        "field = \"Injector size\", injSize, { enable1 }, { vis }",
        "field = \"Header\"",
        "slider = \"S\", sl, horizontal",
        "displayOnlyField = \"D\", dispC, {}, { shown }",
        "panel = subDialog, { x }",
        "panel = \"quoted\"",
        "topicHelp = \"help/topic\"",
        "gauge = g1",
        "unknownThing = 1",
        "field = \"Bad\", b, { 1 + }",
        "dialog = other",
    ]);
    let mut dialogs: Vec<(String, DialogDef)> = Vec::new();
    let mut w = Vec::new();
    user_defined(&src, &mut dialogs, &mut w).unwrap();
    assert_eq!(dialogs.len(), 2);
    let d = &dialogs[0].1;
    assert_eq!((d.name.as_str(), d.title.as_str(), d.line), ("injChars", "Injector Characteristics", 2));
    assert_eq!(d.topic_help.as_deref(), Some("help/topic"));
    assert_eq!(d.items.len(), 6);
    match &d.items[0] {
        DialogItem::Field { label, constant, enable, visible } => {
            assert_eq!(label, "Injector size");
            assert_eq!(constant.as_deref(), Some("injSize"));
            assert!(ident(enable, "enable1") && ident(visible, "vis"));
        },
        other => panic!("{other:?}"),
    }
    assert!(matches!(&d.items[1], DialogItem::Field { constant: None, enable: None, visible: None, .. }));
    assert!(matches!(&d.items[2], DialogItem::Field { constant: Some(c), .. } if c == "sl"));
    match &d.items[3] {
        DialogItem::DisplayOnly { constant, enable, visible, .. } => {
            assert_eq!(constant.as_deref(), Some("dispC"));
            assert!(enable.is_none() && ident(visible, "shown"));
        },
        other => panic!("{other:?}"),
    }
    assert!(matches!(&d.items[4], DialogItem::Panel { target, enable } if target == "subDialog" && ident(enable, "x")));
    assert!(matches!(&d.items[5], DialogItem::Field { enable: None, .. }));
    assert_eq!(dialogs[1].1.title, "");
    assert_eq!(w.len(), 4);
    assert_eq!(w[0], "line 1: `field` before any `dialog`");
    assert_eq!(w[1], "line 8: panel without a target");
    assert_eq!(w[2], "line 11: unknown [UserDefined] key `unknownThing`");
}

#[test]
fn user_defined_dialog_redefinition_replaces_in_place() {
    let src = lines(&["dialog = a, \"A\"", "field = \"f\", x", "dialog = b", "dialog = a, \"A2\""]);
    let mut dialogs: Vec<(String, DialogDef)> = Vec::new();
    let mut w = Vec::new();
    user_defined(&src, &mut dialogs, &mut w).unwrap();
    let names: Vec<&str> = dialogs.iter().map(|(n, _)| n.as_str()).collect();
    assert_eq!(names, vec!["a", "b"]);
    assert_eq!(dialogs[0].1.title, "A2");
    assert!(dialogs[0].1.items.is_empty());
    assert!(matches!(user_defined(&lines(&["dialog ="]), &mut dialogs, &mut w), Err(Error::Parse(1, _))));
}

#[test]
fn datalog_entries() {
    let src = lines(&[
        "entry = time, \"Time\", float, \"%.3f\"",
        "entry = rpm, \"RPM\", int, \"%d\", { rpm }",
        "entry = x, \"X\", bogus, \"%d\"",
        "other = 1",
    ]);
    let mut es = Vec::new();
    let mut w = Vec::new();
    datalog(&src, &mut es, &mut w).unwrap();
    assert_eq!(es.len(), 2);
    assert_eq!((es[0].channel.as_str(), es[0].label.as_str(), es[0].format.as_str()), ("time", "Time", "%.3f"));
    assert_eq!(es[0].ty, DatalogType::Float);
    assert!(es[0].condition.is_none());
    assert_eq!(es[1].ty, DatalogType::Int);
    assert!(ident(&es[1].condition, "rpm"));
    assert_eq!(w, vec![
        "line 3: unknown datalog type Some(\"bogus\")".to_string(),
        "line 4: unknown [Datalog] key `other`".to_string(),
    ]);
    let mut es = Vec::new();
    assert!(matches!(datalog(&lines(&["entry = y, \"Y\", int"]), &mut es, &mut w), Err(Error::Parse(1, _))));
    assert!(matches!(
        datalog(&lines(&["", "entry = y, \"Y\", int, \"%d\", { 1 + }"]), &mut es, &mut w),
        Err(Error::Parse(2, _))
    ));
}

#[test]
fn front_page_gauges_in_position_order() {
    let src = lines(&[
        "gauge2 = b",
        "gauge10 = c",
        "gauge1 = a",
        "gauge1 = a2",
        "indicator = { running }, \"off\", \"on\", white, black, green, black",
        "indicator = nothing",
        "gaugeX = z",
    ]);
    let mut fp = FrontPage { gauges: vec!["old".into()], indicators: Vec::new() };
    let mut w = Vec::new();
    front_page(&src, &mut fp, &mut w).unwrap();
    assert_eq!(fp.gauges, vec!["a", "a2", "b", "c"]);
    assert_eq!(fp.indicators.len(), 1);
    let ind = &fp.indicators[0];
    assert!(matches!(&ind.condition, ExprTree::Ident(s) if s == "running"));
    assert_eq!((ind.off_label.as_str(), ind.on_label.as_str()), ("off", "on"));
    assert_eq!(ind.colors, vec!["white", "black", "green", "black"]);
    assert_eq!(w, vec![
        "line 6: indicator without { condition }".to_string(),
        "line 7: unknown [FrontPage] key `gaugeX`".to_string(),
    ]);
    assert!(matches!(
        front_page(&lines(&["indicator = { a }, \"off\""]), &mut fp, &mut w),
        Err(Error::Parse(1, _))
    ));
}

#[test]
fn menu_label_finds_first_entry_for_target() {
    let src = lines(&[
        "menu = \"Fuel\"",
        "subMenu = injChars, \"Injectors\"",
        "groupMenu = \"Tables\"",
        "groupChildMenu = veTable1Map, \"VE Table\"",
        "menu = \"More\"",
        "subMenu = veTable1Map, \"Second\"",
        "subMenu = engine_constants \"Engine Constants\"",
    ]);
    let mut menus: Vec<MenuDef> = Vec::new();
    let mut w = Vec::new();
    menu(&src, &mut menus, &mut w).unwrap();
    assert_eq!(menu_label(&menus, &"veTable1Map".to_string()).as_deref(), Some("VE Table"));
    assert_eq!(menu_label(&menus, &"engine_constants".to_string()).as_deref(), Some("Engine Constants"));
    assert_eq!(menu_label(&menus, &"injChars".to_string()).as_deref(), Some("Injectors"));
    assert_eq!(menu_label(&menus, &"nothing".to_string()), None);
}
