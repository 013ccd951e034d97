use rustytune::ini::definition::parse;
use rustytune::ini::expr::ExprTree;
use rustytune::ini::preprocess::Line;
use rustytune::ini::ui::{menu, user_defined, DialogDef, MenuDef};
use rustytune::server::menus::{menu_tree, target_kind, ShownItem, TargetKind};

fn lines(texts: &[&str]) -> Vec<Line> {
    texts
        .iter()
        .enumerate()
        .map(|(i, t)| Line { num: i as u32 + 1, text: t.to_string() })
        .collect()
}

const TABLES: &str = "[TableEditor]\ntable = veTable1Tbl, veTable1Map, \"VE Table\", 1\n\
                      [CurveEditor]\ncurve = warmup_curve, \"Warmup\"\ncurve = injChars, \"Curve named like a dialog\"\n";

fn setup() -> (Vec<MenuDef>, Vec<(String, DialogDef)>) {
    let mut dialogs: Vec<(String, DialogDef)> = Vec::new();
    let mut w = Vec::new();
    user_defined(&lines(&["dialog = injChars, \"Injectors\"", "dialog = engine_constants"]), &mut dialogs, &mut w)
        .unwrap();
    let src = lines(&[
        "menu = \"&Fuel\"",
        "subMenu = std_separator",
        "subMenu = injChars, \"Injector Characteristics\", 0, { fuelAlgorithm == 1 }",
        "subMenu = std_separator",
        "subMenu = std_separator",
        "subMenu = std_realtime, \"Realtime\"",
        "subMenu = std_separator",
        "groupMenu = \"Tables\"",
        "groupChildMenu = veTable1Tbl, \"VE Table\"",
        "groupChildMenu = nowhere, \"Missing\"",
        "groupMenu = \"Empty\"",
        "groupChildMenu = nowhere, \"Missing\"",
        "subMenu = std_separator",
        "subMenu = warmup_curve, \"Warmup\"",
        "subMenu = std_separator",
        "menu = \"Tools\"",
        "subMenu = std_ms2gentherm, \"Built-in\"",
        "subMenu = std_separator",
        "menu = \"Setup\"",
        "subMenu = engine_constants, \"Engine Constants\"",
    ]);
    let mut menus: Vec<MenuDef> = Vec::new();
    menu(&src, &mut menus, &mut w).unwrap();
    (menus, dialogs)
}

#[test]
fn menus_show_known_targets_with_tidy_separators() {
    let def = parse(TABLES).unwrap();
    let (menus, dialogs) = setup();
    let shown = menu_tree(&menus, &dialogs, &def.tables, &def.curves);
    let titles: Vec<&str> = shown.iter().map(|m| m.title.as_str()).collect();
    assert_eq!(titles, vec!["Fuel", "Setup"]);

    let fuel = &shown[0].items;
    assert_eq!(fuel.len(), 5);
    match &fuel[0] {
        ShownItem::Entry(e) => {
            assert_eq!(e.kind, TargetKind::Dialog);
            assert_eq!((e.name.as_str(), e.label.as_str()), ("injChars", "Injector Characteristics"));
            assert!(matches!(&e.enable, Some(ExprTree::Binary(..))));
        },
        other => panic!("expected an entry, got {other:?}"),
    }
    assert!(matches!(fuel[1], ShownItem::Separator));
    match &fuel[2] {
        ShownItem::Group { label, items } => {
            assert_eq!(label, "Tables");
            assert_eq!(items.len(), 1);
            assert_eq!(items[0].kind, TargetKind::Table);
            assert_eq!(items[0].name, "veTable1Tbl");
            assert!(items[0].enable.is_none());
        },
        other => panic!("expected a group, got {other:?}"),
    }
    assert!(matches!(fuel[3], ShownItem::Separator));
    match &fuel[4] {
        ShownItem::Entry(e) => assert_eq!((e.kind, e.name.as_str()), (TargetKind::Curve, "warmup_curve")),
        other => panic!("expected an entry, got {other:?}"),
    }
    assert_eq!(shown[1].items.len(), 1);
}

#[test]
fn target_kinds_prefer_dialogs_then_tables_then_curves() {
    let def = parse(TABLES).unwrap();
    let (_, dialogs) = setup();
    let kind = |t: &str| target_kind(&dialogs, &def.tables, &def.curves, &t.to_string());
    assert_eq!(kind("injChars"), Some(TargetKind::Dialog));
    assert_eq!(kind("veTable1Tbl"), Some(TargetKind::Table));
    assert_eq!(kind("warmup_curve"), Some(TargetKind::Curve));
    assert_eq!(kind("std_realtime"), None);
    assert_eq!(kind("veTable1Map"), None);
}

#[test]
fn nothing_known_shows_no_menus() {
    let (menus, _) = setup();
    assert!(menu_tree(&menus, &Vec::new(), &Vec::new(), &Vec::new()).is_empty());
}
