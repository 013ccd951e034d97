use rustytune::ini::model::ConstantClass;
use rustytune::msq::diff::{apply_plan, diff_raw, ApplyAction, ApplyItem, FileShape, FileValue, RawCompare, RawKind};

fn item(name: &str, def: Option<(ConstantClass, Option<u8>, usize)>, file: FileValue, cur: Option<i64>) -> RawCompare {
    RawCompare { name: name.into(), def, file, cur, cells: Vec::new(), text: None }
}

#[test]
fn diff_pinpoints_changes_on_raw_values() {
    let mut arr = item("veTable", Some((ConstantClass::Array, Some(2), 4)), FileValue::Array(vec![Some(1), Some(2), Some(9), Some(4)]), None);
    arr.cells = vec![Some(1), Some(2), Some(3), Some(4)];
    let mut same_arr = item("afrTable", Some((ConstantClass::Array, Some(2), 2)), FileValue::Array(vec![Some(1), None]), None);
    same_arr.cells = vec![Some(1), Some(7)];
    let mut txt = item("name", Some((ConstantClass::String, Some(3), 0)), FileValue::Text { text: "new".into(), index: None }, None);
    txt.text = Some("old".into());
    let items = vec![
        item("reqFuel", Some((ConstantClass::Scalar, Some(1), 0)), FileValue::Num { raw: Some(120), index: 12 }, Some(110)),
        item("same", Some((ConstantClass::Scalar, Some(1), 0)), FileValue::Num { raw: Some(5), index: 5 }, Some(5)),
        item("gone", None, FileValue::Num { raw: None, index: 0 }, None),
        item("noScale", Some((ConstantClass::Scalar, Some(1), 0)), FileValue::Num { raw: None, index: 0 }, Some(1)),
        item("injLayout", Some((ConstantClass::Bits, Some(1), 0)), FileValue::Text { text: "Seq".into(), index: Some(3) }, Some(1)),
        item("badLabel", Some((ConstantClass::Bits, Some(1), 0)), FileValue::Text { text: "Nope".into(), index: None }, Some(1)),
        arr,
        same_arr,
        item("short", Some((ConstantClass::Array, Some(2), 3)), FileValue::Array(vec![Some(1)]), None),
        txt,
        item("shape", Some((ConstantClass::Scalar, Some(1), 0)), FileValue::Array(vec![]), Some(1)),
    ];
    let d = diff_raw(&items);
    assert_eq!(d.only_in_file, vec!["gone".to_string()]);
    let unresolved: Vec<(&str, &str)> = d.unresolved.iter().map(|(a, b)| (a.as_str(), b.as_str())).collect();
    assert_eq!(
        unresolved,
        vec![
            ("noScale", "scale did not resolve"),
            ("badLabel", "label not in combo list"),
            ("short", "array length mismatch"),
            ("shape", "value shape mismatch"),
        ]
    );
    let names: Vec<&str> = d.entries.iter().map(|e| e.name.as_str()).collect();
    assert_eq!(names, vec!["reqFuel", "injLayout", "veTable", "name"]);
    assert!(matches!(d.entries[0].kind, RawKind::Scalar { ecu: 110, file: 120 }));
    assert!(matches!(d.entries[1].kind, RawKind::Bits { ecu: 1, file: 3 }));
    match &d.entries[2].kind {
        RawKind::Array { changed, len } => assert_eq!((changed.clone(), *len), (vec![2usize], 4)),
        other => panic!("unexpected {other:?}"),
    }
    match &d.entries[3].kind {
        RawKind::Text { ecu, file } => assert_eq!((ecu.as_str(), file.as_str()), ("old", "new")),
        other => panic!("unexpected {other:?}"),
    }
    assert_eq!(d.entries[2].page, Some(2));
}

fn apply_item(name: &str, class: Option<ConstantClass>, shape: FileShape, index: Option<i64>, lens: (usize, usize)) -> ApplyItem {
    ApplyItem { name: name.into(), class, shape, index, file_len: lens.0, def_len: lens.1 }
}

#[test]
fn apply_plan_writes_or_skips_each_constant() {
    let items = vec![
        apply_item("reqFuel", Some(ConstantClass::Scalar), FileShape::Num, None, (0, 0)),
        apply_item("gone", None, FileShape::Num, None, (0, 0)),
        apply_item("injLayout", Some(ConstantClass::Bits), FileShape::Text, Some(3), (0, 0)),
        apply_item("badLabel", Some(ConstantClass::Bits), FileShape::Text, None, (0, 0)),
        apply_item("veTable", Some(ConstantClass::Array), FileShape::Array, None, (16, 16)),
        apply_item("short", Some(ConstantClass::Array), FileShape::Array, None, (3, 16)),
        apply_item("name", Some(ConstantClass::String), FileShape::Text, None, (0, 0)),
        apply_item("shape", Some(ConstantClass::Scalar), FileShape::Array, None, (2, 0)),
    ];
    let plan = apply_plan(&items, None);
    let skip = |m: &str| ApplyAction::Skip(m.to_string());
    assert_eq!(
        plan,
        vec![
            ("reqFuel".to_string(), ApplyAction::SetValue),
            ("gone".to_string(), skip("not in definition")),
            ("injLayout".to_string(), ApplyAction::SetIndex(3)),
            ("badLabel".to_string(), skip("label not found")),
            ("veTable".to_string(), ApplyAction::SetCells),
            ("short".to_string(), skip("array length mismatch")),
            ("name".to_string(), skip("string constant")),
            ("shape".to_string(), skip("value shape mismatch")),
        ]
    );
    let only = vec!["veTable".to_string(), "name".to_string()];
    let selective = apply_plan(&items, Some(&only));
    let names: Vec<&str> = selective.iter().map(|(n, _)| n.as_str()).collect();
    assert_eq!(names, vec!["veTable", "name"]);
}
