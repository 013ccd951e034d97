use rustytune::ini::lex::Token;
use rustytune::ini::model::{ConstantClass, SettingGroup};
use rustytune::ini::preprocess::Line;
use rustytune::ini::sections::{constant_class, kv, setting_groups, str_tok};
use rustytune::ini::Error;

fn line(num: u32, text: &str) -> Line {
    Line { num, text: text.to_string() }
}

#[test]
fn kv_splits_and_warns() {
    let mut warnings = Vec::new();
    let (key, tokens) = kv(&line(3, "nCylinders = bits, U08, 0, [0:3]"), &mut warnings).unwrap();
    assert_eq!(key, "nCylinders");
    assert_eq!(tokens.len(), 4);
    assert!(warnings.is_empty());
    assert!(kv(&line(4, "no equals here"), &mut warnings).is_none());
    assert_eq!(warnings, vec!["line 4: expected `key = ...`: no equals here".to_string()]);
    assert!(kv(&line(5, "k = \"open"), &mut warnings).is_none());
    assert_eq!(warnings.len(), 2);
    assert!(warnings[1].starts_with("line 5: line 5: "));
}

#[test]
fn str_tok_and_constant_class() {
    let tokens = vec![Token::Bare("scalar".into()), Token::Str("ms".into())];
    assert_eq!(str_tok(&tokens, 1, 9).unwrap(), "ms");
    match str_tok(&tokens, 2, 9) {
        Err(Error::Parse(9, msg)) => assert_eq!(msg, "missing value #3"),
        other => panic!("{other:?}"),
    }
    assert_eq!(constant_class(&tokens), Some(ConstantClass::Scalar));
    assert_eq!(constant_class(&[Token::Bare("array".into())].to_vec()), Some(ConstantClass::Array));
    assert_eq!(constant_class(&[Token::Str("bits".into())].to_vec()), None);
    assert_eq!(constant_class(&Vec::new()), None);
}

#[test]
fn setting_groups_from_lines() {
    let lines = vec![
        line(1, "settingOption = orphan, \"x\""),
        line(2, "settingGroup = mcu, \"Controller in use\""),
        line(3, "settingOption = DEFAULT, \"Arduino Mega 2560\""),
        line(4, "settingOption = mcu_teensy, \"Teensy\""),
        line(5, "settingGroup = LAMBDA"),
        line(6, "bogus = 1"),
    ];
    let mut groups: Vec<SettingGroup> = Vec::new();
    let mut warnings = Vec::new();
    setting_groups(&lines, &mut groups, &mut warnings).unwrap();
    assert_eq!(groups.len(), 2);
    assert_eq!(groups[0].keyword, "mcu");
    assert_eq!(groups[0].display_name, "Controller in use");
    assert_eq!(
        groups[0].options,
        vec![
            ("DEFAULT".to_string(), "Arduino Mega 2560".to_string()),
            ("mcu_teensy".to_string(), "Teensy".to_string())
        ]
    );
    assert_eq!(groups[1].display_name, "");
    assert_eq!(warnings.len(), 2);

    let bad = vec![line(7, "settingGroup =")];
    match setting_groups(&bad, &mut groups, &mut warnings) {
        Err(Error::Parse(7, _)) => {}
        other => panic!("{other:?}"),
    }
}

#[test]
fn error_messages() {
    assert_eq!(Error::Parse(12, "bad".into()).message(), "line 12: bad");
    assert_eq!(Error::Eval("boom".into()).message(), "boom");
}

use rustytune::ini::sections::group_sections;

#[test]
fn lines_group_under_their_section_headers() {
    let lines = vec![
        line(1, "orphan = 1"),
        line(2, "[MegaTune]"),
        line(3, "signature = \"x\""),
        line(4, " [ Constants ] "),
        line(5, "a = 1"),
        line(6, "b = 2"),
        line(7, "[]"),
        line(8, "[MegaTune]"),
    ];
    let groups = group_sections(&lines);
    let shape: Vec<(String, Vec<u32>)> = groups
        .iter()
        .map(|(name, ls)| (name.clone(), ls.iter().map(|l| l.num).collect()))
        .collect();
    assert_eq!(
        shape,
        vec![
            ("MegaTune".to_string(), vec![3]),
            ("Constants".to_string(), vec![5, 6]),
            ("".to_string(), vec![]),
            ("MegaTune".to_string(), vec![]),
        ]
    );
}
