use rustytune::ini::preprocess::preprocess;
use rustytune::ini::Error;

fn run(src: &str, syms: &[&str]) -> Vec<String> {
    let mut symbols: Vec<String> = syms.iter().map(|s| s.to_string()).collect();
    preprocess(src, &mut symbols)
        .unwrap()
        .into_iter()
        .map(|l| l.text)
        .collect()
}

fn error_line(src: &str) -> u32 {
    let mut symbols: Vec<String> = Vec::new();
    match preprocess(src, &mut symbols) {
        Err(Error::Parse(n, _)) => n,
        other => panic!("expected a parse error, got {:?}", other),
    }
}

#[test]
fn strips_comments_and_blank_lines() {
    assert_eq!(
        run("a = 1 ; comment\n\n; whole line\nb = \"x;y\", 2", &[]),
        vec!["a = 1", "b = \"x;y\", 2"]
    );
}

#[test]
fn if_else_endif() {
    let src = "#if CELSIUS\na = C\n#else\na = F\n#endif";
    assert_eq!(run(src, &["CELSIUS"]), vec!["a = C"]);
    assert_eq!(run(src, &[]), vec!["a = F"]);
}

#[test]
fn elif_chain_and_nesting() {
    let src = "#if A\nx\n#elif B\ny\n#if C\nz\n#endif\n#else\nw\n#endif";
    assert_eq!(run(src, &["B", "C"]), vec!["y", "z"]);
    assert_eq!(run(src, &["B"]), vec!["y"]);
    assert_eq!(run(src, &["A", "B", "C"]), vec!["x"]);
    assert_eq!(run(src, &[]), vec!["w"]);
}

#[test]
fn set_unset_only_when_active() {
    let src = "#if NO\n#set X\n#endif\n#if X\nbad\n#endif\n#set Y\n#if Y\ngood\n#endif";
    assert_eq!(run(src, &[]), vec!["good"]);
}

#[test]
fn nested_defines_expand() {
    let src = "#define a8 = \"I\", \"I\"\n#define a16 = $a8, $a8\nlist = $a16";
    assert_eq!(run(src, &[]), vec!["list = \"I\", \"I\", \"I\", \"I\""]);
}

#[test]
fn escaped_dollar_untouched() {
    let src = "#define tsCanId = BOOM\ncmd = \"r\\$tsCanId\\x30\"";
    assert_eq!(run(src, &[]), vec!["cmd = \"r\\$tsCanId\\x30\""]);
}

#[test]
fn line_numbers_count_every_source_line() {
    let mut symbols: Vec<String> = Vec::new();
    let lines = preprocess("\r\n; c\r\nfoo\r\n\r\nbar = 1\r\n", &mut symbols).unwrap();
    let got: Vec<(u32, String)> = lines.into_iter().map(|l| (l.num, l.text)).collect();
    assert_eq!(got, vec![(3, "foo".to_string()), (5, "bar = 1".to_string())]);
}

#[test]
fn set_and_unset_change_the_callers_symbols() {
    let mut symbols: Vec<String> = vec!["A".to_string()];
    preprocess("#set B\n#unset A", &mut symbols).unwrap();
    assert_eq!(symbols, vec!["B".to_string()]);
}

#[test]
fn negated_condition() {
    assert_eq!(run("#if !LAMBDA\nafr\n#else\nlambda\n#endif", &[]), vec!["afr"]);
    assert_eq!(run("#if !LAMBDA\nafr\n#else\nlambda\n#endif", &["LAMBDA"]), vec!["lambda"]);
}

#[test]
fn dollar_without_name_stays() {
    assert_eq!(run("price = $ 5", &[]), vec!["price = $ 5"]);
}

#[test]
fn errors_name_their_line() {
    assert_eq!(error_line("a\n#elif X\n"), 2);
    assert_eq!(error_line("a\nb\n#else"), 3);
    assert_eq!(error_line("#endif"), 1);
    assert_eq!(error_line("x\n#bogus"), 2);
    assert_eq!(error_line("#define nothing"), 1);
    assert_eq!(error_line("v = $missing"), 1);
    assert_eq!(error_line("#if\n#endif"), 1);
    assert_eq!(error_line("#if A\nx"), 0);
}

#[test]
fn inactive_branches_skip_their_errors() {
    assert_eq!(run("#if NO\n#if\nv = $missing\n#define nothing\n#endif\n#endif\nok", &[]), vec!["ok"]);
}
