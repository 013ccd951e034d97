use rustytune::ini::expr::{lbp, parse, scan, BinOp, ExprTree, OpTok, Tok, UnOp};
use rustytune::ini::Error;

/// A compact rendering of a tree, fully parenthesised.
fn show(e: &ExprTree) -> String {
    match e {
        ExprTree::Num(n) => format!("#{n}"),
        ExprTree::Str(s) => format!("{s:?}"),
        ExprTree::Ident(s) => s.clone(),
        ExprTree::Unary(UnOp::Neg, a) => format!("(-{})", show(a)),
        ExprTree::Unary(UnOp::Not, a) => format!("(!{})", show(a)),
        ExprTree::Binary(op, a, b) => format!("({} {:?} {})", show(a), op, show(b)),
        ExprTree::Ternary(c, a, b) => format!("({} ? {} : {})", show(c), show(a), show(b)),
        ExprTree::Call(f, args) => {
            let inner: Vec<String> = args.iter().map(show).collect();
            format!("{f}({})", inner.join(", "))
        }
        ExprTree::Index(n, i) => format!("{n}[{}]", show(i)),
    }
}

fn tree(text: &str) -> String {
    show(&parse(text, 1).unwrap())
}

fn err_line(text: &str) -> u32 {
    match parse(text, 9) {
        Err(Error::Parse(n, _)) => n,
        other => panic!("{other:?}"),
    }
}

#[test]
fn arithmetic_precedence_shapes() {
    assert_eq!(tree("(coolantRaw - 40) * 1.8 + 32"), "(((coolantRaw Sub #40) Mul #1.8) Add #32)");
    assert_eq!(tree("2 + 3 * 4"), "(#2 Add (#3 Mul #4))");
    assert_eq!(tree("0.1 / stoich"), "(#0.1 Div stoich)");
    assert_eq!(tree("-5 + 1"), "((-#5) Add #1)");
    assert_eq!(tree("8 - 4 - 2"), "((#8 Sub #4) Sub #2)");
    assert_eq!(tree("1 << 2 + 3"), "(#1 Shl (#2 Add #3))");
}

#[test]
fn comparisons_logic_ternary_shapes() {
    assert_eq!(
        tree("(iacAlgorithm == 2 || iacAlgorithm == 3 || iacMaxSteps <= 255) ? 1.000 : 2.000"),
        "((((iacAlgorithm Eq #2) Or (iacAlgorithm Eq #3)) Or (iacMaxSteps Le #255)) ? #1.000 : #2.000)"
    );
    assert_eq!(
        tree("(tps > tpsflood) && (rpm < crankRPM)"),
        "((tps Gt tpsflood) And (rpm Lt crankRPM))"
    );
    assert_eq!(tree("!0"), "(!#0)");
    assert_eq!(tree("a ? b : c ? d : e"), "(a ? b : (c ? d : e))");
    assert_eq!(tree("a & b | c ^ d"), "((a BitAnd b) BitOr (c BitXor d))");
}

#[test]
fn calls_indexing_and_strings() {
    assert_eq!(tree("bitStringValue( idleUnits , iacAlgorithm  )"), "bitStringValue(idleUnits, iacAlgorithm)");
    assert_eq!(tree("timeNow()"), "timeNow()");
    assert_eq!(tree("array.boardFuelOutputs[2]"), "array.boardFuelOutputs[#2]");
    assert_eq!(tree("\"a b\""), "\"a b\"");
}

#[test]
fn leading_dot_number_literals() {
    assert_eq!(tree(".5 * 4"), "(#.5 Mul #4)");
    assert_eq!(tree("5."), "#5.");
}

#[test]
fn scan_errors_and_parse_errors_carry_the_line() {
    assert_eq!(err_line("1.2.3"), 9);
    assert_eq!(err_line("."), 9);
    assert_eq!(err_line("\"open"), 9);
    assert_eq!(err_line("a = b"), 9);
    assert_eq!(err_line("a b"), 9);
    assert_eq!(err_line("(a"), 9);
    assert_eq!(err_line("f(a,"), 9);
    assert_eq!(err_line("x[1"), 9);
    assert_eq!(err_line("a ? b"), 9);
    assert_eq!(err_line(""), 9);
}

#[test]
fn scanner_tokens() {
    let toks = scan("a>=1 && b", 1).unwrap();
    assert_eq!(toks.len(), 5);
    assert!(matches!(&toks[1], Tok::Op(OpTok::GreaterEq)));
    assert!(matches!(&toks[2], Tok::Num(n) if n == "1"));
    assert!(matches!(&toks[3], Tok::Op(OpTok::AndAnd)));
    assert_eq!(lbp(OpTok::Star), Some((10, BinOp::Mul)));
    assert_eq!(lbp(OpTok::Comma), None);
}
