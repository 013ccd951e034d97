//! `[CurveEditor]`: the 2-D curve editors of a definition, with the numbers
//! of their axes held as the literal text of each number.

use vstd::prelude::*;
use vstd::string::StringExecFns;
use super::Error;
use super::expr::{parse, spec_parse, expr_view, ExprTree, SpecExpr};
use super::lex::{is_float_literal, token_text, token_view, tokens_view, SpecToken, Token};
use super::preprocess::{lines_view, Line};
use super::sections::{join_values, key_is, kv, spec_join_values, spec_kv, str_tok, warn};
use super::ui::{insert_keyed, keyed_insert, keyed_view, keys_distinct, lemma_keyed_insert, texts};
use crate::text::{append_chars, decimal_chars, string_views};

verus! {

broadcast use vstd::string::group_string_axioms;

/// A field that is a literal number (its text, which reads as a
/// floating-point number) or a `{ expression }` evaluated later.
#[derive(Debug)]
pub enum NumOrExpr {
    Num(String),
    Expr(ExprTree),
}

pub enum SpecNum {
    Num(Seq<char>),
    Expr(SpecExpr),
}

impl View for NumOrExpr {
    type V = SpecNum;

    open spec fn view(&self) -> SpecNum {
        match self {
            NumOrExpr::Num(s) => SpecNum::Num(s@),
            NumOrExpr::Expr(e) => SpecNum::Expr(expr_view(*e)),
        }
    }
}

pub open spec fn nums_view(v: Seq<NumOrExpr>) -> Seq<SpecNum> {
    v.map_values(|n: NumOrExpr| n@)
}

/// A value as a number or expression: `None` when an expression does not
/// parse or a bare value is not a number.
pub open spec fn spec_num_or_expr(t: SpecToken) -> Option<SpecNum> {
    match t {
        SpecToken::Expr(s) => match spec_parse(s) {
            Some(e) => Some(SpecNum::Expr(e)),
            None => None,
        },
        SpecToken::Bare(s) => if is_float_literal(s) {
            Some(SpecNum::Num(s))
        } else {
            None
        },
        SpecToken::Str(_) => None,
    }
}

/// Value `idx` as a number or expression; a missing value, an expression
/// that does not parse, or a value that is not a number is an error on
/// line `num`.
pub fn num_or_expr(tokens: &Vec<Token>, idx: usize, num: u32) -> (r: Result<NumOrExpr, Error>)
    ensures
        (idx < tokens@.len() && spec_num_or_expr(token_view(tokens@[idx as int])) is Some) ==> (r matches Ok(n)
            && Some(n@) == spec_num_or_expr(token_view(tokens@[idx as int]))),
        !(idx < tokens@.len() && spec_num_or_expr(token_view(tokens@[idx as int])) is Some) ==> (r matches Err(
            Error::Parse(n, _),
        ) && n == num),
{
    if idx < tokens.len() {
        match &tokens[idx] {
            Token::Expr(src) => match parse(src.as_str(), num) {
                Ok(e) => Ok(NumOrExpr::Expr(e)),
                Err(e) => Err(e),
            },
            t => match t.number(num) {
                Ok(s) => Ok(NumOrExpr::Num(s)),
                Err(e) => Err(e),
            },
        }
    } else {
        let mut m = String::from_str("missing numeric value #");
        if idx < usize::MAX {
            append_chars(&mut m, &decimal_chars((idx + 1) as u64));
        }
        Err(Error::at(num, m))
    }
}

/// One curve editor.
#[derive(Debug)]
pub struct CurveDef {
    pub id: String,
    pub title: String,
    pub column_label: Vec<String>,
    /// min, max, divisions
    pub x_axis: Vec<NumOrExpr>,
    pub y_axis: Vec<NumOrExpr>,
    /// (bins constant, live channel for the axis cursor)
    pub x_bins: (String, Option<String>),
    pub y_bins: Vec<String>,
    /// Other keys, with their values joined by `, `.
    pub misc: Vec<(String, String)>,
    pub line: u32,
}

pub struct SpecCurve {
    pub id: Seq<char>,
    pub title: Seq<char>,
    pub column_label: Seq<Seq<char>>,
    pub x_axis: Seq<SpecNum>,
    pub y_axis: Seq<SpecNum>,
    pub x_bins: (Seq<char>, Option<Seq<char>>),
    pub y_bins: Seq<Seq<char>>,
    pub misc: Seq<(Seq<char>, Seq<char>)>,
    pub line: u32,
}

pub open spec fn opt_text(o: Option<String>) -> Option<Seq<char>> {
    match o {
        Some(s) => Some(s@),
        None => None,
    }
}

impl View for CurveDef {
    type V = SpecCurve;

    open spec fn view(&self) -> SpecCurve {
        SpecCurve {
            id: self.id@,
            title: self.title@,
            column_label: string_views(self.column_label@),
            x_axis: nums_view(self.x_axis@),
            y_axis: nums_view(self.y_axis@),
            x_bins: (self.x_bins.0@, opt_text(self.x_bins.1)),
            y_bins: string_views(self.y_bins@),
            misc: self.misc@.map_values(|p: (String, String)| (p.0@, p.1@)),
            line: self.line,
        }
    }
}

pub open spec fn opt_curve(o: Option<CurveDef>) -> Option<SpecCurve> {
    match o {
        Some(c) => Some(c@),
        None => None,
    }
}

/// Every value as a number or expression, or `None` if one is neither.
pub open spec fn spec_axis(ts: Seq<SpecToken>) -> Option<Seq<SpecNum>> {
    if forall|i: int| 0 <= i < ts.len() ==> spec_num_or_expr(#[trigger] ts[i]) is Some {
        Some(ts.map_values(|t: SpecToken| spec_num_or_expr(t)->0))
    } else {
        None
    }
}

/// The curve being read is filed under its id when the next begins, and
/// at the end.
pub open spec fn finish_curve(cs: Seq<(Seq<char>, SpecCurve)>, cur: Option<SpecCurve>) -> Seq<(Seq<char>, SpecCurve)> {
    match cur {
        Some(c) => keyed_insert(cs, c.id, c),
        None => cs,
    }
}

/// `value 1`'s text, if there is a value 1.
pub open spec fn second_text(ts: Seq<SpecToken>) -> Option<Seq<char>> {
    if ts.len() > 1 {
        Some(token_text(ts[1]))
    } else {
        None
    }
}

/// One `[CurveEditor]` line: the curves filed, the one being read, and
/// the warnings drawn, or `None` for an error.
pub open spec fn curve_line(
    cs: Seq<(Seq<char>, SpecCurve)>,
    cur: Option<SpecCurve>,
    num: u32,
    text: Seq<char>,
) -> Option<(Seq<(Seq<char>, SpecCurve)>, Option<SpecCurve>, nat)> {
    match spec_kv(text) {
        None => Some((cs, cur, 1)),
        Some((key, ts)) => if key == "curve"@ {
            if ts.len() > 0 {
                let c = SpecCurve {
                    id: token_text(ts[0]),
                    title: if ts.len() > 1 {
                        token_text(ts[1])
                    } else {
                        seq![]
                    },
                    column_label: seq![],
                    x_axis: seq![],
                    y_axis: seq![],
                    x_bins: (seq![], None),
                    y_bins: seq![],
                    misc: seq![],
                    line: num,
                };
                Some((finish_curve(cs, cur), Some(c), 0))
            } else {
                None
            }
        } else {
            match cur {
                None => Some((cs, cur, 1)),
                Some(c) => if key == "columnLabel"@ {
                    Some((cs, Some(SpecCurve { column_label: texts(ts), ..c }), 0))
                } else if key == "xAxis"@ || key == "yAxis"@ {
                    match spec_axis(ts) {
                        None => None,
                        Some(a) => if key == "xAxis"@ {
                            Some((cs, Some(SpecCurve { x_axis: a, ..c }), 0))
                        } else {
                            Some((cs, Some(SpecCurve { y_axis: a, ..c }), 0))
                        },
                    }
                } else if key == "xBins"@ {
                    if ts.len() > 0 {
                        Some((cs, Some(SpecCurve { x_bins: (token_text(ts[0]), second_text(ts)), ..c }), 0))
                    } else {
                        None
                    }
                } else if key == "yBins"@ {
                    if ts.len() > 0 {
                        Some((cs, Some(SpecCurve { y_bins: c.y_bins.push(token_text(ts[0])), ..c }), 0))
                    } else {
                        None
                    }
                } else {
                    Some((cs, Some(SpecCurve { misc: c.misc.push((key, spec_join_values(texts(ts)))), ..c }), 0))
                },
            }
        },
    }
}

pub open spec fn spec_curve_editor(
    cs: Seq<(Seq<char>, SpecCurve)>,
    cur: Option<SpecCurve>,
    lines: Seq<(u32, Seq<char>)>,
) -> Result<(Seq<(Seq<char>, SpecCurve)>, Option<SpecCurve>, nat), u32>
    decreases lines.len(),
{
    if lines.len() == 0 {
        Ok((cs, cur, 0))
    } else {
        match curve_line(cs, cur, lines[0].0, lines[0].1) {
            None => Err(lines[0].0),
            Some((c2, k2, w)) => match spec_curve_editor(c2, k2, lines.drop_first()) {
                Ok((c3, k3, w2)) => Ok((c3, k3, w + w2)),
                Err(n) => Err(n),
            },
        }
    }
}


/// Every value as a number or expression.
fn axis(tokens: &Vec<Token>, num: u32) -> (r: Result<Vec<NumOrExpr>, Error>)
    ensures
        match spec_axis(tokens_view(tokens@)) {
            Some(a) => r matches Ok(v) && nums_view(v@) == a,
            None => r matches Err(Error::Parse(n, _)) && n == num,
        },
{
    let ghost tv = tokens_view(tokens@);
    let mut out: Vec<NumOrExpr> = Vec::new();
    let mut i: usize = 0;
    while i < tokens.len()
        invariant
            i <= tokens@.len(),
            tv == tokens_view(tokens@),
            tv.len() == tokens@.len(),
            out@.len() == i,
            forall|j: int| 0 <= j < i ==> spec_num_or_expr(#[trigger] tv[j]) == Some(out@[j]@),
        decreases tokens@.len() - i,
    {
        assert(tv[i as int] == token_view(tokens@[i as int]));
        match num_or_expr(tokens, i, num) {
            Ok(n) => {
                out.push(n);
            },
            Err(e) => {
                return Err(e);
            },
        }
        i = i + 1;
    }
    proof {
        assert forall|j: int| 0 <= j < tv.len() implies spec_num_or_expr(#[trigger] tv[j]) is Some by {}
        let a = tv.map_values(|t: SpecToken| spec_num_or_expr(t)->0);
        assert(nums_view(out@) =~= a) by {
            assert forall|j: int| 0 <= j < a.len() implies nums_view(out@)[j] == a[j] by {
                assert(spec_num_or_expr(tv[j]) == Some(out@[j]@));
            }
        }
    }
    Ok(out)
}


/// Parse a `[CurveEditor]` section into `curves`, each filed under its id.
pub fn curve_editor(lines: &Vec<Line>, curves: &mut Vec<(String, CurveDef)>, warnings: &mut Vec<String>) -> (r: Result<(), Error>)
    ensures
        final(warnings)@.len() >= old(warnings)@.len(),
        match spec_curve_editor(keyed_view(old(curves)@), None, lines_view(lines@)) {
            Ok((cs, cur, w)) => r is Ok && keyed_view(final(curves)@) == finish_curve(cs, cur)
                && final(warnings)@.len() == old(warnings)@.len() + w,
            Err(n) => r matches Err(Error::Parse(m, _)) && m == n,
        },
{
    let ghost lv = lines_view(lines@);
    let ghost total = spec_curve_editor(keyed_view(old(curves)@), None, lv);
    let ghost mut done: nat = 0;
    let mut current: Option<CurveDef> = None;
    assert(lv.skip(0) =~= lv);
    let mut i: usize = 0;
    while i < lines.len()
        invariant
            i <= lines@.len(),
            lv == lines_view(lines@),
            lv.len() == lines@.len(),
            total == spec_curve_editor(keyed_view(old(curves)@), None, lv),
            warnings@.len() == old(warnings)@.len() + done,
            total == match spec_curve_editor(
                keyed_view(curves@),
                opt_curve(current),
                lv.skip(i as int),
            ) {
                Ok((cs, cur, w)) => Ok((cs, cur, done + w)),
                Err(n) => Err::<(Seq<(Seq<char>, SpecCurve)>, Option<SpecCurve>, nat), u32>(n),
            },
        decreases lines@.len() - i,
    {
        let line = &lines[i];
        let ghost cs = keyed_view(curves@);
        let ghost cur = opt_curve(current);
        let ghost wl = warnings@.len();
        assert(lv.skip(i as int)[0] == (line.num, line.text@));
        assert(lv.skip(i as int).drop_first() =~= lv.skip(i + 1));
        let ghost step = curve_line(cs, cur, line.num, line.text@);
        match kv(line, warnings) {
            None => {},
            Some((key, tokens)) => {
                let ghost tv = tokens_view(tokens@);
                if key_is(&key, "curve") {
                    match current.take() {
                        Some(c) => {
                            let id = c.id.clone();
                            insert_keyed(curves, id, c);
                        },
                        None => {},
                    }
                    let id = match str_tok(&tokens, 0, line.num) {
                        Ok(t) => t,
                        Err(e) => {
                            return Err(e);
                        },
                    };
                    let title = match str_tok(&tokens, 1, line.num) {
                        Ok(t) => t,
                        Err(_) => String::new(),
                    };
                    let c = CurveDef {
                        id,
                        title,
                        column_label: Vec::new(),
                        x_axis: Vec::new(),
                        y_axis: Vec::new(),
                        x_bins: (String::new(), None),
                        y_bins: Vec::new(),
                        misc: Vec::new(),
                        line: line.num,
                    };
                    proof {
                        assert(c@.column_label =~= seq![]);
                        assert(c@.x_axis =~= seq![]);
                        assert(c@.y_axis =~= seq![]);
                        assert(c@.y_bins =~= seq![]);
                        assert(c@.misc =~= seq![]);
                    }
                    current = Some(c);
                } else {
                    match current.take() {
                        None => {
                            let mut w = String::from_str("[CurveEditor] key `");
                            w.append(key.as_str());
                            w.append("` outside a curve");
                            warn(warnings, line.num, &w);
                        },
                        Some(mut c) => {
                            let ghost cv = c@;
                            if key_is(&key, "columnLabel") {
                                c.column_label = super::constants::texts_from(&tokens, 0);
                                assert(tv.skip(0) =~= tv);
                            } else if key_is(&key, "xAxis") || key_is(&key, "yAxis") {
                                let a = match axis(&tokens, line.num) {
                                    Ok(a) => a,
                                    Err(e) => {
                                        return Err(e);
                                    },
                                };
                                if key_is(&key, "xAxis") {
                                    c.x_axis = a;
                                } else {
                                    c.y_axis = a;
                                }
                            } else if key_is(&key, "xBins") {
                                let b = match str_tok(&tokens, 0, line.num) {
                                    Ok(t) => t,
                                    Err(e) => {
                                        return Err(e);
                                    },
                                };
                                let live = if tokens.len() > 1 {
                                    Some(String::from_str(tokens[1].as_str()))
                                } else {
                                    None
                                };
                                c.x_bins = (b, live);
                            } else if key_is(&key, "yBins") {
                                let b = match str_tok(&tokens, 0, line.num) {
                                    Ok(t) => t,
                                    Err(e) => {
                                        return Err(e);
                                    },
                                };
                                let ghost yb = c.y_bins@;
                                c.y_bins.push(b);
                                assert(string_views(c.y_bins@) =~= string_views(yb).push(b@));
                            } else {
                                let parts = super::constants::texts_from(&tokens, 0);
                                assert(tv.skip(0) =~= tv);
                                let joined = join_values(&parts);
                                c.misc.push((key, joined));
                                assert(c@.misc =~= cv.misc.push((key@, spec_join_values(texts(tv)))));
                            }
                            current = Some(c);
                        },
                    }
                }
            },
        }
        proof {
            let ws = (warnings@.len() - wl) as nat;
            let nc = opt_curve(current);
            assert(step == Some((keyed_view(curves@), nc, ws)));
            done = done + ws;
        }
        i = i + 1;
    }
    assert(lv.skip(lines@.len() as int) =~= Seq::<(u32, Seq<char>)>::empty());
    match current {
        Some(c) => {
            let id = c.id.clone();
            insert_keyed(curves, id, c);
        },
        None => {},
    }
    Ok(())
}

/// A `[CurveEditor]` section files no curve id twice.
pub proof fn lemma_curves_keep_names(cs: Seq<(Seq<char>, SpecCurve)>, cur: Option<SpecCurve>, lines: Seq<(u32, Seq<char>)>)
    requires
        keys_distinct(cs),
    ensures
        spec_curve_editor(cs, cur, lines) matches Ok((c2, k2, _)) ==> keys_distinct(finish_curve(c2, k2)),
    decreases lines.len(),
{
    if lines.len() == 0 {
        match cur {
            Some(c) => lemma_keyed_insert(cs, c.id, c),
            None => {},
        }
    } else {
        match cur {
            Some(c) => lemma_keyed_insert(cs, c.id, c),
            None => {},
        }
        match curve_line(cs, cur, lines[0].0, lines[0].1) {
            Some((c2, k2, _)) => {
                lemma_curves_keep_names(c2, k2, lines.drop_first());
            },
            None => {},
        }
    }
}

} // verus!
