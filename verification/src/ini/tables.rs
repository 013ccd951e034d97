//! `[TableEditor]` and `[GaugeConfigurations]`: the 3-D table editors and
//! the gauges of a definition, numbers held as the literal text of each
//! number.

use vstd::prelude::*;
use vstd::string::StringExecFns;
use super::Error;
use super::constants::{all_numbers, lemma_run_keeps, numbers, run, texts_from, Run, Step};
use super::curves::{num_or_expr, opt_text, second_text, spec_num_or_expr, NumOrExpr, SpecNum};
use super::lex::{token_text, token_view, tokens_view, SpecToken, Token};
use super::preprocess::{lines_view, Line};
use super::sections::{join_values, key_is, kv, number_text, spec_join_values, spec_kv, str_tok, warn};
use super::ui::{insert_keyed, keyed_insert, keyed_view, keys_distinct, lemma_keyed_insert, texts};
use crate::text::string_views;

verus! {

broadcast use vstd::string::group_string_axioms;




// ----- [TableEditor] --------------------------------------------------------

/// One table editor.
#[derive(Debug)]
pub struct TableDef {
    pub id: String,
    pub map_id: String,
    pub title: String,
    /// The tune page's number (1-based).
    pub page: String,
    /// (bins constant, live channel for the axis cursor)
    pub x_bins: (String, Option<String>),
    pub y_bins: (String, Option<String>),
    pub z_bins: String,
    pub xy_labels: Vec<String>,
    pub grid_height: Option<String>,
    pub grid_orient: Vec<String>,
    pub up_down_label: Vec<String>,
    pub topic_help: Option<String>,
    /// Other keys in order, with their values joined by `, `.
    pub misc: Vec<(String, String)>,
    pub line: u32,
}

pub struct SpecTable {
    pub id: Seq<char>,
    pub map_id: Seq<char>,
    pub title: Seq<char>,
    pub page: Seq<char>,
    pub x_bins: (Seq<char>, Option<Seq<char>>),
    pub y_bins: (Seq<char>, Option<Seq<char>>),
    pub z_bins: Seq<char>,
    pub xy_labels: Seq<Seq<char>>,
    pub grid_height: Option<Seq<char>>,
    pub grid_orient: Seq<Seq<char>>,
    pub up_down_label: Seq<Seq<char>>,
    pub topic_help: Option<Seq<char>>,
    pub misc: Seq<(Seq<char>, Seq<char>)>,
    pub line: u32,
}

impl View for TableDef {
    type V = SpecTable;

    open spec fn view(&self) -> SpecTable {
        SpecTable {
            id: self.id@,
            map_id: self.map_id@,
            title: self.title@,
            page: self.page@,
            x_bins: (self.x_bins.0@, opt_text(self.x_bins.1)),
            y_bins: (self.y_bins.0@, opt_text(self.y_bins.1)),
            z_bins: self.z_bins@,
            xy_labels: string_views(self.xy_labels@),
            grid_height: opt_text(self.grid_height),
            grid_orient: string_views(self.grid_orient@),
            up_down_label: string_views(self.up_down_label@),
            topic_help: opt_text(self.topic_help),
            misc: keyed_view(self.misc@),
            line: self.line,
        }
    }
}

pub open spec fn opt_table(o: Option<TableDef>) -> Option<SpecTable> {
    match o {
        Some(t) => Some(t@),
        None => None,
    }
}

pub struct TableState {
    pub tables: Seq<(Seq<char>, SpecTable)>,
    pub current: Option<SpecTable>,
}

/// The table being read is filed under its id when the next begins, and at
/// the end.
pub open spec fn finish_table(tables: Seq<(Seq<char>, SpecTable)>, cur: Option<SpecTable>) -> Seq<(Seq<char>, SpecTable)> {
    match cur {
        Some(t) => keyed_insert(tables, t.id, t),
        None => tables,
    }
}

/// One `[TableEditor]` line.
pub open spec fn table_line(st: TableState, num: u32, text: Seq<char>) -> Step<TableState> {
    match spec_kv(text) {
        None => Step::Next(st, 1),
        Some((key, ts)) => if key == "table"@ {
            if ts.len() > 3 {
                match number_text(ts[3]) {
                    Some(p) => Step::Next(
                        TableState {
                            tables: finish_table(st.tables, st.current),
                            current: Some(
                                SpecTable {
                                    id: token_text(ts[0]),
                                    map_id: token_text(ts[1]),
                                    title: token_text(ts[2]),
                                    page: p,
                                    x_bins: (seq![], None),
                                    y_bins: (seq![], None),
                                    z_bins: seq![],
                                    xy_labels: seq![],
                                    grid_height: None,
                                    grid_orient: seq![],
                                    up_down_label: seq![],
                                    topic_help: None,
                                    misc: seq![],
                                    line: num,
                                },
                            ),
                        },
                        0,
                    ),
                    None => Step::Fail,
                }
            } else {
                Step::Fail
            }
        } else {
            match st.current {
                None => Step::Next(st, 1),
                Some(t) => {
                    let with = |t2: SpecTable| Step::Next(TableState { current: Some(t2), ..st }, 0);
                    if key == "xBins"@ || key == "yBins"@ {
                        if ts.len() > 0 {
                            let pair = (token_text(ts[0]), second_text(ts));
                            if key == "xBins"@ {
                                with(SpecTable { x_bins: pair, ..t })
                            } else {
                                with(SpecTable { y_bins: pair, ..t })
                            }
                        } else {
                            Step::Fail
                        }
                    } else if key == "zBins"@ {
                        if ts.len() > 0 {
                            with(SpecTable { z_bins: token_text(ts[0]), ..t })
                        } else {
                            Step::Fail
                        }
                    } else if key == "xyLabels"@ {
                        with(SpecTable { xy_labels: texts(ts), ..t })
                    } else if key == "gridHeight"@ {
                        if ts.len() == 0 {
                            Step::Unhandled
                        } else {
                            match number_text(ts[0]) {
                                Some(h) => with(SpecTable { grid_height: Some(h), ..t }),
                                None => Step::Fail,
                            }
                        }
                    } else if key == "gridOrient"@ {
                        match all_numbers(ts) {
                            Some(v) => with(SpecTable { grid_orient: v, ..t }),
                            None => Step::Fail,
                        }
                    } else if key == "upDownLabel"@ {
                        with(SpecTable { up_down_label: texts(ts), ..t })
                    } else if key == "topicHelp"@ {
                        if ts.len() > 0 {
                            with(SpecTable { topic_help: Some(token_text(ts[0])), ..t })
                        } else {
                            Step::Fail
                        }
                    } else {
                        with(SpecTable { misc: t.misc.push((key, spec_join_values(texts(ts)))), ..t })
                    }
                },
            }
        },
    }
}

pub open spec fn spec_table_editor(tables: Seq<(Seq<char>, SpecTable)>, lines: Seq<(u32, Seq<char>)>) -> Run<TableState> {
    run(
        TableState { tables, current: None },
        lines,
        |st: TableState, num: u32, text: Seq<char>| table_line(st, num, text),
    )
}

/// Parse a `[TableEditor]` section into `tables`, each filed under its id.
pub fn table_editor(lines: &Vec<Line>, tables: &mut Vec<(String, TableDef)>, warnings: &mut Vec<String>) -> (r: Result<(), Error>)
    requires
        !(spec_table_editor(keyed_view(old(tables)@), lines_view(lines@)) is Unhandled),
    ensures
        final(warnings)@.len() >= old(warnings)@.len(),
        match spec_table_editor(keyed_view(old(tables)@), lines_view(lines@)) {
            Run::Done(st, w) => r is Ok && keyed_view(final(tables)@) == finish_table(st.tables, st.current)
                && final(warnings)@.len() == old(warnings)@.len() + w,
            Run::Failed(n) => r matches Err(Error::Parse(m, _)) && m == n,
            Run::Unhandled => false,
        },
{
    let ghost f = |st: TableState, num: u32, text: Seq<char>| table_line(st, num, text);
    let ghost lv = lines_view(lines@);
    let ghost total = spec_table_editor(keyed_view(old(tables)@), lv);
    let ghost mut done: nat = 0;
    let mut current: Option<TableDef> = None;
    assert(lv.skip(0) =~= lv);
    let mut i: usize = 0;
    while i < lines.len()
        invariant
            i <= lines@.len(),
            lv == lines_view(lines@),
            lv.len() == lines@.len(),
            f == (|st: TableState, num: u32, text: Seq<char>| table_line(st, num, text)),
            total == spec_table_editor(keyed_view(old(tables)@), lv),
            !(total is Unhandled),
            warnings@.len() == old(warnings)@.len() + done,
            total == match run(TableState { tables: keyed_view(tables@), current: opt_table(current) }, lv.skip(i as int), f) {
                Run::Done(st, w) => Run::Done(st, done + w),
                other => other,
            },
        decreases lines@.len() - i,
    {
        let line = &lines[i];
        let ghost st = TableState { tables: keyed_view(tables@), current: opt_table(current) };
        let ghost wl = warnings@.len();
        assert(lv.skip(i as int)[0] == (line.num, line.text@));
        assert(lv.skip(i as int).drop_first() =~= lv.skip(i + 1));
        let ghost step = table_line(st, line.num, line.text@);
        match kv(line, warnings) {
            None => {},
            Some((key, tokens)) => {
                let ghost tv = tokens_view(tokens@);
                if key_is(&key, "table") {
                    match current.take() {
                        Some(t) => {
                            let id = t.id.clone();
                            insert_keyed(tables, id, t);
                        },
                        None => {},
                    }
                    let id = match str_tok(&tokens, 0, line.num) {
                        Ok(t) => t,
                        Err(e) => {
                            return Err(e);
                        },
                    };
                    let map_id = match str_tok(&tokens, 1, line.num) {
                        Ok(t) => t,
                        Err(e) => {
                            return Err(e);
                        },
                    };
                    let title = match str_tok(&tokens, 2, line.num) {
                        Ok(t) => t,
                        Err(e) => {
                            return Err(e);
                        },
                    };
                    if tokens.len() <= 3 {
                        return Err(Error::at(line.num, String::from_str("table without page")));
                    }
                    assert(tv[3] == token_view(tokens@[3]));
                    let page = match tokens[3].number(line.num) {
                        Ok(p) => p,
                        Err(e) => {
                            return Err(e);
                        },
                    };
                    let t = TableDef {
                        id,
                        map_id,
                        title,
                        page,
                        x_bins: (String::new(), None),
                        y_bins: (String::new(), None),
                        z_bins: String::new(),
                        xy_labels: Vec::new(),
                        grid_height: None,
                        grid_orient: Vec::new(),
                        up_down_label: Vec::new(),
                        topic_help: None,
                        misc: Vec::new(),
                        line: line.num,
                    };
                    proof {
                        assert(t@.xy_labels =~= seq![]);
                        assert(t@.grid_orient =~= seq![]);
                        assert(t@.up_down_label =~= seq![]);
                        assert(t@.misc =~= seq![]);
                    }
                    current = Some(t);
                } else {
                    match current.take() {
                        None => {
                            let mut w = String::from_str("[TableEditor] key `");
                            w.append(key.as_str());
                            w.append("` outside a table");
                            warn(warnings, line.num, &w);
                        },
                        Some(mut t) => {
                            let ghost t0 = t@;
                            if key_is(&key, "xBins") || key_is(&key, "yBins") {
                                let b = match str_tok(&tokens, 0, line.num) {
                                    Ok(x) => x,
                                    Err(e) => {
                                        return Err(e);
                                    },
                                };
                                let live = if tokens.len() > 1 {
                                    Some(String::from_str(tokens[1].as_str()))
                                } else {
                                    None
                                };
                                if key_is(&key, "xBins") {
                                    t.x_bins = (b, live);
                                } else {
                                    t.y_bins = (b, live);
                                }
                            } else if key_is(&key, "zBins") {
                                match str_tok(&tokens, 0, line.num) {
                                    Ok(x) => {
                                        t.z_bins = x;
                                    },
                                    Err(e) => {
                                        return Err(e);
                                    },
                                }
                            } else if key_is(&key, "xyLabels") {
                                t.xy_labels = texts_from(&tokens, 0);
                                assert(tv.skip(0) =~= tv);
                            } else if key_is(&key, "gridHeight") {
                                assert(tv[0] == token_view(tokens@[0]));
                                match tokens[0].number(line.num) {
                                    Ok(h) => {
                                        t.grid_height = Some(h);
                                    },
                                    Err(e) => {
                                        return Err(e);
                                    },
                                }
                            } else if key_is(&key, "gridOrient") {
                                match numbers(&tokens, line.num) {
                                    Ok(v) => {
                                        t.grid_orient = v;
                                    },
                                    Err(e) => {
                                        return Err(e);
                                    },
                                }
                            } else if key_is(&key, "upDownLabel") {
                                t.up_down_label = texts_from(&tokens, 0);
                                assert(tv.skip(0) =~= tv);
                            } else if key_is(&key, "topicHelp") {
                                match str_tok(&tokens, 0, line.num) {
                                    Ok(x) => {
                                        t.topic_help = Some(x);
                                    },
                                    Err(e) => {
                                        return Err(e);
                                    },
                                }
                            } else {
                                let parts = texts_from(&tokens, 0);
                                assert(tv.skip(0) =~= tv);
                                let joined = join_values(&parts);
                                t.misc.push((key, joined));
                                assert(t@.misc =~= t0.misc.push((key@, spec_join_values(texts(tv)))));
                            }
                            current = Some(t);
                        },
                    }
                }
            },
        }
        proof {
            let ws = (warnings@.len() - wl) as nat;
            assert(step == Step::Next(TableState { tables: keyed_view(tables@), current: opt_table(current) }, ws));
            done = done + ws;
        }
        i = i + 1;
    }
    assert(lv.skip(lines@.len() as int) =~= Seq::<(u32, Seq<char>)>::empty());
    match current {
        Some(t) => {
            let id = t.id.clone();
            insert_keyed(tables, id, t);
        },
        None => {},
    }
    Ok(())
}

// ----- [GaugeConfigurations] ------------------------------------------------

/// One gauge.
#[derive(Debug)]
pub struct GaugeDef {
    pub name: String,
    pub channel: String,
    pub title: String,
    pub units: String,
    pub lo: NumOrExpr,
    pub hi: NumOrExpr,
    pub lo_danger: NumOrExpr,
    pub lo_warn: NumOrExpr,
    pub hi_warn: NumOrExpr,
    pub hi_danger: NumOrExpr,
    /// Digits of the value and of the scale labels, where given (else 0).
    pub value_digits: Option<String>,
    pub label_digits: Option<String>,
    pub category: String,
}

pub struct SpecGauge {
    pub name: Seq<char>,
    pub channel: Seq<char>,
    pub title: Seq<char>,
    pub units: Seq<char>,
    pub lo: SpecNum,
    pub hi: SpecNum,
    pub lo_danger: SpecNum,
    pub lo_warn: SpecNum,
    pub hi_warn: SpecNum,
    pub hi_danger: SpecNum,
    pub value_digits: Option<Seq<char>>,
    pub label_digits: Option<Seq<char>>,
    pub category: Seq<char>,
}

impl View for GaugeDef {
    type V = SpecGauge;

    open spec fn view(&self) -> SpecGauge {
        SpecGauge {
            name: self.name@,
            channel: self.channel@,
            title: self.title@,
            units: self.units@,
            lo: self.lo@,
            hi: self.hi@,
            lo_danger: self.lo_danger@,
            lo_warn: self.lo_warn@,
            hi_warn: self.hi_warn@,
            hi_danger: self.hi_danger@,
            value_digits: opt_text(self.value_digits),
            label_digits: opt_text(self.label_digits),
            category: self.category@,
        }
    }
}

pub struct GaugeState {
    pub category: Seq<char>,
    pub gauges: Seq<(Seq<char>, SpecGauge)>,
}

/// An optional number value: `Some(None)` where there is no value `i`,
/// `None` where it is not a number.
pub open spec fn optional_number(ts: Seq<SpecToken>, i: int) -> Option<Option<Seq<char>>> {
    if ts.len() > i {
        match number_text(ts[i]) {
            Some(t) => Some(Some(t)),
            None => None,
        }
    } else {
        Some(None)
    }
}

/// One `[GaugeConfigurations]` line: `gaugeCategory` names the category of
/// the gauges after it; `name = channel, title, units, lo, hi, loD, loW,
/// hiW, hiD[, valueDigits, labelDigits]` files a gauge.
pub open spec fn gauge_line(st: GaugeState, text: Seq<char>) -> Step<GaugeState> {
    match spec_kv(text) {
        None => Step::Next(st, 1),
        Some((key, ts)) => if key == "gaugeCategory"@ {
            if ts.len() > 0 {
                Step::Next(GaugeState { category: token_text(ts[0]), ..st }, 0)
            } else {
                Step::Fail
            }
        } else if ts.len() < 9 {
            Step::Next(st, 1)
        } else {
            match (
                spec_num_or_expr(ts[3]),
                spec_num_or_expr(ts[4]),
                spec_num_or_expr(ts[5]),
                spec_num_or_expr(ts[6]),
                spec_num_or_expr(ts[7]),
                spec_num_or_expr(ts[8]),
                optional_number(ts, 9),
                optional_number(ts, 10),
            ) {
                (Some(lo), Some(hi), Some(lod), Some(low), Some(hiw), Some(hid), Some(vd), Some(ld)) => Step::Next(
                    GaugeState {
                        gauges: keyed_insert(
                            st.gauges,
                            key,
                            SpecGauge {
                                name: key,
                                channel: token_text(ts[0]),
                                title: token_text(ts[1]),
                                units: token_text(ts[2]),
                                lo,
                                hi,
                                lo_danger: lod,
                                lo_warn: low,
                                hi_warn: hiw,
                                hi_danger: hid,
                                value_digits: vd,
                                label_digits: ld,
                                category: st.category,
                            },
                        ),
                        ..st
                    },
                    0,
                ),
                _ => Step::Fail,
            }
        },
    }
}

pub open spec fn spec_gauge_configurations(gauges: Seq<(Seq<char>, SpecGauge)>, lines: Seq<(u32, Seq<char>)>) -> Run<GaugeState> {
    run(GaugeState { category: seq![], gauges }, lines, |st: GaugeState, num: u32, text: Seq<char>| gauge_line(st, text))
}

fn num_at(tokens: &Vec<Token>, i: usize, line: u32) -> (r: Result<NumOrExpr, Error>)
    requires
        i < tokens@.len(),
    ensures
        match spec_num_or_expr(tokens_view(tokens@)[i as int]) {
            Some(n) => r matches Ok(x) && x@ == n,
            None => r matches Err(Error::Parse(k, _)) && k == line,
        },
{
    assert(tokens_view(tokens@)[i as int] == token_view(tokens@[i as int]));
    num_or_expr(tokens, i, line)
}

fn optional_number_at(tokens: &Vec<Token>, i: usize, line: u32) -> (r: Result<Option<String>, Error>)
    ensures
        match optional_number(tokens_view(tokens@), i as int) {
            Some(o) => r matches Ok(x) && opt_text(x) == o,
            None => r matches Err(Error::Parse(k, _)) && k == line,
        },
{
    if i < tokens.len() {
        assert(tokens_view(tokens@)[i as int] == token_view(tokens@[i as int]));
        match tokens[i].number(line) {
            Ok(t) => Ok(Some(t)),
            Err(e) => Err(e),
        }
    } else {
        Ok(None)
    }
}

/// Parse a `[GaugeConfigurations]` section into `gauges`, each under its
/// name.
pub fn gauge_configurations(lines: &Vec<Line>, gauges: &mut Vec<(String, GaugeDef)>, warnings: &mut Vec<String>) -> (r: Result<(), Error>)
    ensures
        final(warnings)@.len() >= old(warnings)@.len(),
        match spec_gauge_configurations(keyed_view(old(gauges)@), lines_view(lines@)) {
            Run::Done(st, w) => r is Ok && keyed_view(final(gauges)@) == st.gauges
                && final(warnings)@.len() == old(warnings)@.len() + w,
            Run::Failed(n) => r matches Err(Error::Parse(m, _)) && m == n,
            Run::Unhandled => false,
        },
{
    let ghost f = |st: GaugeState, num: u32, text: Seq<char>| gauge_line(st, text);
    let ghost lv = lines_view(lines@);
    let ghost total = spec_gauge_configurations(keyed_view(old(gauges)@), lv);
    let ghost mut done: nat = 0;
    let mut category = String::new();
    assert(lv.skip(0) =~= lv);
    let mut i: usize = 0;
    while i < lines.len()
        invariant
            i <= lines@.len(),
            lv == lines_view(lines@),
            lv.len() == lines@.len(),
            f == (|st: GaugeState, num: u32, text: Seq<char>| gauge_line(st, text)),
            total == spec_gauge_configurations(keyed_view(old(gauges)@), lv),
            warnings@.len() == old(warnings)@.len() + done,
            total == match run(GaugeState { category: category@, gauges: keyed_view(gauges@) }, lv.skip(i as int), f) {
                Run::Done(st, w) => Run::Done(st, done + w),
                other => other,
            },
        decreases lines@.len() - i,
    {
        let line = &lines[i];
        let ghost st = GaugeState { category: category@, gauges: keyed_view(gauges@) };
        let ghost wl = warnings@.len();
        assert(lv.skip(i as int)[0] == (line.num, line.text@));
        assert(lv.skip(i as int).drop_first() =~= lv.skip(i + 1));
        let ghost step = gauge_line(st, line.text@);
        match kv(line, warnings) {
            None => {},
            Some((key, tokens)) => {
                let ghost tv = tokens_view(tokens@);
                if key_is(&key, "gaugeCategory") {
                    match str_tok(&tokens, 0, line.num) {
                        Ok(c) => {
                            category = c;
                        },
                        Err(e) => {
                            return Err(e);
                        },
                    }
                } else if tokens.len() < 9 {
                    let mut w = String::from_str("gauge `");
                    w.append(key.as_str());
                    w.append("` has too few fields");
                    warn(warnings, line.num, &w);
                } else {
                    assert(tv[0] == token_view(tokens@[0]));
                    assert(tv[1] == token_view(tokens@[1]));
                    assert(tv[2] == token_view(tokens@[2]));
                    let channel = String::from_str(tokens[0].as_str());
                    let title = String::from_str(tokens[1].as_str());
                    let units = String::from_str(tokens[2].as_str());
                    let lo = match num_at(&tokens, 3, line.num) {
                        Ok(x) => x,
                        Err(e) => {
                            return Err(e);
                        },
                    };
                    let hi = match num_at(&tokens, 4, line.num) {
                        Ok(x) => x,
                        Err(e) => {
                            return Err(e);
                        },
                    };
                    let lo_danger = match num_at(&tokens, 5, line.num) {
                        Ok(x) => x,
                        Err(e) => {
                            return Err(e);
                        },
                    };
                    let lo_warn = match num_at(&tokens, 6, line.num) {
                        Ok(x) => x,
                        Err(e) => {
                            return Err(e);
                        },
                    };
                    let hi_warn = match num_at(&tokens, 7, line.num) {
                        Ok(x) => x,
                        Err(e) => {
                            return Err(e);
                        },
                    };
                    let hi_danger = match num_at(&tokens, 8, line.num) {
                        Ok(x) => x,
                        Err(e) => {
                            return Err(e);
                        },
                    };
                    let value_digits = match optional_number_at(&tokens, 9, line.num) {
                        Ok(x) => x,
                        Err(e) => {
                            return Err(e);
                        },
                    };
                    let label_digits = match optional_number_at(&tokens, 10, line.num) {
                        Ok(x) => x,
                        Err(e) => {
                            return Err(e);
                        },
                    };
                    let g = GaugeDef {
                        name: key.clone(),
                        channel,
                        title,
                        units,
                        lo,
                        hi,
                        lo_danger,
                        lo_warn,
                        hi_warn,
                        hi_danger,
                        value_digits,
                        label_digits,
                        category: category.clone(),
                    };
                    insert_keyed(gauges, key, g);
                }
            },
        }
        proof {
            let ws = (warnings@.len() - wl) as nat;
            assert(step == Step::Next(GaugeState { category: category@, gauges: keyed_view(gauges@) }, ws));
            done = done + ws;
        }
        i = i + 1;
    }
    assert(lv.skip(lines@.len() as int) =~= Seq::<(u32, Seq<char>)>::empty());
    Ok(())
}

// ----- names stay distinct ---------------------------------------------------

/// A `[TableEditor]` section files no table id twice.
pub proof fn lemma_tables_keep_names(tables: Seq<(Seq<char>, SpecTable)>, lines: Seq<(u32, Seq<char>)>)
    requires
        keys_distinct(tables),
    ensures
        spec_table_editor(tables, lines) matches Run::Done(st, _) ==> keys_distinct(finish_table(st.tables, st.current)),
{
    let f = |st: TableState, num: u32, text: Seq<char>| table_line(st, num, text);
    let inv = |st: TableState| keys_distinct(st.tables);
    assert forall|a: TableState, n: u32, t: Seq<char>| inv(a) implies (#[trigger] f(a, n, t) matches Step::Next(b, _) ==> inv(b)) by {
        match a.current {
            Some(c) => lemma_keyed_insert(a.tables, c.id, c),
            None => {},
        }
    }
    lemma_run_keeps(TableState { tables, current: None }, lines, f, inv);
    match spec_table_editor(tables, lines) {
        Run::Done(st, _) => match st.current {
            Some(c) => lemma_keyed_insert(st.tables, c.id, c),
            None => {},
        },
        _ => {},
    }
}

/// A `[GaugeConfigurations]` section names no gauge twice.
pub proof fn lemma_gauges_keep_names(gauges: Seq<(Seq<char>, SpecGauge)>, lines: Seq<(u32, Seq<char>)>)
    requires
        keys_distinct(gauges),
    ensures
        spec_gauge_configurations(gauges, lines) matches Run::Done(st, _) ==> keys_distinct(st.gauges),
{
    let f = |st: GaugeState, num: u32, text: Seq<char>| gauge_line(st, text);
    let inv = |st: GaugeState| keys_distinct(st.gauges);
    assert forall|a: GaugeState, n: u32, t: Seq<char>| inv(a) implies (#[trigger] f(a, n, t) matches Step::Next(b, _) ==> inv(b)) by {
        match spec_kv(t) {
            Some((key, ts)) => if ts.len() >= 9 {
                match (
                    spec_num_or_expr(ts[3]),
                    spec_num_or_expr(ts[4]),
                    spec_num_or_expr(ts[5]),
                    spec_num_or_expr(ts[6]),
                    spec_num_or_expr(ts[7]),
                    spec_num_or_expr(ts[8]),
                    optional_number(ts, 9),
                    optional_number(ts, 10),
                ) {
                    (Some(lo), Some(hi), Some(lod), Some(low), Some(hiw), Some(hid), Some(vd), Some(ld)) => {
                        lemma_keyed_insert(
                            a.gauges,
                            key,
                            SpecGauge {
                                name: key,
                                channel: token_text(ts[0]),
                                title: token_text(ts[1]),
                                units: token_text(ts[2]),
                                lo,
                                hi,
                                lo_danger: lod,
                                lo_warn: low,
                                hi_warn: hiw,
                                hi_danger: hid,
                                value_digits: vd,
                                label_digits: ld,
                                category: a.category,
                            },
                        );
                    },
                    _ => {},
                }
            },
            None => {},
        }
    }
    lemma_run_keeps(GaugeState { category: seq![], gauges }, lines, f, inv);
}

} // verus!
