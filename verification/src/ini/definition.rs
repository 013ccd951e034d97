//! The whole ECU definition: preprocess the text, group its lines by
//! section, and read each known section with its parser. Other sections
//! are left alone here.

use vstd::prelude::*;
use super::Error;
use super::constants::{
    const_line, och_line, pc_line, run, ConstState, Step,
    lemma_constants_keep_names, lemma_outputs_keep_names, lemma_pc_variables_keep_names, constants, output_channels, pc_variables, spec_constants, spec_output_channels, spec_pc_variables, ConstantDef,
    ConstantsHeader, OutputChannels, Run, SpecConstantDef, SpecHeader, SpecOutputs, spec_empty_header,
};
use super::curves::{curve_editor, finish_curve, lemma_curves_keep_names, spec_curve_editor, CurveDef, SpecCurve};
use super::model::SettingGroup;
use super::preprocess::{preprocess, spec_preprocess, symbol_set, Line};
use super::sections::{
    kv, spec_kv,
    constants_extensions, group_sections, groups_view, megatune, sections_view, setting_groups,
    spec_constants_extensions, spec_group_sections, spec_megatune, spec_setting_groups, ConstantsExtensions, MegaTune,
    SpecExtensions, SpecMegaTune,
};
use super::tables::{
    gauge_line, table_line, GaugeState, TableState,
    lemma_gauges_keep_names, lemma_tables_keep_names, finish_table, gauge_configurations, spec_gauge_configurations, spec_table_editor, table_editor, GaugeDef,
    SpecGauge, SpecTable, TableDef,
};
use super::ui::{
    ud_line, UdStep,
    dialogs_view, lemma_dialogs_keep_names, menu, menus_view, spec_menu, spec_user_defined, user_defined, DialogDef,
    MenuDef, SpecDialog, SpecMenu, UdRun,
    keys_distinct, datalog, front_page, indicators_view, keyed_view, log_entries_view, place_names, sort_by_pos, spec_datalog,
    spec_front_page, DatalogEntry, FrontPage, SpecIndicator, SpecLogEntry,
};
use crate::text::{chars_are, chars_of, string_views};

verus! {

broadcast use vstd::string::group_string_axioms;

/// A parsed ECU definition.
#[derive(Debug)]
pub struct IniDef {
    pub megatune: MegaTune,
    pub setting_groups: Vec<SettingGroup>,
    pub pc_variables: Vec<(String, ConstantDef)>,
    pub header: ConstantsHeader,
    /// All page constants in file order (each knows its page and offset).
    pub constants: Vec<(String, ConstantDef)>,
    pub extensions: ConstantsExtensions,
    pub outputs: OutputChannels,
    pub tables: Vec<(String, TableDef)>,
    pub curves: Vec<(String, CurveDef)>,
    pub gauges: Vec<(String, GaugeDef)>,
    pub front_page: FrontPage,
    pub datalog: Vec<DatalogEntry>,
    /// The `[Menu]` menus, in order.
    pub menus: Vec<MenuDef>,
    /// The `[UserDefined]` dialogs, by name in order of first definition.
    pub dialogs: Vec<(String, DialogDef)>,
    /// Non-fatal oddities met while parsing.
    pub warnings: Vec<String>,
}

pub struct SpecIniDef {
    pub megatune: SpecMegaTune,
    pub setting_groups: Seq<(Seq<char>, Seq<char>, Seq<(Seq<char>, Seq<char>)>)>,
    pub pc_variables: Seq<(Seq<char>, SpecConstantDef)>,
    pub header: SpecHeader,
    pub constants: Seq<(Seq<char>, SpecConstantDef)>,
    pub extensions: SpecExtensions,
    pub outputs: SpecOutputs,
    pub tables: Seq<(Seq<char>, SpecTable)>,
    pub curves: Seq<(Seq<char>, SpecCurve)>,
    pub gauges: Seq<(Seq<char>, SpecGauge)>,
    /// The front page's gauge names in position order, and its lamps.
    pub front_gauges: Seq<Seq<char>>,
    pub indicators: Seq<SpecIndicator>,
    pub datalog: Seq<SpecLogEntry>,
    pub menus: Seq<SpecMenu>,
    pub dialogs: Seq<(Seq<char>, SpecDialog)>,
    /// How many warnings there are.
    pub warnings: nat,
}

impl View for IniDef {
    type V = SpecIniDef;

    open spec fn view(&self) -> SpecIniDef {
        SpecIniDef {
            megatune: self.megatune@,
            setting_groups: groups_view(self.setting_groups@),
            pc_variables: keyed_view(self.pc_variables@),
            header: self.header@,
            constants: keyed_view(self.constants@),
            extensions: self.extensions@,
            outputs: self.outputs@,
            tables: keyed_view(self.tables@),
            curves: keyed_view(self.curves@),
            gauges: keyed_view(self.gauges@),
            front_gauges: string_views(self.front_page.gauges@),
            indicators: indicators_view(self.front_page.indicators@),
            datalog: log_entries_view(self.datalog@),
            menus: menus_view(self.menus@),
            dialogs: dialogs_view(self.dialogs@),
            warnings: self.warnings@.len(),
        }
    }
}

/// What reading one section does to the definition.
pub enum IniStep {
    Next(SpecIniDef),
    /// The number of the line in error.
    Failed(int),
    /// A line the format's reader indexes without looking.
    Unhandled,
}

/// Read section `name`'s lines into `d`.
#[verifier::opaque]
pub open spec fn ini_section(d: SpecIniDef, name: Seq<char>, lines: Seq<(u32, Seq<char>)>) -> IniStep {
    if name == "MegaTune"@ {
        match spec_megatune(d.megatune, lines) {
            Ok((m, w)) => IniStep::Next(SpecIniDef { megatune: m, warnings: d.warnings + w, ..d }),
            Err(n) => IniStep::Failed(n as int),
        }
    } else if name == "SettingGroups"@ {
        match spec_setting_groups(d.setting_groups, lines) {
            Ok((g, w)) => IniStep::Next(SpecIniDef { setting_groups: g, warnings: d.warnings + w, ..d }),
            Err(n) => IniStep::Failed(n as int),
        }
    } else if name == "PcVariables"@ {
        match spec_pc_variables(d.pc_variables, lines) {
            Run::Done(p, w) => IniStep::Next(SpecIniDef { pc_variables: p, warnings: d.warnings + w, ..d }),
            Run::Failed(n) => IniStep::Failed(n as int),
            Run::Unhandled => IniStep::Unhandled,
        }
    } else if name == "Constants"@ {
        match spec_constants(d.header, d.constants, lines) {
            Run::Done(st, w) => IniStep::Next(
                SpecIniDef { header: st.header, constants: st.consts, warnings: d.warnings + w, ..d },
            ),
            Run::Failed(n) => IniStep::Failed(n as int),
            Run::Unhandled => IniStep::Unhandled,
        }
    } else if name == "ConstantsExtensions"@ {
        match spec_constants_extensions(d.extensions, lines) {
            Ok((x, w)) => IniStep::Next(SpecIniDef { extensions: x, warnings: d.warnings + w, ..d }),
            Err(n) => IniStep::Failed(n as int),
        }
    } else if name == "OutputChannels"@ {
        match spec_output_channels(d.outputs, lines) {
            Run::Done(o, w) => IniStep::Next(SpecIniDef { outputs: o, warnings: d.warnings + w, ..d }),
            Run::Failed(n) => IniStep::Failed(n as int),
            Run::Unhandled => IniStep::Unhandled,
        }
    } else if name == "TableEditor"@ {
        match spec_table_editor(d.tables, lines) {
            Run::Done(st, w) => IniStep::Next(
                SpecIniDef { tables: finish_table(st.tables, st.current), warnings: d.warnings + w, ..d },
            ),
            Run::Failed(n) => IniStep::Failed(n as int),
            Run::Unhandled => IniStep::Unhandled,
        }
    } else if name == "CurveEditor"@ {
        match spec_curve_editor(d.curves, None, lines) {
            Ok((cs, cur, w)) => IniStep::Next(SpecIniDef { curves: finish_curve(cs, cur), warnings: d.warnings + w, ..d }),
            Err(n) => IniStep::Failed(n as int),
        }
    } else if name == "GaugeConfigurations"@ {
        match spec_gauge_configurations(d.gauges, lines) {
            Run::Done(st, w) => IniStep::Next(SpecIniDef { gauges: st.gauges, warnings: d.warnings + w, ..d }),
            Run::Failed(n) => IniStep::Failed(n as int),
            Run::Unhandled => IniStep::Unhandled,
        }
    } else if name == "FrontPage"@ {
        match spec_front_page(seq![], d.indicators, lines) {
            Ok((gs, inds, w)) => IniStep::Next(
                SpecIniDef {
                    front_gauges: place_names(sort_by_pos(gs)),
                    indicators: inds,
                    warnings: d.warnings + w,
                    ..d
                },
            ),
            Err(n) => IniStep::Failed(n as int),
        }
    } else if name == "Datalog"@ {
        match spec_datalog(d.datalog, lines) {
            Ok((es, w)) => IniStep::Next(SpecIniDef { datalog: es, warnings: d.warnings + w, ..d }),
            Err(n) => IniStep::Failed(n as int),
        }
    } else if name == "Menu"@ {
        match spec_menu(d.menus, lines) {
            Ok((ms, w)) => IniStep::Next(SpecIniDef { menus: ms, warnings: d.warnings + w, ..d }),
            Err(n) => IniStep::Failed(n as int),
        }
    } else if name == "UserDefined"@ {
        match spec_user_defined(d.dialogs, lines) {
            UdRun::Done(ds, w) => IniStep::Next(SpecIniDef { dialogs: ds, warnings: d.warnings + w, ..d }),
            UdRun::Failed(n) => IniStep::Failed(n as int),
            UdRun::Unhandled => IniStep::Unhandled,
        }
    } else {
        IniStep::Next(d)
    }
}

/// The sections in order, stopping at the first error.
pub open spec fn spec_sections(d: SpecIniDef, groups: Seq<(Seq<char>, Seq<(u32, Seq<char>)>)>) -> IniStep
    decreases groups.len(),
{
    if groups.len() == 0 {
        IniStep::Next(d)
    } else {
        match ini_section(d, groups[0].0, groups[0].1) {
            IniStep::Next(d2) => spec_sections(d2, groups.drop_first()),
            other => other,
        }
    }
}

pub open spec fn spec_empty_def() -> SpecIniDef {
    SpecIniDef {
        megatune: SpecMegaTune { mt_version: None, query_command: seq![], signature: seq![], version_info: seq![] },
        setting_groups: seq![],
        pc_variables: seq![],
        header: spec_empty_header(),
        constants: seq![],
        extensions: SpecExtensions { requires_power_cycle: seq![], default_values: seq![], controller_priority: seq![] },
        outputs: SpecOutputs { och_get_command: seq![], och_block_size: None, channels: seq![] },
        tables: seq![],
        curves: seq![],
        gauges: seq![],
        front_gauges: seq![],
        indicators: seq![],
        datalog: seq![],
        menus: seq![],
        dialogs: seq![],
        warnings: 0,
    }
}

/// The definition `src` gives with the preprocessor symbols `symbols` set.
pub open spec fn spec_parse_ini(src: Seq<char>, symbols: Set<Seq<char>>) -> IniStep {
    let pp = spec_preprocess(src, symbols);
    match pp.1 {
        Some(n) => IniStep::Failed(n as int),
        None => spec_sections(spec_empty_def(), spec_group_sections(pp.0.out)),
    }
}

/// Every named collection of the definition names each entry once.
pub open spec fn names_distinct(d: SpecIniDef) -> bool {
    &&& keys_distinct(d.pc_variables)
    &&& keys_distinct(d.constants)
    &&& keys_distinct(d.header.misc)
    &&& keys_distinct(d.outputs.channels)
    &&& keys_distinct(d.tables)
    &&& keys_distinct(d.curves)
    &&& keys_distinct(d.gauges)
    &&& keys_distinct(d.dialogs)
}

proof fn lemma_section_keeps_names(d: SpecIniDef, name: Seq<char>, lines: Seq<(u32, Seq<char>)>)
    requires
        names_distinct(d),
    ensures
        ini_section(d, name, lines) matches IniStep::Next(e) ==> names_distinct(e),
{
    reveal(ini_section);
    lemma_pc_variables_keep_names(d.pc_variables, lines);
    lemma_constants_keep_names(d.header, d.constants, lines);
    lemma_outputs_keep_names(d.outputs, lines);
    lemma_tables_keep_names(d.tables, lines);
    lemma_curves_keep_names(d.curves, None, lines);
    lemma_gauges_keep_names(d.gauges, lines);
    lemma_dialogs_keep_names(d.dialogs, lines);
}

proof fn lemma_sections_keep_names(d: SpecIniDef, groups: Seq<(Seq<char>, Seq<(u32, Seq<char>)>)>)
    requires
        names_distinct(d),
    ensures
        spec_sections(d, groups) matches IniStep::Next(e) ==> names_distinct(e),
    decreases groups.len(),
{
    if groups.len() > 0 {
        lemma_section_keeps_names(d, groups[0].0, groups[0].1);
        match ini_section(d, groups[0].0, groups[0].1) {
            IniStep::Next(d2) => lemma_sections_keep_names(d2, groups.drop_first()),
            _ => {},
        }
    }
}

/// A parsed definition names no constant, PcVariable, header key, output
/// channel, table, curve, gauge or dialog twice: a name defined again replaces the
/// earlier definition in its place.
pub proof fn lemma_parsed_names_distinct(src: Seq<char>, symbols: Set<Seq<char>>)
    ensures
        spec_parse_ini(src, symbols) matches IniStep::Next(d) ==> names_distinct(d),
{
    let pp = spec_preprocess(src, symbols);
    if pp.1 is None {
        lemma_sections_keep_names(spec_empty_def(), spec_group_sections(pp.0.out));
    }
}

// ----- the inputs the reader leaves out ----------------------------------------

/// Keys whose first value the format's reader takes without looking
/// whether there is one.
pub open spec fn indexed_key(k: Seq<char>) -> bool {
    ||| k == "nPages"@
    ||| k == "blockingFactor"@
    ||| k == "delayAfterPortOpen"@
    ||| k == "blockReadTimeout"@
    ||| k == "interWriteDelay"@
    ||| k == "pageActivationDelay"@
    ||| k == "tsWriteBlocks"@
    ||| k == "ochBlockSize"@
    ||| k == "gridHeight"@
    ||| k == "field"@
    ||| k == "slider"@
    ||| k == "displayOnlyField"@
}

/// A line that gives such a key no value at all.
pub open spec fn bare_indexed_key(text: Seq<char>) -> bool {
    spec_kv(text) matches Some((k, ts)) && ts.len() == 0 && indexed_key(k)
}

/// Some line of some section gives an indexed key no value.
pub open spec fn has_bare_indexed_key(groups: Seq<(Seq<char>, Seq<(u32, Seq<char>)>)>) -> bool {
    exists|g: int, i: int|
        0 <= g < groups.len() && 0 <= i < groups[g].1.len() && #[trigger] bare_indexed_key(groups[g].1[i].1)
}

proof fn lemma_run_unhandled<S>(s: S, lines: Seq<(u32, Seq<char>)>, step: spec_fn(S, u32, Seq<char>) -> Step<S>)
    requires
        forall|st: S, n: u32, t: Seq<char>| (#[trigger] step(st, n, t)) is Unhandled ==> bare_indexed_key(t),
        run(s, lines, step) is Unhandled,
    ensures
        exists|i: int| 0 <= i < lines.len() && #[trigger] bare_indexed_key(lines[i].1),
    decreases lines.len(),
{
    match step(s, lines[0].0, lines[0].1) {
        Step::Next(s2, _) => {
            lemma_run_unhandled(s2, lines.drop_first(), step);
            let i = choose|i: int| 0 <= i < lines.drop_first().len() && #[trigger] bare_indexed_key(lines.drop_first()[i].1);
            assert(lines[i + 1] == lines.drop_first()[i]);
        },
        _ => {
            assert(bare_indexed_key(lines[0].1));
        },
    }
}

proof fn lemma_ud_unhandled(ds: Seq<(Seq<char>, SpecDialog)>, lines: Seq<(u32, Seq<char>)>)
    requires
        spec_user_defined(ds, lines) is Unhandled,
    ensures
        exists|i: int| 0 <= i < lines.len() && #[trigger] bare_indexed_key(lines[i].1),
    decreases lines.len(),
{
    match ud_line(ds, lines[0].0, lines[0].1) {
        UdStep::Next(d2, _) => {
            lemma_ud_unhandled(d2, lines.drop_first());
            let i = choose|i: int| 0 <= i < lines.drop_first().len() && #[trigger] bare_indexed_key(lines.drop_first()[i].1);
            assert(lines[i + 1] == lines.drop_first()[i]);
        },
        _ => {
            assert(bare_indexed_key(lines[0].1));
        },
    }
}

proof fn lemma_section_unhandled(d: SpecIniDef, name: Seq<char>, lines: Seq<(u32, Seq<char>)>)
    requires
        ini_section(d, name, lines) is Unhandled,
    ensures
        exists|i: int| 0 <= i < lines.len() && #[trigger] bare_indexed_key(lines[i].1),
{
    reveal(ini_section);
    assert forall|st: ConstState, n: u32, t: Seq<char>| (#[trigger] const_line(st, n, t)) is Unhandled implies bare_indexed_key(t) by {}
    assert forall|st: SpecOutputs, n: u32, t: Seq<char>| (#[trigger] och_line(st, n, t)) is Unhandled implies bare_indexed_key(t) by {}
    assert forall|st: TableState, n: u32, t: Seq<char>| (#[trigger] table_line(st, n, t)) is Unhandled implies bare_indexed_key(t) by {}
    assert forall|st: Seq<(Seq<char>, SpecConstantDef)>, n: u32, t: Seq<char>| (#[trigger] pc_line(st, n, t)) is Unhandled implies bare_indexed_key(t) by {}
    assert forall|st: GaugeState, t: Seq<char>| (#[trigger] gauge_line(st, t)) is Unhandled implies bare_indexed_key(t) by {}
    if name == "PcVariables"@ {
        lemma_run_unhandled(d.pc_variables, lines, |ps: Seq<(Seq<char>, SpecConstantDef)>, num: u32, text: Seq<char>| pc_line(ps, num, text));
    } else if name == "Constants"@ {
        lemma_run_unhandled(ConstState { page: None, last: None, consts: d.constants, header: d.header }, lines,
            |st: ConstState, num: u32, text: Seq<char>| const_line(st, num, text));
    } else if name == "OutputChannels"@ {
        lemma_run_unhandled(d.outputs, lines, |o: SpecOutputs, num: u32, text: Seq<char>| och_line(o, num, text));
    } else if name == "TableEditor"@ {
        lemma_run_unhandled(TableState { tables: d.tables, current: None }, lines,
            |st: TableState, num: u32, text: Seq<char>| table_line(st, num, text));
    } else if name == "GaugeConfigurations"@ {
        lemma_run_unhandled(GaugeState { category: seq![], gauges: d.gauges }, lines,
            |st: GaugeState, num: u32, text: Seq<char>| gauge_line(st, text));
    } else if name == "UserDefined"@ {
        lemma_ud_unhandled(d.dialogs, lines);
    }
}

proof fn lemma_sections_unhandled(d: SpecIniDef, groups: Seq<(Seq<char>, Seq<(u32, Seq<char>)>)>)
    requires
        spec_sections(d, groups) is Unhandled,
    ensures
        has_bare_indexed_key(groups),
    decreases groups.len(),
{
    match ini_section(d, groups[0].0, groups[0].1) {
        IniStep::Next(d2) => {
            lemma_sections_unhandled(d2, groups.drop_first());
            let (g, i) = choose|g: int, i: int|
                0 <= g < groups.drop_first().len() && 0 <= i < groups.drop_first()[g].1.len()
                && #[trigger] bare_indexed_key(groups.drop_first()[g].1[i].1);
            assert(groups[g + 1] == groups.drop_first()[g]);
            assert(bare_indexed_key(groups[g + 1].1[i].1));
        },
        _ => {
            lemma_section_unhandled(d, groups[0].0, groups[0].1);
            let i = choose|i: int| 0 <= i < groups[0].1.len() && #[trigger] bare_indexed_key(groups[0].1[i].1);
            assert(bare_indexed_key(groups[0].1[i].1));
        },
    }
}

fn is_bare_indexed_key(line: &Line) -> (b: bool)
    ensures
        b == bare_indexed_key(line.text@),
{
    let mut scratch: Vec<String> = Vec::new();
    match kv(line, &mut scratch) {
        Some((key, toks)) => {
            toks.len() == 0 && (name_is(&key, "nPages") || name_is(&key, "blockingFactor")
                || name_is(&key, "delayAfterPortOpen") || name_is(&key, "blockReadTimeout")
                || name_is(&key, "interWriteDelay") || name_is(&key, "pageActivationDelay")
                || name_is(&key, "tsWriteBlocks") || name_is(&key, "ochBlockSize") || name_is(&key, "gridHeight")
                || name_is(&key, "field") || name_is(&key, "slider") || name_is(&key, "displayOnlyField"))
        },
        None => false,
    }
}

/// Parse a definition, unless one of its lines gives a key whose first
/// value the reader takes (`nPages`, `blockingFactor`, `delayAfterPortOpen`,
/// `blockReadTimeout`, `interWriteDelay`, `pageActivationDelay`,
/// `tsWriteBlocks`, `ochBlockSize`, `gridHeight`, a dialog's `field`,
/// `slider` or `displayOnlyField`) no value at all: then `None`, the reader
/// has nothing to take.
pub fn parse_checked(src: &str, symbols: &Vec<String>) -> (r: Option<Result<IniDef, Error>>)
    requires
        src@.len() < u32::MAX,
    ensures
        match r {
            Some(x) => match spec_parse_ini(src@, symbol_set(symbols@)) {
                IniStep::Next(d) => x matches Ok(y) && y@ == d,
                IniStep::Failed(n) => x matches Err(Error::Parse(m, _)) && m == n,
                IniStep::Unhandled => false,
            },
            None => spec_preprocess(src@, symbol_set(symbols@)).1 is None
                && has_bare_indexed_key(spec_group_sections(spec_preprocess(src@, symbol_set(symbols@)).0.out)),
        },
{
    let mut syms: Vec<String> = Vec::new();
    let mut k: usize = 0;
    while k < symbols.len()
        invariant
            k <= symbols@.len(),
            syms@ == symbols@.take(k as int),
        decreases symbols@.len() - k,
    {
        syms.push(symbols[k].clone());
        assert(syms@ =~= symbols@.take(k + 1));
        k = k + 1;
    }
    assert(symbols@.take(symbols@.len() as int) =~= symbols@);
    let ghost pp = spec_preprocess(src@, symbol_set(symbols@));
    let lines = match preprocess(src, &mut syms) {
        Ok(l) => l,
        Err(_) => {
            return Some(parse_with_symbols(src, symbols));
        },
    };
    let groups = group_sections(&lines);
    let ghost gv = sections_view(groups@);
    assert(pp.1 is None);
    assert(gv == spec_group_sections(pp.0.out));
    let mut g: usize = 0;
    while g < groups.len()
        invariant
            g <= groups@.len(),
            gv == sections_view(groups@),
            gv.len() == groups@.len(),
            pp == spec_preprocess(src@, symbol_set(symbols@)),
            pp.1 is None,
            gv == spec_group_sections(pp.0.out),
            forall|a: int, i: int| 0 <= a < g && 0 <= i < gv[a].1.len() ==> !bare_indexed_key(#[trigger] gv[a].1[i].1),
        decreases groups@.len() - g,
    {
        let ls = &groups[g].1;
        assert(gv[g as int] == (groups@[g as int].0@, super::preprocess::lines_view(ls@)));
        let mut i: usize = 0;
        while i < ls.len()
            invariant
                i <= ls@.len(),
                g < groups@.len(),
                gv == sections_view(groups@),
                gv.len() == groups@.len(),
                pp == spec_preprocess(src@, symbol_set(symbols@)),
                pp.1 is None,
                gv == spec_group_sections(pp.0.out),
                *ls == groups@[g as int].1,
                gv[g as int].1 == super::preprocess::lines_view(ls@),
                forall|a: int, j: int| 0 <= a < g && 0 <= j < gv[a].1.len() ==> !bare_indexed_key(#[trigger] gv[a].1[j].1),
                forall|j: int| 0 <= j < i ==> !bare_indexed_key(#[trigger] gv[g as int].1[j].1),
            decreases ls@.len() - i,
        {
            assert(gv[g as int].1[i as int].1 == ls@[i as int].text@);
            if is_bare_indexed_key(&ls[i]) {
                proof {
                    assert(bare_indexed_key(gv[g as int].1[i as int].1));
                    assert(pp.1 is None);
                    assert(gv == spec_group_sections(pp.0.out));
                    assert(has_bare_indexed_key(gv));
                }
                return None;
            }
            i = i + 1;
        }
        g = g + 1;
    }
    proof {
        if spec_parse_ini(src@, symbol_set(symbols@)) is Unhandled {
            lemma_sections_unhandled(spec_empty_def(), gv);
            let (a, j) = choose|a: int, j: int| 0 <= a < gv.len() && 0 <= j < gv[a].1.len() && #[trigger] bare_indexed_key(gv[a].1[j].1);
            assert(!bare_indexed_key(gv[a].1[j].1));
        }
    }
    Some(parse_with_symbols(src, symbols))
}

impl IniDef {
    /// Nothing read yet.
    pub fn new() -> (d: Self)
        ensures
            d@ == spec_empty_def(),
    {
        let d = IniDef {
            megatune: MegaTune {
                mt_version: None,
                query_command: String::new(),
                signature: String::new(),
                version_info: String::new(),
            },
            setting_groups: Vec::new(),
            pc_variables: Vec::new(),
            header: ConstantsHeader::new(),
            constants: Vec::new(),
            extensions: ConstantsExtensions {
                requires_power_cycle: Vec::new(),
                default_values: Vec::new(),
                controller_priority: Vec::new(),
            },
            outputs: OutputChannels { och_get_command: String::new(), och_block_size: None, channels: Vec::new() },
            tables: Vec::new(),
            curves: Vec::new(),
            gauges: Vec::new(),
            front_page: FrontPage { gauges: Vec::new(), indicators: Vec::new() },
            datalog: Vec::new(),
            menus: Vec::new(),
            dialogs: Vec::new(),
            warnings: Vec::new(),
        };
        proof {
            assert(d@.setting_groups =~= seq![]);
            assert(d@.pc_variables =~= seq![]);
            assert(d@.constants =~= seq![]);
            assert(d@.extensions.requires_power_cycle =~= seq![]);
            assert(d@.extensions.default_values =~= seq![]);
            assert(d@.extensions.controller_priority =~= seq![]);
            assert(d@.outputs.channels =~= seq![]);
            assert(d@.tables =~= seq![]);
            assert(d@.curves =~= seq![]);
            assert(d@.gauges =~= seq![]);
            assert(d@.front_gauges =~= seq![]);
            assert(d@.indicators =~= seq![]);
            assert(d@.datalog =~= seq![]);
            assert(d@.menus =~= seq![]);
            assert(d@.dialogs =~= seq![]);
        }
        d
    }
}

fn name_is(name: &String, lit: &str) -> (r: bool)
    ensures
        r == (name@ == lit@),
{
    let k = chars_of(name.as_str());
    chars_are(&k, lit)
}

/// Read one section into `def`.
fn read_section(def: &mut IniDef, name: &String, lines: &Vec<Line>) -> (r: Result<(), Error>)
    requires
        !(ini_section(old(def)@, name@, super::preprocess::lines_view(lines@)) is Unhandled),
    ensures
        match ini_section(old(def)@, name@, super::preprocess::lines_view(lines@)) {
            IniStep::Next(d) => r is Ok && final(def)@ == d,
            IniStep::Failed(n) => r matches Err(Error::Parse(m, _)) && m == n,
            IniStep::Unhandled => false,
        },
{
    proof {
        reveal(ini_section);
    }
    if name_is(name, "MegaTune") {
        megatune(lines, &mut def.megatune, &mut def.warnings)
    } else if name_is(name, "SettingGroups") {
        setting_groups(lines, &mut def.setting_groups, &mut def.warnings)
    } else if name_is(name, "PcVariables") {
        pc_variables(lines, &mut def.pc_variables, &mut def.warnings)
    } else if name_is(name, "Constants") {
        constants(lines, &mut def.header, &mut def.constants, &mut def.warnings)
    } else if name_is(name, "ConstantsExtensions") {
        constants_extensions(lines, &mut def.extensions, &mut def.warnings)
    } else if name_is(name, "OutputChannels") {
        output_channels(lines, &mut def.outputs, &mut def.warnings)
    } else if name_is(name, "TableEditor") {
        table_editor(lines, &mut def.tables, &mut def.warnings)
    } else if name_is(name, "CurveEditor") {
        curve_editor(lines, &mut def.curves, &mut def.warnings)
    } else if name_is(name, "GaugeConfigurations") {
        gauge_configurations(lines, &mut def.gauges, &mut def.warnings)
    } else if name_is(name, "FrontPage") {
        front_page(lines, &mut def.front_page, &mut def.warnings)
    } else if name_is(name, "Datalog") {
        datalog(lines, &mut def.datalog, &mut def.warnings)
    } else if name_is(name, "Menu") {
        menu(lines, &mut def.menus, &mut def.warnings)
    } else if name_is(name, "UserDefined") {
        user_defined(lines, &mut def.dialogs, &mut def.warnings)
    } else {
        Ok(())
    }
}

/// Parse a definition with the given preprocessor symbols set (e.g.
/// `CELSIUS`, `LAMBDA`, `mcu_stm32` — see `[SettingGroups]` options).
pub fn parse_with_symbols(src: &str, symbols: &Vec<String>) -> (r: Result<IniDef, Error>)
    requires
        src@.len() < u32::MAX,
        !(spec_parse_ini(src@, symbol_set(symbols@)) is Unhandled),
    ensures
        match spec_parse_ini(src@, symbol_set(symbols@)) {
            IniStep::Next(d) => r matches Ok(x) && x@ == d,
            IniStep::Failed(n) => r matches Err(Error::Parse(m, _)) && m == n,
            IniStep::Unhandled => false,
        },
{
    let mut syms: Vec<String> = Vec::new();
    let mut k: usize = 0;
    while k < symbols.len()
        invariant
            k <= symbols@.len(),
            syms@ == symbols@.take(k as int),
        decreases symbols@.len() - k,
    {
        syms.push(symbols[k].clone());
        assert(syms@ =~= symbols@.take(k + 1));
        k = k + 1;
    }
    assert(symbols@.take(symbols@.len() as int) =~= symbols@);
    assert(syms@ == symbols@);
    let ghost pp = spec_preprocess(src@, symbol_set(symbols@));
    let lines = match preprocess(src, &mut syms) {
        Ok(l) => l,
        Err(e) => {
            assert(pp.1 is Some);
            assert(e matches Error::Parse(m, _) && m == pp.1->0);
            return Err(e);
        },
    };
    let groups = group_sections(&lines);
    let ghost gv = sections_view(groups@);
    let mut def = IniDef::new();
    let ghost total = spec_parse_ini(src@, symbol_set(symbols@));
    assert(gv.skip(0) =~= gv);
    let mut i: usize = 0;
    while i < groups.len()
        invariant
            i <= groups@.len(),
            gv == sections_view(groups@),
            gv.len() == groups@.len(),
            total == spec_parse_ini(src@, symbol_set(symbols@)),
            !(total is Unhandled),
            total == spec_sections(def@, gv.skip(i as int)),
        decreases groups@.len() - i,
    {
        assert(gv.skip(i as int)[0] == (groups@[i as int].0@, super::preprocess::lines_view(groups@[i as int].1@)));
        assert(gv.skip(i as int).drop_first() =~= gv.skip(i + 1));
        match read_section(&mut def, &groups[i].0, &groups[i].1) {
            Ok(()) => {},
            Err(e) => {
                return Err(e);
            },
        }
        i = i + 1;
    }
    Ok(def)
}

/// Parse a definition with no preprocessor symbols set (TunerStudio's
/// "DEFAULT" project settings: Fahrenheit units, AFR display).
pub fn parse(src: &str) -> (r: Result<IniDef, Error>)
    requires
        src@.len() < u32::MAX,
        !(spec_parse_ini(src@, Set::empty()) is Unhandled),
    ensures
        match spec_parse_ini(src@, Set::empty()) {
            IniStep::Next(d) => r matches Ok(x) && x@ == d,
            IniStep::Failed(n) => r matches Err(Error::Parse(m, _)) && m == n,
            IniStep::Unhandled => false,
        },
{
    let none: Vec<String> = Vec::new();
    assert(symbol_set(none@) =~= Set::<Seq<char>>::empty());
    parse_with_symbols(src, &none)
}

} // verus!
