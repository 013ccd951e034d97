//! Constant definitions: `name = scalar|bits|array|string, type, ...` in
//! `[Constants]`, `[PcVariables]` and `[OutputChannels]`, the `[Constants]`
//! header keys, and the output channels. Numbers are held as the literal
//! text of each number (which reads as a floating-point number); the
//! caller gives them their values.

use vstd::prelude::*;
use vstd::string::StringExecFns;
use super::Error;
use super::curves::{num_or_expr, opt_text, second_text, spec_num_or_expr, NumOrExpr, SpecNum};
use super::expr::{expr_view, parse, spec_parse, ExprTree, SpecExpr};
use super::lex::{parse_shape, spec_parse_shape, token_text, token_view, tokens_view, Shape, SpecToken, Token};
use super::model::{spec_data_type, ConstantClass, DataType};
use super::preprocess::{lines_view, Line};
use super::sections::{key_is, number_text, spec_constant_class, spec_join_values, spec_kv, text_or_empty};
use super::ui::{insert_keyed, keyed_insert, keyed_view, keys_distinct, lemma_keyed_insert, texts};
use crate::text::string_views;

verus! {

broadcast use vstd::string::group_string_axioms;

/// A field that is literal text or a `{ expression }` evaluated later.
#[derive(Debug)]
pub enum StrOrExpr {
    Str(String),
    Expr(ExprTree),
}

pub enum SpecStrOrExpr {
    Str(Seq<char>),
    Expr(SpecExpr),
}

impl View for StrOrExpr {
    type V = SpecStrOrExpr;

    open spec fn view(&self) -> SpecStrOrExpr {
        match self {
            StrOrExpr::Str(s) => SpecStrOrExpr::Str(s@),
            StrOrExpr::Expr(e) => SpecStrOrExpr::Expr(expr_view(*e)),
        }
    }
}

/// One constant definition.
#[derive(Debug)]
pub struct ConstantDef {
    pub name: String,
    pub class: ConstantClass,
    pub ty: DataType,
    /// The tune page's number (1-based); `None` for PcVariables.
    pub page: Option<String>,
    /// Byte offset within the page; `None` for PcVariables.
    pub offset: Option<String>,
    /// Bit range for `bits`, array shape for `array`.
    pub shape: Option<Shape>,
    pub units: Option<StrOrExpr>,
    pub scale: NumOrExpr,
    pub translate: NumOrExpr,
    pub lo: Option<NumOrExpr>,
    pub hi: Option<NumOrExpr>,
    pub digits: Option<NumOrExpr>,
    /// Combo-box labels for `bits` ("INVALID" entries are hidden choices).
    pub labels: Vec<String>,
    /// ASCII string length for `class == String`.
    pub string_len: Option<String>,
    pub no_msq_save: bool,
    pub line: u32,
}

pub struct SpecConstantDef {
    pub name: Seq<char>,
    pub class: ConstantClass,
    pub ty: DataType,
    pub page: Option<Seq<char>>,
    pub offset: Option<Seq<char>>,
    pub shape: Option<Shape>,
    pub units: Option<SpecStrOrExpr>,
    pub scale: SpecNum,
    pub translate: SpecNum,
    pub lo: Option<SpecNum>,
    pub hi: Option<SpecNum>,
    pub digits: Option<SpecNum>,
    pub labels: Seq<Seq<char>>,
    pub string_len: Option<Seq<char>>,
    pub no_msq_save: bool,
    pub line: u32,
}

pub open spec fn opt_num(o: Option<NumOrExpr>) -> Option<SpecNum> {
    match o {
        Some(n) => Some(n@),
        None => None,
    }
}

pub open spec fn opt_units(o: Option<StrOrExpr>) -> Option<SpecStrOrExpr> {
    match o {
        Some(u) => Some(u@),
        None => None,
    }
}

impl View for ConstantDef {
    type V = SpecConstantDef;

    open spec fn view(&self) -> SpecConstantDef {
        SpecConstantDef {
            name: self.name@,
            class: self.class,
            ty: self.ty,
            page: opt_text(self.page),
            offset: opt_text(self.offset),
            shape: self.shape,
            units: opt_units(self.units),
            scale: self.scale@,
            translate: self.translate@,
            lo: opt_num(self.lo),
            hi: opt_num(self.hi),
            digits: opt_num(self.digits),
            labels: string_views(self.labels@),
            string_len: opt_text(self.string_len),
            no_msq_save: self.no_msq_save,
            line: self.line,
        }
    }
}

/// The flags after a definition's limits: `noMsqSave`, and the first other
/// value as the digits (a number or expression; anything else is an error).
pub open spec fn spec_flags(rest: Seq<SpecToken>, digits: Option<SpecNum>, no_msq_save: bool) -> Option<(Option<SpecNum>, bool)>
    decreases rest.len(),
{
    if rest.len() == 0 {
        Some((digits, no_msq_save))
    } else if rest[0] == SpecToken::Bare("noMsqSave"@) {
        spec_flags(rest.drop_first(), digits, true)
    } else if digits is None {
        match spec_num_or_expr(rest[0]) {
            Some(n) => spec_flags(rest.drop_first(), Some(n), no_msq_save),
            None => None,
        }
    } else {
        spec_flags(rest.drop_first(), digits, no_msq_save)
    }
}

/// The values from `i` on (none where there are not that many).
pub open spec fn rest_from(ts: Seq<SpecToken>, i: int) -> Seq<SpecToken> {
    if i < ts.len() {
        ts.skip(i)
    } else {
        seq![]
    }
}

/// The units value: an expression or text.
pub open spec fn spec_units(t: SpecToken) -> Option<SpecStrOrExpr> {
    match t {
        SpecToken::Expr(s) => match spec_parse(s) {
            Some(e) => Some(SpecStrOrExpr::Expr(e)),
            None => None,
        },
        _ => Some(SpecStrOrExpr::Str(token_text(t))),
    }
}

/// A number or expression at `i`, where there is a value `i`.
pub open spec fn optional_num(ts: Seq<SpecToken>, i: int) -> Option<Option<SpecNum>> {
    if ts.len() > i {
        match spec_num_or_expr(ts[i]) {
            Some(n) => Some(Some(n)),
            None => None,
        }
    } else {
        Some(None)
    }
}

/// A scalar or array definition's tail from value `idx`: units, scale,
/// translate, lo, hi, then flags; `None` where a value is malformed.
pub open spec fn spec_tail(d: SpecConstantDef, ts: Seq<SpecToken>, idx: int) -> Option<SpecConstantDef> {
    let units = if ts.len() > idx {
        match spec_units(ts[idx]) {
            Some(u) => Some(Some(u)),
            None => None,
        }
    } else {
        Some(None)
    };
    match (units, optional_num(ts, idx + 1), optional_num(ts, idx + 2), optional_num(ts, idx + 3), optional_num(ts, idx + 4)) {
        (Some(u), Some(sc), Some(tr), Some(lo), Some(hi)) => match spec_flags(rest_from(ts, idx + 5), None, false) {
            Some((digits, nms)) => Some(
                SpecConstantDef {
                    units: u,
                    scale: match sc {
                        Some(n) => n,
                        None => d.scale,
                    },
                    translate: match tr {
                        Some(n) => n,
                        None => d.translate,
                    },
                    lo,
                    hi,
                    digits,
                    no_msq_save: nms,
                    ..d
                },
            ),
            None => None,
        },
        _ => None,
    }
}

/// A definition `name = class, type, [offset,] ...` from its values; `None`
/// is an error on its line. `offset_ctx` is `Some` where an offset comes
/// third (it may be `lastOffset`: that of the previous constant, given
/// here), `None` in `[PcVariables]`.
pub open spec fn spec_constant_def(
    name: Seq<char>,
    class: ConstantClass,
    ts: Seq<SpecToken>,
    page: Option<Seq<char>>,
    offset_ctx: Option<Seq<char>>,
    line: u32,
) -> Option<SpecConstantDef> {
    match spec_data_type(text_or_empty(ts, 1)) {
        None => None,
        Some(ty) => {
            let base = SpecConstantDef {
                name,
                class,
                ty,
                page,
                offset: None,
                shape: None,
                units: None,
                scale: SpecNum::Num("1"@),
                translate: SpecNum::Num("0"@),
                lo: None,
                hi: None,
                digits: None,
                labels: seq![],
                string_len: None,
                no_msq_save: false,
                line,
            };
            let offset: Option<Option<Seq<char>>> = match offset_ctx {
                None => Some(None),
                Some(prev) => if ts.len() > 2 {
                    if ts[2] == SpecToken::Bare("lastOffset"@) {
                        Some(Some(prev))
                    } else {
                        match number_text(ts[2]) {
                            Some(t) => Some(Some(t)),
                            None => None,
                        }
                    }
                } else {
                    None
                },
            };
            let idx: int = if offset_ctx is Some { 3 } else { 2 };
            match offset {
                None => None,
                Some(off) => {
                    let d = SpecConstantDef { offset: off, ..base };
                    match class {
                        ConstantClass::String => if ts.len() > idx {
                            match number_text(ts[idx]) {
                                Some(t) => Some(SpecConstantDef { string_len: Some(t), ..d }),
                                None => None,
                            }
                        } else {
                            None
                        },
                        ConstantClass::Bits => match spec_parse_shape(text_or_empty(ts, idx)) {
                            Some(s) => if s is Bits {
                                Some(SpecConstantDef { shape: Some(s), labels: texts(ts.skip(idx + 1)), ..d })
                            } else {
                                None
                            },
                            None => None,
                        },
                        ConstantClass::Array => match spec_parse_shape(text_or_empty(ts, idx)) {
                            Some(s) => spec_tail(SpecConstantDef { shape: Some(s), ..d }, ts, idx + 1),
                            None => None,
                        },
                        ConstantClass::Scalar => spec_tail(d, ts, idx),
                    }
                },
            }
        },
    }
}

fn value_text_or_empty(tokens: &Vec<Token>, i: usize) -> (r: String)
    ensures
        r@ == text_or_empty(tokens_view(tokens@), i as int),
{
    if i < tokens.len() {
        String::from_str(tokens[i].as_str())
    } else {
        String::new()
    }
}

/// The texts of `tokens[from..]`.
pub(crate) fn texts_from(tokens: &Vec<Token>, from: usize) -> (r: Vec<String>)
    requires
        from <= tokens@.len(),
    ensures
        string_views(r@) == texts(tokens_view(tokens@).skip(from as int)),
{
    let ghost tv = tokens_view(tokens@);
    let mut out: Vec<String> = Vec::new();
    let mut k: usize = from;
    while k < tokens.len()
        invariant
            from <= k <= tokens@.len(),
            tv == tokens_view(tokens@),
            string_views(out@) == texts(tv.subrange(from as int, k as int)),
        decreases tokens@.len() - k,
    {
        let t = String::from_str(tokens[k].as_str());
        assert(t@ == token_text(tv[k as int]));
        let ghost before = out@;
        out.push(t);
        assert(string_views(out@) =~= string_views(before).push(t@));
        assert(tv.subrange(from as int, k + 1) =~= tv.subrange(from as int, k as int).push(tv[k as int]));
        assert(texts(tv.subrange(from as int, k + 1)) =~= texts(tv.subrange(from as int, k as int)).push(
            token_text(tv[k as int]),
        ));
        k = k + 1;
    }
    assert(tv.subrange(from as int, k as int) =~= tv.skip(from as int));
    out
}

fn optional_num_at(tokens: &Vec<Token>, idx: usize, off: usize, line: u32) -> (r: Result<Option<NumOrExpr>, Error>)
    requires
        idx <= tokens@.len(),
    ensures
        match optional_num(tokens_view(tokens@), idx + off) {
            Some(o) => r matches Ok(x) && opt_num(x) == o,
            None => r matches Err(Error::Parse(n, _)) && n == line,
        },
{
    if tokens.len() - idx > off {
        let i = idx + off;
        assert(tokens_view(tokens@)[i as int] == token_view(tokens@[i as int]));
        match num_or_expr(tokens, i, line) {
            Ok(n) => Ok(Some(n)),
            Err(e) => Err(e),
        }
    } else {
        Ok(None)
    }
}

fn constant_tail(d: ConstantDef, tokens: &Vec<Token>, idx: usize, line: u32) -> (r: Result<ConstantDef, Error>)
    requires
        idx <= tokens@.len(),
    ensures
        match spec_tail(d@, tokens_view(tokens@), idx as int) {
            Some(x) => r matches Ok(y) && y@ == x,
            None => r matches Err(Error::Parse(n, _)) && n == line,
        },
{
    let ghost tv = tokens_view(tokens@);
    let mut d = d;
    let ghost d0 = d@;
    if idx < tokens.len() {
        assert(tv[idx as int] == token_view(tokens@[idx as int]));
        d.units = Some(
            match &tokens[idx] {
                Token::Expr(src) => match parse(src.as_str(), line) {
                    Ok(e) => StrOrExpr::Expr(e),
                    Err(e) => {
                        return Err(e);
                    },
                },
                t => StrOrExpr::Str(String::from_str(t.as_str())),
            },
        );
    } else {
        d.units = None;
    }
    let scale = match optional_num_at(tokens, idx, 1, line) {
        Ok(x) => x,
        Err(e) => {
            return Err(e);
        },
    };
    let translate = match optional_num_at(tokens, idx, 2, line) {
        Ok(x) => x,
        Err(e) => {
            return Err(e);
        },
    };
    let lo = match optional_num_at(tokens, idx, 3, line) {
        Ok(x) => x,
        Err(e) => {
            return Err(e);
        },
    };
    let hi = match optional_num_at(tokens, idx, 4, line) {
        Ok(x) => x,
        Err(e) => {
            return Err(e);
        },
    };
    match scale {
        Some(n) => {
            d.scale = n;
        },
        None => {},
    }
    match translate {
        Some(n) => {
            d.translate = n;
        },
        None => {},
    }
    d.lo = lo;
    d.hi = hi;
    let ghost goal = spec_flags(rest_from(tv, idx + 5), None, false);
    let mut k: usize = if tokens.len() - idx > 5 { idx + 5 } else { tokens.len() };
    assert(tv.skip(k as int) =~= rest_from(tv, idx + 5));
    let mut digits: Option<NumOrExpr> = None;
    let mut nms = false;
    assert(goal is None ==> spec_tail(d0, tv, idx as int) is None);
    assert(goal matches Some((dg, nm)) ==> spec_tail(d0, tv, idx as int) == Some(
        SpecConstantDef { digits: dg, no_msq_save: nm, ..d@ },
    ));
    while k < tokens.len()
        invariant
            k <= tokens@.len(),
            tv == tokens_view(tokens@),
            tv.len() == tokens@.len(),
            goal == spec_flags(tv.skip(k as int), opt_num(digits), nms),
            goal is None ==> spec_tail(d0, tv, idx as int) is None,
            goal matches Some((dg, nm)) ==> spec_tail(d0, tv, idx as int) == Some(
                SpecConstantDef { digits: dg, no_msq_save: nm, ..d@ },
            ),
        decreases tokens@.len() - k,
    {
        let ghost here = tv.skip(k as int);
        assert(here[0] == token_view(tokens@[k as int]));
        assert(here.drop_first() =~= tv.skip(k + 1));
        let is_flag = match &tokens[k] {
            Token::Bare(s) => {
                let c = crate::text::chars_of(s.as_str());
                crate::text::chars_are(&c, "noMsqSave")
            },
            _ => false,
        };
        if is_flag {
            nms = true;
        } else if digits.is_none() {
            match num_or_expr(tokens, k, line) {
                Ok(n) => {
                    digits = Some(n);
                },
                Err(e) => {
                    return Err(e);
                },
            }
        }
        k = k + 1;
    }
    assert(tv.skip(k as int) =~= Seq::<SpecToken>::empty());
    d.digits = digits;
    d.no_msq_save = nms;
    Ok(d)
}

/// Parse a definition from its values; see [`spec_constant_def`].
pub fn constant_def(
    name: &str,
    class: ConstantClass,
    tokens: &Vec<Token>,
    page: Option<String>,
    offset_ctx: Option<String>,
    line: u32,
) -> (r: Result<ConstantDef, Error>)
    ensures
        match spec_constant_def(name@, class, tokens_view(tokens@), opt_text(page), opt_text(offset_ctx), line) {
            Some(d) => r matches Ok(x) && x@ == d,
            None => r matches Err(Error::Parse(n, _)) && n == line,
        },
{
    let ghost tv = tokens_view(tokens@);
    let tyname = value_text_or_empty(tokens, 1);
    let ty = match DataType::parse(tyname.as_str(), line) {
        Ok(t) => t,
        Err(e) => {
            return Err(e);
        },
    };
    proof {
        reveal_strlit("1");
        reveal_strlit("0");
    }
    let mut d = ConstantDef {
        name: String::from_str(name),
        class,
        ty,
        page,
        offset: None,
        shape: None,
        units: None,
        scale: NumOrExpr::Num(String::from_str("1")),
        translate: NumOrExpr::Num(String::from_str("0")),
        lo: None,
        hi: None,
        digits: None,
        labels: Vec::new(),
        string_len: None,
        no_msq_save: false,
        line,
    };
    assert(d@.labels =~= seq![]);
    let has_offset = offset_ctx.is_some();
    let mut idx: usize = 2;
    match offset_ctx {
        Some(prev) => {
            if tokens.len() <= 2 {
                return Err(Error::at(line, String::from_str("missing offset")));
            }
            assert(tv[2] == token_view(tokens@[2]));
            let is_last = match &tokens[2] {
                Token::Bare(s) => {
                    let c = crate::text::chars_of(s.as_str());
                    crate::text::chars_are(&c, "lastOffset")
                },
                _ => false,
            };
            if is_last {
                d.offset = Some(prev);
            } else {
                match tokens[2].number(line) {
                    Ok(t) => {
                        d.offset = Some(t);
                    },
                    Err(e) => {
                        return Err(e);
                    },
                }
            }
            idx = 3;
        },
        None => {},
    }
    match class {
        ConstantClass::String => {
            if idx >= tokens.len() {
                return Err(Error::at(line, String::from_str("missing string length")));
            }
            assert(tv[idx as int] == token_view(tokens@[idx as int]));
            match tokens[idx].number(line) {
                Ok(t) => {
                    d.string_len = Some(t);
                },
                Err(e) => {
                    return Err(e);
                },
            }
            Ok(d)
        },
        ConstantClass::Bits => {
            let st = value_text_or_empty(tokens, idx);
            assert(spec_parse_shape(Seq::<char>::empty()) is None);
            let shape = match parse_shape(st.as_str(), line) {
                Ok(s) => s,
                Err(e) => {
                    return Err(e);
                },
            };
            match shape {
                Shape::Bits { .. } => {},
                _ => {
                    return Err(Error::at(line, String::from_str("bits constant needs a [lo:hi] range")));
                },
            }
            d.shape = Some(shape);
            d.labels = texts_from(tokens, idx + 1);
            Ok(d)
        },
        ConstantClass::Array => {
            let st = value_text_or_empty(tokens, idx);
            assert(spec_parse_shape(Seq::<char>::empty()) is None);
            let shape = match parse_shape(st.as_str(), line) {
                Ok(s) => s,
                Err(e) => {
                    return Err(e);
                },
            };
            d.shape = Some(shape);
            constant_tail(d, tokens, idx + 1, line)
        },
        ConstantClass::Scalar => constant_tail(d, tokens, idx, line),
    }
}

// ----- [Constants] ----------------------------------------------------------

/// `[Constants]` header: page geometry and serial command templates.
/// Command strings are kept raw (`"p%2i%2o%2c"`, `"\$tsCanId\x01"`).
#[derive(Debug)]
pub struct ConstantsHeader {
    pub endianness: String,
    /// `nPages`, if given.
    pub n_pages: Option<String>,
    pub page_sizes: Vec<String>,
    pub page_identifiers: Vec<String>,
    pub page_read_command: Vec<String>,
    pub page_value_write: Vec<String>,
    pub page_chunk_write: Vec<String>,
    pub crc32_check_command: Vec<String>,
    pub burn_command: Vec<String>,
    pub table_crc_command: Option<String>,
    pub blocking_factor: Option<String>,
    pub delay_after_port_open: Option<String>,
    pub block_read_timeout: Option<String>,
    pub ts_write_blocks: bool,
    pub inter_write_delay: Option<String>,
    pub page_activation_delay: Option<String>,
    pub message_envelope_format: Option<String>,
    /// Header keys not modelled, with their values joined by `, `.
    pub misc: Vec<(String, String)>,
}

pub struct SpecHeader {
    pub endianness: Seq<char>,
    pub n_pages: Option<Seq<char>>,
    pub page_sizes: Seq<Seq<char>>,
    pub page_identifiers: Seq<Seq<char>>,
    pub page_read_command: Seq<Seq<char>>,
    pub page_value_write: Seq<Seq<char>>,
    pub page_chunk_write: Seq<Seq<char>>,
    pub crc32_check_command: Seq<Seq<char>>,
    pub burn_command: Seq<Seq<char>>,
    pub table_crc_command: Option<Seq<char>>,
    pub blocking_factor: Option<Seq<char>>,
    pub delay_after_port_open: Option<Seq<char>>,
    pub block_read_timeout: Option<Seq<char>>,
    pub ts_write_blocks: bool,
    pub inter_write_delay: Option<Seq<char>>,
    pub page_activation_delay: Option<Seq<char>>,
    pub message_envelope_format: Option<Seq<char>>,
    pub misc: Seq<(Seq<char>, Seq<char>)>,
}

impl View for ConstantsHeader {
    type V = SpecHeader;

    open spec fn view(&self) -> SpecHeader {
        SpecHeader {
            endianness: self.endianness@,
            n_pages: opt_text(self.n_pages),
            page_sizes: string_views(self.page_sizes@),
            page_identifiers: string_views(self.page_identifiers@),
            page_read_command: string_views(self.page_read_command@),
            page_value_write: string_views(self.page_value_write@),
            page_chunk_write: string_views(self.page_chunk_write@),
            crc32_check_command: string_views(self.crc32_check_command@),
            burn_command: string_views(self.burn_command@),
            table_crc_command: opt_text(self.table_crc_command),
            blocking_factor: opt_text(self.blocking_factor),
            delay_after_port_open: opt_text(self.delay_after_port_open),
            block_read_timeout: opt_text(self.block_read_timeout),
            ts_write_blocks: self.ts_write_blocks,
            inter_write_delay: opt_text(self.inter_write_delay),
            page_activation_delay: opt_text(self.page_activation_delay),
            message_envelope_format: opt_text(self.message_envelope_format),
            misc: keyed_view(self.misc@),
        }
    }
}

pub open spec fn spec_empty_header() -> SpecHeader {
    SpecHeader {
        endianness: seq![],
        n_pages: None,
        page_sizes: seq![],
        page_identifiers: seq![],
        page_read_command: seq![],
        page_value_write: seq![],
        page_chunk_write: seq![],
        crc32_check_command: seq![],
        burn_command: seq![],
        table_crc_command: None,
        blocking_factor: None,
        delay_after_port_open: None,
        block_read_timeout: None,
        ts_write_blocks: false,
        inter_write_delay: None,
        page_activation_delay: None,
        message_envelope_format: None,
        misc: seq![],
    }
}

impl ConstantsHeader {
    /// No header keys read yet.
    pub fn new() -> (h: Self)
        ensures
            h@ == spec_empty_header(),
    {
        let h = ConstantsHeader {
            endianness: String::new(),
            n_pages: None,
            page_sizes: Vec::new(),
            page_identifiers: Vec::new(),
            page_read_command: Vec::new(),
            page_value_write: Vec::new(),
            page_chunk_write: Vec::new(),
            crc32_check_command: Vec::new(),
            burn_command: Vec::new(),
            table_crc_command: None,
            blocking_factor: None,
            delay_after_port_open: None,
            block_read_timeout: None,
            ts_write_blocks: false,
            inter_write_delay: None,
            page_activation_delay: None,
            message_envelope_format: None,
            misc: Vec::new(),
        };
        proof {
            assert(h@.misc =~= seq![]);
            assert(h@.page_sizes =~= seq![]);
            assert(h@.page_identifiers =~= seq![]);
            assert(h@.page_read_command =~= seq![]);
            assert(h@.page_value_write =~= seq![]);
            assert(h@.page_chunk_write =~= seq![]);
            assert(h@.crc32_check_command =~= seq![]);
            assert(h@.burn_command =~= seq![]);
        }
        h
    }
}

/// What reading a line does to a section's state.
pub enum Step<S> {
    /// The state afterwards, and the warnings drawn.
    Next(S, nat),
    /// A missing or malformed value: an error on the line.
    Fail,
    /// A key whose first value the format's reader indexes without looking,
    /// given with no values at all.
    Unhandled,
}

/// Every value as a number's text, or `None` if one is not a number.
pub open spec fn all_numbers(ts: Seq<SpecToken>) -> Option<Seq<Seq<char>>> {
    if forall|i: int| 0 <= i < ts.len() ==> number_text(#[trigger] ts[i]) is Some {
        Some(ts.map_values(|t: SpecToken| number_text(t)->0))
    } else {
        None
    }
}

pub open spec fn is_list_key(key: Seq<char>) -> bool {
    ||| key == "pageIdentifier"@
    ||| key == "pageReadCommand"@
    ||| key == "pageValueWrite"@
    ||| key == "pageChunkWrite"@
    ||| key == "crc32CheckCommand"@
    ||| key == "burnCommand"@
}

/// Keys whose one value is a number.
pub open spec fn is_number_key(key: Seq<char>) -> bool {
    ||| key == "nPages"@
    ||| key == "blockingFactor"@
    ||| key == "delayAfterPortOpen"@
    ||| key == "blockReadTimeout"@
    ||| key == "interWriteDelay"@
    ||| key == "pageActivationDelay"@
}

pub open spec fn set_list(h: SpecHeader, key: Seq<char>, v: Seq<Seq<char>>) -> SpecHeader {
    if key == "pageIdentifier"@ {
        SpecHeader { page_identifiers: v, ..h }
    } else if key == "pageReadCommand"@ {
        SpecHeader { page_read_command: v, ..h }
    } else if key == "pageValueWrite"@ {
        SpecHeader { page_value_write: v, ..h }
    } else if key == "pageChunkWrite"@ {
        SpecHeader { page_chunk_write: v, ..h }
    } else if key == "crc32CheckCommand"@ {
        SpecHeader { crc32_check_command: v, ..h }
    } else {
        SpecHeader { burn_command: v, ..h }
    }
}

pub open spec fn set_number(h: SpecHeader, key: Seq<char>, v: Seq<char>) -> SpecHeader {
    if key == "nPages"@ {
        SpecHeader { n_pages: Some(v), ..h }
    } else if key == "blockingFactor"@ {
        SpecHeader { blocking_factor: Some(v), ..h }
    } else if key == "delayAfterPortOpen"@ {
        SpecHeader { delay_after_port_open: Some(v), ..h }
    } else if key == "blockReadTimeout"@ {
        SpecHeader { block_read_timeout: Some(v), ..h }
    } else if key == "interWriteDelay"@ {
        SpecHeader { inter_write_delay: Some(v), ..h }
    } else {
        SpecHeader { page_activation_delay: Some(v), ..h }
    }
}

/// A `[Constants]` line that is not a page or a constant: a header key.
pub open spec fn spec_header_key(h: SpecHeader, key: Seq<char>, ts: Seq<SpecToken>) -> Step<SpecHeader> {
    if key == "endianness"@ || key == "tableCrcCommand"@ || key == "messageEnvelopeFormat"@ {
        if ts.len() > 0 {
            let v = token_text(ts[0]);
            Step::Next(
                if key == "endianness"@ {
                    SpecHeader { endianness: v, ..h }
                } else if key == "tableCrcCommand"@ {
                    SpecHeader { table_crc_command: Some(v), ..h }
                } else {
                    SpecHeader { message_envelope_format: Some(v), ..h }
                },
                0,
            )
        } else {
            Step::Fail
        }
    } else if is_number_key(key) || key == "tsWriteBlocks"@ {
        if ts.len() == 0 {
            Step::Unhandled
        } else if key == "tsWriteBlocks"@ {
            Step::Next(SpecHeader { ts_write_blocks: token_text(ts[0]) == "on"@, ..h }, 0)
        } else {
            match number_text(ts[0]) {
                Some(v) => Step::Next(set_number(h, key, v), 0),
                None => Step::Fail,
            }
        }
    } else if key == "pageSize"@ {
        match all_numbers(ts) {
            Some(v) => Step::Next(SpecHeader { page_sizes: v, ..h }, 0),
            None => Step::Fail,
        }
    } else if is_list_key(key) {
        Step::Next(set_list(h, key, texts(ts)), 0)
    } else {
        Step::Next(SpecHeader { misc: keyed_insert(h.misc, key, spec_join_values(texts(ts))), ..h }, 0)
    }
}


/// Every value as a number's text.
pub(crate) fn numbers(tokens: &Vec<Token>, line: u32) -> (r: Result<Vec<String>, Error>)
    ensures
        match all_numbers(tokens_view(tokens@)) {
            Some(v) => r matches Ok(x) && string_views(x@) == v,
            None => r matches Err(Error::Parse(n, _)) && n == line,
        },
{
    let ghost tv = tokens_view(tokens@);
    let mut out: Vec<String> = Vec::new();
    let mut i: usize = 0;
    while i < tokens.len()
        invariant
            i <= tokens@.len(),
            tv == tokens_view(tokens@),
            tv.len() == tokens@.len(),
            out@.len() == i,
            forall|j: int| 0 <= j < i ==> number_text(#[trigger] tv[j]) == Some(out@[j]@),
        decreases tokens@.len() - i,
    {
        assert(tv[i as int] == token_view(tokens@[i as int]));
        match tokens[i].number(line) {
            Ok(t) => {
                out.push(t);
            },
            Err(e) => {
                return Err(e);
            },
        }
        i = i + 1;
    }
    proof {
        let v = tv.map_values(|t: SpecToken| number_text(t)->0);
        assert(string_views(out@) =~= v) by {
            assert forall|j: int| 0 <= j < v.len() implies string_views(out@)[j] == v[j] by {
                assert(number_text(tv[j]) == Some(out@[j]@));
            }
        }
    }
    Ok(out)
}

/// Apply one header key; see [`spec_header_key`].
pub fn header_key(key: &String, tokens: &Vec<Token>, line: u32, h: &mut ConstantsHeader) -> (r: Result<(), Error>)
    requires
        !(spec_header_key(old(h)@, key@, tokens_view(tokens@)) is Unhandled),
    ensures
        match spec_header_key(old(h)@, key@, tokens_view(tokens@)) {
            Step::Next(x, _) => r is Ok && final(h)@ == x,
            Step::Fail => r matches Err(Error::Parse(n, _)) && n == line,
            Step::Unhandled => false,
        },
{
    let ghost tv = tokens_view(tokens@);
    if key_is(key, "endianness") || key_is(key, "tableCrcCommand") || key_is(key, "messageEnvelopeFormat") {
        let v = match super::sections::str_tok(tokens, 0, line) {
            Ok(t) => t,
            Err(e) => {
                return Err(e);
            },
        };
        if key_is(key, "endianness") {
            h.endianness = v;
        } else if key_is(key, "tableCrcCommand") {
            h.table_crc_command = Some(v);
        } else {
            h.message_envelope_format = Some(v);
        }
        Ok(())
    } else if key_is(key, "nPages") || key_is(key, "blockingFactor") || key_is(key, "delayAfterPortOpen") || key_is(
        key,
        "blockReadTimeout",
    ) || key_is(key, "interWriteDelay") || key_is(key, "pageActivationDelay") || key_is(key, "tsWriteBlocks") {
        assert(tv[0] == token_view(tokens@[0]));
        if key_is(key, "tsWriteBlocks") {
            let c = crate::text::chars_of(tokens[0].as_str());
            h.ts_write_blocks = crate::text::chars_are(&c, "on");
            return Ok(());
        }
        let v = match tokens[0].number(line) {
            Ok(t) => t,
            Err(e) => {
                return Err(e);
            },
        };
        if key_is(key, "nPages") {
            h.n_pages = Some(v);
        } else if key_is(key, "blockingFactor") {
            h.blocking_factor = Some(v);
        } else if key_is(key, "delayAfterPortOpen") {
            h.delay_after_port_open = Some(v);
        } else if key_is(key, "blockReadTimeout") {
            h.block_read_timeout = Some(v);
        } else if key_is(key, "interWriteDelay") {
            h.inter_write_delay = Some(v);
        } else {
            h.page_activation_delay = Some(v);
        }
        Ok(())
    } else if key_is(key, "pageSize") {
        match numbers(tokens, line) {
            Ok(v) => {
                h.page_sizes = v;
                Ok(())
            },
            Err(e) => Err(e),
        }
    } else if key_is(key, "pageIdentifier") || key_is(key, "pageReadCommand") || key_is(key, "pageValueWrite")
        || key_is(key, "pageChunkWrite") || key_is(key, "crc32CheckCommand") || key_is(key, "burnCommand") {
        let v = texts_from(tokens, 0);
        assert(tv.skip(0) =~= tv);
        if key_is(key, "pageIdentifier") {
            h.page_identifiers = v;
        } else if key_is(key, "pageReadCommand") {
            h.page_read_command = v;
        } else if key_is(key, "pageValueWrite") {
            h.page_value_write = v;
        } else if key_is(key, "pageChunkWrite") {
            h.page_chunk_write = v;
        } else if key_is(key, "crc32CheckCommand") {
            h.crc32_check_command = v;
        } else {
            h.burn_command = v;
        }
        Ok(())
    } else {
        let parts = texts_from(tokens, 0);
        assert(tv.skip(0) =~= tv);
        let joined = super::sections::join_values(&parts);
        insert_keyed(&mut h.misc, key.clone(), joined);
        Ok(())
    }
}

/// What reading a section's lines gives.
pub enum Run<S> {
    /// The state at the end, and the number of warnings.
    Done(S, nat),
    /// The number of the line in error.
    Failed(u32),
    Unhandled,
}

/// A section's lines read in order with `step`, stopping at the first
/// error.
pub open spec fn run<S>(s: S, lines: Seq<(u32, Seq<char>)>, step: spec_fn(S, u32, Seq<char>) -> Step<S>) -> Run<S>
    decreases lines.len(),
{
    if lines.len() == 0 {
        Run::Done(s, 0)
    } else {
        match step(s, lines[0].0, lines[0].1) {
            Step::Fail => Run::Failed(lines[0].0),
            Step::Unhandled => Run::Unhandled,
            Step::Next(s2, w) => match run(s2, lines.drop_first(), step) {
                Run::Done(s3, w2) => Run::Done(s3, w + w2),
                other => other,
            },
        }
    }
}

/// Whatever every step keeps, reading a whole section keeps.
pub proof fn lemma_run_keeps<S>(
    s: S,
    lines: Seq<(u32, Seq<char>)>,
    step: spec_fn(S, u32, Seq<char>) -> Step<S>,
    inv: spec_fn(S) -> bool,
)
    requires
        inv(s),
        forall|a: S, n: u32, t: Seq<char>| inv(a) ==> (#[trigger] step(a, n, t) matches Step::Next(b, _) ==> inv(b)),
    ensures
        run(s, lines, step) matches Run::Done(e, _) ==> inv(e),
    decreases lines.len(),
{
    if lines.len() > 0 {
        match step(s, lines[0].0, lines[0].1) {
            Step::Next(s2, _) => {
                lemma_run_keeps(s2, lines.drop_first(), step, inv);
            },
            _ => {},
        }
    }
}

/// The state of a `[Constants]` section being read: the current page, the
/// offset of the previous constant on it, the constants, and the header.
pub struct ConstState {
    pub page: Option<Seq<char>>,
    pub last: Option<Seq<char>>,
    pub consts: Seq<(Seq<char>, SpecConstantDef)>,
    pub header: SpecHeader,
}

/// One `[Constants]` line: `page = n` starts a page, a definition files a
/// constant on it (`lastOffset` meaning the previous one's offset, or 0),
/// anything else is a header key.
pub open spec fn const_line(st: ConstState, num: u32, text: Seq<char>) -> Step<ConstState> {
    match spec_kv(text) {
        None => Step::Next(st, 1),
        Some((key, ts)) => if key == "page"@ {
            if ts.len() > 0 {
                match number_text(ts[0]) {
                    Some(p) => Step::Next(ConstState { page: Some(p), last: None, ..st }, 0),
                    None => Step::Fail,
                }
            } else {
                Step::Fail
            }
        } else {
            match spec_constant_class(ts) {
                Some(class) => match st.page {
                    None => Step::Fail,
                    Some(p) => {
                        let prev = match st.last {
                            Some(o) => o,
                            None => "0"@,
                        };
                        match spec_constant_def(key, class, ts, Some(p), Some(prev), num) {
                            None => Step::Fail,
                            Some(d) => Step::Next(
                                ConstState { last: d.offset, consts: keyed_insert(st.consts, key, d), ..st },
                                0,
                            ),
                        }
                    },
                },
                None => match spec_header_key(st.header, key, ts) {
                    Step::Next(h, _) => Step::Next(ConstState { header: h, ..st }, 0),
                    Step::Fail => Step::Fail,
                    Step::Unhandled => Step::Unhandled,
                },
            }
        },
    }
}

pub open spec fn spec_constants(
    header: SpecHeader,
    consts: Seq<(Seq<char>, SpecConstantDef)>,
    lines: Seq<(u32, Seq<char>)>,
) -> Run<ConstState> {
    run(
        ConstState { page: None, last: None, consts, header },
        lines,
        |st: ConstState, num: u32, text: Seq<char>| const_line(st, num, text),
    )
}

/// Parse a `[Constants]` section: its constants into `defs` (each
/// under its name), its header keys into `header`.
pub fn constants(
    lines: &Vec<Line>,
    header: &mut ConstantsHeader,
    defs: &mut Vec<(String, ConstantDef)>,
    warnings: &mut Vec<String>,
) -> (r: Result<(), Error>)
    requires
        !(spec_constants(old(header)@, keyed_view(old(defs)@), lines_view(lines@)) is Unhandled),
    ensures
        final(warnings)@.len() >= old(warnings)@.len(),
        match spec_constants(old(header)@, keyed_view(old(defs)@), lines_view(lines@)) {
            Run::Done(st, w) => r is Ok && final(header)@ == st.header && keyed_view(final(defs)@) == st.consts
                && final(warnings)@.len() == old(warnings)@.len() + w,
            Run::Failed(n) => r matches Err(Error::Parse(m, _)) && m == n,
            Run::Unhandled => false,
        },
{
    let ghost f = |st: ConstState, num: u32, text: Seq<char>| const_line(st, num, text);
    let ghost lv = lines_view(lines@);
    let ghost total = spec_constants(old(header)@, keyed_view(old(defs)@), lv);
    let ghost mut done: nat = 0;
    let mut page: Option<String> = None;
    let mut last: Option<String> = None;
    assert(lv.skip(0) =~= lv);
    let mut i: usize = 0;
    while i < lines.len()
        invariant
            i <= lines@.len(),
            lv == lines_view(lines@),
            lv.len() == lines@.len(),
            f == (|st: ConstState, num: u32, text: Seq<char>| const_line(st, num, text)),
            total == spec_constants(old(header)@, keyed_view(old(defs)@), lv),
            !(total is Unhandled),
            warnings@.len() == old(warnings)@.len() + done,
            total == match run(
                ConstState { page: opt_text(page), last: opt_text(last), consts: keyed_view(defs@), header: header@ },
                lv.skip(i as int),
                f,
            ) {
                Run::Done(st, w) => Run::Done(st, done + w),
                other => other,
            },
        decreases lines@.len() - i,
    {
        let line = &lines[i];
        let ghost st = ConstState { page: opt_text(page), last: opt_text(last), consts: keyed_view(defs@), header: header@ };
        let ghost wl = warnings@.len();
        assert(lv.skip(i as int)[0] == (line.num, line.text@));
        assert(lv.skip(i as int).drop_first() =~= lv.skip(i + 1));
        let ghost step = const_line(st, line.num, line.text@);
        match super::sections::kv(line, warnings) {
            None => {},
            Some((key, tokens)) => {
                let ghost tv = tokens_view(tokens@);
                if key_is(&key, "page") {
                    if tokens.len() == 0 {
                        return Err(Error::at(line.num, String::from_str("page = <n>")));
                    }
                    assert(tv[0] == token_view(tokens@[0]));
                    match tokens[0].number(line.num) {
                        Ok(p) => {
                            page = Some(p);
                            last = None;
                        },
                        Err(e) => {
                            return Err(e);
                        },
                    }
                } else {
                    match super::sections::constant_class(&tokens) {
                        Some(class) => {
                            let cur = match &page {
                                Some(p) => p.clone(),
                                None => {
                                    return Err(Error::at(line.num, String::from_str("constant before `page = n`")));
                                },
                            };
                            let prev = match &last {
                                Some(o) => o.clone(),
                                None => String::from_str("0"),
                            };
                            let d = match constant_def(key.as_str(), class, &tokens, Some(cur), Some(prev), line.num) {
                                Ok(d) => d,
                                Err(e) => {
                                    return Err(e);
                                },
                            };
                            last = match &d.offset {
                                Some(o) => Some(o.clone()),
                                None => None,
                            };
                            insert_keyed(defs, key, d);
                        },
                        None => {
                            match header_key(&key, &tokens, line.num, header) {
                                Ok(()) => {},
                                Err(e) => {
                                    return Err(e);
                                },
                            }
                        },
                    }
                }
            },
        }
        proof {
            let ws = (warnings@.len() - wl) as nat;
            assert(step == Step::Next(
                ConstState { page: opt_text(page), last: opt_text(last), consts: keyed_view(defs@), header: header@ },
                ws,
            ));
            done = done + ws;
        }
        i = i + 1;
    }
    assert(lv.skip(lines@.len() as int) =~= Seq::<(u32, Seq<char>)>::empty());
    Ok(())
}

// ----- [PcVariables] --------------------------------------------------------

/// One `[PcVariables]` line: a definition (without offset) filed under its
/// name; anything else draws a warning.
pub open spec fn pc_line(ps: Seq<(Seq<char>, SpecConstantDef)>, num: u32, text: Seq<char>) -> Step<Seq<(Seq<char>, SpecConstantDef)>> {
    match spec_kv(text) {
        None => Step::Next(ps, 1),
        Some((key, ts)) => match spec_constant_class(ts) {
            Some(class) => match spec_constant_def(key, class, ts, None, None, num) {
                Some(d) => Step::Next(keyed_insert(ps, key, d), 0),
                None => Step::Fail,
            },
            None => Step::Next(ps, 1),
        },
    }
}

pub open spec fn spec_pc_variables(
    ps: Seq<(Seq<char>, SpecConstantDef)>,
    lines: Seq<(u32, Seq<char>)>,
) -> Run<Seq<(Seq<char>, SpecConstantDef)>> {
    run(ps, lines, |ps: Seq<(Seq<char>, SpecConstantDef)>, num: u32, text: Seq<char>| pc_line(ps, num, text))
}

/// Parse a `[PcVariables]` section into `vars`, each under its name.
pub fn pc_variables(lines: &Vec<Line>, vars: &mut Vec<(String, ConstantDef)>, warnings: &mut Vec<String>) -> (r: Result<(), Error>)
    ensures
        final(warnings)@.len() >= old(warnings)@.len(),
        match spec_pc_variables(keyed_view(old(vars)@), lines_view(lines@)) {
            Run::Done(ps, w) => r is Ok && keyed_view(final(vars)@) == ps && final(warnings)@.len() == old(warnings)@.len() + w,
            Run::Failed(n) => r matches Err(Error::Parse(m, _)) && m == n,
            Run::Unhandled => false,
        },
{
    let ghost f = |ps: Seq<(Seq<char>, SpecConstantDef)>, num: u32, text: Seq<char>| pc_line(ps, num, text);
    let ghost lv = lines_view(lines@);
    let ghost total = spec_pc_variables(keyed_view(old(vars)@), lv);
    let ghost mut done: nat = 0;
    assert(lv.skip(0) =~= lv);
    let mut i: usize = 0;
    while i < lines.len()
        invariant
            i <= lines@.len(),
            lv == lines_view(lines@),
            lv.len() == lines@.len(),
            f == (|ps: Seq<(Seq<char>, SpecConstantDef)>, num: u32, text: Seq<char>| pc_line(ps, num, text)),
            total == spec_pc_variables(keyed_view(old(vars)@), lv),
            warnings@.len() == old(warnings)@.len() + done,
            total == match run(keyed_view(vars@), lv.skip(i as int), f) {
                Run::Done(ps, w) => Run::Done(ps, done + w),
                other => other,
            },
        decreases lines@.len() - i,
    {
        let line = &lines[i];
        let ghost ps = keyed_view(vars@);
        let ghost wl = warnings@.len();
        assert(lv.skip(i as int)[0] == (line.num, line.text@));
        assert(lv.skip(i as int).drop_first() =~= lv.skip(i + 1));
        let ghost step = pc_line(ps, line.num, line.text@);
        match super::sections::kv(line, warnings) {
            None => {},
            Some((key, tokens)) => {
                match super::sections::constant_class(&tokens) {
                    Some(class) => {
                        let d = match constant_def(key.as_str(), class, &tokens, None, None, line.num) {
                            Ok(d) => d,
                            Err(e) => {
                                return Err(e);
                            },
                        };
                        insert_keyed(vars, key, d);
                    },
                    None => {
                        let mut w = String::from_str("unrecognized [PcVariables] entry `");
                        w.append(key.as_str());
                        w.append("`");
                        super::sections::warn(warnings, line.num, &w);
                    },
                }
            },
        }
        proof {
            let ws = (warnings@.len() - wl) as nat;
            assert(step == Step::Next(keyed_view(vars@), ws));
            done = done + ws;
        }
        i = i + 1;
    }
    assert(lv.skip(lines@.len() as int) =~= Seq::<(u32, Seq<char>)>::empty());
    Ok(())
}

// ----- [OutputChannels] -----------------------------------------------------

/// One realtime data channel.
#[derive(Debug)]
#[allow(inconsistent_fields)]
pub enum OutputChannel {
    Scalar { ty: DataType, offset: String, units: Option<StrOrExpr>, scale: NumOrExpr, translate: NumOrExpr },
    Bits { ty: DataType, offset: String, lo: u8, hi: u8 },
    /// `name = { expr }` computed from other channels.
    Derived { expr: ExprTree, units: Option<String> },
}

pub enum SpecChannel {
    Scalar(DataType, Seq<char>, Option<SpecStrOrExpr>, SpecNum, SpecNum),
    Bits(DataType, Seq<char>, u8, u8),
    Derived(SpecExpr, Option<Seq<char>>),
}

impl View for OutputChannel {
    type V = SpecChannel;

    open spec fn view(&self) -> SpecChannel {
        match self {
            OutputChannel::Scalar { ty, offset, units, scale, translate } => SpecChannel::Scalar(
                *ty,
                offset@,
                opt_units(*units),
                scale@,
                translate@,
            ),
            OutputChannel::Bits { ty, offset, lo, hi } => SpecChannel::Bits(*ty, offset@, *lo, *hi),
            OutputChannel::Derived { expr, units } => SpecChannel::Derived(expr_view(*expr), opt_text(*units)),
        }
    }
}

/// What `[OutputChannels]` says: the realtime data command, the block size,
/// and the channels.
#[derive(Debug)]
pub struct OutputChannels {
    pub och_get_command: String,
    pub och_block_size: Option<String>,
    pub channels: Vec<(String, OutputChannel)>,
}

pub struct SpecOutputs {
    pub och_get_command: Seq<char>,
    pub och_block_size: Option<Seq<char>>,
    pub channels: Seq<(Seq<char>, SpecChannel)>,
}

impl View for OutputChannels {
    type V = SpecOutputs;

    open spec fn view(&self) -> SpecOutputs {
        SpecOutputs {
            och_get_command: self.och_get_command@,
            och_block_size: opt_text(self.och_block_size),
            channels: keyed_view(self.channels@),
        }
    }
}

pub open spec fn offset_or_zero(d: SpecConstantDef) -> Seq<char> {
    match d.offset {
        Some(o) => o,
        None => "0"@,
    }
}

/// One `[OutputChannels]` line: the two command keys, a derived channel
/// (`{ expr }`, then its units), or a definition (offset first, from 0).
pub open spec fn och_line(o: SpecOutputs, num: u32, text: Seq<char>) -> Step<SpecOutputs> {
    match spec_kv(text) {
        None => Step::Next(o, 1),
        Some((key, ts)) => if key == "ochGetCommand"@ {
            if ts.len() > 0 {
                Step::Next(SpecOutputs { och_get_command: token_text(ts[0]), ..o }, 0)
            } else {
                Step::Fail
            }
        } else if key == "ochBlockSize"@ {
            if ts.len() == 0 {
                Step::Unhandled
            } else {
                match number_text(ts[0]) {
                    Some(v) => Step::Next(SpecOutputs { och_block_size: Some(v), ..o }, 0),
                    None => Step::Fail,
                }
            }
        } else if ts.len() > 0 && ts[0] is Expr {
            match spec_parse(ts[0]->Expr_0) {
                Some(e) => Step::Next(
                    SpecOutputs { channels: keyed_insert(o.channels, key, SpecChannel::Derived(e, second_text(ts))), ..o },
                    0,
                ),
                None => Step::Fail,
            }
        } else {
            match spec_constant_class(ts) {
                None => Step::Next(o, 1),
                Some(class) => match spec_constant_def(key, class, ts, None, Some("0"@), num) {
                    None => Step::Fail,
                    Some(d) => if class is Bits {
                        match d.shape {
                            Some(Shape::Bits { lo, hi }) => Step::Next(
                                SpecOutputs {
                                    channels: keyed_insert(o.channels, key, SpecChannel::Bits(d.ty, offset_or_zero(d), lo, hi)),
                                    ..o
                                },
                                0,
                            ),
                            _ => Step::Fail,
                        }
                    } else {
                        Step::Next(
                            SpecOutputs {
                                channels: keyed_insert(
                                    o.channels,
                                    key,
                                    SpecChannel::Scalar(d.ty, offset_or_zero(d), d.units, d.scale, d.translate),
                                ),
                                ..o
                            },
                            0,
                        )
                    },
                },
            }
        },
    }
}

pub open spec fn spec_output_channels(o: SpecOutputs, lines: Seq<(u32, Seq<char>)>) -> Run<SpecOutputs> {
    run(o, lines, |o: SpecOutputs, num: u32, text: Seq<char>| och_line(o, num, text))
}

/// Parse an `[OutputChannels]` section into `outs`.
pub fn output_channels(lines: &Vec<Line>, outs: &mut OutputChannels, warnings: &mut Vec<String>) -> (r: Result<(), Error>)
    requires
        !(spec_output_channels(old(outs)@, lines_view(lines@)) is Unhandled),
    ensures
        final(warnings)@.len() >= old(warnings)@.len(),
        match spec_output_channels(old(outs)@, lines_view(lines@)) {
            Run::Done(o, w) => r is Ok && final(outs)@ == o && final(warnings)@.len() == old(warnings)@.len() + w,
            Run::Failed(n) => r matches Err(Error::Parse(m, _)) && m == n,
            Run::Unhandled => false,
        },
{
    let ghost f = |o: SpecOutputs, num: u32, text: Seq<char>| och_line(o, num, text);
    let ghost lv = lines_view(lines@);
    let ghost total = spec_output_channels(old(outs)@, lv);
    let ghost mut done: nat = 0;
    assert(lv.skip(0) =~= lv);
    let mut i: usize = 0;
    while i < lines.len()
        invariant
            i <= lines@.len(),
            lv == lines_view(lines@),
            lv.len() == lines@.len(),
            f == (|o: SpecOutputs, num: u32, text: Seq<char>| och_line(o, num, text)),
            total == spec_output_channels(old(outs)@, lv),
            !(total is Unhandled),
            warnings@.len() == old(warnings)@.len() + done,
            total == match run(outs@, lv.skip(i as int), f) {
                Run::Done(o, w) => Run::Done(o, done + w),
                other => other,
            },
        decreases lines@.len() - i,
    {
        let line = &lines[i];
        let ghost o0 = outs@;
        let ghost wl = warnings@.len();
        assert(lv.skip(i as int)[0] == (line.num, line.text@));
        assert(lv.skip(i as int).drop_first() =~= lv.skip(i + 1));
        let ghost step = och_line(o0, line.num, line.text@);
        match super::sections::kv(line, warnings) {
            None => {},
            Some((key, tokens)) => {
                let ghost tv = tokens_view(tokens@);
                if key_is(&key, "ochGetCommand") {
                    match super::sections::str_tok(&tokens, 0, line.num) {
                        Ok(t) => {
                            outs.och_get_command = t;
                        },
                        Err(e) => {
                            return Err(e);
                        },
                    }
                } else if key_is(&key, "ochBlockSize") {
                    assert(tv[0] == token_view(tokens@[0]));
                    match tokens[0].number(line.num) {
                        Ok(t) => {
                            outs.och_block_size = Some(t);
                        },
                        Err(e) => {
                            return Err(e);
                        },
                    }
                } else {
                    let derived = if tokens.len() > 0 {
                        assert(tv[0] == token_view(tokens@[0]));
                        match &tokens[0] {
                            Token::Expr(src) => Some(src),
                            _ => None,
                        }
                    } else {
                        None
                    };
                    match derived {
                        Some(src) => {
                            let e = match parse(src.as_str(), line.num) {
                                Ok(e) => e,
                                Err(e) => {
                                    return Err(e);
                                },
                            };
                            let units = if tokens.len() > 1 {
                                Some(String::from_str(tokens[1].as_str()))
                            } else {
                                None
                            };
                            insert_keyed(&mut outs.channels, key, OutputChannel::Derived { expr: e, units });
                        },
                        None => {
                            match super::sections::constant_class(&tokens) {
                                None => {
                                    let mut w = String::from_str("unrecognized [OutputChannels] entry `");
                                    w.append(key.as_str());
                                    w.append("`");
                                    super::sections::warn(warnings, line.num, &w);
                                },
                                Some(class) => {
                                    let d = match constant_def(
                                        key.as_str(),
                                        class,
                                        &tokens,
                                        None,
                                        Some(String::from_str("0")),
                                        line.num,
                                    ) {
                                        Ok(d) => d,
                                        Err(e) => {
                                            return Err(e);
                                        },
                                    };
                                    let ConstantDef { ty, offset, shape, units, scale, translate, .. } = d;
                                    let off = match offset {
                                        Some(o) => o,
                                        None => String::from_str("0"),
                                    };
                                    let ch = match class {
                                        ConstantClass::Bits => match shape {
                                            Some(Shape::Bits { lo, hi }) => OutputChannel::Bits { ty, offset: off, lo, hi },
                                            _ => {
                                                return Err(Error::at(line.num, String::from_str("bits channel needs [lo:hi]")));
                                            },
                                        },
                                        _ => OutputChannel::Scalar { ty, offset: off, units, scale, translate },
                                    };
                                    insert_keyed(&mut outs.channels, key, ch);
                                },
                            }
                        },
                    }
                }
            },
        }
        proof {
            let ws = (warnings@.len() - wl) as nat;
            assert(step == Step::Next(outs@, ws));
            done = done + ws;
        }
        i = i + 1;
    }
    assert(lv.skip(lines@.len() as int) =~= Seq::<(u32, Seq<char>)>::empty());
    Ok(())
}

// ----- names stay distinct ---------------------------------------------------

/// A `[Constants]` section names no constant twice, nor a header key.
pub proof fn lemma_constants_keep_names(header: SpecHeader, consts: Seq<(Seq<char>, SpecConstantDef)>, lines: Seq<(u32, Seq<char>)>)
    requires
        keys_distinct(consts),
        keys_distinct(header.misc),
    ensures
        spec_constants(header, consts, lines) matches Run::Done(st, _) ==> keys_distinct(st.consts) && keys_distinct(
            st.header.misc,
        ),
{
    let f = |st: ConstState, num: u32, text: Seq<char>| const_line(st, num, text);
    let inv = |st: ConstState| keys_distinct(st.consts) && keys_distinct(st.header.misc);
    assert forall|a: ConstState, n: u32, t: Seq<char>| inv(a) implies (#[trigger] f(a, n, t) matches Step::Next(b, _) ==> inv(b)) by {
        match spec_kv(t) {
            Some((key, ts)) => {
                match a.page {
                    Some(p) => {
                        let prev = match a.last {
                            Some(o) => o,
                            None => "0"@,
                        };
                        match spec_constant_class(ts) {
                            Some(class) => match spec_constant_def(key, class, ts, Some(p), Some(prev), n) {
                                Some(d) => lemma_keyed_insert(a.consts, key, d),
                                None => {},
                            },
                            None => {},
                        }
                    },
                    None => {},
                }
                lemma_keyed_insert(a.header.misc, key, spec_join_values(texts(ts)));
            },
            None => {},
        }
    }
    lemma_run_keeps(ConstState { page: None, last: None, consts, header }, lines, f, inv);
}

/// A `[PcVariables]` section names no variable twice.
pub proof fn lemma_pc_variables_keep_names(ps: Seq<(Seq<char>, SpecConstantDef)>, lines: Seq<(u32, Seq<char>)>)
    requires
        keys_distinct(ps),
    ensures
        spec_pc_variables(ps, lines) matches Run::Done(e, _) ==> keys_distinct(e),
{
    let f = |ps: Seq<(Seq<char>, SpecConstantDef)>, num: u32, text: Seq<char>| pc_line(ps, num, text);
    let inv = |ps: Seq<(Seq<char>, SpecConstantDef)>| keys_distinct(ps);
    assert forall|a: Seq<(Seq<char>, SpecConstantDef)>, n: u32, t: Seq<char>| inv(a) implies (#[trigger] f(a, n, t) matches Step::Next(b, _) ==> inv(b)) by {
        match spec_kv(t) {
            Some((key, ts)) => match spec_constant_class(ts) {
                Some(class) => match spec_constant_def(key, class, ts, None, None, n) {
                    Some(d) => lemma_keyed_insert(a, key, d),
                    None => {},
                },
                None => {},
            },
            None => {},
        }
    }
    lemma_run_keeps(ps, lines, f, inv);
}

/// An `[OutputChannels]` section names no channel twice.
pub proof fn lemma_outputs_keep_names(o: SpecOutputs, lines: Seq<(u32, Seq<char>)>)
    requires
        keys_distinct(o.channels),
    ensures
        spec_output_channels(o, lines) matches Run::Done(e, _) ==> keys_distinct(e.channels),
{
    let f = |o: SpecOutputs, num: u32, text: Seq<char>| och_line(o, num, text);
    let inv = |o: SpecOutputs| keys_distinct(o.channels);
    assert forall|a: SpecOutputs, n: u32, t: Seq<char>| inv(a) implies (#[trigger] f(a, n, t) matches Step::Next(b, _) ==> inv(b)) by {
        match spec_kv(t) {
            Some((key, ts)) => {
                if ts.len() > 0 && ts[0] is Expr {
                    match spec_parse(ts[0]->Expr_0) {
                        Some(e) => lemma_keyed_insert(a.channels, key, SpecChannel::Derived(e, second_text(ts))),
                        None => {},
                    }
                }
                match spec_constant_class(ts) {
                    Some(class) => match spec_constant_def(key, class, ts, None, Some("0"@), n) {
                        Some(d) => {
                            match d.shape {
                                Some(Shape::Bits { lo, hi }) => lemma_keyed_insert(
                                    a.channels,
                                    key,
                                    SpecChannel::Bits(d.ty, offset_or_zero(d), lo, hi),
                                ),
                                _ => {},
                            }
                            lemma_keyed_insert(
                                a.channels,
                                key,
                                SpecChannel::Scalar(d.ty, offset_or_zero(d), d.units, d.scale, d.translate),
                            );
                        },
                        None => {},
                    },
                    None => {},
                }
            },
            None => {},
        }
    }
    lemma_run_keeps(o, lines, f, inv);
}

} // verus!

verus! {

/// Each command-list key of the `[Constants]` header fills the field of
/// its own name with the texts of its values and leaves every other field
/// as it was.
/// Whether `k` names one of the header's command lists, and is none of
/// its other keys.
proof fn lemma_list_key_is_only_that(k: Seq<char>)
    requires
        k == "pageIdentifier"@ || k == "pageReadCommand"@ || k == "pageValueWrite"@ || k == "pageChunkWrite"@
            || k == "crc32CheckCommand"@ || k == "burnCommand"@,
    ensures
        !(k == "endianness"@ || k == "tableCrcCommand"@ || k == "messageEnvelopeFormat"@),
        !is_number_key(k),
        k != "tsWriteBlocks"@,
        k != "pageSize"@,
        is_list_key(k),
{
    reveal_strlit("pageIdentifier");
    reveal_strlit("pageReadCommand");
    reveal_strlit("pageValueWrite");
    reveal_strlit("pageChunkWrite");
    reveal_strlit("crc32CheckCommand");
    reveal_strlit("burnCommand");
    reveal_strlit("endianness");
    reveal_strlit("tableCrcCommand");
    reveal_strlit("messageEnvelopeFormat");
    reveal_strlit("nPages");
    reveal_strlit("blockingFactor");
    reveal_strlit("delayAfterPortOpen");
    reveal_strlit("blockReadTimeout");
    reveal_strlit("interWriteDelay");
    reveal_strlit("pageActivationDelay");
    reveal_strlit("tsWriteBlocks");
    reveal_strlit("pageSize");
    assert(k[0] != "endianness"@[0] || k.len() != "endianness"@.len());
    assert(k[0] != "tableCrcCommand"@[0]);
    assert(k[0] != "messageEnvelopeFormat"@[0]);
    assert(k[0] != "nPages"@[0]);
    assert(k[0] != "blockingFactor"@[0] || k.len() != "blockingFactor"@.len());
    assert(k[0] != "delayAfterPortOpen"@[0]);
    assert(k[0] != "blockReadTimeout"@[0] || k.len() != "blockReadTimeout"@.len());
    assert(k[0] != "interWriteDelay"@[0]);
    assert(k[0] != "pageActivationDelay"@[0] || k.len() != "pageActivationDelay"@.len());
    assert(k[0] != "tsWriteBlocks"@[0]);
    assert(k.len() != "pageSize"@.len());
}

proof fn lemma_list_keys_distinct()
    ensures
        "pageIdentifier"@ != "pageReadCommand"@,
        "pageIdentifier"@ != "pageValueWrite"@,
        "pageIdentifier"@ != "pageChunkWrite"@,
        "pageIdentifier"@ != "crc32CheckCommand"@,
        "pageReadCommand"@ != "pageValueWrite"@,
        "pageReadCommand"@ != "pageChunkWrite"@,
        "pageReadCommand"@ != "crc32CheckCommand"@,
        "pageValueWrite"@ != "pageChunkWrite"@,
        "pageValueWrite"@ != "crc32CheckCommand"@,
        "pageChunkWrite"@ != "crc32CheckCommand"@,
        "burnCommand"@ != "pageIdentifier"@,
        "burnCommand"@ != "pageReadCommand"@,
        "burnCommand"@ != "pageValueWrite"@,
        "burnCommand"@ != "pageChunkWrite"@,
        "burnCommand"@ != "crc32CheckCommand"@,
{
    reveal_strlit("pageIdentifier");
    reveal_strlit("pageReadCommand");
    reveal_strlit("pageValueWrite");
    reveal_strlit("pageChunkWrite");
    reveal_strlit("crc32CheckCommand");
    reveal_strlit("burnCommand");
    assert("pageIdentifier"@[4] != "pageReadCommand"@[4]);
    assert("pageIdentifier"@[4] != "pageValueWrite"@[4]);
    assert("pageIdentifier"@[4] != "pageChunkWrite"@[4]);
    assert("pageReadCommand"@[4] != "pageValueWrite"@[4]);
    assert("pageReadCommand"@[4] != "pageChunkWrite"@[4]);
    assert("pageValueWrite"@[4] != "pageChunkWrite"@[4]);
    assert("pageIdentifier"@[0] != "crc32CheckCommand"@[0]);
    assert("pageReadCommand"@[0] != "crc32CheckCommand"@[0]);
    assert("pageValueWrite"@[0] != "crc32CheckCommand"@[0]);
    assert("pageChunkWrite"@[0] != "crc32CheckCommand"@[0]);
    assert("burnCommand"@[0] != "pageIdentifier"@[0]);
    assert("burnCommand"@[0] != "pageReadCommand"@[0]);
    assert("burnCommand"@[0] != "pageValueWrite"@[0]);
    assert("burnCommand"@[0] != "pageChunkWrite"@[0]);
    assert("burnCommand"@[0] != "crc32CheckCommand"@[0]);
}

/// Each command-list key of the `[Constants]` header fills the field of
/// its own name with the texts of its values and leaves every other field
/// as it was.
pub proof fn lemma_header_list_keys_fill_their_own_field(h: SpecHeader, ts: Seq<SpecToken>)
    ensures
        spec_header_key(h, "pageIdentifier"@, ts) == Step::Next(SpecHeader { page_identifiers: texts(ts), ..h }, 0),
        spec_header_key(h, "pageReadCommand"@, ts) == Step::Next(SpecHeader { page_read_command: texts(ts), ..h }, 0),
        spec_header_key(h, "pageValueWrite"@, ts) == Step::Next(SpecHeader { page_value_write: texts(ts), ..h }, 0),
        spec_header_key(h, "pageChunkWrite"@, ts) == Step::Next(SpecHeader { page_chunk_write: texts(ts), ..h }, 0),
        spec_header_key(h, "crc32CheckCommand"@, ts) == Step::Next(SpecHeader { crc32_check_command: texts(ts), ..h }, 0),
        spec_header_key(h, "burnCommand"@, ts) == Step::Next(SpecHeader { burn_command: texts(ts), ..h }, 0),
{
    lemma_list_keys_distinct();
    lemma_list_key_is_only_that("pageIdentifier"@);
    lemma_list_key_is_only_that("pageReadCommand"@);
    lemma_list_key_is_only_that("pageValueWrite"@);
    lemma_list_key_is_only_that("pageChunkWrite"@);
    lemma_list_key_is_only_that("crc32CheckCommand"@);
    lemma_list_key_is_only_that("burnCommand"@);
}

/// In a scalar definition the type is the 2nd value, the offset the 3rd
/// where one comes (`[Constants]`, `[OutputChannels]`; `lastOffset` is the
/// previous constant's), and the units, scale and translate the values
/// right after, in that order: the 4th, 5th and 6th values, or the 3rd,
/// 4th and 5th in `[PcVariables]`. A missing scale is 1, a missing
/// translate 0.
pub proof fn lemma_scalar_units_scale_translate(name: Seq<char>, ts: Seq<SpecToken>, page: Option<Seq<char>>,
    offset_ctx: Option<Seq<char>>, line: u32)
    requires
        spec_constant_def(name, ConstantClass::Scalar, ts, page, offset_ctx, line) is Some,
    ensures
        ({
            let d = spec_constant_def(name, ConstantClass::Scalar, ts, page, offset_ctx, line)->0;
            let u: int = if offset_ctx is Some { 3 } else { 2 };
            &&& ts.len() > u ==> Some(d.units) == (match spec_units(ts[u]) {
                Some(x) => Some(Some(x)),
                None => None,
            })
            &&& ts.len() > u + 1 ==> Some(d.scale) == spec_num_or_expr(ts[u + 1])
            &&& ts.len() > u + 2 ==> Some(d.translate) == spec_num_or_expr(ts[u + 2])
            &&& ts.len() <= u + 1 ==> d.scale == SpecNum::Num("1"@)
            &&& ts.len() <= u + 2 ==> d.translate == SpecNum::Num("0"@)
            &&& ts.len() > 1 && d.ty == spec_data_type(token_text(ts[1]))->0
            &&& offset_ctx matches Some(prev) ==> ts.len() > 2 && d.offset == Some(
                if ts[2] == SpecToken::Bare("lastOffset"@) { prev } else { number_text(ts[2])->0 })
            &&& offset_ctx is None ==> d.offset is None
        }),
{
}

/// A scalar output channel (`name = scalar, type, offset, units, scale,
/// translate, ...`) has the 2nd to 4th values as its type, offset and
/// units, the 5th as its scale and the 6th as its `translate`, as a
/// constant does: the line files the channel under its name with exactly
/// those (`lastOffset` there is offset 0).
pub proof fn lemma_scalar_channel_scale_translate(o: SpecOutputs, num: u32, text: Seq<char>, key: Seq<char>, ts: Seq<SpecToken>)
    requires
        spec_kv(text) == Some((key, ts)),
        key != "ochGetCommand"@,
        key != "ochBlockSize"@,
        ts.len() > 5,
        ts[0] == SpecToken::Bare("scalar"@),
    ensures
        och_line(o, num, text) matches Step::Next(o2, _) ==> o2.channels == keyed_insert(o.channels, key,
            SpecChannel::Scalar(
                spec_data_type(token_text(ts[1]))->0,
                if ts[2] == SpecToken::Bare("lastOffset"@) { "0"@ } else { number_text(ts[2])->0 },
                Some(spec_units(ts[3])->0),
                spec_num_or_expr(ts[4])->0,
                spec_num_or_expr(ts[5])->0,
            )),
        och_line(o, num, text) matches Step::Next(_, _) ==> spec_num_or_expr(ts[4]) is Some && spec_num_or_expr(ts[5]) is Some,
{
    reveal_strlit("scalar");
    reveal_strlit("bits");
    assert(spec_constant_class(ts) == Some(ConstantClass::Scalar));
    if och_line(o, num, text) is Next {
        let d = spec_constant_def(key, ConstantClass::Scalar, ts, None, Some("0"@), num)->0;
        lemma_scalar_units_scale_translate(key, ts, None, Some("0"@), num);
        let ch = SpecChannel::Scalar(d.ty, offset_or_zero(d), d.units, d.scale, d.translate);
        assert(och_line(o, num, text)->Next_0.channels == keyed_insert(o.channels, key, ch));
    }
}

proof fn lemma_number_key_is_only_that(k: Seq<char>)
    requires
        k == "nPages"@ || k == "blockingFactor"@ || k == "delayAfterPortOpen"@ || k == "blockReadTimeout"@
            || k == "interWriteDelay"@ || k == "pageActivationDelay"@,
    ensures
        !(k == "endianness"@ || k == "tableCrcCommand"@ || k == "messageEnvelopeFormat"@),
        is_number_key(k),
        k != "tsWriteBlocks"@,
{
    reveal_strlit("endianness");
    reveal_strlit("tableCrcCommand");
    reveal_strlit("messageEnvelopeFormat");
    reveal_strlit("nPages");
    reveal_strlit("blockingFactor");
    reveal_strlit("delayAfterPortOpen");
    reveal_strlit("blockReadTimeout");
    reveal_strlit("interWriteDelay");
    reveal_strlit("pageActivationDelay");
    reveal_strlit("tsWriteBlocks");
    assert(k[0] != "endianness"@[0] || k.len() != "endianness"@.len());
    assert(k[0] != "tableCrcCommand"@[0] || k.len() != "tableCrcCommand"@.len());
    assert(k[0] != "messageEnvelopeFormat"@[0]);
    assert(k[0] != "tsWriteBlocks"@[0] || k.len() != "tsWriteBlocks"@.len());
}

proof fn lemma_number_keys_distinct()
    ensures
        "nPages"@ != "blockingFactor"@,
        "nPages"@ != "delayAfterPortOpen"@,
        "nPages"@ != "blockReadTimeout"@,
        "nPages"@ != "interWriteDelay"@,
        "blockingFactor"@ != "delayAfterPortOpen"@,
        "blockingFactor"@ != "blockReadTimeout"@,
        "blockingFactor"@ != "interWriteDelay"@,
        "delayAfterPortOpen"@ != "blockReadTimeout"@,
        "delayAfterPortOpen"@ != "interWriteDelay"@,
        "blockReadTimeout"@ != "interWriteDelay"@,
        "pageActivationDelay"@ != "nPages"@,
        "pageActivationDelay"@ != "blockingFactor"@,
        "pageActivationDelay"@ != "delayAfterPortOpen"@,
        "pageActivationDelay"@ != "blockReadTimeout"@,
        "pageActivationDelay"@ != "interWriteDelay"@,
{
    reveal_strlit("nPages");
    reveal_strlit("blockingFactor");
    reveal_strlit("delayAfterPortOpen");
    reveal_strlit("blockReadTimeout");
    reveal_strlit("interWriteDelay");
    reveal_strlit("pageActivationDelay");
    assert("nPages"@.len() != "blockingFactor"@.len());
    assert("nPages"@[0] != "delayAfterPortOpen"@[0]);
    assert("nPages"@[0] != "blockReadTimeout"@[0]);
    assert("nPages"@[0] != "interWriteDelay"@[0]);
    assert("blockingFactor"@[0] != "delayAfterPortOpen"@[0]);
    assert("blockingFactor"@[5] != "blockReadTimeout"@[5]);
    assert("blockingFactor"@[0] != "interWriteDelay"@[0]);
    assert("delayAfterPortOpen"@[0] != "blockReadTimeout"@[0]);
    assert("delayAfterPortOpen"@[0] != "interWriteDelay"@[0]);
    assert("blockReadTimeout"@[0] != "interWriteDelay"@[0]);
    assert("pageActivationDelay"@[0] != "nPages"@[0]);
    assert("pageActivationDelay"@[0] != "blockingFactor"@[0]);
    assert("pageActivationDelay"@[0] != "delayAfterPortOpen"@[0]);
    assert("pageActivationDelay"@[0] != "blockReadTimeout"@[0]);
    assert("pageActivationDelay"@[0] != "interWriteDelay"@[0]);
}

/// Each number key of the `[Constants]` header, given a number first,
/// fills the field of its own name with that number's text and leaves
/// every other field as it was.
pub proof fn lemma_header_number_keys_fill_their_own_field(h: SpecHeader, ts: Seq<SpecToken>)
    requires
        ts.len() > 0,
        number_text(ts[0]) is Some,
    ensures
        ({
            let v = number_text(ts[0]);
            &&& spec_header_key(h, "nPages"@, ts) == Step::Next(SpecHeader { n_pages: v, ..h }, 0)
            &&& spec_header_key(h, "blockingFactor"@, ts) == Step::Next(SpecHeader { blocking_factor: v, ..h }, 0)
            &&& spec_header_key(h, "delayAfterPortOpen"@, ts) == Step::Next(SpecHeader { delay_after_port_open: v, ..h }, 0)
            &&& spec_header_key(h, "blockReadTimeout"@, ts) == Step::Next(SpecHeader { block_read_timeout: v, ..h }, 0)
            &&& spec_header_key(h, "interWriteDelay"@, ts) == Step::Next(SpecHeader { inter_write_delay: v, ..h }, 0)
            &&& spec_header_key(h, "pageActivationDelay"@, ts) == Step::Next(SpecHeader { page_activation_delay: v, ..h }, 0)
        }),
{
    lemma_number_keys_distinct();
    lemma_number_key_is_only_that("nPages"@);
    lemma_number_key_is_only_that("blockingFactor"@);
    lemma_number_key_is_only_that("delayAfterPortOpen"@);
    lemma_number_key_is_only_that("blockReadTimeout"@);
    lemma_number_key_is_only_that("interWriteDelay"@);
    lemma_number_key_is_only_that("pageActivationDelay"@);
}

} // verus!
