//! MegaLogViewer `.msl` datalog layout. Tab-separated, CRLF line endings,
//! three header lines (title / column labels / units), columns and formats
//! taken from the INI `[Datalog]` section. Rendering a value is the
//! caller's business; this module owns the line structure, both ways.

use vstd::prelude::*;
use vstd::string::StringExecFns;
use crate::text::{
    char_views, chars_of, first_index, join_chars, join_with, lemma_first_index, lemma_first_index_concat, push_chars, parse_uint, parse_uint_chars, slice_chars,
    split_chars, split_on, string_from_chars, string_views, to_strings, trim, trim_bounds,
};

verus! {

/// How one cell is rendered, from the INI's C-style format string.
#[derive(Debug, Clone, Copy, PartialEq, Eq, Structural)]
pub enum CellFormat {
    /// `"%d"` — rounded integer.
    Int,
    /// `"%.3f"` — fixed decimals.
    Fixed(u8),
}

/// `"%d"` is an integer; `"%.Nf"` with `N` a `u8` is `N` decimals;
/// anything else is three decimals. Surrounding whitespace is ignored.
pub open spec fn spec_cell_format(s: Seq<char>) -> CellFormat {
    let t = trim(s);
    if t == seq!['%', 'd'] {
        CellFormat::Int
    } else if t.len() >= 3 && t[0] == '%' && t[1] == '.' && t.last() == 'f'
        && parse_uint(t.subrange(2, t.len() - 1), 255) is Some {
        CellFormat::Fixed(parse_uint(t.subrange(2, t.len() - 1), 255).unwrap() as u8)
    } else {
        CellFormat::Fixed(3)
    }
}

impl CellFormat {
    /// Parse `"%d"` / `"%.1f"`; anything unrecognized logs as 3-decimal float.
    pub fn parse(s: &str) -> (f: CellFormat)
        ensures
            f == spec_cell_format(s@),
    {
        let v = chars_of(s);
        let (a, b) = trim_bounds(&v, 0, v.len());
        assert(v@.subrange(0, v@.len() as int) =~= v@);
        let ghost t = v@.subrange(a as int, b as int);
        if b - a == 2 && v[a] == '%' && v[a + 1] == 'd' {
            assert(t =~= seq!['%', 'd']);
            return CellFormat::Int;
        }
        if b - a >= 3 && v[a] == '%' && v[a + 1] == '.' && v[b - 1] == 'f' {
            assert(v@.subrange(a + 2, b - 1) =~= t.subrange(2, t.len() - 1));
            match parse_uint_chars(&v, a + 2, b - 1, 255) {
                Some(n) => {
                    return CellFormat::Fixed(n as u8);
                },
                None => {},
            }
        }
        CellFormat::Fixed(3)
    }
}

/// One `.msl` column: a [Datalog] entry resolved against the definition.
#[derive(Debug, Clone)]
pub struct Column {
    /// Output channel supplying the value.
    pub channel: String,
    /// Column header label.
    pub label: String,
    /// Units line text (may be empty).
    pub units: String,
    pub format: CellFormat,
}

// ------------------------------------------------------------ split / join

/// The text with every trailing `\r` removed (`trim_end_matches('\r')`).
pub open spec fn strip_cr_end(s: Seq<char>) -> Seq<char>
    decreases s.len(),
{
    if s.len() > 0 && s.last() == '\r' {
        strip_cr_end(s.drop_last())
    } else {
        s
    }
}

fn strip_cr(v: &Vec<char>) -> (r: Vec<char>)
    ensures
        r@ == strip_cr_end(v@),
{
    let mut e = v.len();
    assert(v@.take(e as int) =~= v@);
    while e > 0 && v[e - 1] == '\r'
        invariant
            e <= v@.len(),
            strip_cr_end(v@) == strip_cr_end(v@.take(e as int)),
        decreases e,
    {
        assert(v@.take(e as int).drop_last() =~= v@.take(e - 1));
        e = e - 1;
    }
    assert(v@.take(e as int) =~= v@.subrange(0, e as int));
    slice_chars(v, 0, e)
}

/// The lines of an `.msl` text: split at `\n`, trailing `\r`s removed.
pub open spec fn msl_lines(text: Seq<char>) -> Seq<Seq<char>> {
    split_on(text, '\n').map_values(|l: Seq<char>| strip_cr_end(l))
}

/// A `MARK` annotation line.
pub open spec fn starts_with_mark(l: Seq<char>) -> bool {
    l.len() >= 4 && l.take(4) == seq!['M', 'A', 'R', 'K']
}

/// The cells of the data lines: empty and `MARK` lines are skipped.
pub open spec fn data_rows(lines: Seq<Seq<char>>) -> Seq<Seq<Seq<char>>>
    decreases lines.len(),
{
    if lines.len() == 0 {
        seq![]
    } else {
        let rest = data_rows(lines.drop_last());
        let l = lines.last();
        if l.len() == 0 || starts_with_mark(l) {
            rest
        } else {
            rest.push(split_on(l, '\t'))
        }
    }
}

/// A parsed `.msl` text, cells still as text.
pub struct MslText {
    pub title: String,
    pub labels: Vec<String>,
    pub units: Vec<String>,
    /// The data lines' cells, in file order.
    pub rows: Vec<Vec<String>>,
}

pub open spec fn rows_view(v: Seq<Vec<String>>) -> Seq<Seq<Seq<char>>> {
    v.map_values(|r: Vec<String>| string_views(r@))
}

/// Title, labels, units and data cells of an `.msl` text, or the message
/// of what is missing.
pub open spec fn spec_read_msl(text: Seq<char>) -> Result<(Seq<char>, Seq<Seq<char>>, Seq<Seq<char>>, Seq<Seq<Seq<char>>>), Seq<char>> {
    let lines = msl_lines(text);
    if lines.len() < 2 {
        Err("missing label line"@)
    } else if split_on(lines[1], '\t').len() < 2 {
        Err("not an MSL file (no tab-separated labels)"@)
    } else if lines.len() < 3 {
        Err("missing units line"@)
    } else {
        Ok((lines[0], split_on(lines[1], '\t'), split_on(lines[2], '\t'), data_rows(lines.skip(3))))
    }
}

fn is_mark(l: &Vec<char>) -> (b: bool)
    ensures
        b == starts_with_mark(l@),
{
    if l.len() >= 4 && l[0] == 'M' && l[1] == 'A' && l[2] == 'R' && l[3] == 'K' {
        assert(l@.take(4) =~= seq!['M', 'A', 'R', 'K']);
        true
    } else {
        proof {
            if l@.len() >= 4 && l@.take(4) == seq!['M', 'A', 'R', 'K'] {
                assert(l@[0] == l@.take(4)[0]);
                assert(l@[1] == l@.take(4)[1]);
                assert(l@[2] == l@.take(4)[2]);
                assert(l@[3] == l@.take(4)[3]);
            }
        }
        false
    }
}

/// Split MSL text into its header lines and data cells. Accepts files
/// written by TunerStudio/MegaLogViewer too: "MARK" annotation lines and
/// empty lines are skipped; a row may have fewer cells than there are
/// columns.
pub fn split_msl(text: &str) -> (r: Result<MslText, String>)
    ensures
        match spec_read_msl(text@) {
            Ok((title, labels, units, rows)) => r matches Ok(m) && m.title@ == title
                && string_views(m.labels@) == labels && string_views(m.units@) == units
                && rows_view(m.rows@) == rows,
            Err(msg) => r matches Err(e) && e@ == msg,
        },
{
    let v = chars_of(text);
    let raw = split_chars(&v, 0, v.len(), '\n');
    assert(v@.subrange(0, v@.len() as int) =~= v@);
    let ghost all = msl_lines(text@);
    let mut lines: Vec<Vec<char>> = Vec::new();
    let mut i: usize = 0;
    while i < raw.len()
        invariant
            i <= raw@.len(),
            char_views(raw@) == split_on(text@, '\n'),
            all == msl_lines(text@),
            char_views(lines@) == all.take(i as int),
        decreases raw@.len() - i,
    {
        let l = strip_cr(&raw[i]);
        assert(raw@[i as int]@ == split_on(text@, '\n')[i as int]);
        assert(l@ == all[i as int]);
        let ghost before = lines@;
        lines.push(l);
        assert(char_views(lines@) =~= char_views(before).push(l@));
        assert(all.take(i + 1) =~= all.take(i as int).push(all[i as int]));
        i = i + 1;
    }
    assert(char_views(lines@) =~= all);
    if lines.len() < 2 {
        return Err(String::from_str("missing label line"));
    }
    let n1 = lines[1].len();
    let labels = split_chars(&lines[1], 0, n1, '\t');
    assert(lines@[1]@.subrange(0, n1 as int) =~= all[1]);
    if labels.len() < 2 {
        return Err(String::from_str("not an MSL file (no tab-separated labels)"));
    }
    if lines.len() < 3 {
        return Err(String::from_str("missing units line"));
    }
    let n2 = lines[2].len();
    let units = split_chars(&lines[2], 0, n2, '\t');
    assert(lines@[2]@.subrange(0, n2 as int) =~= all[2]);
    let mut rows: Vec<Vec<String>> = Vec::new();
    let mut k: usize = 3;
    while k < lines.len()
        invariant
            3 <= k <= lines@.len(),
            char_views(lines@) == all,
            rows_view(rows@) == data_rows(all.subrange(3, k as int)),
        decreases lines@.len() - k,
    {
        let ghost before = rows@;
        assert(all.subrange(3, k + 1).drop_last() =~= all.subrange(3, k as int));
        assert(lines@[k as int]@ == all[k as int]);
        if lines[k].len() != 0 && !is_mark(&lines[k]) {
            let nk = lines[k].len();
            let cells = split_chars(&lines[k], 0, nk, '\t');
            assert(lines@[k as int]@.subrange(0, nk as int) =~= all[k as int]);
            rows.push(to_strings(&cells));
            assert(rows_view(rows@) =~= rows_view(before).push(char_views(cells@)));
        }
        k = k + 1;
    }
    assert(all.subrange(3, lines@.len() as int) =~= all.skip(3));
    let title = string_from_chars(lines[0].as_slice());
    Ok(MslText { title, labels: to_strings(&labels), units: to_strings(&units), rows })
}

// ------------------------------------------------------------ writing

pub open spec fn crlf() -> Seq<char> {
    seq!['\r', '\n']
}

/// The three header lines: title, tab-separated labels, tab-separated units.
pub open spec fn header_spec(title: Seq<char>, labels: Seq<Seq<char>>, units: Seq<Seq<char>>) -> Seq<char> {
    title + crlf() + join_with(labels, '\t') + crlf() + join_with(units, '\t') + crlf()
}

/// One data line: the rendered cells, tab-separated.
pub open spec fn row_spec(cells: Seq<Seq<char>>) -> Seq<char> {
    join_with(cells, '\t') + crlf()
}

pub open spec fn cell_view(c: Option<String>) -> Seq<char> {
    match c {
        Some(s) => s@,
        None => seq![],
    }
}

pub open spec fn column_labels(cols: Seq<Column>) -> Seq<Seq<char>> {
    cols.map_values(|c: Column| c.label@)
}

pub open spec fn column_units(cols: Seq<Column>) -> Seq<Seq<char>> {
    cols.map_values(|c: Column| c.units@)
}

/// The three-line MSL header for a log with these columns.
pub fn msl_header(title: &str, columns: &Vec<Column>) -> (s: String)
    ensures
        s@ == header_spec(title@, column_labels(columns@), column_units(columns@)),
{
    let mut labels: Vec<Vec<char>> = Vec::new();
    let mut units: Vec<Vec<char>> = Vec::new();
    let mut i: usize = 0;
    while i < columns.len()
        invariant
            i <= columns@.len(),
            char_views(labels@) == column_labels(columns@).take(i as int),
            char_views(units@) == column_units(columns@).take(i as int),
        decreases columns@.len() - i,
    {
        let l = chars_of(columns[i].label.as_str());
        let u = chars_of(columns[i].units.as_str());
        let ghost (bl, bu) = (labels@, units@);
        labels.push(l);
        units.push(u);
        assert(char_views(labels@) =~= char_views(bl).push(l@));
        assert(char_views(units@) =~= char_views(bu).push(u@));
        assert(column_labels(columns@).take(i + 1) =~= column_labels(columns@).take(i as int).push(l@));
        assert(column_units(columns@).take(i + 1) =~= column_units(columns@).take(i as int).push(u@));
        i = i + 1;
    }
    assert(column_labels(columns@).take(columns@.len() as int) =~= column_labels(columns@));
    assert(column_units(columns@).take(columns@.len() as int) =~= column_units(columns@));
    let mut out = chars_of(title);
    out.push('\r');
    out.push('\n');
    push_chars(&mut out, &join_chars(&labels, '\t'));
    out.push('\r');
    out.push('\n');
    push_chars(&mut out, &join_chars(&units, '\t'));
    out.push('\r');
    out.push('\n');
    let s = string_from_chars(out.as_slice());
    assert(s@ =~= header_spec(title@, column_labels(columns@), column_units(columns@)));
    s
}

/// One data line from already rendered cells; `None` leaves a cell empty
/// (the channel failed to decode this frame).
pub fn msl_row(cells: &Vec<Option<String>>) -> (s: String)
    ensures
        s@ == row_spec(cells@.map_values(|c: Option<String>| cell_view(c))),
{
    let ghost want = cells@.map_values(|c: Option<String>| cell_view(c));
    let mut parts: Vec<Vec<char>> = Vec::new();
    let mut i: usize = 0;
    while i < cells.len()
        invariant
            i <= cells@.len(),
            want == cells@.map_values(|c: Option<String>| cell_view(c)),
            char_views(parts@) == want.take(i as int),
        decreases cells@.len() - i,
    {
        let p = match &cells[i] {
            Some(c) => chars_of(c.as_str()),
            None => Vec::new(),
        };
        assert(p@ == want[i as int]);
        let ghost before = parts@;
        parts.push(p);
        assert(char_views(parts@) =~= char_views(before).push(p@));
        assert(want.take(i + 1) =~= want.take(i as int).push(want[i as int]));
        i = i + 1;
    }
    assert(want.take(cells@.len() as int) =~= want);
    let mut out = join_chars(&parts, '\t');
    out.push('\r');
    out.push('\n');
    let s = string_from_chars(out.as_slice());
    assert(s@ =~= row_spec(want));
    s
}

// ------------------------------------------------------------ reading back

/// Text that can stand in one cell: no tab, line feed or carriage return.
pub open spec fn plain(s: Seq<char>) -> bool {
    forall|i: int| 0 <= i < s.len() ==> s[i] != '\t' && s[i] != '\n' && s[i] != '\r'
}

/// The data lines of a log, in order.
pub open spec fn rows_text(rows: Seq<Seq<Seq<char>>>) -> Seq<char>
    decreases rows.len(),
{
    if rows.len() == 0 {
        seq![]
    } else {
        row_spec(rows[0]) + rows_text(rows.drop_first())
    }
}

proof fn lemma_split_cons(a: Seq<char>, b: Seq<char>, sep: char)
    requires
        forall|i: int| 0 <= i < a.len() ==> a[i] != sep,
    ensures
        split_on(a + seq![sep] + b, sep) == seq![a] + split_on(b, sep),
{
    let t = a + seq![sep] + b;
    assert(t =~= a + (seq![sep] + b));
    lemma_first_index_concat(a, seq![sep] + b, sep);
    assert((seq![sep] + b)[0] == sep);
    assert(first_index(seq![sep] + b, sep) == Some(0nat));
    assert(t.take(a.len() as int) =~= a);
    assert(t.skip(a.len() + 1 as int) =~= b);
}

proof fn lemma_split_single(a: Seq<char>, sep: char)
    requires
        forall|i: int| 0 <= i < a.len() ==> a[i] != sep,
    ensures
        split_on(a, sep) == seq![a],
{
    lemma_first_index(a, sep);
}

/// Whether `c` occurs nowhere in `s`.
pub open spec fn lacks(s: Seq<char>, c: char) -> bool {
    forall|i: int| 0 <= i < s.len() ==> s[i] != c
}

proof fn lemma_join_lacks(parts: Seq<Seq<char>>, sep: char, c: char)
    requires
        sep != c,
        forall|k: int| 0 <= k < parts.len() ==> lacks(#[trigger] parts[k], c),
    ensures
        lacks(join_with(parts, sep), c),
    decreases parts.len(),
{
    if parts.len() > 1 {
        lemma_join_lacks(parts.drop_first(), sep, c);
        let j = parts[0] + seq![sep] + join_with(parts.drop_first(), sep);
        assert forall|i: int| 0 <= i < j.len() implies j[i] != c by {
            if i < parts[0].len() {
                assert(lacks(parts[0], c));
            } else if i > parts[0].len() {
                assert(j[i] == join_with(parts.drop_first(), sep)[i - parts[0].len() - 1]);
            }
        }
    } else if parts.len() == 1 {
        assert(lacks(parts[0], c));
    }
}

proof fn lemma_split_join(parts: Seq<Seq<char>>, sep: char)
    requires
        parts.len() >= 1,
        forall|k: int| 0 <= k < parts.len() ==> lacks(#[trigger] parts[k], sep),
    ensures
        split_on(join_with(parts, sep), sep) == parts,
    decreases parts.len(),
{
    if parts.len() == 1 {
        assert(lacks(parts[0], sep));
        lemma_split_single(parts[0], sep);
        assert(seq![parts[0]] =~= parts);
    } else {
        assert(lacks(parts[0], sep));
        lemma_split_join(parts.drop_first(), sep);
        lemma_split_cons(parts[0], join_with(parts.drop_first(), sep), sep);
        assert(seq![parts[0]] + parts.drop_first() =~= parts);
    }
}

proof fn lemma_plain_lacks(s: Seq<char>)
    requires
        plain(s),
    ensures
        lacks(s, '\t'),
        lacks(s, '\n'),
        lacks(s, '\r'),
{
}

/// The lines of the data part, each still carrying its `\r`, then the
/// empty piece after the last line feed.
proof fn lemma_split_rows(rows: Seq<Seq<Seq<char>>>)
    requires
        forall|k: int, j: int| 0 <= k < rows.len() && 0 <= j < rows[k].len() ==> plain(#[trigger] rows[k][j]),
    ensures
        split_on(rows_text(rows), '\n') == cr_lines(rows).push(seq![]),
    decreases rows.len(),
{
    if rows.len() == 0 {
        lemma_split_single(seq![], '\n');
        assert(cr_lines(rows).push(seq![]) =~= seq![seq![]]);
    } else {
        let r0 = rows[0];
        assert forall|j: int| 0 <= j < r0.len() implies lacks(#[trigger] r0[j], '\n') by {
            assert(plain(rows[0][j]));
        }
        lemma_join_lacks(r0, '\t', '\n');
        let a = join_with(r0, '\t').push('\r');
        assert(lacks(a, '\n'));
        lemma_split_rows(rows.drop_first());
        assert(rows_text(rows) =~= a + seq!['\n'] + rows_text(rows.drop_first()));
        lemma_split_cons(a, rows_text(rows.drop_first()), '\n');
        assert(cr_lines(rows).push(seq![]) =~= seq![a] + cr_lines(rows.drop_first()).push(seq![]));
    }
}

proof fn lemma_not_mark(r: Seq<Seq<char>>)
    requires
        r.len() >= 2,
        !starts_with_mark(r[0]),
        lacks(r[0], '\t'),
    ensures
        join_with(r, '\t').len() > 0,
        !starts_with_mark(join_with(r, '\t')),
{
    let j = join_with(r, '\t');
    assert(j == r[0] + seq!['\t'] + join_with(r.drop_first(), '\t'));
    assert(j[r[0].len() as int] == '\t');
    if starts_with_mark(j) {
        if r[0].len() >= 4 {
            assert(r[0].take(4) =~= j.take(4));
        } else {
            assert(j.take(4)[r[0].len() as int] == j[r[0].len() as int]);
        }
    }
}

proof fn lemma_data_rows(rows: Seq<Seq<Seq<char>>>)
    requires
        forall|k: int| 0 <= k < rows.len() ==> (#[trigger] rows[k]).len() >= 2 && !starts_with_mark(rows[k][0]),
        forall|k: int, j: int| 0 <= k < rows.len() && 0 <= j < rows[k].len() ==> plain(#[trigger] rows[k][j]),
    ensures
        data_rows(joined_rows(rows)) == rows,
    decreases rows.len(),
{
    if rows.len() > 0 {
        let n = rows.len() - 1;
        let last = rows[n];
        lemma_data_rows(rows.drop_last());
        assert(joined_rows(rows).drop_last() =~= joined_rows(rows.drop_last()));
        assert forall|j: int| 0 <= j < last.len() implies lacks(#[trigger] last[j], '\t') by {
            assert(plain(rows[n][j]));
        }
        lemma_not_mark(last);
        lemma_split_join(last, '\t');
        assert(rows.drop_last().push(last) =~= rows);
    } else {
        assert(joined_rows(rows) =~= Seq::<Seq<char>>::empty());
    }
}

proof fn lemma_strip_pushed_cr(x: Seq<char>)
    requires
        lacks(x, '\r'),
    ensures
        strip_cr_end(x.push('\r')) == x,
{
    assert(x.push('\r').drop_last() =~= x);
    assert(x.push('\r').last() == '\r');
    if x.len() > 0 {
        assert(x.last() != '\r');
    }
    assert(strip_cr_end(x) == x);
    assert(strip_cr_end(x.push('\r')) == strip_cr_end(x.push('\r').drop_last()));
}

/// The carriage-return-terminated lines of the rows.
pub open spec fn cr_lines(rows: Seq<Seq<Seq<char>>>) -> Seq<Seq<char>> {
    rows.map_values(|r: Seq<Seq<char>>| join_with(r, '\t').push('\r'))
}

pub open spec fn joined_rows(rows: Seq<Seq<Seq<char>>>) -> Seq<Seq<char>> {
    rows.map_values(|r: Seq<Seq<char>>| join_with(r, '\t'))
}

proof fn lemma_msl_split(title: Seq<char>, labels: Seq<Seq<char>>, units: Seq<Seq<char>>, rows: Seq<Seq<Seq<char>>>)
    requires
        lacks(title, '\n'),
        lacks(join_with(labels, '\t'), '\n'),
        lacks(join_with(units, '\t'), '\n'),
        forall|k: int, j: int| 0 <= k < rows.len() && 0 <= j < rows[k].len() ==> plain(#[trigger] rows[k][j]),
    ensures
        split_on(header_spec(title, labels, units) + rows_text(rows), '\n')
            == seq![title.push('\r'), join_with(labels, '\t').push('\r'), join_with(units, '\t').push('\r')]
                + cr_lines(rows).push(seq![]),
{
    let body = rows_text(rows);
    let t1 = title.push('\r');
    let l1 = join_with(labels, '\t').push('\r');
    let u1 = join_with(units, '\t').push('\r');
    assert(header_spec(title, labels, units) + body =~= t1 + seq!['\n'] + (l1 + seq!['\n'] + (u1 + seq!['\n'] + body)));
    lemma_split_cons(u1, body, '\n');
    lemma_split_cons(l1, u1 + seq!['\n'] + body, '\n');
    lemma_split_cons(t1, l1 + seq!['\n'] + (u1 + seq!['\n'] + body), '\n');
    lemma_split_rows(rows);
    assert(seq![t1] + (seq![l1] + (seq![u1] + cr_lines(rows).push(seq![])))
        =~= seq![t1, l1, u1] + cr_lines(rows).push(seq![]));
}

#[verifier::rlimit(30)]
proof fn lemma_msl_lines(title: Seq<char>, labels: Seq<Seq<char>>, units: Seq<Seq<char>>, rows: Seq<Seq<Seq<char>>>)
    requires
        lacks(title, '\n'),
        lacks(title, '\r'),
        lacks(join_with(labels, '\t'), '\n'),
        lacks(join_with(labels, '\t'), '\r'),
        lacks(join_with(units, '\t'), '\n'),
        lacks(join_with(units, '\t'), '\r'),
        forall|k: int, j: int| 0 <= k < rows.len() && 0 <= j < rows[k].len() ==> plain(#[trigger] rows[k][j]),
    ensures
        msl_lines(header_spec(title, labels, units) + rows_text(rows))
            == seq![title, join_with(labels, '\t'), join_with(units, '\t')] + joined_rows(rows).push(seq![]),
{
    lemma_msl_split(title, labels, units, rows);
    let pieces = split_on(header_spec(title, labels, units) + rows_text(rows), '\n');
    let want = seq![title, join_with(labels, '\t'), join_with(units, '\t')] + joined_rows(rows).push(seq![]);
    lemma_strip_pushed_cr(title);
    lemma_strip_pushed_cr(join_with(labels, '\t'));
    lemma_strip_pushed_cr(join_with(units, '\t'));
    assert forall|k: int| 0 <= k < rows.len() implies strip_cr_end(#[trigger] cr_lines(rows)[k]) == joined_rows(rows)[k] by {
        let r = rows[k];
        assert forall|j: int| 0 <= j < r.len() implies lacks(#[trigger] r[j], '\r') by {
            assert(plain(rows[k][j]));
        }
        lemma_join_lacks(r, '\t', '\r');
        lemma_strip_pushed_cr(join_with(r, '\t'));
    }
    let lines = msl_lines(header_spec(title, labels, units) + rows_text(rows));
    assert forall|k: int| 0 <= k < want.len() implies lines[k] == want[k] by {
        if 3 <= k < 3 + rows.len() {
            assert(pieces[k] == cr_lines(rows)[k - 3]);
            assert(strip_cr_end(cr_lines(rows)[k - 3]) == joined_rows(rows)[k - 3]);
        } else if k == 3 + rows.len() {
            assert(pieces[k] == Seq::<char>::empty());
        }
    }
    assert(lines =~= want);
}

/// What the writer produces the reader gives back: a log of a title,
/// at least two labels, units and rows of at least two cells, none of
/// them holding a tab or a line break and no row opening with `MARK`,
/// reads back as exactly that title, those labels, units and rows.
pub proof fn lemma_msl_round_trip(
    title: Seq<char>,
    labels: Seq<Seq<char>>,
    units: Seq<Seq<char>>,
    rows: Seq<Seq<Seq<char>>>,
)
    requires
        plain(title),
        labels.len() >= 2,
        units.len() >= 1,
        forall|i: int| 0 <= i < labels.len() ==> plain(#[trigger] labels[i]),
        forall|i: int| 0 <= i < units.len() ==> plain(#[trigger] units[i]),
        forall|k: int| 0 <= k < rows.len() ==> (#[trigger] rows[k]).len() >= 2 && !starts_with_mark(rows[k][0]),
        forall|k: int, j: int| 0 <= k < rows.len() && 0 <= j < rows[k].len() ==> plain(#[trigger] rows[k][j]),
    ensures
        spec_read_msl(header_spec(title, labels, units) + rows_text(rows)) == Ok::<_, Seq<char>>((title, labels, units, rows)),
{
    assert forall|i: int| 0 <= i < labels.len() implies lacks(#[trigger] labels[i], '\t') && lacks(labels[i], '\n') && lacks(labels[i], '\r') by {
        lemma_plain_lacks(labels[i]);
    }
    assert forall|i: int| 0 <= i < units.len() implies lacks(#[trigger] units[i], '\t') && lacks(units[i], '\n') && lacks(units[i], '\r') by {
        lemma_plain_lacks(units[i]);
    }
    lemma_join_lacks(labels, '\t', '\n');
    lemma_join_lacks(labels, '\t', '\r');
    lemma_join_lacks(units, '\t', '\n');
    lemma_join_lacks(units, '\t', '\r');
    lemma_split_join(labels, '\t');
    lemma_split_join(units, '\t');
    lemma_plain_lacks(title);
    lemma_msl_lines(title, labels, units, rows);
    let lines = msl_lines(header_spec(title, labels, units) + rows_text(rows));
    assert(lines[0] == title);
    assert(lines[1] == join_with(labels, '\t'));
    assert(lines[2] == join_with(units, '\t'));
    assert(lines.skip(3) =~= joined_rows(rows).push(seq![]));
    lemma_data_rows(rows);
    assert(lines.skip(3).drop_last() =~= joined_rows(rows));
}

} // verus!
