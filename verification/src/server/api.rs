//! Serial-port discovery naming, the request and response shapes of the
//! HTTP API, the tuning lock, and where a changed constant shows.

use vstd::prelude::*;
use vstd::string::StringExecFns;
use crate::proto::session::Mode;
use crate::ini::curves::{CurveDef, SpecCurve};
use crate::ini::tables::{SpecTable, TableDef};
use crate::ini::ui::keyed_view;
use crate::text::{
    append_chars, decimal, decimal_chars, ascii_lower, chars_le, chars_leq, chars_of, contains_str, has_infix, has_prefix, lemma_chars_le_total,
    lemma_chars_le_transitive, lower_chars, split_chars, split_on, starts_with_str, string_views, trim, trimmed,
};

verus! {

broadcast use vstd::seq_lib::group_to_multiset_ensures;

#[derive(Debug, Clone)]
pub struct PortInfo {
    pub path: String,
    /// Looks like a USB serial adapter (sorted first in the picker).
    pub usb: bool,
}

/// macOS callout devices and Linux USB/ACM/UART serial nodes.
pub open spec fn spec_is_serial_name(n: Seq<char>) -> bool {
    has_prefix(n, "cu."@) || has_prefix(n, "ttyUSB"@) || has_prefix(n, "ttyACM"@) || has_prefix(n, "ttyAMA"@)
}

/// The name, ASCII-lowercased, mentions a USB serial chip or driver.
pub open spec fn spec_looks_usb(n: Seq<char>) -> bool {
    let l = n.map_values(|c: char| ascii_lower(c));
    has_infix(l, "usbserial"@) || has_infix(l, "usbmodem"@) || has_infix(l, "wchusb"@)
        || has_infix(l, "slab"@) || has_infix(l, "ttyusb"@) || has_infix(l, "ttyacm"@)
}

pub fn is_serial_name(name: &str) -> (r: bool)
    ensures
        r == spec_is_serial_name(name@),
{
    let v = chars_of(name);
    starts_with_str(&v, "cu.") || starts_with_str(&v, "ttyUSB") || starts_with_str(&v, "ttyACM")
        || starts_with_str(&v, "ttyAMA")
}

pub fn looks_usb(name: &str) -> (r: bool)
    ensures
        r == spec_looks_usb(name@),
{
    let v = chars_of(name);
    let l = lower_chars(&v);
    contains_str(&l, "usbserial") || contains_str(&l, "usbmodem") || contains_str(&l, "wchusb")
        || contains_str(&l, "slab") || contains_str(&l, "ttyusb") || contains_str(&l, "ttyacm")
}

pub open spec fn port_view(p: PortInfo) -> (bool, Seq<char>) {
    (p.usb, p.path@)
}

pub open spec fn ports_view(v: Seq<PortInfo>) -> Seq<(bool, Seq<char>)> {
    v.map_values(|p: PortInfo| port_view(p))
}

/// Picker order: USB adapters first, then by path.
pub open spec fn port_le(a: (bool, Seq<char>), b: (bool, Seq<char>)) -> bool {
    (a.0 && !b.0) || (a.0 == b.0 && chars_le(a.1, b.1))
}

pub open spec fn ports_sorted(s: Seq<(bool, Seq<char>)>) -> bool {
    forall|i: int, j: int| 0 <= i < j < s.len() ==> port_le(s[i], s[j])
}

/// The serial device entries of a `/dev` listing, in listing order.
pub open spec fn dev_ports(names: Seq<String>) -> Seq<(bool, Seq<char>)>
    decreases names.len(),
{
    if names.len() == 0 {
        seq![]
    } else {
        let rest = dev_ports(names.drop_last());
        let n = names.last()@;
        if spec_is_serial_name(n) {
            rest.push((spec_looks_usb(n), "/dev/"@ + n))
        } else {
            rest
        }
    }
}

/// The simulated-ECU entries of a `/tmp` listing (`rustytune-sim*`), in
/// listing order.
pub open spec fn sim_ports(names: Seq<String>) -> Seq<(bool, Seq<char>)>
    decreases names.len(),
{
    if names.len() == 0 {
        seq![]
    } else {
        let rest = sim_ports(names.drop_last());
        let n = names.last()@;
        if has_prefix(n, "rustytune-sim"@) {
            rest.push((false, "/tmp/"@ + n))
        } else {
            rest
        }
    }
}

fn port_leq(a: &PortInfo, b: &PortInfo) -> (r: bool)
    ensures
        r == port_le(port_view(*a), port_view(*b)),
{
    if a.usb != b.usb {
        return a.usb;
    }
    let pa = chars_of(a.path.as_str());
    let pb = chars_of(b.path.as_str());
    chars_leq(&pa, &pb)
}

proof fn lemma_port_le_total(a: (bool, Seq<char>), b: (bool, Seq<char>))
    ensures
        port_le(a, b) || port_le(b, a),
{
    lemma_chars_le_total(a.1, b.1);
}

proof fn lemma_port_le_transitive(a: (bool, Seq<char>), b: (bool, Seq<char>), c: (bool, Seq<char>))
    requires
        port_le(a, b),
        port_le(b, c),
    ensures
        port_le(a, c),
{
    if a.0 == b.0 && b.0 == c.0 {
        lemma_chars_le_transitive(a.1, b.1, c.1);
    }
}

/// Insert `p` into the sorted list, after every entry that does not sort
/// after it.
fn insert_sorted(out: &mut Vec<PortInfo>, p: PortInfo)
    requires
        ports_sorted(ports_view(old(out)@)),
    ensures
        ports_sorted(ports_view(final(out)@)),
        ports_view(final(out)@).to_multiset() == ports_view(old(out)@).to_multiset().insert(port_view(p)),
        final(out)@.len() == old(out)@.len() + 1,
{
    let ghost s = ports_view(out@);
    let ghost x = port_view(p);
    let mut j = out.len();
    while j > 0 && !port_leq(&out[j - 1], &p)
        invariant
            j <= out@.len(),
            s == ports_view(out@),
            x == port_view(p),
            forall|k: int| j <= k < s.len() ==> !port_le(#[trigger] s[k], x),
        decreases j,
    {
        assert(s[j - 1] == port_view(out@[j - 1]));
        j = j - 1;
    }
    proof {
        assert forall|k: int| j <= k < s.len() implies port_le(x, #[trigger] s[k]) by {
            lemma_port_le_total(s[k], x);
        }
        if j > 0 {
            assert forall|k: int| 0 <= k < j implies port_le(#[trigger] s[k], x) by {
                if k < j - 1 {
                    lemma_port_le_transitive(s[k], s[j - 1], x);
                }
            }
        }
    }
    out.insert(j, p);
    proof {
        let t = ports_view(out@);
        assert(t =~= s.insert(j as int, x));
        assert forall|a: int, b: int| 0 <= a < b < t.len() implies port_le(t[a], t[b]) by {
            if b < j {
            } else if a < j && b == j {
            } else if a < j && b > j {
                assert(t[b] == s[b - 1]);
                lemma_port_le_transitive(s[a], x, s[b - 1]);
            } else if a == j {
                assert(t[b] == s[b - 1]);
            } else {
                assert(t[a] == s[a - 1] && t[b] == s[b - 1]);
            }
        }
    }
}

fn prefixed(prefix: &str, name: &String) -> (s: String)
    ensures
        s@ == prefix@ + name@,
{
    let mut s = String::from_str(prefix);
    s.append(name.as_str());
    s
}

/// The serial-port picker's entries: the serial devices among the `/dev`
/// names (USB adapters first, then by path), then the fake-ECU pty links
/// among the `/tmp` names in listing order.
pub fn port_list(dev_names: &Vec<String>, tmp_names: &Vec<String>) -> (r: Vec<PortInfo>)
    ensures
        ({
            let n = dev_ports(dev_names@).len();
            &&& r@.len() == n + sim_ports(tmp_names@).len()
            &&& ports_sorted(ports_view(r@.take(n as int)))
            &&& ports_view(r@.take(n as int)).to_multiset() == dev_ports(dev_names@).to_multiset()
            &&& ports_view(r@.skip(n as int)) == sim_ports(tmp_names@)
        }),
{
    let mut out: Vec<PortInfo> = Vec::new();
    let mut i: usize = 0;
    while i < dev_names.len()
        invariant
            i <= dev_names@.len(),
            ports_sorted(ports_view(out@)),
            ports_view(out@).to_multiset() == dev_ports(dev_names@.take(i as int)).to_multiset(),
            out@.len() == dev_ports(dev_names@.take(i as int)).len(),
        decreases dev_names@.len() - i,
    {
        assert(dev_names@.take(i + 1).drop_last() =~= dev_names@.take(i as int));
        if is_serial_name(dev_names[i].as_str()) {
            let p = PortInfo { path: prefixed("/dev/", &dev_names[i]), usb: looks_usb(dev_names[i].as_str()) };
            insert_sorted(&mut out, p);
        }
        i = i + 1;
    }
    assert(dev_names@.take(dev_names@.len() as int) =~= dev_names@);
    let ghost n = out@.len();
    let ghost devs = out@;
    let mut k: usize = 0;
    while k < tmp_names.len()
        invariant
            k <= tmp_names@.len(),
            n <= out@.len(),
            out@.take(n as int) == devs,
            ports_view(out@.skip(n as int)) == sim_ports(tmp_names@.take(k as int)),
        decreases tmp_names@.len() - k,
    {
        assert(tmp_names@.take(k + 1).drop_last() =~= tmp_names@.take(k as int));
        let name = chars_of(tmp_names[k].as_str());
        if starts_with_str(&name, "rustytune-sim") {
            let ghost before = out@;
            out.push(PortInfo { path: prefixed("/tmp/", &tmp_names[k]), usb: false });
            assert(out@.take(n as int) =~= before.take(n as int));
            assert(ports_view(out@.skip(n as int)) =~= ports_view(before.skip(n as int)).push(port_view(out@.last())));
        }
        k = k + 1;
    }
    assert(tmp_names@.take(tmp_names@.len() as int) =~= tmp_names@);
    out
}

// ------------------------------------------------------------ connecting

pub struct ConnectReq {
    pub port: String,
    pub baud: u32,
    /// "primary" (USB, CRC envelope) or "secondary" (SER3, raw).
    pub mode: String,
    pub poll_ms: u64,
}

pub fn default_baud() -> (b: u32)
    ensures
        b == 115_200,
{
    115_200
}

pub fn default_mode() -> (m: String)
    ensures
        m@ == "primary"@,
{
    String::from_str("primary")
}

pub fn default_poll_ms() -> (ms: u64)
    ensures
        ms == 50,
{
    50
}

/// The wiring a connect request names.
pub fn connect_mode(mode: &str) -> (r: Result<Mode, String>)
    ensures
        mode@ == "primary"@ ==> r == Ok::<Mode, String>(Mode::Primary),
        mode@ == "secondary"@ ==> r == Ok::<Mode, String>(Mode::Secondary),
        mode@ != "primary"@ && mode@ != "secondary"@ ==> (r matches Err(m)
            && m@ == "unknown mode `"@ + mode@ + "` (want primary|secondary)"@),
{
    proof {
        reveal_strlit("primary");
        reveal_strlit("secondary");
        assert("primary"@.len() != "secondary"@.len());
    }
    let v = chars_of(mode);
    if crate::text::chars_are(&v, "primary") {
        Ok(Mode::Primary)
    } else if crate::text::chars_are(&v, "secondary") {
        Ok(Mode::Secondary)
    } else {
        let mut m = String::from_str("unknown mode `");
        m.append(mode);
        m.append("` (want primary|secondary)");
        Err(m)
    }
}

/// Why a connect request is refused before any port is opened.
#[derive(Debug)]
pub enum ConnectRefusal {
    /// The mode is neither `primary` nor `secondary`; the message says so.
    UnknownMode(String),
    /// An offline tune has unsaved edits, which connecting would drop.
    UnsavedOffline,
    /// A worker is running and the ECU is connected.
    AlreadyConnected,
}

/// The checks a connect request passes before the port is opened, in
/// order: the mode must be known; an offline tune must have no unsaved
/// edits; and no connected worker may be running (a worker left from a
/// lost connection is reaped instead). On success, the mode to connect in.
pub fn connect_gate(mode: &str, offline: bool, any_dirty: bool, has_worker: bool, connected: bool) -> (r: Result<Mode, ConnectRefusal>)
    ensures
        mode@ != "primary"@ && mode@ != "secondary"@ ==> (r matches Err(ConnectRefusal::UnknownMode(m))
            && m@ == "unknown mode `"@ + mode@ + "` (want primary|secondary)"@),
        mode@ == "primary"@ || mode@ == "secondary"@ ==> {
            if offline && any_dirty {
                r matches Err(ConnectRefusal::UnsavedOffline)
            } else if has_worker && connected {
                r matches Err(ConnectRefusal::AlreadyConnected)
            } else if mode@ == "primary"@ {
                r == Ok::<Mode, ConnectRefusal>(Mode::Primary)
            } else {
                r == Ok::<Mode, ConnectRefusal>(Mode::Secondary)
            }
        },
{
    let m = match connect_mode(mode) {
        Ok(m) => m,
        Err(e) => return Err(ConnectRefusal::UnknownMode(e)),
    };
    if offline && any_dirty {
        return Err(ConnectRefusal::UnsavedOffline);
    }
    if has_worker && connected {
        return Err(ConnectRefusal::AlreadyConnected);
    }
    Ok(m)
}

/// The poll period a request asks for, held to 20..=1000 ms.
pub fn poll_interval_ms(ms: u64) -> (r: u64)
    ensures
        r == if ms < 20 {
            20
        } else if ms > 1000 {
            1000
        } else {
            ms
        },
{
    if ms < 20 {
        20
    } else if ms > 1000 {
        1000
    } else {
        ms
    }
}

// ------------------------------------------------------------ tuning lock

pub open spec fn holder_view(w: Option<String>) -> Option<Seq<char>> {
    match w {
        Some(h) => Some(h@),
        None => None,
    }
}

/// Taking the lock: granted when free (the client becomes the holder) or
/// already held by the same client; refused otherwise, lock unchanged.
pub open spec fn spec_acquire(w: Option<Seq<char>>, id: Seq<char>) -> (Option<Seq<char>>, bool) {
    match w {
        None => (Some(id), true),
        Some(h) => (w, h == id),
    }
}

/// Releasing: only the holder frees the lock.
pub open spec fn spec_release(w: Option<Seq<char>>, id: Seq<char>) -> Option<Seq<char>> {
    match w {
        Some(h) => if h == id {
            None
        } else {
            w
        },
        None => None,
    }
}

/// First writer takes the lock; everyone else is read-only until release.
pub fn acquire_writer(writer: &mut Option<String>, id: &str) -> (ok: bool)
    ensures
        (holder_view(*final(writer)), ok) == spec_acquire(holder_view(*old(writer)), id@),
{
    let idv = String::from_str(id);
    match writer {
        None => {
            *writer = Some(idv);
            true
        },
        Some(h) => *h == idv,
    }
}

/// Give the lock up, if `id` holds it.
pub fn release_writer(writer: &mut Option<String>, id: &str)
    ensures
        holder_view(*final(writer)) == spec_release(holder_view(*old(writer)), id@),
{
    let idv = String::from_str(id);
    let free = match writer {
        Some(h) => *h == idv,
        None => false,
    };
    if free {
        *writer = None;
    }
}

/// The lock is exclusive: once one client holds it, a different client is
/// refused and the holder stays; the holder's release frees it for anyone.
pub proof fn lemma_writer_lock(w: Option<Seq<char>>, a: Seq<char>, b: Seq<char>)
    requires
        spec_acquire(w, a).1,
        a != b,
    ensures
        spec_acquire(w, a).0 == Some(a),
        !spec_acquire(spec_acquire(w, a).0, b).1,
        spec_acquire(spec_acquire(w, a).0, b).0 == Some(a),
        spec_release(spec_acquire(w, a).0, b) == Some(a),
        spec_acquire(spec_release(spec_acquire(w, a).0, a), b) == (Some(b), true),
{
}

// ------------------------------------------------------------ queries

/// The comma-separated names of a `?names=` query, each trimmed.
pub open spec fn spec_split_names(s: Seq<char>) -> Seq<Seq<char>> {
    split_on(s, ',').map_values(|n: Seq<char>| trim(n))
}

pub fn split_names(names: &str) -> (r: Vec<String>)
    ensures
        string_views(r@) == spec_split_names(names@),
{
    let v = chars_of(names);
    let parts = split_chars(&v, 0, v.len(), ',');
    assert(v@.subrange(0, v@.len() as int) =~= v@);
    let ghost want = spec_split_names(names@);
    let mut out: Vec<String> = Vec::new();
    let mut i: usize = 0;
    while i < parts.len()
        invariant
            i <= parts@.len(),
            crate::text::char_views(parts@) == split_on(names@, ','),
            want == spec_split_names(names@),
            string_views(out@) == want.take(i as int),
        decreases parts@.len() - i,
    {
        let n = parts[i].len();
        let t = trimmed(&parts[i], 0, n);
        assert(parts@[i as int]@.subrange(0, n as int) =~= parts@[i as int]@);
        assert(parts@[i as int]@ == split_on(names@, ',')[i as int]);
        let s = crate::text::string_from_chars(t.as_slice());
        let ghost before = out@;
        out.push(s);
        assert(string_views(out@) =~= string_views(before).push(s@));
        assert(want.take(i + 1) =~= want.take(i as int).push(want[i as int]));
        i = i + 1;
    }
    assert(want.take(parts@.len() as int) =~= want);
    out
}

pub struct TableInfo {
    pub id: String,
    pub title: String,
}

pub struct NamesQuery {
    pub names: String,
}

pub struct MsqUploadReq {
    pub filename: String,
    /// Full file text (client decodes ISO-8859-1 before sending).
    pub content: String,
}

pub struct MsqMeta {
    pub filename: String,
    pub signature: Option<String>,
    pub signature_match: bool,
    pub write_date: Option<String>,
    pub author: Option<String>,
    pub settings: Vec<String>,
    pub constants: usize,
}

pub struct MsqApplyReq {
    /// Restrict to these constants (selective send); omit for all.
    pub names: Option<Vec<String>>,
}

/// Whether a tune file's signature is the loaded definition's.
pub open spec fn spec_signature_match(file_signature: Option<Seq<char>>, ini_signature: Seq<char>) -> bool {
    file_signature == Some(ini_signature)
}

/// An uploaded tune file's summary against the definition signed
/// `ini_signature`.
pub fn msq_meta(
    ini_signature: &str,
    filename: &str,
    signature: Option<String>,
    write_date: Option<String>,
    author: Option<String>,
    settings: Vec<String>,
    constants: usize,
) -> (m: MsqMeta)
    ensures
        m.filename@ == filename@,
        holder_view(m.signature) == holder_view(signature),
        m.signature_match == spec_signature_match(holder_view(signature), ini_signature@),
        m.write_date == write_date,
        m.author == author,
        m.settings == settings,
        m.constants == constants,
{
    let ini = String::from_str(ini_signature);
    let signature_match = match &signature {
        Some(s) => *s == ini,
        None => false,
    };
    MsqMeta {
        filename: String::from_str(filename),
        signature,
        signature_match,
        write_date,
        author,
        settings,
        constants,
    }
}

// ----- where a constant shows ------------------------------------------------

/// The part a constant plays in a table: its values, or an axis.
pub open spec fn table_role(t: SpecTable, name: Seq<char>) -> Option<Seq<char>> {
    if t.z_bins == name {
        Some(seq![])
    } else if t.x_bins.0 == name {
        Some(" (X axis)"@)
    } else if t.y_bins.0 == name {
        Some(" (Y axis)"@)
    } else {
        None
    }
}

/// The first table, in definition order, that uses the constant.
pub open spec fn tables_label(ts: Seq<(Seq<char>, SpecTable)>, name: Seq<char>) -> Option<Seq<char>>
    decreases ts.len(),
{
    if ts.len() == 0 {
        None
    } else {
        match table_role(ts[0].1, name) {
            Some(role) => Some(ts[0].1.title + role),
            None => tables_label(ts.skip(1), name),
        }
    }
}

/// The first curve, in definition order, with the constant on an axis.
pub open spec fn curves_label(cs: Seq<(Seq<char>, SpecCurve)>, name: Seq<char>) -> Option<Seq<char>>
    decreases cs.len(),
{
    if cs.len() == 0 {
        None
    } else if cs[0].1.x_bins.0 == name || cs[0].1.y_bins.contains(name) {
        Some(cs[0].1.title)
    } else {
        curves_label(cs.skip(1), name)
    }
}

/// Where a changed constant shows: the table that holds it (and which
/// axis), else the curve, else its page, else nothing.
pub open spec fn spec_where_label(
    ts: Seq<(Seq<char>, SpecTable)>,
    cs: Seq<(Seq<char>, SpecCurve)>,
    name: Seq<char>,
    page: Option<u8>,
) -> Seq<char> {
    match tables_label(ts, name) {
        Some(l) => l,
        None => match curves_label(cs, name) {
            Some(l) => l,
            None => match page {
                Some(p) => "page "@ + decimal(p as nat),
                None => seq![],
            },
        },
    }
}

fn contains_text(v: &Vec<String>, key: &String) -> (b: bool)
    ensures
        b == string_views(v@).contains(key@),
{
    let ghost sv = string_views(v@);
    let mut i: usize = 0;
    while i < v.len()
        invariant
            i <= v@.len(),
            sv == string_views(v@),
            sv.len() == v@.len(),
            forall|j: int| 0 <= j < i ==> sv[j] != key@,
        decreases v@.len() - i,
    {
        assert(sv[i as int] == v@[i as int]@);
        if v[i] == *key {
            return true;
        }
        i = i + 1;
    }
    false
}

/// The label a comparison of a tune with a file gives the place of a
/// changed constant.
pub fn where_label(
    tables: &Vec<(String, TableDef)>,
    curves: &Vec<(String, CurveDef)>,
    name: &str,
    page: Option<u8>,
) -> (s: String)
    ensures
        s@ == spec_where_label(keyed_view(tables@), keyed_view(curves@), name@, page),
{
    let key = String::from_str(name);
    let ghost tv = keyed_view(tables@);
    assert(tv.skip(0) =~= tv);
    let mut i: usize = 0;
    while i < tables.len()
        invariant
            i <= tables@.len(),
            key@ == name@,
            tv == keyed_view(tables@),
            tv.len() == tables@.len(),
            tables_label(tv, name@) == tables_label(tv.skip(i as int), name@),
        decreases tables@.len() - i,
    {
        let t = &tables[i].1;
        assert(tv[i as int].1 == t@);
        assert(tv.skip(i as int)[0] == tv[i as int]);
        assert(tv.skip(i as int).skip(1) =~= tv.skip(i + 1));
        if t.z_bins == key {
            assert(t@.title + seq![] =~= t@.title);
            return t.title.clone();
        } else if t.x_bins.0 == key {
            let mut out = t.title.clone();
            out.append(" (X axis)");
            return out;
        } else if t.y_bins.0 == key {
            let mut out = t.title.clone();
            out.append(" (Y axis)");
            return out;
        }
        i = i + 1;
    }
    let ghost cv = keyed_view(curves@);
    assert(cv.skip(0) =~= cv);
    let mut i: usize = 0;
    while i < curves.len()
        invariant
            i <= curves@.len(),
            key@ == name@,
            cv == keyed_view(curves@),
            cv.len() == curves@.len(),
            tv == keyed_view(tables@),
            tables_label(tv, name@) is None,
            curves_label(cv, name@) == curves_label(cv.skip(i as int), name@),
        decreases curves@.len() - i,
    {
        let c = &curves[i].1;
        assert(cv[i as int].1 == c@);
        assert(cv.skip(i as int)[0] == cv[i as int]);
        assert(cv.skip(i as int).skip(1) =~= cv.skip(i + 1));
        let hit = if c.x_bins.0 == key { true } else { contains_text(&c.y_bins, &key) };
        if hit {
            return c.title.clone();
        }
        i = i + 1;
    }
    match page {
        Some(p) => {
            let mut out = String::from_str("page ");
            append_chars(&mut out, &decimal_chars(p as u64));
            out
        },
        None => String::new(),
    }
}

} // verus!
