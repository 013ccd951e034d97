//! Tune page operations: read, chunk write, CRC check, burn — all built
//! from the INI [Constants] header templates (`pageReadCommand`,
//! `pageChunkWrite`, `crc32CheckCommand`, `burnCommand`, `pageIdentifier`).
//!
//! Payloads are `cmd + canId + page + offset(LE16) + count(LE16) [+ values]`,
//! `d` answers RC_OK + CRC32 big-endian, and burn acks with
//! SERIAL_RC_BURN_OK (0x04) — not RC_OK.

use vstd::prelude::*;
use vstd::string::StringExecFns;
use super::ProtoError;
use super::command::{args_view, lemma_build_none_same, opt_prepend, spec_build, spec_parse, Args, SpecArgs, SpecPart, Template};
use super::envelope::{crc32, spec_crc32, spec_encode, MAX_PAYLOAD, RC_OK};
use super::session::{accepted, reply_result, since, spec_reply, Mode, Reply, Session};
use super::transport::Transport;
use crate::bytes::be32_value;
use crate::text::{append_chars, decimal_chars};

verus! {

/// SERIAL_RC_BURN_OK in the firmware: the success code for `b`/`B`.
pub const RC_BURN_OK: u8 = 0x04;

/// Raw template strings for the page command set, as parsed from the INI
/// (one entry per page in each list).
#[derive(Debug, Clone)]
pub struct PagesConfig<'a> {
    pub identifiers: &'a [String],
    pub page_read: &'a [String],
    pub chunk_write: &'a [String],
    pub crc_check: &'a [String],
    pub burn: &'a [String],
    pub sizes: &'a [u32],
    /// Largest chunk the ECU serial buffer can answer (INI blockingFactor).
    pub blocking_factor: u16,
    pub can_id: u8,
}

/// One page's parsed command set.
pub struct PageView {
    /// The `%2i` bytes, built from the page's `pageIdentifier`.
    pub identifier: Seq<u8>,
    pub read: Seq<SpecPart>,
    pub chunk_write: Seq<SpecPart>,
    pub crc: Seq<SpecPart>,
    pub burn: Seq<SpecPart>,
    pub size: u32,
}

/// Arguments with only the CAN id set.
pub open spec fn id_args(can_id: u8) -> SpecArgs {
    SpecArgs { can_id, page_id: None, offset: None, count: None, value: None }
}

/// The parsed template at `list[i]`, if the entry exists and parses.
pub open spec fn template_at(list: Seq<String>, i: int) -> Option<Seq<SpecPart>> {
    if 0 <= i < list.len() {
        spec_parse(list[i]@)
    } else {
        None
    }
}

/// Page `i`'s command set, or `None` when an entry is missing or malformed.
pub open spec fn page_spec(cfg: PagesConfig, i: int) -> Option<PageView> {
    match (template_at(cfg.identifiers@, i), template_at(cfg.page_read@, i),
        template_at(cfg.chunk_write@, i), template_at(cfg.crc_check@, i), template_at(cfg.burn@, i)) {
        (Some(id), Some(read), Some(chunk_write), Some(crc), Some(burn)) =>
            match spec_build(id, id_args(cfg.can_id)) {
                Some(identifier) => Some(PageView {
                    identifier, read, chunk_write, crc, burn, size: cfg.sizes@[i],
                }),
                None => None,
            },
        _ => None,
    }
}

struct PageDef {
    identifier: Vec<u8>,
    read: Template,
    chunk_write: Template,
    crc: Template,
    burn: Template,
    size: u32,
}

spec fn def_view(d: PageDef) -> PageView {
    PageView {
        identifier: d.identifier@,
        read: d.read@,
        chunk_write: d.chunk_write@,
        crc: d.crc@,
        burn: d.burn@,
        size: d.size,
    }
}

/// Parsed page command set; issues requests through a primary-mode
/// [`Session`].
pub struct PageCommands {
    pages: Vec<PageDef>,
    blocking_factor: u16,
    can_id: u8,
}

/// Arguments addressing a page, with optional offset, count and value.
pub open spec fn page_args(p: PageView, can_id: u8, offset: Option<u16>, count: Option<u16>, value: Option<Seq<u8>>) -> SpecArgs {
    SpecArgs { can_id, page_id: Some(p.identifier), offset, count, value }
}

/// The frames `read_page` sends for the part of page `p` from `offset` on,
/// chunked by `bf` bytes; `None` when a read command cannot be built.
pub open spec fn read_frames(p: PageView, bf: nat, can_id: u8, offset: nat) -> Option<Seq<Seq<u8>>>
    decreases p.size - offset,
{
    if bf == 0 || offset >= p.size {
        Some(seq![])
    } else {
        let count: nat = if p.size - offset < bf { (p.size - offset) as nat } else { bf };
        match spec_build(p.read, page_args(p, can_id, Some((offset % 0x1_0000) as u16), Some(count as u16), None)) {
            Some(cmd) => opt_prepend(seq![spec_encode(cmd)], read_frames(p, bf, can_id, offset + count)),
            None => None,
        }
    }
}

/// The byte counts `read_page` asks for, chunk by chunk, for the part of
/// a page of `size` bytes from `offset` on.
pub open spec fn read_counts(size: nat, bf: nat, offset: nat) -> Seq<nat>
    decreases size - offset,
{
    if bf == 0 || offset >= size {
        seq![]
    } else {
        let count: nat = if size - offset < bf { (size - offset) as nat } else { bf };
        seq![count] + read_counts(size, bf, offset + count)
    }
}

/// The first chunk's count of a page of `size` bytes.
pub open spec fn first_count(size: nat, bf: nat) -> nat {
    if size < bf { size } else { bf }
}

proof fn lemma_read_frames_step(p: PageView, bf: nat, can_id: u8, offset: nat, count: nat, cmd: Seq<u8>)
    requires
        bf >= 1,
        offset < p.size,
        count == if p.size - offset < bf { (p.size - offset) as nat } else { bf },
        spec_build(p.read, page_args(p, can_id, Some((offset % 0x1_0000) as u16), Some(count as u16), None)) == Some(cmd),
    ensures
        read_frames(p, bf, can_id, offset) == opt_prepend(seq![spec_encode(cmd)], read_frames(p, bf, can_id, offset + count)),
{
}

/// What reading page `p` sends and returns, with replies `rs`: one read
/// frame per reply, in chunk order, and the result the replies give.
pub open spec fn read_outcome(p: PageView, bf: nat, can_id: u8, sent: Seq<Seq<u8>>, rs: Seq<Seq<u8>>, r: Result<Vec<u8>, ProtoError>) -> bool {
    &&& sent.len() == rs.len()
    &&& read_frames(p, bf, can_id, 0) matches Some(f) && sent == f.take(rs.len() as int)
    &&& page_read_result(rs, read_counts(p.size as nat, bf, 0), r)
}

/// Whether page `p`'s read command builds (with any offset and count).
pub open spec fn read_builds(p: PageView, can_id: u8) -> bool {
    spec_build(p.read, page_args(p, can_id, Some(0), Some(1), None)) is Some
}

/// The frames exist exactly where the page is empty or its read command
/// builds, and then there is one per chunk.
proof fn lemma_read_frames_some(p: PageView, bf: nat, can_id: u8, offset: nat)
    requires
        bf >= 1,
    ensures
        (read_frames(p, bf, can_id, offset) is Some) == (offset >= p.size || read_builds(p, can_id)),
        read_frames(p, bf, can_id, offset) matches Some(f) ==> f.len() == read_counts(p.size as nat, bf, offset).len(),
    decreases p.size - offset,
{
    if offset < p.size {
        let count: nat = if p.size - offset < bf { (p.size - offset) as nat } else { bf };
        lemma_build_none_same(p.read, page_args(p, can_id, Some((offset % 0x1_0000) as u16), Some(count as u16), None),
            page_args(p, can_id, Some(0), Some(1), None));
        lemma_read_frames_some(p, bf, can_id, offset + count);
    }
}

/// A chunk's reply that gives the `count` bytes asked for.
pub open spec fn chunk_ok(got: Seq<u8>, count: nat) -> bool {
    spec_reply(got, seq![RC_OK]) matches Reply::Data(d) && d.len() == count
}

/// The error a chunk's reply gives where it does not give `count` bytes:
/// a short response for data of another length, the ECU's code for a
/// rejected request, the session's error for a corrupt frame or none.
pub open spec fn chunk_error(got: Seq<u8>, count: nat, e: ProtoError) -> bool {
    match spec_reply(got, seq![RC_OK]) {
        Reply::Data(d) => d.len() != count && (e matches ProtoError::ShortResponse { expected, got: n }
            && expected == count && n == d.len()),
        Reply::Rejected(rc) => e matches ProtoError::EcuError(x) && x == rc,
        Reply::Corrupt => e is CrcMismatch || e is Io,
        Reply::Silent => e is Timeout || e is Io,
    }
}

/// What reading a page returns for the replies `rs` to its chunk reads,
/// chunk `j` asking for `cs[j]` bytes: each reply but the last gave its
/// bytes; the page's bytes when every chunk did, the last reply's error
/// otherwise.
pub open spec fn page_read_result(rs: Seq<Seq<u8>>, cs: Seq<nat>, r: Result<Vec<u8>, ProtoError>) -> bool {
    &&& rs.len() <= cs.len()
    &&& forall|j: int| 0 <= j < rs.len() - 1 ==> #[trigger] chunk_ok(rs[j], cs[j])
    &&& match r {
        Ok(data) => rs.len() == cs.len() && (rs.len() > 0 ==> chunk_ok(rs.last(), cs[rs.len() - 1]))
            && data@ == replies_data(rs),
        Err(e) => rs.len() > 0 && chunk_error(rs.last(), cs[rs.len() - 1], e),
    }
}

/// The CRC a reply to `d` carries: four data bytes, read big-endian.
pub open spec fn crc_value(got: Seq<u8>) -> Option<u32> {
    match spec_reply(got, seq![RC_OK]) {
        Reply::Data(d) => if d.len() == 4 {
            Some(be32_value(d) as u32)
        } else {
            None
        },
        _ => None,
    }
}

/// Every chunk of the page read gave its bytes.
pub open spec fn read_ok(rs: Seq<Seq<u8>>, cs: Seq<nat>) -> bool {
    &&& rs.len() >= cs.len()
    &&& forall|j: int| 0 <= j < cs.len() ==> #[trigger] chunk_ok(rs[j], cs[j])
}

/// The frame of page `p`'s CRC command, where it builds.
pub open spec fn crc_frame(p: PageView, can_id: u8) -> Option<Seq<u8>> {
    match spec_build(p.crc, page_args(p, can_id, None, None, None)) {
        Some(c) => Some(spec_encode(c)),
        None => None,
    }
}

/// The ECU's CRC and the CRC of the page's bytes, after a read `rs`
/// followed by the CRC reply.
pub open spec fn mismatch_crcs(p: PageView, bf: nat, rs: Seq<Seq<u8>>) -> (u32, u32) {
    let n = read_counts(p.size as nat, bf, 0).len();
    (crc_value(rs[n as int])->0, spec_crc32(replies_data(rs.take(n as int))))
}

/// The commands of one attempt: the read frames, then the CRC command
/// where it builds; the page read is right.
pub open spec fn read_then_crc(p: PageView, bf: nat, can_id: u8, sent: Seq<Seq<u8>>, rs: Seq<Seq<u8>>) -> bool {
    let n = read_counts(p.size as nat, bf, 0).len();
    &&& read_ok(rs, read_counts(p.size as nat, bf, 0))
    &&& sent.len() >= n
    &&& read_frames(p, bf, can_id, 0) matches Some(f) && sent.take(n as int) == f
}

/// One attempt at downloading page `p`, with commands `sent` and replies
/// `rs`, ends with `r`: the read's error; or, after a right read, the CRC
/// command's error, the CRC reply's error, or the page's bytes where the
/// ECU's CRC is theirs.
pub open spec fn attempt_ends(p: PageView, bf: nat, can_id: u8, sent: Seq<Seq<u8>>, rs: Seq<Seq<u8>>, r: Result<Vec<u8>, ProtoError>) -> bool {
    let cs = read_counts(p.size as nat, bf, 0);
    let n = cs.len();
    if !read_ok(rs, cs) {
        r is Err && read_outcome(p, bf, can_id, sent, rs, r)
    } else {
        &&& read_then_crc(p, bf, can_id, sent, rs)
        &&& match crc_frame(p, can_id) {
            None => rs.len() == n && sent.len() == n && (r matches Err(e) && e is Template),
            Some(cf) => {
                &&& rs.len() == n + 1
                &&& sent.len() == n + 1
                &&& sent[n as int] == cf
                &&& match crc_value(rs[n as int]) {
                    None => r matches Err(e) && crc_result(rs[n as int], Err(e)),
                    Some(v) => v == spec_crc32(replies_data(rs.take(n as int)))
                        && (r matches Ok(d) && d@ == replies_data(rs.take(n as int))),
                }
            },
        }
    }
}

/// One attempt that ended on a CRC mismatch.
pub open spec fn attempt_mismatch(p: PageView, bf: nat, can_id: u8, sent: Seq<Seq<u8>>, rs: Seq<Seq<u8>>) -> bool {
    let n = read_counts(p.size as nat, bf, 0).len();
    &&& read_then_crc(p, bf, can_id, sent, rs)
    &&& crc_frame(p, can_id) matches Some(cf)
    &&& rs.len() == n + 1
    &&& sent.len() == n + 1
    &&& sent[n as int] == cf
    &&& crc_value(rs[n as int]) matches Some(v) && v != spec_crc32(replies_data(rs.take(n as int)))
}

/// Downloading page `p`: the first attempt ends the download, or it ends
/// on a mismatch and the second attempt ends it, a second mismatch giving
/// `ShortResponse { expected: ECU's CRC, got: CRC of the bytes read }`.
pub open spec fn download_outcome(p: PageView, bf: nat, can_id: u8, sent: Seq<Seq<u8>>, rs: Seq<Seq<u8>>, r: Result<Vec<u8>, ProtoError>) -> bool {
    let k = read_counts(p.size as nat, bf, 0).len() + 1;
    ||| attempt_ends(p, bf, can_id, sent, rs, r)
    ||| {
        &&& rs.len() >= k
        &&& sent.len() >= k
        &&& attempt_mismatch(p, bf, can_id, sent.take(k as int), rs.take(k as int))
        &&& attempt_ends(p, bf, can_id, sent.skip(k as int), rs.skip(k as int), r)
            || (attempt_mismatch(p, bf, can_id, sent.skip(k as int), rs.skip(k as int))
                && (r matches Err(ProtoError::ShortResponse { expected, got })
                && expected == mismatch_crcs(p, bf, rs.skip(k as int)).0
                && got == mismatch_crcs(p, bf, rs.skip(k as int)).1))
    }
}

proof fn lemma_failed_read_not_ok(rs: Seq<Seq<u8>>, cs: Seq<nat>, e: ProtoError)
    requires
        page_read_result(rs, cs, Err(e)),
    ensures
        !read_ok(rs, cs),
{
    if read_ok(rs, cs) {
        assert(rs.len() == cs.len());
        assert(chunk_ok(rs[rs.len() - 1], cs[rs.len() - 1]));
    }
}

proof fn lemma_reply_error(g: Seq<u8>, count: nat, e: ProtoError, flushed: int)
    requires
        reply_result(g, seq![RC_OK], Err(e), flushed),
    ensures
        chunk_error(g, count, e),
{
}

/// Reading stops at chunk `rdone.len()`, whose reply `g` gives error `e`.
proof fn lemma_read_fail(p: PageView, bf: nat, can_id: u8, done: Seq<Seq<u8>>, rdone: Seq<Seq<u8>>, cdone: Seq<nat>,
    offset: nat, count: nat, cmd: Seq<u8>, g: Seq<u8>, e: ProtoError)
    requires
        bf >= 1,
        offset < p.size,
        count == if p.size - offset < bf { (p.size - offset) as nat } else { bf },
        spec_build(p.read, page_args(p, can_id, Some((offset % 0x1_0000) as u16), Some(count as u16), None)) == Some(cmd),
        read_frames(p, bf, can_id, 0) == opt_prepend(done, read_frames(p, bf, can_id, offset)),
        read_counts(p.size as nat, bf, 0) == cdone + read_counts(p.size as nat, bf, offset),
        done.len() == rdone.len(),
        cdone.len() == rdone.len(),
        forall|j: int| 0 <= j < rdone.len() ==> #[trigger] chunk_ok(rdone[j], cdone[j]),
        chunk_error(g, count, e),
    ensures
        read_outcome(p, bf, can_id, done.push(spec_encode(cmd)), rdone.push(g), Err(e)),
        read_builds(p, can_id),
{
    lemma_build_none_same(p.read, page_args(p, can_id, Some((offset % 0x1_0000) as u16), Some(count as u16), None),
        page_args(p, can_id, Some(0), Some(1), None));
    lemma_read_frames_some(p, bf, can_id, offset + count);
    lemma_read_frames_step(p, bf, can_id, offset, count, cmd);
    let rest = read_frames(p, bf, can_id, offset + count)->0;
    let f = done + (seq![spec_encode(cmd)] + rest);
    assert(f.take(rdone.len() + 1int) =~= done.push(spec_encode(cmd)));
    let cs = read_counts(p.size as nat, bf, 0);
    assert(read_counts(p.size as nat, bf, offset) == seq![count] + read_counts(p.size as nat, bf, offset + count));
    assert(cs[rdone.len() as int] == count);
    let rs = rdone.push(g);
    assert forall|j: int| 0 <= j < rs.len() - 1 implies #[trigger] chunk_ok(rs[j], cs[j]) by {
        assert(rs[j] == rdone[j]);
        assert(cs[j] == cdone[j]);
    }
}

/// Reading ends after the last chunk with every reply right.
proof fn lemma_read_done(p: PageView, bf: nat, can_id: u8, done: Seq<Seq<u8>>, rdone: Seq<Seq<u8>>, cdone: Seq<nat>,
    offset: nat, out: Vec<u8>)
    requires
        bf >= 1,
        offset >= p.size,
        read_frames(p, bf, can_id, 0) == opt_prepend(done, read_frames(p, bf, can_id, offset)),
        read_counts(p.size as nat, bf, 0) == cdone + read_counts(p.size as nat, bf, offset),
        done.len() == rdone.len(),
        cdone.len() == rdone.len(),
        forall|j: int| 0 <= j < rdone.len() ==> #[trigger] chunk_ok(rdone[j], cdone[j]),
        out@ == replies_data(rdone),
    ensures
        read_outcome(p, bf, can_id, done, rdone, Ok::<Vec<u8>, ProtoError>(out)),
{
    assert(done + Seq::<Seq<u8>>::empty() =~= done);
    assert(done.take(rdone.len() as int) =~= done);
    assert(cdone + Seq::<nat>::empty() =~= cdone);
    let cs = read_counts(p.size as nat, bf, 0);
    assert forall|j: int| 0 <= j < rdone.len() implies #[trigger] chunk_ok(rdone[j], cs[j]) by {
        assert(cs[j] == cdone[j]);
    }
    if rdone.len() > 0 {
        assert(chunk_ok(rdone[rdone.len() - 1], cs[rdone.len() - 1]));
    }
}

proof fn lemma_opt_prepend_push<T>(d: Seq<T>, x: T, o: Option<Seq<T>>)
    ensures
        opt_prepend(d, opt_prepend(seq![x], o)) == opt_prepend(d.push(x), o),
{
    if let Some(r) = o {
        assert(d + (seq![x] + r) =~= d.push(x) + r);
    }
}

impl PageCommands {
    #[verifier::type_invariant]
    spec fn inv(self) -> bool {
        self.blocking_factor >= 1
    }

    pub closed spec fn pages_view(&self) -> Seq<PageView> {
        self.pages@.map_values(|d: PageDef| def_view(d))
    }

    pub closed spec fn spec_blocking_factor(&self) -> u16 {
        self.blocking_factor
    }

    pub closed spec fn spec_can_id(&self) -> u8 {
        self.can_id
    }

    pub fn new(cfg: &PagesConfig) -> (r: Result<Self, ProtoError>)
        ensures
            match r {
                Ok(pc) => {
                    &&& pc.pages_view().len() == cfg.sizes@.len()
                    &&& forall|i: int| 0 <= i < cfg.sizes@.len()
                        ==> page_spec(*cfg, i) == Some(#[trigger] pc.pages_view()[i])
                    &&& pc.spec_blocking_factor() == if cfg.blocking_factor == 0 { 1 } else { cfg.blocking_factor }
                    &&& pc.spec_can_id() == cfg.can_id
                },
                Err(e) => e is Template && exists|i: int| 0 <= i < cfg.sizes@.len() && #[trigger] page_spec(*cfg, i) is None,
            },
    {
        let mut pages: Vec<PageDef> = Vec::new();
        let mut i: usize = 0;
        while i < cfg.sizes.len()
            invariant
                i <= cfg.sizes@.len(),
                pages@.len() == i,
                forall|j: int| 0 <= j < i ==> page_spec(*cfg, j) == Some(def_view(#[trigger] pages@[j])),
            decreases cfg.sizes@.len() - i,
        {
            let id_tpl = match tpl(cfg.identifiers, i, "pageIdentifier") {
                Ok(t) => t,
                Err(e) => return Err(e),
            };
            let args = Args { can_id: cfg.can_id, page_id: None, offset: None, count: None, value: None };
            let identifier = match id_tpl.build(&args) {
                Ok(b) => b,
                Err(e) => {
                    assert(page_spec(*cfg, i as int) is None);
                    return Err(e);
                },
            };
            let read = match tpl(cfg.page_read, i, "pageReadCommand") {
                Ok(t) => t,
                Err(e) => return Err(e),
            };
            let chunk_write = match tpl(cfg.chunk_write, i, "pageChunkWrite") {
                Ok(t) => t,
                Err(e) => return Err(e),
            };
            let crc = match tpl(cfg.crc_check, i, "crc32CheckCommand") {
                Ok(t) => t,
                Err(e) => return Err(e),
            };
            let burn = match tpl(cfg.burn, i, "burnCommand") {
                Ok(t) => t,
                Err(e) => return Err(e),
            };
            let d = PageDef { identifier, read, chunk_write, crc, burn, size: cfg.sizes[i] };
            assert(page_spec(*cfg, i as int) == Some(def_view(d)));
            pages.push(d);
            i = i + 1;
        }
        let bf = if cfg.blocking_factor == 0 { 1 } else { cfg.blocking_factor };
        let pc = PageCommands { pages, blocking_factor: bf, can_id: cfg.can_id };
        assert forall|j: int| 0 <= j < cfg.sizes@.len() implies page_spec(*cfg, j) == Some(#[trigger] pc.pages_view()[j]) by {
            assert(pc.pages_view()[j] == def_view(pages@[j]));
        }
        Ok(pc)
    }

    pub fn page_count(&self) -> (n: usize)
        ensures
            n == self.pages_view().len(),
    {
        self.pages.len()
    }

    pub fn page_size(&self, page_idx: usize) -> (r: Option<u32>)
        ensures
            r == if page_idx < self.pages_view().len() {
                Some(self.pages_view()[page_idx as int].size)
            } else {
                None::<u32>
            },
    {
        if page_idx < self.pages.len() {
            Some(self.pages[page_idx].size)
        } else {
            None
        }
    }

    /// The largest chunk one request reads or writes.
    pub fn blocking_factor(&self) -> (bf: u16)
        ensures
            bf == self.spec_blocking_factor(),
            bf >= 1,
    {
        proof {
            use_type_invariant(self);
        }
        self.blocking_factor
    }

    fn page(&self, page_idx: usize) -> (r: Result<&PageDef, ProtoError>)
        ensures
            match r {
                Ok(d) => page_idx < self.pages_view().len() && def_view(*d) == self.pages_view()[page_idx as int],
                Err(e) => page_idx >= self.pages_view().len() && e is Template,
            },
    {
        if page_idx < self.pages.len() {
            Ok(&self.pages[page_idx])
        } else {
            let mut m = String::from_str("page index ");
            append_chars(&mut m, &decimal_chars(page_idx as u64));
            m.append(" out of range (");
            append_chars(&mut m, &decimal_chars(self.pages.len() as u64));
            m.append(" pages)");
            Err(ProtoError::Template(m))
        }
    }

    /// Download a whole page, chunked by blockingFactor.
    pub fn read_page<T: Transport>(&self, session: &mut Session<T>, page_idx: usize) -> (r: Result<Vec<u8>, ProtoError>)
        ensures
            final(session).spec_config() == old(session).spec_config(),
            final(session).och_template() == old(session).och_template(),
            page_idx >= self.pages_view().len() ==> (r matches Err(e) && e is Template) && untouched(*old(session), *final(session)),
            old(session).spec_config().mode != Mode::Primary ==> {
                &&& untouched(*old(session), *final(session))
                &&& r matches Ok(data) ==> data@.len() == 0
                &&& page_idx < self.pages_view().len() ==> {
                    let p = self.pages_view()[page_idx as int];
                    let c = first_count(p.size as nat, self.spec_blocking_factor() as nat);
                    &&& p.size == 0 ==> r is Ok
                    &&& p.size > 0 ==> match spec_build(p.read, page_args(p, self.spec_can_id(), Some(0), Some(c as u16), None)) {
                        None => r matches Err(e) && e is Template,
                        Some(_) => r matches Err(e) && e is Unsupported,
                    }
                }
            },
            old(session).spec_config().mode == Mode::Primary ==> {
                &&& final(session).replies().len() >= old(session).replies().len()
                &&& final(session).replies().take(old(session).replies().len() as int) == old(session).replies()
                &&& final(session).commands().len() >= old(session).commands().len()
                &&& page_idx < self.pages_view().len() ==> {
                    let p = self.pages_view()[page_idx as int];
                    &&& p.size == 0 ==> (r matches Ok(d) && d@.len() == 0) && untouched(*old(session), *final(session))
                    &&& p.size > 0 && !read_builds(p, self.spec_can_id()) ==> (r matches Err(e) && e is Template)
                        && untouched(*old(session), *final(session))
                    &&& read_builds(p, self.spec_can_id()) ==> {
                        &&& final(session).commands().take(old(session).commands().len() as int) == old(session).commands()
                        &&& read_outcome(p, self.spec_blocking_factor() as nat, self.spec_can_id(),
                            final(session).commands().skip(old(session).commands().len() as int),
                            final(session).replies().skip(old(session).replies().len() as int), r)
                    }
                }
            },
            r matches Ok(data) ==> {
                &&& page_idx < self.pages_view().len()
                &&& data@.len() == self.pages_view()[page_idx as int].size
                &&& read_frames(self.pages_view()[page_idx as int], self.spec_blocking_factor() as nat,
                        self.spec_can_id(), 0) == Some(final(session).commands().skip(old(session).commands().len() as int))
                &&& final(session).commands().take(old(session).commands().len() as int) == old(session).commands()
            },
            r matches Err(ProtoError::ShortResponse { expected, got }) ==> expected != got,
    {
        proof {
            use_type_invariant(self);
        }
        let page = match self.page(page_idx) {
            Ok(p) => p,
            Err(e) => return Err(e),
        };
        let ghost pv = def_view(*page);
        let ghost base = session.commands();
        let ghost rbase = session.replies();
        let ghost s0 = *session;
        let bf = self.blocking_factor as u32;
        let mut out: Vec<u8> = Vec::new();
        let mut offset: u32 = 0;
        let ghost mut done: Seq<Seq<u8>> = seq![];
        let ghost mut rdone: Seq<Seq<u8>> = seq![];
        let ghost mut cdone: Seq<nat> = seq![];
        assert(rbase + rdone =~= rbase);
        assert(cdone + read_counts(pv.size as nat, bf as nat, 0) =~= read_counts(pv.size as nat, bf as nat, 0));
        while offset < page.size
            invariant
                bf == self.spec_blocking_factor(),
                bf >= 1,
                pv == def_view(*page),
                page_idx < self.pages_view().len(),
                pv == self.pages_view()[page_idx as int],
                offset <= page.size,
                out@.len() == offset,
                session.spec_config() == old(session).spec_config(),
                session.och_template() == old(session).och_template(),
                session.commands() == base + done,
                base == old(session).commands(),
                s0 == *old(session),
                rbase == old(session).replies(),
                session.replies() == rbase + rdone,
                out@ == replies_data(rdone),
                forall|j: int| 0 <= j < rdone.len() ==> #[trigger] spec_reply(rdone[j], seq![RC_OK]) is Data,
                cdone.len() == rdone.len(),
                forall|j: int| 0 <= j < rdone.len() ==> #[trigger] reply_data(rdone[j]).len() == cdone[j],
                read_counts(pv.size as nat, bf as nat, 0) == cdone + read_counts(pv.size as nat, bf as nat, offset as nat),
                old(session).spec_config().mode != Mode::Primary ==> offset == 0 && untouched(s0, *session),
                read_frames(pv, bf as nat, self.spec_can_id(), 0)
                    == opt_prepend(done, read_frames(pv, bf as nat, self.spec_can_id(), offset as nat)),
                offset == 0 ==> untouched(s0, *session),
                offset > 0 ==> read_builds(pv, self.spec_can_id()),
                done.len() == rdone.len(),
                forall|j: int| 0 <= j < rdone.len() ==> #[trigger] chunk_ok(rdone[j], cdone[j]),
            decreases page.size - offset,
        {
            let count: u16 = if page.size - offset < bf { (page.size - offset) as u16 } else { bf as u16 };
            let args = Args {
                can_id: self.can_id,
                page_id: Some(page.identifier.as_slice()),
                offset: Some((offset % 0x1_0000) as u16),
                count: Some(count),
                value: None,
            };
            let cmd = match page.read.build(&args) {
                Ok(c) => c,
                Err(e) => {
                    proof {
                        lemma_build_none_same(pv.read, args_view(args),
                            page_args(pv, self.spec_can_id(), Some(0), Some(1), None));
                    }
                    return Err(e);
                },
            };
            let ok: [u8; 1] = [RC_OK];
            assert(ok@ =~= seq![RC_OK]);
            let ghost rprev = session.replies();
            let ghost rprev_flush = session.flush_count();
            let data = match session.request(cmd.as_slice(), &ok) {
                Ok(d) => d,
                Err(e) => {
                    proof {
                        if old(session).spec_config().mode == Mode::Primary {
                            assert(session.replies().take(rbase.len() as int) =~= rbase);
                            let g = session.replies().last();
                            lemma_reply_error(g, count as nat, e, session.flush_count() - rprev_flush);
                            lemma_read_fail(pv, bf as nat, self.spec_can_id(), done, rdone, cdone, offset as nat,
                                count as nat, cmd@, g, e);
                            assert(session.commands().skip(base.len() as int) =~= done.push(spec_encode(cmd@)));
                            assert(session.commands().take(base.len() as int) =~= base);
                            assert(session.replies().skip(rbase.len() as int) =~= rdone.push(g));
                        }
                    }
                    return Err(e);
                },
            };
            let ghost g = session.replies().last();
            proof {
                assert(read_counts(pv.size as nat, bf as nat, offset as nat)
                    == seq![count as nat] + read_counts(pv.size as nat, bf as nat, (offset + count) as nat));
                assert(cdone + read_counts(pv.size as nat, bf as nat, offset as nat)
                    =~= cdone.push(count as nat) + read_counts(pv.size as nat, bf as nat, (offset + count) as nat));
            }
            if data.len() != count as usize {
                proof {
                    let rs = session.replies().skip(rbase.len() as int);
                    assert(rs =~= rdone.push(g));
                    assert(session.replies().take(rbase.len() as int) =~= rbase);
                    let cs = read_counts(pv.size as nat, bf as nat, 0);
                    assert(cs[rdone.len() as int] == count as nat);
                    assert forall|j: int| 0 <= j < rs.len() - 1 implies #[trigger] reply_data(rs[j]).len() == cs[j] by {
                        assert(rs[j] == rdone[j]);
                    }
                    let e = ProtoError::ShortResponse { expected: count as usize, got: data@.len() as usize };
                    assert(chunk_error(g, count as nat, e));
                    lemma_read_fail(pv, bf as nat, self.spec_can_id(), done, rdone, cdone, offset as nat,
                        count as nat, cmd@, g, e);
                    assert(session.commands().skip(base.len() as int) =~= done.push(spec_encode(cmd@)));
                    assert(session.commands().take(base.len() as int) =~= base);
                }
                return Err(ProtoError::ShortResponse { expected: count as usize, got: data.len() });
            }
            let ghost before_out = out@;
            crate::bytes::push_all(&mut out, data.as_slice());
            proof {
                lemma_read_frames_step(pv, bf as nat, self.spec_can_id(), offset as nat, count as nat, cmd@);
                lemma_build_none_same(pv.read, args_view(args), page_args(pv, self.spec_can_id(), Some(0), Some(1), None));
                let old_done = done;
                done = done.push(spec_encode(cmd@));
                assert(base + done =~= (base + old_done).push(spec_encode(cmd@)));
                lemma_opt_prepend_push(old_done, spec_encode(cmd@),
                    read_frames(pv, bf as nat, self.spec_can_id(), (offset + count) as nat));
                let old_r = rdone;
                let old_c = cdone;
                rdone = rdone.push(g);
                cdone = cdone.push(count as nat);
                assert(rdone.drop_last() =~= old_r);
                assert(session.replies() =~= rbase + rdone);
                assert(reply_data(g) == data@);
                assert forall|j: int| 0 <= j < rdone.len() implies #[trigger] spec_reply(rdone[j], seq![RC_OK]) is Data by {
                    if j < old_r.len() {
                        assert(rdone[j] == old_r[j]);
                    }
                }
                assert forall|j: int| 0 <= j < rdone.len() implies #[trigger] reply_data(rdone[j]).len() == cdone[j] by {
                    if j < old_r.len() {
                        assert(rdone[j] == old_r[j]);
                        assert(cdone[j] == old_c[j]);
                    }
                }
            }
            offset = offset + count as u32;
        }
        proof {
            assert(done + Seq::<Seq<u8>>::empty() =~= done);
            assert((base + done).skip(base.len() as int) =~= done);
            assert((base + done).take(base.len() as int) =~= base);
            assert((rbase + rdone).skip(rbase.len() as int) =~= rdone);
            assert((rbase + rdone).take(rbase.len() as int) =~= rbase);
            assert(read_counts(pv.size as nat, bf as nat, offset as nat) =~= Seq::<nat>::empty());
            assert(cdone + Seq::<nat>::empty() =~= cdone);
            lemma_read_done(pv, bf as nat, self.spec_can_id(), done, rdone, cdone, offset as nat, out);
        }
        Ok(out)
    }

    /// One read of a page and of the ECU's CRC of it: the page's bytes
    /// where the CRCs agree, the ECU's CRC and the computed one where they
    /// do not, or the first error.
    fn read_and_check<T: Transport>(&self, session: &mut Session<T>, page_idx: usize) -> (a: Result<Result<Vec<u8>, (u32, u32)>, ProtoError>)
        ensures
            final(session).spec_config() == old(session).spec_config(),
            final(session).och_template() == old(session).och_template(),
            page_idx >= self.pages_view().len() ==> (a matches Err(e) && e is Template) && untouched(*old(session), *final(session)),
            old(session).spec_config().mode != Mode::Primary ==> a is Err && untouched(*old(session), *final(session)),
            old(session).spec_config().mode == Mode::Primary && page_idx < self.pages_view().len() ==> {
                let p = self.pages_view()[page_idx as int];
                let bf = self.spec_blocking_factor() as nat;
                let sent = final(session).commands().skip(old(session).commands().len() as int);
                let rs = final(session).replies().skip(old(session).replies().len() as int);
                &&& p.size > 0 && !read_builds(p, self.spec_can_id()) ==> (a matches Err(e) && e is Template)
                    && untouched(*old(session), *final(session))
                &&& final(session).commands().len() >= old(session).commands().len()
                &&& final(session).commands().take(old(session).commands().len() as int) == old(session).commands()
                &&& final(session).replies().len() >= old(session).replies().len()
                &&& final(session).replies().take(old(session).replies().len() as int) == old(session).replies()
                &&& p.size == 0 || read_builds(p, self.spec_can_id()) ==> match a {
                    Ok(Ok(d)) => attempt_ends(p, bf, self.spec_can_id(), sent, rs, Ok(d)),
                    Ok(Err((v, c))) => attempt_mismatch(p, bf, self.spec_can_id(), sent, rs)
                        && (v, c) == mismatch_crcs(p, bf, rs),
                    Err(e) => attempt_ends(p, bf, self.spec_can_id(), sent, rs, Err(e)),
                }
            },
    {
        proof {
            use_type_invariant(self);
        }
        let ghost s0 = *session;
        let data = match self.read_page(session, page_idx) {
            Ok(d) => d,
            Err(e) => {
                proof {
                    if s0.spec_config().mode == Mode::Primary && page_idx < self.pages_view().len() {
                        let p = self.pages_view()[page_idx as int];
                        let rs = session.replies().skip(s0.replies().len() as int);
                        if p.size == 0 || read_builds(p, self.spec_can_id()) {
                            lemma_failed_read_not_ok(rs, read_counts(p.size as nat, self.spec_blocking_factor() as nat, 0), e);
                        }
                    }
                }
                return Err(e);
            },
        };
        let ghost s1 = *session;
        let crc = self.page_crc(session, page_idx);
        proof {
            if s0.spec_config().mode == Mode::Primary && page_idx < self.pages_view().len() {
                let p = self.pages_view()[page_idx as int];
                let bf = self.spec_blocking_factor() as nat;
                lemma_read_frames_some(p, bf, self.spec_can_id(), 0);
                let sent1 = s1.commands().skip(s0.commands().len() as int);
                let rs1 = s1.replies().skip(s0.replies().len() as int);
                let sent = session.commands().skip(s0.commands().len() as int);
                let rs = session.replies().skip(s0.replies().len() as int);
                if p.size == 0 {
                    assert(sent1 =~= Seq::<Seq<u8>>::empty());
                    assert(rs1 =~= Seq::<Seq<u8>>::empty());
                    assert(read_counts(0, bf, 0) =~= Seq::<nat>::empty());
                }
                let n = read_counts(p.size as nat, bf, 0).len();
                assert(rs1.len() == n);
                assert(replies_data(rs1) == data@);
                if session.replies().len() > s1.replies().len() {
                    assert(rs =~= rs1.push(session.replies().last()));
                    assert(sent =~= sent1.push(session.commands().last()));
                    assert(rs.take(n as int) =~= rs1);
                    assert(sent.take(n as int) =~= sent1);
                    assert(rs[n as int] == session.replies().last());
                    if crc is Ok {
                        assert(crc_value(rs[n as int]) == Some(crc->Ok_0));
                    } else {
                        assert(crc_value(rs[n as int]) is None);
                    }
                } else {
                    assert(rs =~= rs1);
                    assert(sent =~= sent1);
                    assert(rs.take(n as int) =~= rs1);
                    assert(sent.take(n as int) =~= sent1);
                }
                let f = read_frames(p, bf, self.spec_can_id(), 0)->0;
                assert(f.take(n as int) =~= f);
                assert(session.commands().take(s0.commands().len() as int) =~= s0.commands());
                assert(session.replies().take(s0.replies().len() as int) =~= s0.replies());
            }
        }
        let ecu = match crc {
            Ok(c) => c,
            Err(e) => return Err(e),
        };
        let own = crc32(data.as_slice());
        if ecu == own {
            Ok(Ok(data))
        } else {
            Ok(Err((ecu, own)))
        }
    }

    /// Download a page and check it against the ECU's CRC of it (`d`): on a
    /// mismatch the page is read and checked once more, and a second
    /// mismatch is reported as `ShortResponse { expected: ECU's CRC, got:
    /// CRC of what was read }`.
    pub fn download_page<T: Transport>(&self, session: &mut Session<T>, page_idx: usize) -> (r: Result<Vec<u8>, ProtoError>)
        ensures
            final(session).spec_config() == old(session).spec_config(),
            final(session).och_template() == old(session).och_template(),
            page_idx >= self.pages_view().len() ==> (r matches Err(e) && e is Template) && untouched(*old(session), *final(session)),
            old(session).spec_config().mode != Mode::Primary ==> r is Err && untouched(*old(session), *final(session)),
            old(session).spec_config().mode == Mode::Primary && page_idx < self.pages_view().len() ==> {
                let p = self.pages_view()[page_idx as int];
                &&& p.size > 0 && !read_builds(p, self.spec_can_id()) ==> (r matches Err(e) && e is Template)
                    && untouched(*old(session), *final(session))
                &&& final(session).commands().take(old(session).commands().len() as int) == old(session).commands()
                &&& final(session).replies().take(old(session).replies().len() as int) == old(session).replies()
                &&& p.size == 0 || read_builds(p, self.spec_can_id()) ==> download_outcome(p, self.spec_blocking_factor() as nat,
                    self.spec_can_id(), final(session).commands().skip(old(session).commands().len() as int),
                    final(session).replies().skip(old(session).replies().len() as int), r)
            },
    {
        let ghost s0 = *session;
        let first = self.read_and_check(session, page_idx);
        let (v1, c1) = match first {
            Ok(Ok(d)) => return Ok(d),
            Ok(Err(m)) => m,
            Err(e) => return Err(e),
        };
        let ghost s1 = *session;
        let second = self.read_and_check(session, page_idx);
        proof {
            if s0.spec_config().mode == Mode::Primary && page_idx < self.pages_view().len() {
                let p = self.pages_view()[page_idx as int];
                let bf = self.spec_blocking_factor() as nat;
                let k = read_counts(p.size as nat, bf, 0).len() + 1;
                let sent1 = s1.commands().skip(s0.commands().len() as int);
                let rs1 = s1.replies().skip(s0.replies().len() as int);
                let sent = session.commands().skip(s0.commands().len() as int);
                let rs = session.replies().skip(s0.replies().len() as int);
                assert(sent.take(k as int) =~= sent1);
                assert(rs.take(k as int) =~= rs1);
                assert(sent.skip(k as int) =~= session.commands().skip(s1.commands().len() as int));
                assert(rs.skip(k as int) =~= session.replies().skip(s1.replies().len() as int));
                assert(session.commands().take(s0.commands().len() as int) =~= s0.commands());
                assert(session.replies().take(s0.replies().len() as int) =~= s0.replies());
            }
        }
        match second {
            Ok(Ok(d)) => Ok(d),
            Ok(Err((v2, c2))) => Err(ProtoError::ShortResponse { expected: v2 as usize, got: c2 as usize }),
            Err(e) => Err(e),
        }
    }

    /// Write `values` into the ECU's working copy of the page (`M`).
    pub fn write_chunk<T: Transport>(&self, session: &mut Session<T>, page_idx: usize, offset: u16, values: &[u8]) -> (r: Result<(), ProtoError>)
        ensures
            final(session).spec_config() == old(session).spec_config(),
            final(session).och_template() == old(session).och_template(),
            page_idx >= self.pages_view().len() ==> (r matches Err(e) && e is Template) && untouched(*old(session), *final(session)),
            page_idx < self.pages_view().len() ==> {
                let p = self.pages_view()[page_idx as int];
                match spec_build(p.chunk_write, page_args(p, self.spec_can_id(), Some(offset),
                    Some((values@.len() % 0x1_0000) as u16), Some(values@))) {
                    None => (r matches Err(e) && e is Template) && untouched(*old(session), *final(session)),
                    Some(cmd) => {
                        &&& old(session).spec_config().mode != Mode::Primary ==> (r matches Err(e) && e is Unsupported)
                            && untouched(*old(session), *final(session))
                        &&& old(session).spec_config().mode == Mode::Primary ==> {
                            &&& final(session).commands() == old(session).commands().push(spec_encode(cmd))
                            &&& final(session).replies() == old(session).replies().push(
                                    since(old(session).received(), final(session).received()))
                            &&& ack_result(since(old(session).received(), final(session).received()), seq![RC_OK], r)
                        }
                    },
                }
            },
            r is Ok ==> old(session).spec_config().mode == Mode::Primary,
    {
        let page = match self.page(page_idx) {
            Ok(p) => p,
            Err(e) => return Err(e),
        };
        let args = Args {
            can_id: self.can_id,
            page_id: Some(page.identifier.as_slice()),
            offset: Some(offset),
            count: Some((values.len() % 0x1_0000) as u16),
            value: Some(values),
        };
        let cmd = match page.chunk_write.build(&args) {
            Ok(c) => c,
            Err(e) => return Err(e),
        };
        let ok: [u8; 1] = [RC_OK];
        assert(ok@ =~= seq![RC_OK]);
        match session.request(cmd.as_slice(), &ok) {
            Ok(_) => Ok(()),
            Err(e) => Err(e),
        }
    }

    /// CRC32 of the ECU's working copy of the page (`d`), for verifying
    /// writes without re-downloading. The firmware sends it big-endian.
    pub fn page_crc<T: Transport>(&self, session: &mut Session<T>, page_idx: usize) -> (r: Result<u32, ProtoError>)
        ensures
            final(session).spec_config() == old(session).spec_config(),
            final(session).och_template() == old(session).och_template(),
            page_idx >= self.pages_view().len() ==> (r matches Err(e) && e is Template) && untouched(*old(session), *final(session)),
            page_idx < self.pages_view().len() ==> {
                let p = self.pages_view()[page_idx as int];
                match spec_build(p.crc, page_args(p, self.spec_can_id(), None, None, None)) {
                    None => (r matches Err(e) && e is Template) && untouched(*old(session), *final(session)),
                    Some(cmd) => {
                        &&& old(session).spec_config().mode != Mode::Primary ==> (r matches Err(e) && e is Unsupported)
                            && untouched(*old(session), *final(session))
                        &&& old(session).spec_config().mode == Mode::Primary ==> {
                            &&& final(session).commands() == old(session).commands().push(spec_encode(cmd))
                            &&& final(session).replies() == old(session).replies().push(
                                    since(old(session).received(), final(session).received()))
                            &&& crc_result(since(old(session).received(), final(session).received()), r)
                        }
                    },
                }
            },
    {
        let page = match self.page(page_idx) {
            Ok(p) => p,
            Err(e) => return Err(e),
        };
        let args = Args {
            can_id: self.can_id,
            page_id: Some(page.identifier.as_slice()),
            offset: None,
            count: None,
            value: None,
        };
        let cmd = match page.crc.build(&args) {
            Ok(c) => c,
            Err(e) => return Err(e),
        };
        let ok: [u8; 1] = [RC_OK];
        assert(ok@ =~= seq![RC_OK]);
        let data = match session.request(cmd.as_slice(), &ok) {
            Ok(d) => d,
            Err(e) => return Err(e),
        };
        if data.len() != 4 {
            return Err(ProtoError::ShortResponse { expected: 4, got: data.len() });
        }
        Ok(crc_from_wire(&data))
    }

    /// Commit the page to EEPROM (`b`/`B`). The firmware acks with
    /// RC_BURN_OK and may defer the physical write (burnPending).
    pub fn burn<T: Transport>(&self, session: &mut Session<T>, page_idx: usize) -> (r: Result<(), ProtoError>)
        ensures
            final(session).spec_config() == old(session).spec_config(),
            final(session).och_template() == old(session).och_template(),
            page_idx >= self.pages_view().len() ==> (r matches Err(e) && e is Template) && untouched(*old(session), *final(session)),
            page_idx < self.pages_view().len() ==> {
                let p = self.pages_view()[page_idx as int];
                match spec_build(p.burn, page_args(p, self.spec_can_id(), None, None, None)) {
                    None => (r matches Err(e) && e is Template) && untouched(*old(session), *final(session)),
                    Some(cmd) => {
                        &&& old(session).spec_config().mode != Mode::Primary ==> (r matches Err(e) && e is Unsupported)
                            && untouched(*old(session), *final(session))
                        &&& old(session).spec_config().mode == Mode::Primary ==> {
                            &&& final(session).commands() == old(session).commands().push(spec_encode(cmd))
                            &&& final(session).replies() == old(session).replies().push(
                                    since(old(session).received(), final(session).received()))
                            &&& ack_result(since(old(session).received(), final(session).received()),
                                    seq![RC_OK, RC_BURN_OK], r)
                        }
                    },
                }
            },
    {
        let page = match self.page(page_idx) {
            Ok(p) => p,
            Err(e) => return Err(e),
        };
        let args = Args {
            can_id: self.can_id,
            page_id: Some(page.identifier.as_slice()),
            offset: None,
            count: None,
            value: None,
        };
        let cmd = match page.burn.build(&args) {
            Ok(c) => c,
            Err(e) => return Err(e),
        };
        let ok: [u8; 2] = [RC_OK, RC_BURN_OK];
        assert(ok@ =~= seq![RC_OK, RC_BURN_OK]);
        match session.request(cmd.as_slice(), &ok) {
            Ok(_) => Ok(()),
            Err(e) => Err(e),
        }
    }
}

/// The session's transport and logs are as they were.
pub open spec fn untouched<T: Transport>(a: Session<T>, b: Session<T>) -> bool {
    &&& b.commands() == a.commands()
    &&& b.spec_transport() == a.spec_transport()
    &&& b.received() == a.received()
    &&& b.flush_count() == a.flush_count()
    &&& b.replies() == a.replies()
}

/// What a command without reply data returns for the bytes `got` received
/// in reply: success on an accepted return code, the code otherwise, and
/// the session's error where no frame or a corrupt one came.
pub open spec fn ack_result(got: Seq<u8>, ok: Seq<u8>, r: Result<(), ProtoError>) -> bool {
    match spec_reply(got, ok) {
        Reply::Data(_) => r is Ok,
        Reply::Rejected(rc) => r matches Err(ProtoError::EcuError(x)) && x == rc,
        Reply::Corrupt => r matches Err(e) && (e is CrcMismatch || e is Io),
        Reply::Silent => r matches Err(e) && (e is Timeout || e is Io),
    }
}

/// What `d` returns for the bytes `got` received in reply: four data
/// bytes read big-endian, or a short-response error for any other count.
pub open spec fn crc_result(got: Seq<u8>, r: Result<u32, ProtoError>) -> bool {
    match spec_reply(got, seq![RC_OK]) {
        Reply::Data(d) => if d.len() == 4 {
            r == Ok::<u32, ProtoError>(be32_value(d) as u32)
        } else {
            r matches Err(ProtoError::ShortResponse { expected, got: n }) && expected == 4 && n == d.len()
        },
        Reply::Rejected(rc) => r matches Err(ProtoError::EcuError(x)) && x == rc,
        Reply::Corrupt => r matches Err(e) && (e is CrcMismatch || e is Io),
        Reply::Silent => r matches Err(e) && (e is Timeout || e is Io),
    }
}

/// The data of a reply with RC_OK (nothing for any other reply).
pub open spec fn reply_data(got: Seq<u8>) -> Seq<u8> {
    match spec_reply(got, seq![RC_OK]) {
        Reply::Data(d) => d,
        _ => seq![],
    }
}

/// The data of the replies, one after another.
pub open spec fn replies_data(rs: Seq<Seq<u8>>) -> Seq<u8>
    decreases rs.len(),
{
    if rs.len() == 0 {
        seq![]
    } else {
        replies_data(rs.drop_last()) + reply_data(rs.last())
    }
}

/// The big-endian value of a four-byte response.
pub fn crc_from_wire(data: &Vec<u8>) -> (v: u32)
    requires
        data@.len() == 4,
    ensures
        v == be32_value(data@),
{
    data[0] as u32 * 0x100_0000 + data[1] as u32 * 0x1_0000 + data[2] as u32 * 256 + data[3] as u32
}

fn tpl(list: &[String], i: usize, what: &str) -> (r: Result<Template, ProtoError>)
    requires
        i < usize::MAX,
    ensures
        match r {
            Ok(t) => template_at(list@, i as int) == Some(t@),
            Err(e) => template_at(list@, i as int) is None && e is Template,
        },
{
    if i < list.len() {
        Template::parse(list[i].as_str())
    } else {
        let mut m = String::from_str("missing ");
        m.append(what);
        m.append(" for page ");
        append_chars(&mut m, &decimal_chars(i as u64 + 1));
        Err(ProtoError::Template(m))
    }
}

} // verus!
