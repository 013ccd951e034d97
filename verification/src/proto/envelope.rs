//! TunerStudio Protocol 3 framing ("msEnvelope_1.0").
//!
//! TX: `length(BE16) + payload + CRC32(BE32 over payload)`
//! RX: `length(BE16) + returnCode + data + CRC32(BE32 over returnCode+data)`
//!
//! The decoder is a byte-at-a-time state machine: an implausible length
//! header shifts one byte and retries (resync), and a CRC mismatch is
//! reported so the caller can flush the input before the next command.

use vstd::prelude::*;
use crate::bytes::{be16, be32, be32_value, lemma_be16_roundtrip, lemma_be32_roundtrip, push_all, push_be16, push_be32};

verus! {

/// One bit of the reflected CRC register shift (polynomial 0xEDB88320).
pub open spec fn crc_shift(c: u32) -> u32 {
    if c & 1 == 1 {
        (c >> 1) ^ 0xEDB8_8320
    } else {
        c >> 1
    }
}

/// The register after `k` more bit shifts.
pub open spec fn crc_bits(c: u32, k: nat) -> u32
    decreases k,
{
    if k == 0 {
        c
    } else {
        crc_bits(crc_shift(c), (k - 1) as nat)
    }
}

/// The register after the bytes of `data`, one byte (eight shifts) each.
pub open spec fn crc_update(c: u32, data: Seq<u8>) -> u32
    decreases data.len(),
{
    if data.len() == 0 {
        c
    } else {
        crc_update(crc_bits(c ^ (data[0] as u32), 8), data.drop_first())
    }
}

/// The CRC32 (IEEE 802.3, reflected, as zlib computes it) of a byte
/// string: the register starts all ones and ends inverted.
#[verifier::opaque]
pub open spec fn spec_crc32(data: Seq<u8>) -> u32 {
    !crc_update(0xFFFF_FFFF, data)
}

/// `crc32fast::hash`: the IEEE CRC32 of `data`, as its documentation
/// defines it.
#[verifier::external_body]
pub fn crc32(data: &[u8]) -> (r: u32)
    ensures
        r == spec_crc32(data@),
{
    crc32fast::hash(data)
}

/// The length field a frame carries: the payload length modulo 2^16.
pub open spec fn length_field(p: Seq<u8>) -> int {
    (p.len() % 0x1_0000) as int
}

/// The complete transmitted frame for a payload.
pub open spec fn spec_encode(p: Seq<u8>) -> Seq<u8> {
    be16(length_field(p)) + p + be32(spec_crc32(p))
}

/// Wrap a command payload in the envelope.
pub fn encode(payload: &[u8]) -> (out: Vec<u8>)
    ensures
        out@ == spec_encode(payload@),
{
    let mut out: Vec<u8> = Vec::new();
    let len: u16 = (payload.len() % 0x1_0000) as u16;
    push_be16(&mut out, len);
    push_all(&mut out, payload);
    let crc = crc32(payload);
    push_be32(&mut out, crc);
    out
}

/// Largest plausible RX payload: return code + a full page read chunk.
/// Headers above this are treated as noise and resynced past.
pub const MAX_PAYLOAD: u16 = 2048;

/// ECU return code for success (first payload byte of an RX frame).
pub const RC_OK: u8 = 0x00;

#[derive(Debug, PartialEq, Eq)]
pub enum Event {
    /// A complete frame with a valid CRC: `payload[0]` is the return code.
    Frame(Vec<u8>),
    /// A complete-length frame whose CRC didn't match; caller should flush
    /// the transport input before the next command.
    CrcMismatch,
}

/// The mathematical content of an [`Event`].
pub enum SpecEvent {
    Frame(Seq<u8>),
    CrcMismatch,
}

pub open spec fn event_view(e: Event) -> SpecEvent {
    match e {
        Event::Frame(p) => SpecEvent::Frame(p@),
        Event::CrcMismatch => SpecEvent::CrcMismatch,
    }
}

pub open spec fn opt_event_view(e: Option<Event>) -> Option<SpecEvent> {
    match e {
        Some(ev) => Some(event_view(ev)),
        None => None,
    }
}

/// Abstract decoder state. While hunting for a header, `pending` holds the
/// header bytes seen so far (none or one); while collecting a frame,
/// `expect` is the announced payload length and `buf` the bytes received
/// after the header (payload, then CRC trailer).
pub struct DecoderView {
    pub in_payload: bool,
    pub pending: Seq<u8>,
    pub expect: nat,
    pub buf: Seq<u8>,
}

/// The decoder waiting for the first byte of a header.
pub open spec fn idle() -> DecoderView {
    DecoderView { in_payload: false, pending: seq![], expect: 0, buf: seq![] }
}

/// The event a complete frame body (payload of `n` bytes, then four CRC
/// bytes) produces.
pub open spec fn frame_event(n: nat, body: Seq<u8>) -> SpecEvent {
    if spec_crc32(body.take(n as int)) as int == be32_value(body.skip(n as int)) {
        SpecEvent::Frame(body.take(n as int))
    } else {
        SpecEvent::CrcMismatch
    }
}

/// One byte of decoding.
pub open spec fn step(s: DecoderView, b: u8) -> (DecoderView, Option<SpecEvent>) {
    if !s.in_payload {
        if s.pending.len() == 0 {
            (DecoderView { pending: seq![b], ..idle() }, None)
        } else {
            let len = s.pending[0] * 256 + b;
            if 0 < len <= MAX_PAYLOAD {
                (DecoderView { in_payload: true, pending: seq![], expect: len as nat, buf: seq![] }, None)
            } else {
                // Implausible length: shift one byte, keep hunting.
                (DecoderView { pending: seq![b], ..idle() }, None)
            }
        }
    } else {
        let buf = s.buf.push(b);
        if buf.len() < s.expect + 4 {
            (DecoderView { buf, ..s }, None)
        } else {
            (idle(), Some(frame_event(s.expect, buf)))
        }
    }
}

/// Decoding a byte stream: the final state and the events emitted, in order.
pub open spec fn feed(s: DecoderView, bytes: Seq<u8>) -> (DecoderView, Seq<SpecEvent>)
    decreases bytes.len(),
{
    if bytes.len() == 0 {
        (s, seq![])
    } else {
        let (s1, e) = step(s, bytes[0]);
        let (s2, es) = feed(s1, bytes.drop_first());
        (s2, match e {
            Some(x) => seq![x] + es,
            None => es,
        })
    }
}

pub struct Decoder {
    in_payload: bool,
    header0: u8,
    header_len: usize,
    payload_len: usize,
    buf: Vec<u8>,
}

impl Decoder {
    pub closed spec fn view(&self) -> DecoderView {
        if self.in_payload {
            DecoderView { in_payload: true, pending: seq![], expect: self.payload_len as nat, buf: self.buf@ }
        } else {
            DecoderView {
                pending: if self.header_len == 0 { seq![] } else { seq![self.header0] },
                ..idle()
            }
        }
    }

    /// Internal consistency: a pending header holds at most one byte, and a
    /// frame being collected has a plausible length and is not yet complete.
    pub closed spec fn wf(&self) -> bool {
        if self.in_payload {
            &&& 0 < self.payload_len <= MAX_PAYLOAD
            &&& self.buf@.len() < self.payload_len + 4
        } else {
            self.header_len <= 1
        }
    }

    pub fn new() -> (d: Self)
        ensures
            d.wf(),
            d.view() == idle(),
    {
        Decoder { in_payload: false, header0: 0, header_len: 0, payload_len: 0, buf: Vec::new() }
    }

    /// Drop any partial frame (call after a timeout or input flush).
    pub fn reset(&mut self)
        ensures
            final(self).wf(),
            final(self).view() == idle(),
    {
        self.in_payload = false;
        self.header_len = 0;
        self.buf.clear();
    }

    pub fn push(&mut self, byte: u8) -> (ev: Option<Event>)
        requires
            old(self).wf(),
        ensures
            final(self).wf(),
            (final(self).view(), opt_event_view(ev)) == step(old(self).view(), byte),
    {
        if !self.in_payload {
            if self.header_len == 0 {
                self.header0 = byte;
                self.header_len = 1;
            } else {
                let len: u32 = self.header0 as u32 * 256 + byte as u32;
                if len > 0 && len <= MAX_PAYLOAD as u32 {
                    self.payload_len = len as usize;
                    self.buf.clear();
                    self.in_payload = true;
                    self.header_len = 0;
                } else {
                    self.header0 = byte;
                    self.header_len = 1;
                }
            }
            None
        } else {
            self.buf.push(byte);
            if self.buf.len() < self.payload_len + 4 {
                return None;
            }
            self.in_payload = false;
            self.header_len = 0;
            let n = self.payload_len;
            let mut payload: Vec<u8> = Vec::new();
            let mut i: usize = 0;
            while i < n
                invariant
                    i <= n,
                    n + 4 == self.buf@.len(),
                    payload@ == self.buf@.take(i as int),
                decreases n - i,
            {
                payload.push(self.buf[i]);
                i = i + 1;
                assert(self.buf@.take(i as int) == self.buf@.take((i - 1) as int).push(self.buf@[i - 1]));
            }
            let wire: u32 = self.buf[n] as u32 * 0x100_0000 + self.buf[n + 1] as u32 * 0x1_0000
                + self.buf[n + 2] as u32 * 256 + self.buf[n + 3] as u32;
            let crc = crc32(payload.as_slice());
            proof {
                let body = self.buf@;
                assert(body.skip(n as int)[0] == body[n as int]);
                assert(body.skip(n as int)[1] == body[n + 1]);
                assert(body.skip(n as int)[2] == body[n + 2]);
                assert(body.skip(n as int)[3] == body[n + 3]);
            }
            if crc == wire {
                Some(Event::Frame(payload))
            } else {
                Some(Event::CrcMismatch)
            }
        }
    }
}

/// Decoding is compositional: feeding `a` then `b` is feeding `a + b`.
pub proof fn lemma_feed_append(s: DecoderView, a: Seq<u8>, b: Seq<u8>)
    ensures
        feed(s, a + b) == ({
            let (s1, e1) = feed(s, a);
            let (s2, e2) = feed(s1, b);
            (s2, e1 + e2)
        }),
    decreases a.len(),
{
    if a.len() == 0 {
        assert(a + b == b);
        let (s2, e2) = feed(s, b);
        assert(seq![] + e2 == e2);
    } else {
        let (s1, e) = step(s, a[0]);
        assert((a + b).drop_first() == a.drop_first() + b);
        assert((a + b)[0] == a[0]);
        lemma_feed_append(s1, a.drop_first(), b);
        let (t1, f1) = feed(s1, a.drop_first());
        let (t2, f2) = feed(t1, b);
        match e {
            Some(x) => {
                assert(seq![x] + (f1 + f2) == (seq![x] + f1) + f2);
            },
            None => {},
        }
    }
}

/// The first event that decoding `bytes` from the idle decoder yields.
pub open spec fn first_event(bytes: Seq<u8>) -> Option<SpecEvent> {
    if feed(idle(), bytes).1.len() > 0 {
        Some(feed(idle(), bytes).1[0])
    } else {
        None
    }
}

/// An optional event as a sequence of none or one.
pub open spec fn opt_events(e: Option<SpecEvent>) -> Seq<SpecEvent> {
    match e {
        Some(x) => seq![x],
        None => seq![],
    }
}

/// Decoding one byte more steps on from where `bytes` left the decoder.
pub proof fn lemma_feed_push(s: DecoderView, bytes: Seq<u8>, b: u8)
    ensures
        feed(s, bytes.push(b)) == (step(feed(s, bytes).0, b).0,
            feed(s, bytes).1 + opt_events(step(feed(s, bytes).0, b).1)),
{
    lemma_feed_append(s, bytes, seq![b]);
    assert(bytes + seq![b] =~= bytes.push(b));
    let s1 = feed(s, bytes).0;
    let one = seq![b];
    assert(one[0] == b);
    assert(one.drop_first() =~= Seq::<u8>::empty());
    assert(feed(step(s1, b).0, one.drop_first()) == (step(s1, b).0, Seq::<SpecEvent>::empty()));
    match step(s1, b).1 {
        Some(x) => assert(seq![x] + Seq::<SpecEvent>::empty() =~= seq![x]),
        None => {},
    }
}

/// Bytes after the first event do not change which event comes first.
pub proof fn lemma_first_event_prefix(p: Seq<u8>, q: Seq<u8>)
    requires
        feed(idle(), p).1.len() > 0,
    ensures
        first_event(p + q) == Some(feed(idle(), p).1[0]),
{
    lemma_feed_append(idle(), p, q);
}

proof fn lemma_feed_body(s: DecoderView, rest: Seq<u8>)
    requires
        s.in_payload,
        s.pending.len() == 0,
        rest.len() >= 1,
        s.buf.len() + rest.len() == s.expect + 4,
    ensures
        feed(s, rest) == (idle(), seq![frame_event(s.expect, s.buf + rest)]),
    decreases rest.len(),
{
    let (s1, e) = step(s, rest[0]);
    let buf = s.buf.push(rest[0]);
    if rest.len() == 1 {
        assert(buf == s.buf + rest);
        assert(rest.drop_first() =~= Seq::<u8>::empty());
        assert(feed(idle(), rest.drop_first()) == (idle(), Seq::<SpecEvent>::empty()));
        assert(step(s, rest[0]) == (idle(), Some(frame_event(s.expect, buf))));
        assert(seq![frame_event(s.expect, buf)] + Seq::<SpecEvent>::empty() == seq![frame_event(s.expect, buf)]);
    } else {
        assert(step(s, rest[0]) == (DecoderView { buf, ..s }, None::<SpecEvent>));
        lemma_feed_body(DecoderView { buf, ..s }, rest.drop_first());
        assert(buf + rest.drop_first() == s.buf + rest);
    }
}

/// A well-formed frame decodes to exactly one event: starting from the idle
/// decoder, a plausible header announcing `n` bytes followed by `n` payload
/// bytes and four CRC bytes yields the payload when the CRC matches and a
/// CRC mismatch otherwise, and leaves the decoder idle again.
pub proof fn lemma_frame_decodes(n: nat, body: Seq<u8>)
    requires
        0 < n <= MAX_PAYLOAD,
        body.len() == n + 4,
    ensures
        feed(idle(), be16(n as int) + body) == (idle(), seq![frame_event(n, body)]),
{
    let hdr = be16(n as int);
    lemma_be16_roundtrip(n as int);
    let s1 = DecoderView { pending: seq![hdr[0]], ..idle() };
    let s2 = DecoderView { in_payload: true, pending: seq![], expect: n, buf: seq![] };
    assert(step(idle(), hdr[0]) == (s1, None::<SpecEvent>));
    assert(step(s1, hdr[1]) == (s2, None::<SpecEvent>));
    assert(hdr.drop_first().drop_first() =~= Seq::<u8>::empty());
    assert(feed(s2, hdr.drop_first().drop_first()) == (s2, Seq::<SpecEvent>::empty()));
    assert(hdr.drop_first()[0] == hdr[1]);
    assert(feed(s1, hdr.drop_first()) == (s2, Seq::<SpecEvent>::empty()));
    assert(feed(idle(), hdr) == (s2, Seq::<SpecEvent>::empty()));
    lemma_feed_append(idle(), hdr, body);
    lemma_feed_body(s2, body);
    assert(seq![] + body == body);
    assert(Seq::<SpecEvent>::empty() + seq![frame_event(n, body)] == seq![frame_event(n, body)]);
}

proof fn lemma_feed_body_partial(s: DecoderView, rest: Seq<u8>)
    requires
        s.in_payload,
        s.pending.len() == 0,
        s.buf.len() + rest.len() < s.expect + 4,
    ensures
        feed(s, rest) == (DecoderView { buf: s.buf + rest, ..s }, Seq::<SpecEvent>::empty()),
    decreases rest.len(),
{
    if rest.len() == 0 {
        assert(s.buf + rest =~= s.buf);
    } else {
        let buf = s.buf.push(rest[0]);
        assert(step(s, rest[0]) == (DecoderView { buf, ..s }, None::<SpecEvent>));
        lemma_feed_body_partial(DecoderView { buf, ..s }, rest.drop_first());
        assert(buf + rest.drop_first() =~= s.buf + rest);
    }
}

/// A frame yields its event only with its last byte: decoding any shorter
/// start of it from the idle decoder yields no event.
pub proof fn lemma_frame_no_early_event(n: nat, body: Seq<u8>, k: int)
    requires
        0 < n <= MAX_PAYLOAD,
        body.len() == n + 4,
        0 <= k < body.len() + 2,
    ensures
        feed(idle(), (be16(n as int) + body).take(k)).1.len() == 0,
{
    let hdr = be16(n as int);
    let f = hdr + body;
    lemma_be16_roundtrip(n as int);
    let s1 = DecoderView { pending: seq![hdr[0]], ..idle() };
    let s2 = DecoderView { in_payload: true, pending: seq![], expect: n, buf: seq![] };
    assert(step(idle(), hdr[0]) == (s1, None::<SpecEvent>));
    assert(step(s1, hdr[1]) == (s2, None::<SpecEvent>));
    if k == 0 {
        assert(f.take(0) =~= Seq::<u8>::empty());
    } else if k == 1 {
        assert(f.take(1) =~= seq![hdr[0]]);
        assert(seq![hdr[0]].drop_first() =~= Seq::<u8>::empty());
        assert(feed(s1, Seq::<u8>::empty()) == (s1, Seq::<SpecEvent>::empty()));
    } else {
        assert(hdr.drop_first().drop_first() =~= Seq::<u8>::empty());
        assert(feed(s2, hdr.drop_first().drop_first()) == (s2, Seq::<SpecEvent>::empty()));
        assert(hdr.drop_first()[0] == hdr[1]);
        assert(feed(s1, hdr.drop_first()) == (s2, Seq::<SpecEvent>::empty()));
        assert(feed(idle(), hdr) == (s2, Seq::<SpecEvent>::empty()));
        let part = body.take(k - 2);
        assert(f.take(k) =~= hdr + part);
        lemma_feed_append(idle(), hdr, part);
        lemma_feed_body_partial(s2, part);
        assert(Seq::<SpecEvent>::empty() + Seq::<SpecEvent>::empty() =~= Seq::<SpecEvent>::empty());
    }
}

/// What `encode` sends, the decoder gives back: for every payload of 1 to
/// `MAX_PAYLOAD` bytes, decoding the encoded frame from the idle decoder
/// yields exactly that payload and leaves the decoder idle.
pub proof fn lemma_encode_decode_roundtrip(p: Seq<u8>)
    requires
        0 < p.len() <= MAX_PAYLOAD,
    ensures
        feed(idle(), spec_encode(p)) == (idle(), seq![SpecEvent::Frame(p)]),
{
    let body = p + be32(spec_crc32(p));
    lemma_be32_roundtrip(spec_crc32(p));
    assert(spec_encode(p) == be16(p.len() as int) + body);
    lemma_frame_decodes(p.len(), body);
    assert(body.take(p.len() as int) == p);
    assert(body.skip(p.len() as int) == be32(spec_crc32(p)));
}

/// Pushing an encoded frame into the idle decoder one byte at a time: the
/// byte at position `k` yields nothing, except the last one, which yields
/// the payload.
pub proof fn lemma_encode_pushes(p: Seq<u8>, k: int)
    requires
        0 < p.len() <= MAX_PAYLOAD,
        0 <= k < spec_encode(p).len(),
    ensures
        step(feed(idle(), spec_encode(p).take(k)).0, spec_encode(p)[k]).1 == if k + 1 == spec_encode(p).len() {
            Some(SpecEvent::Frame(p))
        } else {
            None
        },
{
    let e = spec_encode(p);
    let n = p.len();
    let body = p + be32(spec_crc32(p));
    lemma_be32_roundtrip(spec_crc32(p));
    assert(e == be16(n as int) + body);
    lemma_frame_no_early_event(n, body, k);
    lemma_feed_push(idle(), e.take(k), e[k]);
    assert(e.take(k).push(e[k]) =~= e.take(k + 1));
    let last = step(feed(idle(), e.take(k)).0, e[k]).1;
    if k + 1 == e.len() {
        assert(e.take(k + 1) =~= e);
        lemma_encode_decode_roundtrip(p);
        assert(feed(idle(), e.take(k)).1 =~= Seq::<SpecEvent>::empty());
        assert(Seq::<SpecEvent>::empty() + opt_events(last) =~= opt_events(last));
        assert(opt_events(last) == seq![SpecEvent::Frame(p)]);
        match last {
            Some(x) => assert(seq![x][0] == x),
            None => assert(opt_events(last).len() == 0),
        }
    } else {
        lemma_frame_no_early_event(n, body, k + 1);
        match last {
            Some(x) => assert((feed(idle(), e.take(k)).1 + seq![x]).len() > 0),
            None => {},
        }
    }
}

/// A reset decoder decodes like a new one: after `reset`, and on a new
/// decoder, pushing the same bytes gives the same events and the same state.
pub proof fn lemma_reset_decodes_as_new(after_reset: &Decoder, fresh: &Decoder, bytes: Seq<u8>)
    requires
        after_reset.view() == idle(),
        fresh.view() == idle(),
    ensures
        feed(after_reset.view(), bytes) == feed(fresh.view(), bytes),
{
}

} // verus!

verus! {

/// A well-formed decoder that is collecting a frame expects a plausible length.
pub proof fn lemma_wf_view(d: &Decoder)
    requires
        d.wf(),
    ensures
        d.view().in_payload ==> 0 < d.view().expect <= MAX_PAYLOAD,
        d.view().in_payload ==> d.view().buf.len() < d.view().expect + 4,
{
}

} // verus!
