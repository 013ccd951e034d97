//! Secondary-serial (SER3) response decoder.
//!
//! The secondary port has no envelope and no checksum: a telemetry poll
//! (`'r' canId 0x30 offset count`) is answered with `'r' 0x30` followed by
//! `count` raw och bytes. The decoder resyncs on the `'r' 0x30` echo; a byte
//! that isn't 0x30 but is `'r'` may itself start the next echo.

use vstd::prelude::*;

verus! {

/// The command echo byte.
pub const ECHO_R: u8 = 0x72;

/// The och-read sub-command byte that follows the echo.
pub const ECHO_CMD: u8 = 0x30;

#[derive(Debug, PartialEq, Eq, Clone, Copy)]
pub enum Phase {
    /// Waiting for the `'r'` echo.
    CmdEcho,
    /// Saw `'r'`, waiting for 0x30.
    CanCmd,
    /// Collecting payload bytes.
    Payload,
}

/// Abstract decoder state: the phase, the payload size awaited, and the
/// payload bytes collected so far (empty outside [`Phase::Payload`]).
pub struct SecondaryView {
    pub phase: Phase,
    pub expect: nat,
    pub buf: Seq<u8>,
}

/// One byte of decoding: the next state and the payload completed, if any.
pub open spec fn step(s: SecondaryView, b: u8) -> (SecondaryView, Option<Seq<u8>>) {
    match s.phase {
        Phase::CmdEcho => if b == ECHO_R {
            (SecondaryView { phase: Phase::CanCmd, buf: seq![], ..s }, None)
        } else {
            (SecondaryView { phase: Phase::CmdEcho, buf: seq![], ..s }, None)
        },
        Phase::CanCmd => if b == ECHO_CMD {
            (SecondaryView { phase: Phase::Payload, buf: seq![], ..s }, None)
        } else if b != ECHO_R {
            (SecondaryView { phase: Phase::CmdEcho, buf: seq![], ..s }, None)
        } else {
            (s, None)
        },
        Phase::Payload => {
            let buf = s.buf.push(b);
            if buf.len() == s.expect {
                (SecondaryView { phase: Phase::CmdEcho, buf: seq![], ..s }, Some(buf))
            } else {
                (SecondaryView { buf, ..s }, None)
            }
        },
    }
}

/// Decoding a byte stream: the final state and the payloads emitted, in order.
pub open spec fn feed(s: SecondaryView, bytes: Seq<u8>) -> (SecondaryView, Seq<Seq<u8>>)
    decreases bytes.len(),
{
    if bytes.len() == 0 {
        (s, seq![])
    } else {
        let (s1, e) = step(s, bytes[0]);
        let (s2, es) = feed(s1, bytes.drop_first());
        (s2, match e {
            Some(x) => seq![x] + es,
            None => es,
        })
    }
}

/// The decoder waiting for an echo, expecting `expect` payload bytes.
pub open spec fn waiting(expect: nat) -> SecondaryView {
    SecondaryView { phase: Phase::CmdEcho, expect, buf: seq![] }
}

/// Decoding one byte more: the state steps on from where `bytes` left it,
/// and what that step emits follows the payloads already emitted.
pub proof fn lemma_feed_push(s: SecondaryView, bytes: Seq<u8>, b: u8)
    ensures
        feed(s, bytes.push(b)).0 == step(feed(s, bytes).0, b).0,
        feed(s, bytes.push(b)).1 == feed(s, bytes).1 + match step(feed(s, bytes).0, b).1 {
            Some(x) => seq![x],
            None => Seq::<Seq<u8>>::empty(),
        },
    decreases bytes.len(),
{
    let t = bytes.push(b);
    let (s1, e) = step(s, t[0]);
    let head = match e {
        Some(x) => seq![x],
        None => Seq::<Seq<u8>>::empty(),
    };
    assert(feed(s, t) == (feed(s1, t.drop_first()).0, head + feed(s1, t.drop_first()).1)) by {
        match e {
            Some(x) => {},
            None => assert(head + feed(s1, t.drop_first()).1 =~= feed(s1, t.drop_first()).1),
        }
    }
    if bytes.len() == 0 {
        assert(t.drop_first() =~= Seq::<u8>::empty());
        assert(t[0] == b);
        assert(feed(s1, t.drop_first()) == (s1, Seq::<Seq<u8>>::empty()));
        assert(feed(s, bytes) == (s, Seq::<Seq<u8>>::empty()));
        assert(head + Seq::<Seq<u8>>::empty() =~= Seq::<Seq<u8>>::empty() + head);
    } else {
        assert(t.drop_first() =~= bytes.drop_first().push(b));
        assert(t[0] == bytes[0]);
        lemma_feed_push(s1, bytes.drop_first(), b);
        assert(feed(s, bytes) == (feed(s1, bytes.drop_first()).0, head + feed(s1, bytes.drop_first()).1)) by {
            match e {
                Some(x) => {},
                None => assert(head + feed(s1, bytes.drop_first()).1 =~= feed(s1, bytes.drop_first()).1),
            }
        }
        let tail = match step(feed(s1, bytes.drop_first()).0, b).1 {
            Some(x) => seq![x],
            None => Seq::<Seq<u8>>::empty(),
        };
        assert(head + (feed(s1, bytes.drop_first()).1 + tail) =~= (head + feed(s1, bytes.drop_first()).1) + tail);
    }
}

/// Decoding is compositional: feeding `a` then `b` is feeding `a + b`.
pub proof fn lemma_feed_append(s: SecondaryView, a: Seq<u8>, b: Seq<u8>)
    ensures
        feed(s, a + b) == ({
            let (s1, e1) = feed(s, a);
            let (s2, e2) = feed(s1, b);
            (s2, e1 + e2)
        }),
    decreases a.len(),
{
    if a.len() == 0 {
        assert(a + b =~= b);
        let (s2, e2) = feed(s, b);
        assert(Seq::<Seq<u8>>::empty() + e2 =~= e2);
    } else {
        let (s1, e) = step(s, a[0]);
        assert((a + b).drop_first() =~= a.drop_first() + b);
        assert((a + b)[0] == a[0]);
        lemma_feed_append(s1, a.drop_first(), b);
        let (t1, f1) = feed(s1, a.drop_first());
        let (t2, f2) = feed(t1, b);
        match e {
            Some(x) => {
                assert(seq![x] + (f1 + f2) =~= (seq![x] + f1) + f2);
            },
            None => {},
        }
    }
}

/// What the bytes decoded so far say of the state they left, from a
/// decoder that waited for `e` bytes: after `'r'` comes the echo's second
/// byte, and a payload being collected follows the whole echo.
pub open spec fn echo_seen(e: nat, bytes: Seq<u8>, s: SecondaryView) -> bool {
    &&& s.expect == e
    &&& match s.phase {
        Phase::CmdEcho => s.buf.len() == 0,
        Phase::CanCmd => s.buf.len() == 0 && bytes.len() >= 1 && bytes.last() == ECHO_R,
        Phase::Payload => {
            &&& s.buf.len() < e
            &&& bytes.len() >= s.buf.len() + 2
            &&& bytes.subrange(bytes.len() - s.buf.len() - 2, bytes.len() as int) == seq![ECHO_R, ECHO_CMD] + s.buf
        },
    }
}

proof fn lemma_echo_step(e: nat, bytes: Seq<u8>, s: SecondaryView, b: u8)
    requires
        e >= 1,
        echo_seen(e, bytes, s),
    ensures
        echo_seen(e, bytes.push(b), step(s, b).0),
        step(s, b).1 matches Some(v) ==> {
            let all = bytes.push(b);
            &&& v.len() == e
            &&& all.len() >= e + 2
            &&& all.subrange(all.len() - e - 2, all.len() as int) == seq![ECHO_R, ECHO_CMD] + v
            &&& step(s, b).0 == waiting(e)
        },
{
    let all = bytes.push(b);
    match s.phase {
        Phase::CmdEcho => {},
        Phase::CanCmd => {
            if b == ECHO_CMD {
                assert(all.subrange(all.len() - 2, all.len() as int) =~= seq![ECHO_R, ECHO_CMD]);
                assert(seq![ECHO_R, ECHO_CMD] + Seq::<u8>::empty() =~= seq![ECHO_R, ECHO_CMD]);
            }
        },
        Phase::Payload => {
            let buf = s.buf.push(b);
            let start = bytes.len() - s.buf.len() - 2;
            assert(all.subrange(start, all.len() as int) =~= bytes.subrange(start, bytes.len() as int).push(b));
            assert(seq![ECHO_R, ECHO_CMD] + buf =~= (seq![ECHO_R, ECHO_CMD] + s.buf).push(b));
        },
    }
}

proof fn lemma_echo_seen(e: nat, bytes: Seq<u8>)
    requires
        e >= 1,
    ensures
        echo_seen(e, bytes, feed(waiting(e), bytes).0),
    decreases bytes.len(),
{
    if bytes.len() == 0 {
    } else {
        let front = bytes.drop_last();
        lemma_echo_seen(e, front);
        lemma_feed_push(waiting(e), front, bytes.last());
        assert(front.push(bytes.last()) =~= bytes);
        lemma_echo_step(e, front, feed(waiting(e), front).0, bytes.last());
    }
}

/// A payload comes only after its echo: from a decoder waiting for `e`
/// (at least one) bytes, the byte that completes a payload `v` makes the
/// last `e + 2` bytes pushed `'r'`, 0x30 and then `v`, with `v` of `e`
/// bytes; the decoder then waits for a fresh echo.
pub proof fn lemma_payload_follows_echo(e: nat, bytes: Seq<u8>, b: u8)
    requires
        e >= 1,
    ensures
        step(feed(waiting(e), bytes).0, b).1 matches Some(v) ==> {
            let all = bytes.push(b);
            &&& v.len() == e
            &&& all.len() >= e + 2
            &&& all.subrange(all.len() - e - 2, all.len() as int) == seq![ECHO_R, ECHO_CMD] + v
            &&& step(feed(waiting(e), bytes).0, b).0 == waiting(e)
        },
{
    lemma_echo_seen(e, bytes);
    lemma_echo_step(e, bytes, feed(waiting(e), bytes).0, b);
}

/// The first payload that decoding `bytes` from the waiting decoder yields.
pub open spec fn first_payload(expect: nat, bytes: Seq<u8>) -> Option<Seq<u8>> {
    if feed(waiting(expect), bytes).1.len() > 0 {
        Some(feed(waiting(expect), bytes).1[0])
    } else {
        None
    }
}

pub struct Decoder {
    state: Phase,
    expect: usize,
    buf: Vec<u8>,
}

impl Decoder {
    pub closed spec fn view(&self) -> SecondaryView {
        SecondaryView {
            phase: self.state,
            expect: self.expect as nat,
            buf: if self.state == Phase::Payload { self.buf@ } else { seq![] },
        }
    }

    /// `expect` — payload size of the pending request (its `count`).
    pub fn new(expect: usize) -> (d: Self)
        ensures
            d.view() == waiting(expect as nat),
    {
        Decoder { state: Phase::CmdEcho, expect, buf: Vec::new() }
    }

    pub fn reset(&mut self, expect: usize)
        ensures
            final(self).view() == waiting(expect as nat),
    {
        self.state = Phase::CmdEcho;
        self.expect = expect;
        self.buf.clear();
    }

    /// Returns the raw och payload once complete.
    pub fn push(&mut self, byte: u8) -> (r: Option<Vec<u8>>)
        ensures
            (final(self).view(), match r {
                Some(v) => Some(v@),
                None => None::<Seq<u8>>,
            }) == step(old(self).view(), byte),
    {
        match self.state {
            Phase::CmdEcho => {
                if byte == ECHO_R {
                    self.state = Phase::CanCmd;
                }
                None
            },
            Phase::CanCmd => {
                if byte == ECHO_CMD {
                    self.buf.clear();
                    self.state = Phase::Payload;
                } else if byte != ECHO_R {
                    self.state = Phase::CmdEcho;
                }
                None
            },
            Phase::Payload => {
                self.buf.push(byte);
                if self.buf.len() == self.expect {
                    self.state = Phase::CmdEcho;
                    let mut out: Vec<u8> = Vec::new();
                    std::mem::swap(&mut out, &mut self.buf);
                    Some(out)
                } else {
                    None
                }
            },
        }
    }
}

proof fn lemma_feed_payload(s: SecondaryView, rest: Seq<u8>)
    requires
        s.phase == Phase::Payload,
        rest.len() >= 1,
        s.buf.len() + rest.len() == s.expect,
    ensures
        feed(s, rest) == (waiting(s.expect), seq![s.buf + rest]),
    decreases rest.len(),
{
    let buf = s.buf.push(rest[0]);
    if rest.len() == 1 {
        assert(buf =~= s.buf + rest);
        assert(rest.drop_first() =~= Seq::<u8>::empty());
        assert(feed(waiting(s.expect), rest.drop_first()) == (waiting(s.expect), Seq::<Seq<u8>>::empty()));
        assert(seq![buf] + Seq::<Seq<u8>>::empty() =~= seq![buf]);
    } else {
        assert(step(s, rest[0]) == (SecondaryView { buf, ..s }, None::<Seq<u8>>));
        lemma_feed_payload(SecondaryView { buf, ..s }, rest.drop_first());
        assert(buf + rest.drop_first() =~= s.buf + rest);
    }
}

/// A complete response decodes to its payload: from the waiting decoder,
/// the echo `'r' 0x30` followed by exactly `expect` (at least one) payload
/// bytes yields that payload once, and the decoder waits again.
pub proof fn lemma_response_decodes(payload: Seq<u8>)
    requires
        payload.len() >= 1,
    ensures
        feed(waiting(payload.len()), seq![ECHO_R, ECHO_CMD] + payload)
            == (waiting(payload.len()), seq![payload]),
{
    let n = payload.len();
    let bytes = seq![ECHO_R, ECHO_CMD] + payload;
    let s1 = SecondaryView { phase: Phase::CanCmd, expect: n, buf: seq![] };
    let s2 = SecondaryView { phase: Phase::Payload, expect: n, buf: seq![] };
    assert(bytes[0] == ECHO_R);
    assert(bytes.drop_first()[0] == ECHO_CMD);
    assert(bytes.drop_first().drop_first() =~= payload);
    lemma_feed_payload(s2, payload);
    assert(seq![] + payload =~= payload);
    assert(step(waiting(n), ECHO_R) == (s1, None::<Seq<u8>>));
    assert(step(s1, ECHO_CMD) == (s2, None::<Seq<u8>>));
    assert(feed(s1, bytes.drop_first()) == feed(s2, payload));
    assert(feed(waiting(n), bytes) == feed(s1, bytes.drop_first()));
}

/// A reset decoder decodes like a new one: after `reset(e)`, and on
/// `new(e)`, pushing the same bytes gives the same payloads and the same
/// state.
pub proof fn lemma_reset_decodes_as_new(after_reset: &Decoder, fresh: &Decoder, e: nat, bytes: Seq<u8>)
    requires
        after_reset.view() == waiting(e),
        fresh.view() == waiting(e),
    ensures
        feed(after_reset.view(), bytes) == feed(fresh.view(), bytes),
{
}

/// Bytes that contain no `'r'` are skipped: while waiting for an echo,
/// such noise emits nothing and leaves the decoder waiting.
pub proof fn lemma_noise_skipped(expect: nat, noise: Seq<u8>)
    requires
        forall|i: int| 0 <= i < noise.len() ==> noise[i] != ECHO_R,
    ensures
        feed(waiting(expect), noise) == (waiting(expect), Seq::<Seq<u8>>::empty()),
    decreases noise.len(),
{
    if noise.len() > 0 {
        assert forall|i: int| 0 <= i < noise.drop_first().len() implies noise.drop_first()[i] != ECHO_R by {
            assert(noise.drop_first()[i] == noise[i + 1]);
        }
        lemma_noise_skipped(expect, noise.drop_first());
    }
}

} // verus!
