//! Blocking request/response session over a [`Transport`].
//!
//! Strictly one command in flight (a second command while the ECU is still
//! assembling the first desyncs its parser), a response deadline after
//! which the ECU's own parser is assumed to have flushed, and an input
//! flush after a CRC mismatch.

use vstd::prelude::*;
use std::time::{Duration, Instant};
use crate::clock::{clock_now, duration_from_millis, instant_after, instant_reached};
use super::ProtoError;
use super::command::{spec_build, spec_parse, Args, SpecArgs, SpecPart, Template};
use super::envelope::{self, spec_encode, SpecEvent, MAX_PAYLOAD, RC_OK};
use super::secondary;
use super::transport::Transport;
use crate::bytes::le16;
use crate::text::{trim, trimmed};

verus! {

/// How the ECU is wired up.
#[derive(Debug, Clone, Copy, PartialEq, Eq, Structural)]
pub enum Mode {
    /// USB/primary serial: commands wrapped in the Protocol 3 CRC envelope.
    Primary,
    /// SER3 secondary serial: raw commands, no checksum, telemetry only.
    Secondary,
}

/// Protocol parameters lifted from the INI (never hardcoded).
#[derive(Debug, Clone)]
pub struct Config {
    pub mode: Mode,
    pub can_id: u8,
    /// `ochGetCommand` template, e.g. `r\$tsCanId\x30%2o%2c`.
    pub och_get_command: String,
    /// `ochBlockSize` — bytes in a realtime frame.
    pub och_block_size: u16,
    /// Deadline for a response before the command is considered unanswered.
    pub response_timeout: Duration,
}

impl Config {
    /// A configuration with CAN id 0 and a 700 ms response deadline.
    pub fn new(mode: Mode, och_get_command: &str, och_block_size: u16) -> (c: Self)
        ensures
            c.mode == mode,
            c.can_id == 0,
            c.och_get_command@ == och_get_command@,
            c.och_block_size == och_block_size,
    {
        Config {
            mode,
            can_id: 0,
            och_get_command: String::from_str(och_get_command),
            och_block_size,
            response_timeout: duration_from_millis(700),
        }
    }
}

/// The arguments of a realtime poll: offset 0, `count` bytes.
pub open spec fn poll_args(can_id: u8, count: u16) -> SpecArgs {
    SpecArgs { can_id, page_id: None, offset: Some(0), count: Some(count), value: None }
}

/// Whether `rc` is listed in `ok`.
pub open spec fn accepted(ok: Seq<u8>, rc: u8) -> bool {
    ok.contains(rc)
}

/// The arguments of a text query: only the CAN id.
pub open spec fn query_args(can_id: u8) -> SpecArgs {
    SpecArgs { can_id, page_id: None, offset: None, count: None, value: None }
}

/// What the bytes received after an enveloped request amount to.
pub enum Reply {
    /// A frame with an accepted return code: the data after it.
    Data(Seq<u8>),
    /// A frame with another return code.
    Rejected(u8),
    /// A frame whose CRC did not match.
    Corrupt,
    /// No complete frame.
    Silent,
}

/// The reply that the first frame decoded from `got` gives, with `ok` the
/// return codes counted as success.
pub open spec fn spec_reply(got: Seq<u8>, ok: Seq<u8>) -> Reply {
    match envelope::first_event(got) {
        Some(SpecEvent::Frame(p)) => if accepted(ok, p[0]) {
            Reply::Data(p.skip(1))
        } else {
            Reply::Rejected(p[0])
        },
        Some(SpecEvent::CrcMismatch) => Reply::Corrupt,
        None => Reply::Silent,
    }
}

/// What a request returns for the bytes `got` received in reply, with
/// `flushed` the number of input flushes it made: the data of an accepted
/// frame; the return code of another; after a corrupt frame one flush and
/// a CRC error (or the flush's I/O error); without a frame, a timeout or
/// the transport's error.
pub open spec fn reply_result(got: Seq<u8>, ok: Seq<u8>, r: Result<Vec<u8>, ProtoError>, flushed: int) -> bool {
    match spec_reply(got, ok) {
        Reply::Data(d) => (r matches Ok(v) && v@ == d) && flushed == 0,
        Reply::Rejected(rc) => (r matches Err(ProtoError::EcuError(x)) && x == rc) && flushed == 0,
        Reply::Corrupt => (r matches Err(e) && (e is CrcMismatch || e is Io)) && flushed == 1,
        Reply::Silent => (r matches Err(e) && (e is Timeout || e is Io)) && flushed == 0,
    }
}

/// `after` continues `before`.
pub open spec fn extends(before: Seq<u8>, after: Seq<u8>) -> bool {
    before.len() <= after.len() && after.take(before.len() as int) == before
}

/// The bytes of `after` past `before`.
pub open spec fn since(before: Seq<u8>, after: Seq<u8>) -> Seq<u8> {
    after.skip(before.len() as int)
}

fn strip_rc(full: &Vec<u8>) -> (data: Vec<u8>)
    requires
        full@.len() >= 1,
    ensures
        data@ == full@.skip(1),
{
    let mut data: Vec<u8> = Vec::new();
    let mut i: usize = 1;
    while i < full.len()
        invariant
            1 <= i <= full@.len(),
            data@ == full@.subrange(1, i as int),
        decreases full@.len() - i,
    {
        data.push(full[i]);
        i = i + 1;
        assert(data@ =~= full@.subrange(1, i as int));
    }
    assert(full@.subrange(1, full@.len() as int) =~= full@.skip(1));
    data
}

pub struct Session<T: Transport> {
    transport: T,
    config: Config,
    och_get: Template,
    sent: Ghost<Seq<Seq<u8>>>,
    got: Ghost<Seq<u8>>,
    flushes: Ghost<nat>,
    replies: Ghost<Seq<Seq<u8>>>,
}

impl<T: Transport> Session<T> {
    /// The configuration this session was opened with.
    pub closed spec fn spec_config(&self) -> Config {
        self.config
    }

    /// The parsed `ochGetCommand` template.
    pub closed spec fn och_template(&self) -> Seq<SpecPart> {
        self.och_get@
    }

    /// Every byte string this session has handed to its transport, in order.
    pub closed spec fn commands(&self) -> Seq<Seq<u8>> {
        self.sent@
    }

    /// Every byte its transport has given this session, in order.
    pub closed spec fn received(&self) -> Seq<u8> {
        self.got@
    }

    /// How many times this session has flushed its transport's input.
    pub closed spec fn flush_count(&self) -> nat {
        self.flushes@
    }

    /// For each enveloped request, the bytes received while awaiting its
    /// reply.
    pub closed spec fn replies(&self) -> Seq<Seq<u8>> {
        self.replies@
    }

    pub closed spec fn spec_transport(&self) -> T {
        self.transport
    }

    pub fn new(transport: T, config: Config) -> (r: Result<Self, ProtoError>)
        ensures
            match r {
                Ok(s) => {
                    &&& spec_parse(config.och_get_command@) == Some(s.och_template())
                    &&& s.spec_config() == config
                    &&& s.spec_transport() == transport
                    &&& s.commands().len() == 0
                    &&& s.received().len() == 0
                    &&& s.flush_count() == 0
                    &&& s.replies().len() == 0
                },
                Err(e) => spec_parse(config.och_get_command@) is None && e is Template,
            },
    {
        let och_get = match Template::parse(config.och_get_command.as_str()) {
            Ok(t) => t,
            Err(e) => return Err(e),
        };
        Ok(Session {
            transport,
            config,
            och_get,
            sent: Ghost(Seq::empty()),
            got: Ghost(Seq::empty()),
            flushes: Ghost(0),
            replies: Ghost(Seq::empty()),
        })
    }

    pub fn config(&self) -> (c: &Config)
        ensures
            *c == self.spec_config(),
    {
        &self.config
    }

    pub fn transport_mut(&mut self) -> (t: &mut T)
        ensures
            *t == old(self).spec_transport(),
            final(self).spec_transport() == *final(t),
            final(self).spec_config() == old(self).spec_config(),
            final(self).och_template() == old(self).och_template(),
            final(self).commands() == old(self).commands(),
            final(self).received() == old(self).received(),
            final(self).flush_count() == old(self).flush_count(),
            final(self).replies() == old(self).replies(),
    {
        &mut self.transport
    }

    /// Poll one realtime telemetry frame (the raw och block): in primary
    /// mode an enveloped request answered with RC_OK, in secondary mode the
    /// raw command answered by the first `r 0x30` payload.
    pub fn read_realtime(&mut self) -> (r: Result<Vec<u8>, ProtoError>)
        ensures
            final(self).spec_config() == old(self).spec_config(),
            final(self).och_template() == old(self).och_template(),
            match spec_build(old(self).och_template(),
                poll_args(old(self).spec_config().can_id, old(self).spec_config().och_block_size)) {
                None => {
                    &&& (r matches Err(e) && e is Template)
                    &&& final(self).commands() == old(self).commands()
                    &&& final(self).spec_transport() == old(self).spec_transport()
                    &&& final(self).received() == old(self).received()
                    &&& final(self).flush_count() == old(self).flush_count()
                    &&& final(self).replies() == old(self).replies()
                },
                Some(cmd) => {
                    &&& extends(old(self).received(), final(self).received())
                    &&& old(self).spec_config().mode == Mode::Secondary ==> {
                        &&& final(self).commands() == old(self).commands().push(cmd)
                        &&& final(self).flush_count() == old(self).flush_count()
                        &&& final(self).replies() == old(self).replies()
                        &&& match secondary::first_payload(old(self).spec_config().och_block_size as nat,
                                since(old(self).received(), final(self).received())) {
                            Some(p) => r matches Ok(v) && v@ == p,
                            None => r matches Err(e) && (e is Timeout || e is Io),
                        }
                    }
                    &&& old(self).spec_config().mode == Mode::Primary ==> {
                        &&& final(self).commands() == old(self).commands().push(spec_encode(cmd))
                        &&& final(self).replies() == old(self).replies().push(
                                since(old(self).received(), final(self).received()))
                        &&& reply_result(since(old(self).received(), final(self).received()), seq![RC_OK], r,
                                final(self).flush_count() - old(self).flush_count())
                        &&& r matches Ok(v) ==> v@.len() < MAX_PAYLOAD
                    }
                },
            },
    {
        let count = self.config.och_block_size;
        let args = Args { can_id: self.config.can_id, page_id: None, offset: Some(0), count: Some(count), value: None };
        let cmd = match self.och_get.build(&args) {
            Ok(c) => c,
            Err(e) => return Err(e),
        };
        match self.config.mode {
            Mode::Secondary => {
                proof {
                    self.sent@ = self.sent@.push(cmd@);
                }
                let ghost before = self.got@;
                match self.transport.write_all(cmd.as_slice()) {
                    Ok(()) => {},
                    Err(e) => {
                        proof {
                            assert(since(before, self.got@) =~= Seq::<u8>::empty());
                            assert(self.got@.take(before.len() as int) =~= before);
                        }
                        return Err(ProtoError::Io(e));
                    },
                }
                self.read_secondary(count as usize)
            },
            Mode::Primary => {
                let ok: [u8; 1] = [RC_OK];
                assert(ok@ =~= seq![RC_OK]);
                self.request(cmd.as_slice(), &ok)
            },
        }
    }

    /// One enveloped request/response roundtrip (primary serial only).
    /// `ok` lists the return codes counted as success — burn commands ack
    /// with RC_BURN_OK (0x04), everything else with RC_OK. Returns the data
    /// after the return code.
    pub fn request(&mut self, payload: &[u8], ok: &[u8]) -> (r: Result<Vec<u8>, ProtoError>)
        ensures
            final(self).spec_config() == old(self).spec_config(),
            final(self).och_template() == old(self).och_template(),
            old(self).spec_config().mode != Mode::Primary ==> {
                &&& (r matches Err(e) && e is Unsupported)
                &&& final(self).commands() == old(self).commands()
                &&& final(self).spec_transport() == old(self).spec_transport()
                &&& final(self).received() == old(self).received()
                &&& final(self).flush_count() == old(self).flush_count()
                &&& final(self).replies() == old(self).replies()
            },
            old(self).spec_config().mode == Mode::Primary ==> {
                &&& final(self).commands() == old(self).commands().push(spec_encode(payload@))
                &&& extends(old(self).received(), final(self).received())
                &&& final(self).replies() == old(self).replies().push(
                        since(old(self).received(), final(self).received()))
                &&& reply_result(since(old(self).received(), final(self).received()), ok@, r,
                        final(self).flush_count() - old(self).flush_count())
                &&& r matches Ok(v) ==> v@.len() < MAX_PAYLOAD
            },
            r matches Err(e) ==> (e is Unsupported || e is Io || e is EcuError || e is CrcMismatch || e is Timeout),
    {
        if self.config.mode != Mode::Primary {
            return Err(ProtoError::Unsupported(
                "enveloped commands need the primary serial (SER3 is telemetry-only)",
            ));
        }
        let frame = envelope::encode(payload);
        proof {
            self.sent@ = self.sent@.push(frame@);
        }
        let ghost before = self.got@;
        let ghost fl = self.flushes@;
        let r = match self.transport.write_all(frame.as_slice()) {
            Ok(()) => match self.read_enveloped(ok) {
                Ok(full) => Ok(strip_rc(&full)),
                Err(e) => Err(e),
            },
            Err(e) => {
                proof {
                    assert(since(before, self.got@) =~= Seq::<u8>::empty());
                    assert(self.got@.take(before.len() as int) =~= before);
                    assert(envelope::feed(envelope::idle(), Seq::<u8>::empty()).1 =~= Seq::<SpecEvent>::empty());
                }
                Err(ProtoError::Io(e))
            },
        };
        proof {
            self.replies@ = self.replies@.push(since(before, self.got@));
        }
        r
    }

    /// Send an ASCII command template (INI `queryCommand`/`versionInfo`,
    /// e.g. `"Q"`) and decode the response as text.
    pub fn query_string(&mut self, command_template: &str) -> (r: Result<String, ProtoError>)
        ensures
            final(self).spec_config() == old(self).spec_config(),
            final(self).och_template() == old(self).och_template(),
            spec_parse(command_template@) is None ==> (r matches Err(e) && e is Template)
                && final(self).commands() == old(self).commands()
                && final(self).spec_transport() == old(self).spec_transport(),
            spec_parse(command_template@) matches Some(t) ==> match spec_build(t, query_args(old(self).spec_config().can_id)) {
                None => (r matches Err(e) && e is Template)
                    && final(self).commands() == old(self).commands()
                    && final(self).spec_transport() == old(self).spec_transport(),
                Some(cmd) => {
                    &&& old(self).spec_config().mode != Mode::Primary ==> (r matches Err(e) && e is Unsupported)
                        && final(self).spec_transport() == old(self).spec_transport()
                    &&& old(self).spec_config().mode == Mode::Primary ==> {
                        &&& final(self).commands() == old(self).commands().push(spec_encode(cmd))
                        &&& extends(old(self).received(), final(self).received())
                        &&& match spec_reply(since(old(self).received(), final(self).received()), seq![RC_OK]) {
                            Reply::Data(d) => r matches Ok(text) && text@ == trim(trim_nul_end(spec_utf8_lossy(d))),
                            _ => r is Err,
                        }
                    }
                },
            },
    {
        let tpl = match Template::parse(command_template) {
            Ok(t) => t,
            Err(e) => return Err(e),
        };
        let args = Args { can_id: self.config.can_id, page_id: None, offset: None, count: None, value: None };
        let cmd = match tpl.build(&args) {
            Ok(c) => c,
            Err(e) => return Err(e),
        };
        let ok: [u8; 1] = [RC_OK];
        assert(ok@ =~= seq![RC_OK]);
        let data = match self.request(cmd.as_slice(), &ok) {
            Ok(d) => d,
            Err(e) => return Err(e),
        };
        let text = utf8_lossy(data.as_slice());
        let n = nul_trimmed_len(&text);
        let t = trimmed(&text, 0, n);
        proof {
            assert(text@.subrange(0, n as int) == trim_nul_end(text@));
        }
        Ok(crate::text::string_from_chars(t.as_slice()))
    }

    /// Await one enveloped response: the first event decoded from the bytes
    /// received. Returns the payload (return code first).
    fn read_enveloped(&mut self, ok: &[u8]) -> (r: Result<Vec<u8>, ProtoError>)
        ensures
            final(self).spec_config() == old(self).spec_config(),
            final(self).och_template() == old(self).och_template(),
            final(self).commands() == old(self).commands(),
            final(self).replies() == old(self).replies(),
            extends(old(self).received(), final(self).received()),
            r matches Ok(v) ==> 1 <= v@.len() <= MAX_PAYLOAD,
            match envelope::first_event(since(old(self).received(), final(self).received())) {
                Some(SpecEvent::Frame(p)) => final(self).flush_count() == old(self).flush_count() && if accepted(ok@, p[0]) {
                    r matches Ok(v) && v@ == p
                } else {
                    r matches Err(ProtoError::EcuError(x)) && x == p[0]
                },
                Some(SpecEvent::CrcMismatch) => final(self).flush_count() == old(self).flush_count() + 1
                    && (r matches Err(e) && (e is CrcMismatch || e is Io)),
                None => final(self).flush_count() == old(self).flush_count()
                    && (r matches Err(e) && (e is Timeout || e is Io)),
            },
    {
        let ghost base = self.got@;
        let start = clock_now();
        let deadline = instant_after(start, self.config.response_timeout);
        let mut dec = envelope::Decoder::new();
        let ghost mut fed: Seq<u8> = Seq::empty();
        let mut chunk: Vec<u8> = vec![0u8; 256];
        let mut rounds: u64 = 0;
        assert(envelope::feed(envelope::idle(), fed).1 =~= Seq::<SpecEvent>::empty());
        assert(base + fed =~= base);
        while rounds < u64::MAX
            invariant
                dec.wf(),
                dec.view() == envelope::feed(envelope::idle(), fed).0,
                envelope::feed(envelope::idle(), fed).1.len() == 0,
                self.got@ == base + fed,
                self.flushes@ == old(self).flushes@,
                base == old(self).got@,
                chunk@.len() == 256,
                self.spec_config() == old(self).spec_config(),
                self.och_template() == old(self).och_template(),
                self.commands() == old(self).commands(),
                self.replies() == old(self).replies(),
            decreases u64::MAX - rounds,
        {
            let n = match self.read_some(chunk.as_mut_slice(), deadline) {
                Ok(n) => n,
                Err(e) => {
                    proof {
                        assert(since(base, self.got@) =~= fed);
                        assert(self.got@.take(base.len() as int) =~= base);
                    }
                    return Err(e);
                },
            };
            let mut i: usize = 0;
            assert(chunk@.subrange(0, n as int) =~= chunk@.take(n as int));
            while i < n
                invariant
                    dec.wf(),
                    dec.view() == envelope::feed(envelope::idle(), fed).0,
                    envelope::feed(envelope::idle(), fed).1.len() == 0,
                    self.got@ == base + fed + chunk@.subrange(i as int, n as int),
                    self.flushes@ == old(self).flushes@,
                    base == old(self).got@,
                    n <= chunk@.len(),
                    chunk@.len() == 256,
                    i <= n,
                    self.spec_config() == old(self).spec_config(),
                    self.och_template() == old(self).och_template(),
                    self.commands() == old(self).commands(),
                    self.replies() == old(self).replies(),
                decreases n - i,
            {
                let b = chunk[i];
                let ghost rest = chunk@.subrange(i + 1, n as int);
                proof {
                    envelope::lemma_wf_view(&dec);
                    envelope::lemma_feed_push(envelope::idle(), fed, b);
                    assert(chunk@.subrange(i as int, n as int) =~= seq![b] + rest);
                    assert(base + fed + (seq![b] + rest) =~= base + (fed.push(b) + rest));
                    assert(base + fed.push(b) + rest =~= base + fed + chunk@.subrange(i as int, n as int));
                }
                match dec.push(b) {
                    Some(envelope::Event::Frame(payload)) => {
                        proof {
                            envelope::lemma_first_event_prefix(fed.push(b), rest);
                            assert(since(base, self.got@) =~= fed.push(b) + rest);
                            assert(self.got@.take(base.len() as int) =~= base);
                            assert(envelope::feed(envelope::idle(), fed.push(b)).1 =~= seq![SpecEvent::Frame(payload@)]);
                        }
                        let rc = payload[0];
                        if !contains(ok, rc) {
                            return Err(ProtoError::EcuError(rc));
                        }
                        return Ok(payload);
                    },
                    Some(envelope::Event::CrcMismatch) => {
                        proof {
                            envelope::lemma_first_event_prefix(fed.push(b), rest);
                            assert(since(base, self.got@) =~= fed.push(b) + rest);
                            assert(self.got@.take(base.len() as int) =~= base);
                            assert(envelope::feed(envelope::idle(), fed.push(b)).1 =~= seq![SpecEvent::CrcMismatch]);
                            self.flushes@ = self.flushes@ + 1;
                        }
                        // Let the line settle so the next response starts on
                        // a clean boundary.
                        match self.transport.flush_input() {
                            Ok(()) => {},
                            Err(e) => return Err(ProtoError::Io(e)),
                        }
                        return Err(ProtoError::CrcMismatch);
                    },
                    None => {},
                }
                proof {
                    assert(envelope::feed(envelope::idle(), fed.push(b)).1 =~= envelope::feed(envelope::idle(), fed).1);
                    fed = fed.push(b);
                }
                i = i + 1;
            }
            assert(chunk@.subrange(n as int, n as int) =~= Seq::<u8>::empty());
            assert(base + fed + Seq::<u8>::empty() =~= base + fed);
            rounds = rounds + 1;
        }
        proof {
            assert(since(base, self.got@) =~= fed);
            assert(self.got@.take(base.len() as int) =~= base);
        }
        Err(ProtoError::Timeout)
    }

    /// Await one secondary-serial response of `expect` payload bytes: the
    /// first payload that the secondary decoder makes of the bytes read,
    /// or the read error or timeout that came first.
    fn read_secondary(&mut self, expect: usize) -> (r: Result<Vec<u8>, ProtoError>)
        ensures
            final(self).spec_config() == old(self).spec_config(),
            final(self).och_template() == old(self).och_template(),
            final(self).commands() == old(self).commands(),
            final(self).replies() == old(self).replies(),
            final(self).flush_count() == old(self).flush_count(),
            extends(old(self).received(), final(self).received()),
            match secondary::first_payload(expect as nat, since(old(self).received(), final(self).received())) {
                Some(p) => r matches Ok(v) && v@ == p,
                None => r matches Err(e) && (e is Timeout || e is Io),
            },
    {
        let ghost base = self.got@;
        let start = clock_now();
        let deadline = instant_after(start, self.config.response_timeout);
        let mut dec = secondary::Decoder::new(expect);
        let ghost mut fed: Seq<u8> = Seq::empty();
        let mut chunk: Vec<u8> = vec![0u8; 256];
        let mut rounds: u64 = 0;
        assert(secondary::feed(secondary::waiting(expect as nat), fed).1 =~= Seq::<Seq<u8>>::empty());
        assert(base + fed =~= base);
        while rounds < u64::MAX
            invariant
                dec.view() == secondary::feed(secondary::waiting(expect as nat), fed).0,
                secondary::feed(secondary::waiting(expect as nat), fed).1.len() == 0,
                self.got@ == base + fed,
                self.flushes@ == old(self).flushes@,
                base == old(self).got@,
                chunk@.len() == 256,
                self.spec_config() == old(self).spec_config(),
                self.och_template() == old(self).och_template(),
                self.commands() == old(self).commands(),
                self.replies() == old(self).replies(),
            decreases u64::MAX - rounds,
        {
            let n = match self.read_some(chunk.as_mut_slice(), deadline) {
                Ok(n) => n,
                Err(e) => {
                    proof {
                        assert(since(base, self.got@) =~= fed);
                        assert(self.got@.take(base.len() as int) =~= base);
                    }
                    return Err(e);
                },
            };
            let mut i: usize = 0;
            assert(chunk@.subrange(0, n as int) =~= chunk@.take(n as int));
            while i < n
                invariant
                    dec.view() == secondary::feed(secondary::waiting(expect as nat), fed).0,
                    secondary::feed(secondary::waiting(expect as nat), fed).1.len() == 0,
                    self.got@ == base + fed + chunk@.subrange(i as int, n as int),
                    self.flushes@ == old(self).flushes@,
                    base == old(self).got@,
                    n <= chunk@.len(),
                    chunk@.len() == 256,
                    i <= n,
                    self.spec_config() == old(self).spec_config(),
                    self.och_template() == old(self).och_template(),
                    self.commands() == old(self).commands(),
                    self.replies() == old(self).replies(),
                decreases n - i,
            {
                let b = chunk[i];
                let ghost rest = chunk@.subrange(i + 1, n as int);
                proof {
                    secondary::lemma_feed_push(secondary::waiting(expect as nat), fed, b);
                    assert(chunk@.subrange(i as int, n as int) =~= seq![b] + rest);
                    assert(base + fed + (seq![b] + rest) =~= base + (fed.push(b) + rest));
                    assert(base + fed.push(b) + rest =~= base + fed + chunk@.subrange(i as int, n as int));
                }
                let out = dec.push(b);
                if let Some(payload) = out {
                    proof {
                        secondary::lemma_feed_append(secondary::waiting(expect as nat), fed.push(b), rest);
                        assert(since(base, self.got@) =~= fed.push(b) + rest);
                        assert(self.got@.take(base.len() as int) =~= base);
                        assert(secondary::feed(secondary::waiting(expect as nat), fed.push(b)).1 =~= seq![payload@]);
                    }
                    return Ok(payload);
                }
                proof {
                    assert(secondary::feed(secondary::waiting(expect as nat), fed.push(b)).1
                        =~= secondary::feed(secondary::waiting(expect as nat), fed).1);
                    fed = fed.push(b);
                }
                i = i + 1;
            }
            assert(chunk@.subrange(n as int, n as int) =~= Seq::<u8>::empty());
            assert(base + fed + Seq::<u8>::empty() =~= base + fed);
            rounds = rounds + 1;
        }
        proof {
            assert(since(base, self.got@) =~= fed);
            assert(self.got@.take(base.len() as int) =~= base);
        }
        Err(ProtoError::Timeout)
    }

    /// One transport read, failing once the deadline has passed with no data.
    fn read_some(&mut self, chunk: &mut [u8], deadline: Option<Instant>) -> (r: Result<usize, ProtoError>)
        ensures
            final(chunk)@.len() == old(chunk)@.len(),
            final(self).spec_config() == old(self).spec_config(),
            final(self).och_template() == old(self).och_template(),
            final(self).commands() == old(self).commands(),
            final(self).flush_count() == old(self).flush_count(),
            final(self).replies() == old(self).replies(),
            r matches Ok(n) ==> 0 < n <= old(chunk)@.len()
                && final(self).received() == old(self).received() + final(chunk)@.take(n as int),
            r matches Err(e) ==> (e is Timeout || e is Io) && final(self).received() == old(self).received(),
    {
        let mut polls: u64 = 0;
        while polls < u64::MAX
            invariant
                chunk@.len() == old(chunk)@.len(),
                self.spec_config() == old(self).spec_config(),
                self.och_template() == old(self).och_template(),
                self.commands() == old(self).commands(),
                self.got@ == old(self).got@,
                self.flushes@ == old(self).flushes@,
                self.replies() == old(self).replies(),
            decreases u64::MAX - polls,
        {
            if let Some(d) = deadline {
                if instant_reached(clock_now(), d) {
                    return Err(ProtoError::Timeout);
                }
            }
            match self.transport.read(chunk) {
                Ok(n) => {
                    if n > 0 {
                        proof {
                            self.got@ = self.got@ + chunk@.take(n as int);
                        }
                        return Ok(n);
                    }
                },
                Err(e) => return Err(ProtoError::Io(e)),
            }
            polls = polls + 1;
        }
        Err(ProtoError::Timeout)
    }
}

/// Whether `ok` lists `rc`.
pub fn contains(ok: &[u8], rc: u8) -> (r: bool)
    ensures
        r == accepted(ok@, rc),
{
    let mut i: usize = 0;
    while i < ok.len()
        invariant
            i <= ok@.len(),
            forall|j: int| 0 <= j < i ==> ok@[j] != rc,
        decreases ok@.len() - i,
    {
        if ok[i] == rc {
            assert(ok@[i as int] == rc);
            return true;
        }
        i = i + 1;
    }
    false
}

/// Lossy UTF-8 decoding of a byte string (invalid sequences become U+FFFD).
pub uninterp spec fn spec_utf8_lossy(b: Seq<u8>) -> Seq<char>;

/// `String::from_utf8_lossy`, as characters. The decoding itself is std's
/// and is named, not restated.
#[verifier::external_body]
fn utf8_lossy(b: &[u8]) -> (r: Vec<char>)
    ensures
        r@ == spec_utf8_lossy(b@),
{
    String::from_utf8_lossy(b).chars().collect()
}

/// The text without its trailing NUL characters.
pub open spec fn trim_nul_end(s: Seq<char>) -> Seq<char>
    decreases s.len(),
{
    if s.len() > 0 && s.last() == '\0' {
        trim_nul_end(s.drop_last())
    } else {
        s
    }
}

fn nul_trimmed_len(v: &Vec<char>) -> (n: usize)
    ensures
        n <= v@.len(),
        v@.subrange(0, n as int) == trim_nul_end(v@),
{
    let mut n = v.len();
    assert(v@.subrange(0, n as int) =~= v@);
    while n > 0 && v[n - 1] == '\0'
        invariant
            n <= v@.len(),
            trim_nul_end(v@.subrange(0, n as int)) == trim_nul_end(v@),
        decreases n,
    {
        assert(v@.subrange(0, n as int).drop_last() =~= v@.subrange(0, n - 1));
        n = n - 1;
    }
    n
}

} // verus!
