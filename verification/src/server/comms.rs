//! The comms worker's decisions: how each realtime poll outcome and each
//! logging event changes the connection status, when the status is worth
//! broadcasting, and when the engine-stop monitor asks the appliance to
//! shut down. The worker itself (serial session, channels, sleeping,
//! files) performs what these decide.

use vstd::prelude::*;
use vstd::string::StringExecFns;
use crate::text::string_views;
use crate::proto::ProtoError;

verus! {

#[derive(Debug, Clone)]
pub struct LogSummary {
    pub path: String,
    pub rows: u64,
}

#[derive(Debug, Clone)]
pub struct LogStatus {
    pub path: String,
    pub rows: u64,
}

impl Default for LogStatus {
    fn default() -> (s: Self)
        ensures
            s.path@ == Seq::<char>::empty(),
            s.rows == 0,
    {
        LogStatus { path: String::new(), rows: 0 }
    }
}

/// Connection status snapshot, shared with the HTTP side and broadcast to
/// clients.
#[derive(Debug, Clone)]
pub struct Status {
    pub connected: bool,
    pub port: Option<String>,
    pub mode: Option<String>,
    pub baud: Option<u32>,
    pub frames: u64,
    pub crc_errors: u64,
    pub timeouts: u64,
    /// What the ECU answered to the INI's queryCommand (primary mode only).
    pub ecu_signature: Option<String>,
    /// All tune pages downloaded and CRC-verified.
    pub tune_loaded: bool,
    /// Editing an opened .msq with no ECU — tune loaded, no serial.
    pub offline: bool,
    pub last_error: Option<String>,
    pub log: Option<LogStatus>,
}

impl Default for Status {
    /// Disconnected, nothing counted, no error, no log.
    fn default() -> (s: Self)
        ensures
            !s.connected,
            s.port is None,
            s.mode is None,
            s.baud is None,
            s.frames == 0,
            s.crc_errors == 0,
            s.timeouts == 0,
            s.ecu_signature is None,
            !s.tune_loaded,
            !s.offline,
            s.last_error is None,
            s.log is None,
    {
        Status {
            connected: false,
            port: None,
            mode: None,
            baud: None,
            frames: 0,
            crc_errors: 0,
            timeouts: 0,
            ecu_signature: None,
            tune_loaded: false,
            offline: false,
            last_error: None,
            log: None,
        }
    }
}

/// After this many consecutive unanswered polls the status shows an error
/// (polling continues — the ECU may come back after a power cycle).
pub const SILENT_POLLS_BEFORE_ERROR: u32 = 3;

/// The status of a fresh connection to `port`.
pub fn connected_status(port: String, mode: String, baud: u32) -> (s: Status)
    ensures
        s.connected,
        s.port == Some(port),
        s.mode == Some(mode),
        s.baud == Some(baud),
        s.frames == 0 && s.crc_errors == 0 && s.timeouts == 0,
        s.ecu_signature is None,
        !s.tune_loaded && !s.offline,
        s.last_error is None,
        s.log is None,
{
    Status {
        connected: true,
        port: Some(port),
        mode: Some(mode),
        baud: Some(baud),
        frames: 0,
        crc_errors: 0,
        timeouts: 0,
        ecu_signature: None,
        tune_loaded: false,
        offline: false,
        last_error: None,
        log: None,
    }
}

/// The polling loop's own memory between outcomes.
pub struct PollState {
    pub consecutive_timeouts: u32,
    /// Start a datalog on the next frame when none is open; a manual stop
    /// turns this off until the next connection.
    pub auto_log_enabled: bool,
}

/// Everything but the named fields is as before.
pub open spec fn same_except_counters(a: Status, b: Status) -> bool {
    &&& a.connected == b.connected
    &&& a.port == b.port
    &&& a.mode == b.mode
    &&& a.baud == b.baud
    &&& a.ecu_signature == b.ecu_signature
    &&& a.tune_loaded == b.tune_loaded
    &&& a.offline == b.offline
}

impl PollState {
    pub fn new(auto_log: bool) -> (p: Self)
        ensures
            p.consecutive_timeouts == 0,
            p.auto_log_enabled == auto_log,
    {
        PollState { consecutive_timeouts: 0, auto_log_enabled: auto_log }
    }

    /// Whether a frame should open an automatic datalog first.
    pub fn wants_auto_log(&self, log_open: bool) -> (b: bool)
        ensures
            b == (self.auto_log_enabled && !log_open),
    {
        self.auto_log_enabled && !log_open
    }

    /// A frame arrived. `log_rows` is the open datalog's row count after
    /// this frame, if one is open. Returns whether the ECU had been
    /// reported silent, in which case the error is cleared and the status
    /// should be broadcast.
    pub fn on_frame(&mut self, status: &mut Status, log_rows: Option<u64>) -> (recovered: bool)
        requires
            old(status).frames < u64::MAX,
        ensures
            recovered == (old(self).consecutive_timeouts >= SILENT_POLLS_BEFORE_ERROR),
            final(self).consecutive_timeouts == 0,
            final(self).auto_log_enabled == old(self).auto_log_enabled,
            final(status).frames == old(status).frames + 1,
            final(status).crc_errors == old(status).crc_errors,
            final(status).timeouts == old(status).timeouts,
            final(status).last_error == if recovered {
                None
            } else {
                old(status).last_error
            },
            final(status).log == match (old(status).log, log_rows) {
                (Some(l), Some(n)) => Some(LogStatus { path: l.path, rows: n }),
                _ => old(status).log,
            },
            same_except_counters(*old(status), *final(status)),
    {
        let had_error = self.consecutive_timeouts >= SILENT_POLLS_BEFORE_ERROR;
        self.consecutive_timeouts = 0;
        status.frames = status.frames + 1;
        match (&mut status.log, log_rows) {
            (Some(l), Some(n)) => {
                l.rows = n;
            },
            _ => {},
        }
        if had_error {
            status.last_error = None;
        }
        had_error
    }

    /// The frame failed its CRC check.
    pub fn on_crc_mismatch(&mut self, status: &mut Status)
        requires
            old(status).crc_errors < u64::MAX,
        ensures
            final(status).crc_errors == old(status).crc_errors + 1,
            final(status).frames == old(status).frames,
            final(status).timeouts == old(status).timeouts,
            final(status).last_error == old(status).last_error,
            final(status).log == old(status).log,
            same_except_counters(*old(status), *final(status)),
            final(self).consecutive_timeouts == old(self).consecutive_timeouts,
            final(self).auto_log_enabled == old(self).auto_log_enabled,
    {
        status.crc_errors = status.crc_errors + 1;
    }

    /// The poll went unanswered. Returns whether this is the poll that
    /// makes the ECU count as silent, so the status should be broadcast.
    pub fn on_timeout(&mut self, status: &mut Status) -> (newly_silent: bool)
        requires
            old(self).consecutive_timeouts < u32::MAX,
            old(status).timeouts < u64::MAX,
        ensures
            final(self).consecutive_timeouts == old(self).consecutive_timeouts + 1,
            final(self).auto_log_enabled == old(self).auto_log_enabled,
            final(status).timeouts == old(status).timeouts + 1,
            newly_silent == (final(self).consecutive_timeouts == SILENT_POLLS_BEFORE_ERROR),
            newly_silent ==> (final(status).last_error matches Some(m) && m@ == "ECU not responding"@),
            !newly_silent ==> final(status).last_error == old(status).last_error,
            final(status).frames == old(status).frames,
            final(status).crc_errors == old(status).crc_errors,
            final(status).log == old(status).log,
            same_except_counters(*old(status), *final(status)),
    {
        self.consecutive_timeouts = self.consecutive_timeouts + 1;
        status.timeouts = status.timeouts + 1;
        if self.consecutive_timeouts == SILENT_POLLS_BEFORE_ERROR {
            status.last_error = Some(String::from_str("ECU not responding"));
            true
        } else {
            false
        }
    }

    /// A poll failed with `e`. A CRC error or a timeout is counted (while
    /// its counters have room) and polling goes on; any other error ends
    /// the connection: the status shows it disconnected, with no tune and
    /// no log, and `message` (the error as the caller words it) as its last
    /// error. Returns whether polling ends.
    pub fn on_poll_error(&mut self, status: &mut Status, e: &ProtoError, message: String) -> (ends: bool)
        ensures
            ends == !(e is CrcMismatch || e is Timeout),
            final(self).auto_log_enabled == old(self).auto_log_enabled,
            final(status).frames == old(status).frames,
            e is CrcMismatch ==> {
                &&& final(self).consecutive_timeouts == old(self).consecutive_timeouts
                &&& final(status).crc_errors == if old(status).crc_errors < u64::MAX {
                        old(status).crc_errors + 1
                    } else {
                        old(status).crc_errors as int
                    }
                &&& final(status).timeouts == old(status).timeouts
                &&& final(status).last_error == old(status).last_error
                &&& final(status).log == old(status).log
                &&& same_except_counters(*old(status), *final(status))
            },
            e is Timeout ==> {
                let counted = old(self).consecutive_timeouts < u32::MAX && old(status).timeouts < u64::MAX;
                &&& final(self).consecutive_timeouts == if counted {
                        old(self).consecutive_timeouts + 1
                    } else {
                        old(self).consecutive_timeouts as int
                    }
                &&& final(status).timeouts == if counted { old(status).timeouts + 1 } else { old(status).timeouts as int }
                &&& final(status).crc_errors == old(status).crc_errors
                &&& counted && final(self).consecutive_timeouts == SILENT_POLLS_BEFORE_ERROR
                    ==> (final(status).last_error matches Some(m) && m@ == "ECU not responding"@)
                &&& !(counted && final(self).consecutive_timeouts == SILENT_POLLS_BEFORE_ERROR)
                    ==> final(status).last_error == old(status).last_error
                &&& final(status).log == old(status).log
                &&& same_except_counters(*old(status), *final(status))
            },
            ends ==> {
                &&& final(self).consecutive_timeouts == old(self).consecutive_timeouts
                &&& !final(status).connected
                &&& !final(status).tune_loaded
                &&& final(status).log is None
                &&& final(status).last_error == Some(message)
                &&& final(status).crc_errors == old(status).crc_errors
                &&& final(status).timeouts == old(status).timeouts
                &&& final(status).port == old(status).port
                &&& final(status).mode == old(status).mode
                &&& final(status).baud == old(status).baud
                &&& final(status).ecu_signature == old(status).ecu_signature
                &&& final(status).offline == old(status).offline
            },
    {
        match e {
            ProtoError::CrcMismatch => {
                if status.crc_errors < u64::MAX {
                    self.on_crc_mismatch(status);
                }
                false
            },
            ProtoError::Timeout => {
                if self.consecutive_timeouts < u32::MAX && status.timeouts < u64::MAX {
                    self.on_timeout(status);
                }
                false
            },
            _ => {
                on_disconnect(status, Some(message));
                true
            },
        }
    }

    /// A manual stop pauses automatic logging until the next connection.
    pub fn on_stop_log(&mut self)
        ensures
            !final(self).auto_log_enabled,
            final(self).consecutive_timeouts == old(self).consecutive_timeouts,
    {
        self.auto_log_enabled = false;
    }
}

/// The error an ECU whose signature differs from the definition's shows:
/// `None` when they agree.
pub fn signature_mismatch(ecu: &str, ini: &str) -> (m: Option<String>)
    ensures
        m is Some <==> ecu@ != ini@,
        m matches Some(t) ==> t@ == "signature mismatch: ECU says `"@ + ecu@ + "`, INI is `"@ + ini@ + "`"@,
{
    let a = String::from_str(ecu);
    let b = String::from_str(ini);
    if a == b {
        None
    } else {
        let mut t = String::from_str("signature mismatch: ECU says `");
        t.append(ecu);
        t.append("`, INI is `");
        t.append(ini);
        t.append("`");
        Some(t)
    }
}

/// The connection is gone (a serial error, or a shutdown request): not
/// connected, tune not loaded, no log; `error` becomes the last error when
/// given.
pub fn on_disconnect(status: &mut Status, error: Option<String>)
    ensures
        !final(status).connected,
        !final(status).tune_loaded,
        final(status).log is None,
        final(status).last_error == match error {
            Some(e) => Some(e),
            None => old(status).last_error,
        },
        final(status).frames == old(status).frames,
        final(status).crc_errors == old(status).crc_errors,
        final(status).timeouts == old(status).timeouts,
        final(status).port == old(status).port,
        final(status).mode == old(status).mode,
        final(status).baud == old(status).baud,
        final(status).ecu_signature == old(status).ecu_signature,
        final(status).offline == old(status).offline,
{
    status.connected = false;
    status.tune_loaded = false;
    status.log = None;
    match error {
        Some(e) => {
            status.last_error = Some(e);
        },
        None => {},
    }
}

/// A datalog was opened at `path`.
pub fn on_log_started(status: &mut Status, path: String)
    ensures
        final(status).log == Some(LogStatus { path: path, rows: 0 }),
        final(status).last_error == old(status).last_error,
        final(status).frames == old(status).frames,
        same_except_counters(*old(status), *final(status)),
{
    status.log = Some(LogStatus { path, rows: 0 });
}

/// The datalog was closed.
pub fn on_log_finished(status: &mut Status)
    ensures
        final(status).log is None,
        final(status).last_error == old(status).last_error,
        final(status).frames == old(status).frames,
        same_except_counters(*old(status), *final(status)),
{
    status.log = None;
}

/// Something went wrong that the status should show.
pub fn on_error(status: &mut Status, error: String)
    ensures
        final(status).last_error == Some(error),
        final(status).log == old(status).log,
        final(status).frames == old(status).frames,
        same_except_counters(*old(status), *final(status)),
{
    status.last_error = Some(error);
}

// ------------------------------------------------------------ engine stop

/// Where an engine-speed reading stands against the configured
/// thresholds.
#[derive(Debug, Clone, Copy, PartialEq, Eq, Structural)]
pub enum RpmReading {
    /// No finite reading in this frame.
    Missing,
    /// At or above the arming speed: the engine is running.
    Running,
    /// Below the arming speed, above the stop speed.
    Slowing,
    /// At or below the stop speed.
    Stopped,
}

/// Watches the engine speed and asks once for an appliance shutdown when
/// an engine that was seen running has stayed stopped for the configured
/// delay. Readings carry the time on a monotonic clock, in milliseconds.
pub struct EngineShutdownMonitor {
    enabled: bool,
    delay_seconds: u64,
    armed: bool,
    stopped_since: Option<u64>,
    requested: bool,
}

/// The milliseconds from `since` to `now`, none when `now` is earlier.
pub open spec fn elapsed_ms(now: u64, since: u64) -> int {
    if now >= since {
        now - since
    } else {
        0
    }
}

/// The monitor as plain values.
pub struct MonitorState {
    pub enabled: bool,
    pub delay: u64,
    pub armed: bool,
    pub since: Option<u64>,
    pub requested: bool,
}

/// A monitor as `new` makes it.
pub open spec fn monitor_new(enabled: bool, delay: u64) -> MonitorState {
    MonitorState { enabled, delay, armed: false, since: None, requested: false }
}

/// One reading: the next state, and whether it asks for the shutdown.
pub open spec fn monitor_step(s: MonitorState, rpm: RpmReading, now: u64) -> (MonitorState, bool) {
    if !s.enabled || s.requested {
        (s, false)
    } else {
        let since = if rpm == RpmReading::Stopped && s.armed {
            match s.since {
                Some(t) => Some(t),
                None => Some(now),
            }
        } else {
            None
        };
        let fire = s.armed && rpm == RpmReading::Stopped && elapsed_ms(now, since.unwrap()) >= s.delay * 1000;
        (MonitorState { armed: s.armed || rpm == RpmReading::Running, since, requested: fire, ..s }, fire)
    }
}

/// Readings in order, each an engine-speed reading and its time: the
/// final state, and what each reading answered.
pub open spec fn monitor_run(s: MonitorState, obs: Seq<(RpmReading, u64)>) -> (MonitorState, Seq<bool>)
    decreases obs.len(),
{
    if obs.len() == 0 {
        (s, seq![])
    } else {
        let (s1, fires) = monitor_run(s, obs.drop_last());
        let (s2, fire) = monitor_step(s1, obs.last().0, obs.last().1);
        (s2, fires.push(fire))
    }
}

/// Reading `i` asked for the shutdown only as the law says: the monitor is
/// enabled, an earlier reading saw the engine running, and every reading
/// from some `k` on was stopped, reading `i` coming the delay after
/// reading `k`.
pub open spec fn fire_justified(enabled: bool, delay: u64, obs: Seq<(RpmReading, u64)>, i: int) -> bool {
    &&& enabled
    &&& exists|j: int| 0 <= j < i && (#[trigger] obs[j]).0 == RpmReading::Running
    &&& exists|k: int|
        #![trigger obs[k]]
        0 <= k <= i && elapsed_ms(obs[i].1, obs[k].1) >= delay * 1000
            && forall|m: int| k <= m <= i ==> (#[trigger] obs[m]).0 == RpmReading::Stopped
}

/// What holds after any readings from a new monitor.
pub open spec fn run_facts(enabled: bool, delay: u64, obs: Seq<(RpmReading, u64)>, st: MonitorState, fires: Seq<bool>) -> bool {
    &&& st.enabled == enabled
    &&& st.delay == delay
    &&& fires.len() == obs.len()
    &&& st.armed ==> enabled && exists|j: int| 0 <= j < obs.len() && (#[trigger] obs[j]).0 == RpmReading::Running
    &&& !enabled ==> st.since is None
    &&& !st.requested ==> (st.since matches Some(t) ==> exists|k: int|
        #![trigger obs[k]]
        0 <= k < obs.len() && obs[k].1 == t && forall|m: int| k <= m < obs.len() ==> (#[trigger] obs[m]).0 == RpmReading::Stopped)
    &&& st.requested == exists|i: int| 0 <= i < fires.len() && #[trigger] fires[i]
    &&& forall|i: int| 0 <= i < fires.len() && #[trigger] fires[i] ==> fire_justified(enabled, delay, obs, i)
    &&& forall|i: int, m: int| 0 <= i < m < fires.len() && #[trigger] fires[i] ==> !#[trigger] fires[m]
}

proof fn lemma_seq_push_index(obs: Seq<(RpmReading, u64)>, x: (RpmReading, u64))
    ensures
        forall|m: int| 0 <= m < obs.len() ==> #[trigger] obs.push(x)[m] == obs[m],
        obs.push(x)[obs.len() as int] == x,
{
}

proof fn lemma_step_armed(enabled: bool, obs: Seq<(RpmReading, u64)>, s1: MonitorState, x: (RpmReading, u64))
    requires
        s1.enabled == enabled,
        s1.armed ==> enabled && exists|j: int| 0 <= j < obs.len() && (#[trigger] obs[j]).0 == RpmReading::Running,
    ensures
        monitor_step(s1, x.0, x.1).0.armed ==> enabled && exists|j: int|
            0 <= j < obs.push(x).len() && (#[trigger] obs.push(x)[j]).0 == RpmReading::Running,
{
    lemma_seq_push_index(obs, x);
    let all = obs.push(x);
    if s1.armed {
        let j = choose|j: int| 0 <= j < obs.len() && (#[trigger] obs[j]).0 == RpmReading::Running;
        assert(all[j] == obs[j]);
    } else if monitor_step(s1, x.0, x.1).0.armed {
        assert(all[obs.len() as int] == x);
    }
}

proof fn lemma_step_since(enabled: bool, obs: Seq<(RpmReading, u64)>, s1: MonitorState, x: (RpmReading, u64))
    requires
        s1.enabled == enabled,
        !enabled ==> s1.since is None,
        !s1.requested ==> (s1.since matches Some(t) ==> exists|k: int|
            #![trigger obs[k]]
            0 <= k < obs.len() && obs[k].1 == t && forall|m: int| k <= m < obs.len() ==> (#[trigger] obs[m]).0 == RpmReading::Stopped),
    ensures
        ({
            let s2 = monitor_step(s1, x.0, x.1).0;
            let all = obs.push(x);
            &&& !enabled ==> s2.since is None
            &&& !s2.requested ==> (s2.since matches Some(t) ==> exists|k: int|
                #![trigger all[k]]
                0 <= k < all.len() && all[k].1 == t && forall|m: int| k <= m < all.len() ==> (#[trigger] all[m]).0 == RpmReading::Stopped)
        }),
{
    lemma_seq_push_index(obs, x);
    let s2 = monitor_step(s1, x.0, x.1).0;
    let all = obs.push(x);
    let n = obs.len() as int;
    if !s2.requested && enabled && !s1.requested {
        match s2.since {
            Some(t) => {
                assert(x.0 == RpmReading::Stopped);
                match s1.since {
                    Some(t1) => {
                        let k = choose|k: int|
                            #![trigger obs[k]]
                            0 <= k < obs.len() && obs[k].1 == t1 && forall|m: int| k <= m < obs.len() ==> (#[trigger] obs[m]).0 == RpmReading::Stopped;
                        assert(all[k] == obs[k]);
                        assert forall|m: int| k <= m < all.len() implies (#[trigger] all[m]).0 == RpmReading::Stopped by {
                            if m < n {
                                assert(all[m] == obs[m]);
                            }
                        }
                    },
                    None => {
                        assert(all[n] == x);
                        assert forall|m: int| n <= m < all.len() implies (#[trigger] all[m]).0 == RpmReading::Stopped by {}
                    },
                }
            },
            None => {},
        }
    }
}

proof fn lemma_step_justified(enabled: bool, delay: u64, obs: Seq<(RpmReading, u64)>, s1: MonitorState, fires: Seq<bool>, x: (RpmReading, u64))
    requires
        s1.enabled == enabled,
        s1.delay == delay,
        fires.len() == obs.len(),
        s1.armed ==> enabled && exists|j: int| 0 <= j < obs.len() && (#[trigger] obs[j]).0 == RpmReading::Running,
        !s1.requested ==> (s1.since matches Some(t) ==> exists|k: int|
            #![trigger obs[k]]
            0 <= k < obs.len() && obs[k].1 == t && forall|m: int| k <= m < obs.len() ==> (#[trigger] obs[m]).0 == RpmReading::Stopped),
        forall|i: int| 0 <= i < fires.len() && #[trigger] fires[i] ==> fire_justified(enabled, delay, obs, i),
    ensures
        forall|i: int| 0 <= i < fires.len() + 1 && #[trigger] fires.push(monitor_step(s1, x.0, x.1).1)[i]
            ==> fire_justified(enabled, delay, obs.push(x), i),
{
    lemma_seq_push_index(obs, x);
    let fire = monitor_step(s1, x.0, x.1).1;
    let all = obs.push(x);
    let fs = fires.push(fire);
    let n = obs.len() as int;
    assert forall|i: int| 0 <= i < fs.len() && #[trigger] fs[i] implies fire_justified(enabled, delay, all, i) by {
        if i < n {
            assert(fs[i] == fires[i]);
            assert(fire_justified(enabled, delay, obs, i));
            let j = choose|j: int| 0 <= j < i && (#[trigger] obs[j]).0 == RpmReading::Running;
            assert(all[j] == obs[j]);
            let k = choose|k: int|
                #![trigger obs[k]]
                0 <= k <= i && elapsed_ms(obs[i].1, obs[k].1) >= delay * 1000
                    && forall|m: int| k <= m <= i ==> (#[trigger] obs[m]).0 == RpmReading::Stopped;
            assert(all[k] == obs[k]);
            assert(all[i] == obs[i]);
            assert forall|m: int| k <= m <= i implies (#[trigger] all[m]).0 == RpmReading::Stopped by {
                assert(all[m] == obs[m]);
            }
        } else {
            assert(i == n);
            assert(fire);
            assert(all[n] == x);
            let j = choose|j: int| 0 <= j < obs.len() && (#[trigger] obs[j]).0 == RpmReading::Running;
            assert(all[j] == obs[j]);
            match s1.since {
                Some(t1) => {
                    let k = choose|k: int|
                        #![trigger obs[k]]
                        0 <= k < obs.len() && obs[k].1 == t1 && forall|m: int| k <= m < obs.len() ==> (#[trigger] obs[m]).0 == RpmReading::Stopped;
                    assert(all[k] == obs[k]);
                    assert forall|m: int| k <= m <= n implies (#[trigger] all[m]).0 == RpmReading::Stopped by {
                        if m < n {
                            assert(all[m] == obs[m]);
                        }
                    }
                },
                None => {
                    assert forall|m: int| n <= m <= n implies (#[trigger] all[m]).0 == RpmReading::Stopped by {}
                },
            }
        }
    }
}

proof fn lemma_step_once(s1: MonitorState, fires: Seq<bool>, x: (RpmReading, u64))
    requires
        s1.requested == exists|i: int| 0 <= i < fires.len() && #[trigger] fires[i],
        forall|i: int, m: int| 0 <= i < m < fires.len() && #[trigger] fires[i] ==> !#[trigger] fires[m],
    ensures
        ({
            let (s2, fire) = monitor_step(s1, x.0, x.1);
            let fs = fires.push(fire);
            &&& s2.requested == exists|i: int| 0 <= i < fs.len() && #[trigger] fs[i]
            &&& forall|i: int, m: int| 0 <= i < m < fs.len() && #[trigger] fs[i] ==> !#[trigger] fs[m]
        }),
{
    let (s2, fire) = monitor_step(s1, x.0, x.1);
    let fs = fires.push(fire);
    let n = fires.len() as int;
    assert forall|i: int| 0 <= i < n implies #[trigger] fs[i] == fires[i] by {}
    assert forall|i: int, m: int| 0 <= i < m < fs.len() && #[trigger] fs[i] implies !#[trigger] fs[m] by {
        assert(fs[i] == fires[i]);
        if m < n {
            assert(fs[m] == fires[m]);
        }
    }
    if s2.requested {
        if fire {
            assert(fs[n]);
        } else {
            let i = choose|i: int| 0 <= i < fires.len() && #[trigger] fires[i];
            assert(fs[i]);
        }
    } else {
        assert forall|i: int| 0 <= i < fs.len() implies !#[trigger] fs[i] by {
            if i < n {
                assert(fs[i] == fires[i]);
            }
        }
    }
}

proof fn lemma_run_facts(enabled: bool, delay: u64, obs: Seq<(RpmReading, u64)>)
    ensures
        run_facts(enabled, delay, obs, monitor_run(monitor_new(enabled, delay), obs).0, monitor_run(monitor_new(enabled, delay), obs).1),
    decreases obs.len(),
{
    if obs.len() > 0 {
        let front = obs.drop_last();
        let x = obs.last();
        assert(front.push(x) =~= obs);
        lemma_run_facts(enabled, delay, front);
        let (s1, fires) = monitor_run(monitor_new(enabled, delay), front);
        lemma_step_armed(enabled, front, s1, x);
        lemma_step_since(enabled, front, s1, x);
        lemma_step_justified(enabled, delay, front, s1, fires, x);
        lemma_step_once(s1, fires, x);
    }
}

/// The engine-stop shutdown is asked for only after a stopped spell that
/// follows a seen run, and only once: from a new monitor, over any
/// readings, a reading that asks for it finds the monitor enabled, an
/// earlier reading of a running engine, and an unbroken spell of stopped
/// readings lasting the delay up to it; no later reading asks again.
pub proof fn lemma_shutdown_asked_once_after_delay(enabled: bool, delay: u64, obs: Seq<(RpmReading, u64)>)
    ensures
        ({
            let fires = monitor_run(monitor_new(enabled, delay), obs).1;
            &&& fires.len() == obs.len()
            &&& forall|i: int| 0 <= i < fires.len() && #[trigger] fires[i] ==> fire_justified(enabled, delay, obs, i)
            &&& forall|i: int, m: int| 0 <= i < m < fires.len() && #[trigger] fires[i] ==> !#[trigger] fires[m]
        }),
{
    lemma_run_facts(enabled, delay, obs);
}

impl EngineShutdownMonitor {
    pub closed spec fn is_enabled(&self) -> bool {
        self.enabled
    }

    pub closed spec fn delay(&self) -> u64 {
        self.delay_seconds
    }

    /// The engine has been seen running.
    pub closed spec fn is_armed(&self) -> bool {
        self.armed
    }

    /// When the current unbroken run of stopped readings began.
    pub closed spec fn countdown_start(&self) -> Option<u64> {
        self.stopped_since
    }

    /// The shutdown has been asked for.
    pub closed spec fn is_requested(&self) -> bool {
        self.requested
    }

    pub closed spec fn model(&self) -> MonitorState {
        MonitorState {
            enabled: self.enabled,
            delay: self.delay_seconds,
            armed: self.armed,
            since: self.stopped_since,
            requested: self.requested,
        }
    }

    pub fn new(enabled: bool, delay_seconds: u64) -> (m: Self)
        ensures
            m.is_enabled() == enabled,
            m.delay() == delay_seconds,
            !m.is_armed(),
            m.countdown_start() is None,
            !m.is_requested(),
            m.model() == monitor_new(enabled, delay_seconds),
    {
        EngineShutdownMonitor { enabled, delay_seconds, armed: false, stopped_since: None, requested: false }
    }

    /// One reading at `now_ms`. Returns true exactly once: on the stopped
    /// reading that completes the delay since the current run of stopped
    /// readings began, once the engine has been seen running. Any other
    /// reading restarts the run.
    pub fn observe(&mut self, rpm: RpmReading, now_ms: u64) -> (fire: bool)
        ensures
            (final(self).model(), fire) == monitor_step(old(self).model(), rpm, now_ms),
            final(self).is_enabled() == old(self).is_enabled(),
            final(self).delay() == old(self).delay(),
            fire == (old(self).is_enabled() && !old(self).is_requested() && old(self).is_armed()
                && rpm == RpmReading::Stopped
                && elapsed_ms(now_ms, final(self).countdown_start().unwrap()) >= old(self).delay() * 1000),
            final(self).is_requested() == (old(self).is_requested() || fire),
            !old(self).is_enabled() || old(self).is_requested() ==> final(self).is_armed() == old(self).is_armed()
                && final(self).countdown_start() == old(self).countdown_start(),
            old(self).is_enabled() && !old(self).is_requested() ==> {
                &&& final(self).is_armed() == (old(self).is_armed() || rpm == RpmReading::Running)
                &&& final(self).countdown_start() == if rpm == RpmReading::Stopped && old(self).is_armed() {
                    match old(self).countdown_start() {
                        Some(t) => Some(t),
                        None => Some(now_ms),
                    }
                } else {
                    None
                }
            },
    {
        if !self.enabled || self.requested {
            return false;
        }
        match rpm {
            RpmReading::Missing => {
                self.stopped_since = None;
                false
            },
            RpmReading::Running => {
                self.armed = true;
                self.stopped_since = None;
                false
            },
            RpmReading::Slowing => {
                self.stopped_since = None;
                false
            },
            RpmReading::Stopped => {
                if !self.armed {
                    self.stopped_since = None;
                    return false;
                }
                let since = match self.stopped_since {
                    Some(t) => t,
                    None => now_ms,
                };
                self.stopped_since = Some(since);
                let elapsed: u64 = if now_ms >= since { now_ms - since } else { 0 };
                if (elapsed as u128) >= (self.delay_seconds as u128) * 1000 {
                    self.requested = true;
                    return true;
                }
                false
            },
        }
    }
}

// ------------------------------------------------------------ log retention

/// A datalog file that retention may remove.
#[derive(Debug, Clone)]
pub struct LogFile {
    /// When it was last modified, as any key that orders by age.
    pub modified: u64,
    pub size: u64,
    pub path: String,
}

pub open spec fn log_file_view(f: LogFile) -> (u64, u64, Seq<char>) {
    (f.modified, f.size, f.path@)
}

pub open spec fn log_files_view(v: Seq<LogFile>) -> Seq<(u64, u64, Seq<char>)> {
    v.map_values(|f: LogFile| log_file_view(f))
}

/// The files other than the active log, in listing order.
pub open spec fn not_active(v: Seq<(u64, u64, Seq<char>)>, active: Option<Seq<char>>) -> Seq<(u64, u64, Seq<char>)>
    decreases v.len(),
{
    if v.len() == 0 {
        seq![]
    } else {
        let rest = not_active(v.drop_last(), active);
        if active == Some(v.last().2) {
            rest
        } else {
            rest.push(v.last())
        }
    }
}

pub open spec fn oldest_first(v: Seq<(u64, u64, Seq<char>)>) -> bool {
    forall|i: int, j: int| 0 <= i < j < v.len() ==> v[i].0 <= v[j].0
}

fn insert_by_age(out: &mut Vec<LogFile>, f: LogFile) -> (j: usize)
    requires
        oldest_first(log_files_view(old(out)@)),
    ensures
        oldest_first(log_files_view(final(out)@)),
        j <= old(out)@.len(),
        final(out)@ == old(out)@.insert(j as int, f),
        log_files_view(final(out)@).to_multiset() == log_files_view(old(out)@).to_multiset().insert(log_file_view(f)),
{
    broadcast use vstd::seq_lib::group_to_multiset_ensures;
    let ghost s = log_files_view(out@);
    let ghost x = log_file_view(f);
    let mut j = out.len();
    while j > 0 && out[j - 1].modified > f.modified
        invariant
            j <= out@.len(),
            s == log_files_view(out@),
            x == log_file_view(f),
            forall|k: int| j <= k < s.len() ==> (#[trigger] s[k]).0 > x.0,
        decreases j,
    {
        assert(s[j - 1] == log_file_view(out@[j - 1]));
        j = j - 1;
    }
    proof {
        if j > 0 {
            assert(s[j - 1] == log_file_view(out@[j - 1]));
        }
    }
    out.insert(j, f);
    proof {
        let t = log_files_view(out@);
        assert(t =~= s.insert(j as int, x));
        assert forall|a: int, b: int| 0 <= a < b < t.len() implies t[a].0 <= t[b].0 by {
            if b < j {
            } else if a < j && b == j {
            } else if a < j && b > j {
                assert(t[b] == s[b - 1]);
            } else if a == j {
                assert(t[b] == s[b - 1]);
            } else {
                assert(t[a] == s[a - 1] && t[b] == s[b - 1]);
            }
        }
    }
    j
}

/// The files retention may remove, oldest first: every listed file except
/// the active log, which is never a candidate.
pub fn prune_order(files: &Vec<LogFile>, active: Option<&str>) -> (r: Vec<LogFile>)
    ensures
        oldest_first(log_files_view(r@)),
        log_files_view(r@).to_multiset() == not_active(log_files_view(files@), crate::server::auth::opt_str(active)).to_multiset(),
        forall|i: int| 0 <= i < r@.len() ==> crate::server::auth::opt_str(active) != Some(#[trigger] r@[i].path@),
{
    broadcast use vstd::seq_lib::group_to_multiset_ensures;
    let ghost act = crate::server::auth::opt_str(active);
    let act_s: Option<String> = match active {
        Some(a) => Some(String::from_str(a)),
        None => None,
    };
    let mut out: Vec<LogFile> = Vec::new();
    let mut i: usize = 0;
    while i < files.len()
        invariant
            i <= files@.len(),
            act == crate::server::auth::opt_str(active),
            crate::server::api::holder_view(act_s) == act,
            oldest_first(log_files_view(out@)),
            log_files_view(out@).to_multiset() == not_active(log_files_view(files@.take(i as int)), act).to_multiset(),
            forall|k: int| 0 <= k < out@.len() ==> act != Some(#[trigger] out@[k].path@),
        decreases files@.len() - i,
    {
        assert(log_files_view(files@.take(i + 1)).drop_last() =~= log_files_view(files@.take(i as int)));
        assert(log_files_view(files@.take(i + 1)).last() == log_file_view(files@[i as int]));
        let skip = match &act_s {
            Some(a) => files[i].path == *a,
            None => false,
        };
        let ghost nv = log_files_view(files@.take(i + 1));
        assert(skip == (act == Some(nv.last().2)));
        assert(not_active(nv, act) == if act == Some(nv.last().2) {
            not_active(nv.drop_last(), act)
        } else {
            not_active(nv.drop_last(), act).push(nv.last())
        });
        if !skip {
            let ghost before = out@;
            let f = LogFile { modified: files[i].modified, size: files[i].size, path: files[i].path.clone() };
            assert(log_file_view(f) == log_file_view(files@[i as int]));
            let j = insert_by_age(&mut out, f);
            proof {
                vstd::seq_lib::to_multiset_build(not_active(nv.drop_last(), act), nv.last());
                assert(nv.last() == log_file_view(f));
                assert forall|k: int| 0 <= k < out@.len() implies act != Some(#[trigger] out@[k].path@) by {
                    if k < j {
                        assert(out@[k] == before[k]);
                    } else if k > j {
                        assert(out@[k] == before[k - 1]);
                    }
                }
            }
        }
        i = i + 1;
    }
    assert(files@.take(files@.len() as int) =~= files@);
    out
}

/// Sum of the sizes.
pub open spec fn total_of(v: Seq<LogFile>) -> int
    decreases v.len(),
{
    if v.len() == 0 {
        0
    } else {
        total_of(v.drop_last()) + v.last().size
    }
}

/// The bytes the logs occupy together.
pub fn total_size(files: &Vec<LogFile>) -> (t: u64)
    requires
        total_of(files@) <= u64::MAX,
    ensures
        t == total_of(files@),
{
    let mut t: u64 = 0;
    let mut i: usize = 0;
    while i < files.len()
        invariant
            i <= files@.len(),
            t == total_of(files@.take(i as int)),
            total_of(files@) <= u64::MAX,
        decreases files@.len() - i,
    {
        assert(files@.take(i + 1).drop_last() =~= files@.take(i as int));
        proof {
            lemma_total_prefix(files@, i as int + 1);
        }
        t = t + files[i].size;
        i = i + 1;
    }
    assert(files@.take(files@.len() as int) =~= files@);
    t
}

proof fn lemma_total_prefix(v: Seq<LogFile>, k: int)
    requires
        0 <= k <= v.len(),
    ensures
        total_of(v.take(k)) <= total_of(v),
    decreases v.len(),
{
    if k < v.len() {
        assert(v.drop_last().take(k) =~= v.take(k));
        lemma_total_prefix(v.drop_last(), k);
    } else {
        assert(v.take(k) =~= v);
    }
}

/// Whether retention should remove another file: the logs still exceed a
/// nonzero limit (zero means keep everything).
pub fn over_retention(total: u64, retention: u64) -> (b: bool)
    ensures
        b == (retention != 0 && total > retention),
{
    retention != 0 && total > retention
}

/// The running total after trying to remove a file of `size` bytes: it
/// shrinks only when the removal succeeded.
pub fn after_removal(total: u64, size: u64, removed: bool) -> (t: u64)
    ensures
        t == if removed {
            if total >= size {
                total - size
            } else {
                0
            }
        } else {
            total as int
        },
{
    if removed {
        total.saturating_sub(size)
    } else {
        total
    }
}

} // verus!
