use rustytune::proto::ProtoError;
use rustytune::server::comms::{
    connected_status, on_disconnect, on_error, on_log_finished, on_log_started, EngineShutdownMonitor,
    PollState, RpmReading, Status, signature_mismatch,
};

/// The thresholds of the tests' configuration: arm at 500 rpm, stop at 50.
fn reading(rpm: Option<f64>) -> RpmReading {
    match rpm.filter(|v| v.is_finite()) {
        None => RpmReading::Missing,
        Some(r) if r >= 500.0 => RpmReading::Running,
        Some(r) if r > 50.0 => RpmReading::Slowing,
        Some(_) => RpmReading::Stopped,
    }
}

#[test]
fn shutdown_requires_running_engine_then_continuous_stop_delay() {
    let start: u64 = 0;
    let mut monitor = EngineShutdownMonitor::new(true, 15);
    assert!(!monitor.observe(reading(Some(0.0)), start + 30_000));
    assert!(!monitor.observe(reading(Some(800.0)), start + 31_000));
    assert!(!monitor.observe(reading(Some(0.0)), start + 32_000));
    assert!(!monitor.observe(reading(Some(100.0)), start + 40_000));
    assert!(!monitor.observe(reading(Some(0.0)), start + 41_000));
    assert!(monitor.observe(reading(Some(0.0)), start + 56_000));
    assert!(!monitor.observe(reading(Some(0.0)), start + 57_000));
}

#[test]
fn missing_rpm_resets_stop_countdown() {
    let start: u64 = 0;
    let mut monitor = EngineShutdownMonitor::new(true, 15);
    assert!(!monitor.observe(reading(Some(700.0)), start));
    assert!(!monitor.observe(reading(Some(0.0)), start + 1_000));
    assert!(!monitor.observe(reading(None), start + 10_000));
    assert!(!monitor.observe(reading(Some(0.0)), start + 16_000));
    assert!(monitor.observe(reading(Some(0.0)), start + 31_000));
}

#[test]
fn disabled_monitor_never_fires() {
    let start: u64 = 0;
    let mut monitor = EngineShutdownMonitor::new(false, 1);
    assert!(!monitor.observe(RpmReading::Running, start));
    assert!(!monitor.observe(RpmReading::Stopped, start + 5_000));
    assert!(!monitor.observe(RpmReading::Stopped, start + 50_000));
}

#[test]
fn silence_is_flagged_on_the_third_timeout_and_cleared_by_a_frame() {
    let mut status = connected_status("/dev/ttyUSB0".into(), "primary".into(), 115_200);
    let mut poll = PollState::new(false);
    assert!(!poll.on_timeout(&mut status));
    assert!(!poll.on_timeout(&mut status));
    assert!(poll.on_timeout(&mut status));
    assert_eq!(status.last_error.as_deref(), Some("ECU not responding"));
    assert!(!poll.on_timeout(&mut status));
    assert_eq!(status.timeouts, 4);
    poll.on_crc_mismatch(&mut status);
    assert_eq!(status.crc_errors, 1);
    assert!(poll.on_frame(&mut status, None));
    assert_eq!(status.last_error, None);
    assert_eq!(status.frames, 1);
    assert!(!poll.on_frame(&mut status, None));
    assert_eq!(status.frames, 2);
}

#[test]
fn logging_events_track_rows_and_auto_log_pauses_after_manual_stop() {
    let mut status = Status::default();
    let mut poll = PollState::new(true);
    assert!(poll.wants_auto_log(false));
    assert!(!poll.wants_auto_log(true));
    on_log_started(&mut status, "logs/a.msl".into());
    poll.on_frame(&mut status, Some(7));
    assert_eq!(status.log.as_ref().map(|l| (l.path.as_str(), l.rows)), Some(("logs/a.msl", 7)));
    on_log_finished(&mut status);
    assert!(status.log.is_none());
    poll.on_stop_log();
    assert!(!poll.wants_auto_log(false));
    on_error(&mut status, "datalog write failed".into());
    assert_eq!(status.last_error.as_deref(), Some("datalog write failed"));
}

#[test]
fn disconnect_clears_connection_and_keeps_counters() {
    let mut status = connected_status("/dev/ttyUSB0".into(), "primary".into(), 115_200);
    status.tune_loaded = true;
    status.frames = 9;
    on_disconnect(&mut status, Some("io error".into()));
    assert!(!status.connected);
    assert!(!status.tune_loaded);
    assert_eq!(status.frames, 9);
    assert_eq!(status.last_error.as_deref(), Some("io error"));
    on_disconnect(&mut status, None);
    assert_eq!(status.last_error.as_deref(), Some("io error"));
}

use rustytune::server::comms::{after_removal, over_retention, prune_order, total_size, LogFile};

fn file(modified: u64, size: u64, path: &str) -> LogFile {
    LogFile { modified, size, path: path.to_string() }
}

#[test]
fn retention_prunes_oldest_first_and_spares_the_active_log() {
    let files = vec![
        file(30, 10, "logs/c.msl"),
        file(10, 20, "logs/a.msl"),
        file(20, 30, "logs/b.msl"),
        file(5, 40, "logs/active.msl"),
    ];
    let order: Vec<String> = prune_order(&files, Some("logs/active.msl")).into_iter().map(|f| f.path).collect();
    assert_eq!(order, vec!["logs/a.msl", "logs/b.msl", "logs/c.msl"]);
    let all: Vec<String> = prune_order(&files, None).into_iter().map(|f| f.path).collect();
    assert_eq!(all[0], "logs/active.msl");
    assert_eq!(total_size(&files), 100);
    assert!(over_retention(100, 60));
    assert!(!over_retention(60, 60));
    assert!(!over_retention(100, 0));
    assert_eq!(after_removal(100, 20, true), 80);
    assert_eq!(after_removal(100, 20, false), 100);
    assert_eq!(after_removal(10, 20, true), 0);
}

#[test]
fn poll_errors_count_crc_and_timeouts_and_end_on_anything_else() {
    let mut status = connected_status("/dev/ttyUSB0".into(), "primary".into(), 115_200);
    status.tune_loaded = true;
    let mut poll = PollState::new(false);
    assert!(!poll.on_poll_error(&mut status, &ProtoError::CrcMismatch, "crc".into()));
    assert_eq!(status.crc_errors, 1);
    for _ in 0..3 {
        assert!(!poll.on_poll_error(&mut status, &ProtoError::Timeout, "timeout".into()));
    }
    assert_eq!(status.timeouts, 3);
    assert_eq!(status.last_error.as_deref(), Some("ECU not responding"));
    assert!(status.connected);
    assert!(poll.on_poll_error(&mut status, &ProtoError::EcuError(3), "ECU returned error code 0x03".into()));
    assert!(!status.connected);
    assert!(!status.tune_loaded);
    assert_eq!(status.last_error.as_deref(), Some("ECU returned error code 0x03"));
    assert_eq!((status.crc_errors, status.timeouts), (1, 3));
}

#[test]
fn signature_mismatch_names_both_signatures() {
    assert_eq!(signature_mismatch("speeduino 202405", "speeduino 202405"), None);
    assert_eq!(
        signature_mismatch("speeduino 202402", "speeduino 202405").as_deref(),
        Some("signature mismatch: ECU says `speeduino 202402`, INI is `speeduino 202405`")
    );
}

#[test]
fn shutdown_is_asked_for_once_only() {
    let mut monitor = EngineShutdownMonitor::new(true, 5);
    assert!(!monitor.observe(RpmReading::Running, 0));
    assert!(!monitor.observe(RpmReading::Stopped, 1_000));
    assert!(monitor.observe(RpmReading::Stopped, 6_000));
    assert!(!monitor.observe(RpmReading::Running, 7_000));
    assert!(!monitor.observe(RpmReading::Stopped, 8_000));
    assert!(!monitor.observe(RpmReading::Stopped, 20_000));
}
