use rustytune::proto::session::Mode;
use rustytune::server::api::{
    acquire_writer, connect_mode, default_baud, default_mode, default_poll_ms, is_serial_name, looks_usb,
    msq_meta, poll_interval_ms, port_list, release_writer, split_names, where_label, connect_gate, ConnectRefusal,
};
use rustytune::server::auth::{cleared_cookie, session_cookie, session_token, AuthDecision, AuthState};
use rustytune::server::config::{
    appliance_authentication, appliance_ecu, appliance_logging, apply_configure, check_shutdown_delay, AuthenticationConfig,
    EcuConfig, LoggingConfig,
};

#[test]
fn serial_name_filter() {
    assert!(is_serial_name("cu.usbserial-1420"));
    assert!(is_serial_name("cu.Bluetooth-Incoming-Port"));
    assert!(is_serial_name("ttyUSB0"));
    assert!(is_serial_name("ttyACM3"));
    assert!(!is_serial_name("tty.usbserial-1420")); // dial-in: prefer cu.*
    assert!(!is_serial_name("disk3"));
    assert!(!is_serial_name("null"));

    assert!(looks_usb("cu.usbserial-1420"));
    assert!(looks_usb("cu.usbmodem101"));
    assert!(looks_usb("ttyUSB0"));
    assert!(!looks_usb("cu.Bluetooth-Incoming-Port"));
}

#[test]
fn looks_usb_ignores_ascii_case() {
    assert!(looks_usb("cu.SLAB_USBtoUART"));
    assert!(looks_usb("cu.wchusbserial14"));
    assert!(!looks_usb("ttyAMA0"));
}

#[test]
fn ports_put_usb_first_then_sort_by_path() {
    let dev: Vec<String> = ["null", "ttyAMA0", "ttyUSB1", "cu.Bluetooth", "ttyACM0", "ttyUSB0", "disk0"]
        .iter()
        .map(|s| s.to_string())
        .collect();
    let tmp: Vec<String> = ["junk", "rustytune-sim-b", "rustytune-sim-a"].iter().map(|s| s.to_string()).collect();
    let got: Vec<(String, bool)> = port_list(&dev, &tmp).into_iter().map(|p| (p.path, p.usb)).collect();
    assert_eq!(
        got,
        vec![
            ("/dev/ttyACM0".to_string(), true),
            ("/dev/ttyUSB0".to_string(), true),
            ("/dev/ttyUSB1".to_string(), true),
            ("/dev/cu.Bluetooth".to_string(), false),
            ("/dev/ttyAMA0".to_string(), false),
            ("/tmp/rustytune-sim-b".to_string(), false),
            ("/tmp/rustytune-sim-a".to_string(), false),
        ]
    );
}

#[test]
fn connect_request_defaults_and_mode() {
    assert_eq!(default_baud(), 115_200);
    assert_eq!(default_mode(), "primary");
    assert_eq!(default_poll_ms(), 50);
    assert_eq!(connect_mode("primary").unwrap(), Mode::Primary);
    assert_eq!(connect_mode("secondary").unwrap(), Mode::Secondary);
    assert_eq!(
        connect_mode("usb").err().unwrap(),
        "unknown mode `usb` (want primary|secondary)"
    );
    assert_eq!(poll_interval_ms(5), 20);
    assert_eq!(poll_interval_ms(250), 250);
    assert_eq!(poll_interval_ms(5000), 1000);
}

#[test]
fn tuning_lock_is_exclusive_until_released() {
    let mut writer: Option<String> = None;
    assert!(acquire_writer(&mut writer, "a"));
    assert!(acquire_writer(&mut writer, "a"));
    assert!(!acquire_writer(&mut writer, "b"));
    release_writer(&mut writer, "b");
    assert_eq!(writer.as_deref(), Some("a"));
    release_writer(&mut writer, "a");
    assert_eq!(writer, None);
    assert!(acquire_writer(&mut writer, "b"));
    assert_eq!(writer.as_deref(), Some("b"));
}

#[test]
fn names_query_splits_and_trims() {
    assert_eq!(split_names("reqFuel, veTable ,x"), vec!["reqFuel", "veTable", "x"]);
    assert_eq!(split_names(""), vec![""]);
}

#[test]
fn msq_meta_matches_signature() {
    let m = msq_meta("speeduino 202405-dev", "a.msq", Some("speeduino 202405-dev".into()), None, None, vec![], 3);
    assert!(m.signature_match);
    assert_eq!(m.constants, 3);
    let m = msq_meta("speeduino 202405-dev", "a.msq", Some("other".into()), None, None, vec![], 0);
    assert!(!m.signature_match);
    let m = msq_meta("speeduino 202405-dev", "a.msq", None, None, None, vec![], 0);
    assert!(!m.signature_match);
}

#[test]
fn profiles_are_safe_and_distinct() {
    let d_ecu = EcuConfig::default();
    let d_auth = AuthenticationConfig::default();
    assert!(!d_auth.required);
    assert!(!d_ecu.auto_connect);
    let a_auth = appliance_authentication();
    let a_ecu = appliance_ecu();
    let a_log = appliance_logging();
    assert!(a_auth.required);
    assert!(a_ecu.auto_connect);
    assert_eq!(a_log.retention_bytes, 2 * 1024 * 1024 * 1024);
    assert_eq!(a_ecu.device, "/dev/serial0");
    assert_eq!(LoggingConfig::default().directory, "logs");
}

#[test]
fn configure_accepts_only_valid_settings() {
    let mut ecu = EcuConfig::default();
    let mut log = LoggingConfig::default();
    apply_configure(&mut ecu, &mut log, Some("/dev/ttyUSB0".into()), Some("sideways".into()), Some(300), Some(true));
    assert_eq!(ecu.device, "/dev/ttyUSB0");
    assert_eq!(ecu.mode, "primary");
    assert_eq!(ecu.baud, 115_200);
    assert!(log.auto);
    apply_configure(&mut ecu, &mut log, None, Some("secondary".into()), Some(57_600), None);
    assert_eq!(ecu.mode, "secondary");
    assert_eq!(ecu.baud, 57_600);
    assert!(log.auto);
}

#[test]
fn pairing_approves_once_and_token_validates() {
    let mut auth = AuthState::new(true, "/tmp/none".into(), None);
    let info = auth.open_pairing().unwrap();
    assert_eq!(info.expires_in, 300);
    assert_eq!(info.code.len(), 6);
    assert!(info.code.chars().all(|c| c.is_ascii_digit()));
    assert!(auth.approve("not the code").is_err());
    let token = auth.approve(&info.code).unwrap();
    assert_eq!(token.len(), 64);
    assert!(auth.valid(&token));
    assert_eq!(auth.approve(&info.code), Err("pairing code is invalid or expired"));
    assert!(!auth.valid("someone else"));
    auth.revoke(&token);
    assert!(!auth.valid(&token));
}

#[test]
fn approvals_persist_one_hash_per_line() {
    let mut auth = AuthState::new(true, "/tmp/none".into(), None);
    let code = auth.open_pairing().unwrap().code;
    let token = auth.approve(&code).unwrap();
    let text = auth.persist_text();
    assert_eq!(text.len(), 64);
    assert!(!text.contains('\n'));
    let reloaded = AuthState::new(true, "/tmp/none".into(), Some(text));
    assert!(reloaded.valid(&token));
}

#[test]
fn stored_hash_is_sha256_hex() {
    // sha256("token") in hex.
    let stored = "3c469e9d6c5875d37a43f353d4f88e61fcf812c66eee3457465a40b0da4153e0".to_string();
    let auth = AuthState::new(true, "/tmp/none".into(), Some(format!("{stored}\r\n")));
    assert!(auth.valid("token"));
    assert!(!auth.valid("Token"));
}

#[test]
fn session_cookie_round_trip() {
    assert_eq!(session_cookie("abc"), "rustytune_session=abc; Path=/; HttpOnly; SameSite=Strict");
    assert_eq!(session_token("theme=dark; rustytune_session=abc ;x=1").as_deref(), Some("abc"));
    assert_eq!(session_token("theme=dark"), None);
    assert_eq!(cleared_cookie(), "rustytune_session=; Path=/; Max-Age=0; HttpOnly; SameSite=Strict");
}

#[test]
fn admission_requires_pairing_and_same_origin() {
    let mut auth = AuthState::new(true, "/tmp/none".into(), None);
    let code = auth.open_pairing().unwrap().code;
    let token = auth.approve(&code).unwrap();
    let cookie = format!("rustytune_session={token}");
    assert_eq!(auth.authorize("/api/health", None, true, None, None), AuthDecision::Pass);
    assert_eq!(auth.authorize("/index.html", None, true, None, None), AuthDecision::Pass);
    assert_eq!(auth.authorize("/api/status", None, true, None, None), AuthDecision::PairingRequired);
    assert_eq!(auth.authorize("/api/status", Some("rustytune_session=nope"), true, None, None), AuthDecision::PairingRequired);
    assert_eq!(auth.authorize("/api/status", Some(&cookie), true, None, None), AuthDecision::Pass);
    assert_eq!(
        auth.authorize("/api/connect", Some(&cookie), false, Some("http://evil"), Some("pi.local")),
        AuthDecision::CrossOrigin
    );
    assert_eq!(
        auth.authorize("/api/connect", Some(&cookie), false, Some("http://pi.local"), Some("pi.local")),
        AuthDecision::Pass
    );
    let open = AuthState::new(false, "/tmp/none".into(), None);
    assert_eq!(open.authorize("/api/status", None, false, Some("http://evil"), None), AuthDecision::Pass);
}

use rustytune::server::definition::indicator_ui;

#[test]
fn indicator_colours_fall_back() {
    let u = indicator_ui("Not Running", "Running", &vec!["white".to_string(), "black".to_string(), "green".to_string(), "black".to_string()]);
    assert_eq!(u.off_label, "Not Running");
    assert_eq!((u.off_bg.as_str(), u.on_bg.as_str()), ("white", "green"));
    let u = indicator_ui("off", "on", &vec!["red".to_string()]);
    assert_eq!(u.off_bg, "red");
    assert_eq!(u.off_fg, "black");
    assert_eq!(u.on_bg, "green");
    assert_eq!(u.on_fg, "black");
}

#[test]
fn where_label_names_table_axis_curve_or_page() {
    let src = "[TableEditor]\ntable = veTable1Tbl, veTable1Map, \"VE Table\", 1\n\
               xBins = rpmBins, rpm\nyBins = fuelLoadBins, fuelLoad\nzBins = veTable\n\
               [CurveEditor]\ncurve = warmup_curve, \"Warmup Enrichment\"\n\
               xBins = wueBins, coolant\nyBins = wueRates\nyBins = rpmBins\n";
    let def = rustytune::ini::definition::parse(src).unwrap();
    let at = |name: &str, page: Option<u8>| where_label(&def.tables, &def.curves, name, page);
    assert_eq!(at("veTable", Some(1)), "VE Table");
    assert_eq!(at("rpmBins", None), "VE Table (X axis)");
    assert_eq!(at("fuelLoadBins", None), "VE Table (Y axis)");
    assert_eq!(at("wueBins", None), "Warmup Enrichment");
    assert_eq!(at("wueRates", Some(2)), "Warmup Enrichment");
    assert_eq!(at("reqFuel", Some(12)), "page 12");
    assert_eq!(at("reqFuel", None), "");
}

#[test]
fn connect_gate_checks_mode_then_offline_edits_then_connection() {
    assert!(matches!(connect_gate("primary", false, false, false, false), Ok(Mode::Primary)));
    assert!(matches!(connect_gate("secondary", true, false, true, false), Ok(Mode::Secondary)));
    match connect_gate("usb", true, true, true, true) {
        Err(ConnectRefusal::UnknownMode(m)) => assert_eq!(m, "unknown mode `usb` (want primary|secondary)"),
        other => panic!("unexpected {other:?}"),
    }
    assert!(matches!(connect_gate("primary", true, true, true, true), Err(ConnectRefusal::UnsavedOffline)));
    assert!(matches!(connect_gate("primary", false, true, true, true), Err(ConnectRefusal::AlreadyConnected)));
    assert!(matches!(connect_gate("primary", false, false, true, false), Ok(Mode::Primary)));
}

#[test]
fn shutdown_delay_must_be_one_to_six_hundred_seconds() {
    assert!(check_shutdown_delay(1).is_ok());
    assert!(check_shutdown_delay(600).is_ok());
    for bad in [0u64, 601] {
        assert_eq!(
            check_shutdown_delay(bad),
            Err("engine_shutdown.delay_seconds must be between 1 and 600".to_string())
        );
    }
}
