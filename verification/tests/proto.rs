use rustytune::proto::command::{Args, Template};
use rustytune::proto::envelope::{self, crc32, encode, Decoder, Event, RC_OK};
use rustytune::proto::pages::{PageCommands, PagesConfig, RC_BURN_OK};
use rustytune::proto::secondary;
use rustytune::proto::session::{Config, Mode, Session};
use rustytune::proto::transport::MockTransport;
use rustytune::proto::ProtoError;
use std::time::Duration;

#[test]
fn crc32_matches_live_capture_vector() {
    assert_eq!(crc32(b"A"), 0xD3D9_9E8B);
}

#[test]
fn crc_matches_live_capture_vector() {
    assert_eq!(crc32(b"A"), 0xD3D9_9E8B);
}

#[test]
fn encode_layout() {
    let f = encode(b"A");
    assert_eq!(f, [0x00, 0x01, 0x41, 0xD3, 0xD9, 0x9E, 0x8B]);
}

fn feed(dec: &mut Decoder, bytes: &[u8]) -> Vec<Event> {
    bytes.iter().filter_map(|&b| dec.push(b)).collect()
}

#[test]
fn roundtrip() {
    let mut dec = Decoder::new();
    let frame = encode(&[RC_OK, 1, 2, 3]);
    let events = feed(&mut dec, &frame);
    assert_eq!(events, vec![Event::Frame(vec![RC_OK, 1, 2, 3])]);
}

#[test]
fn resyncs_past_noise_before_header() {
    let mut dec = Decoder::new();
    let mut stream = vec![0xFF, 0xFE]; // implausible length 0xFFFE
    stream.extend(encode(&[RC_OK, 9]));
    let events = feed(&mut dec, &stream);
    assert_eq!(events, vec![Event::Frame(vec![RC_OK, 9])]);
}

#[test]
fn crc_mismatch_reported() {
    let mut dec = Decoder::new();
    let mut frame = encode(&[RC_OK, 1, 2, 3]);
    let mid = frame.len() / 2;
    frame[mid] ^= 0xFF;
    let events = feed(&mut dec, &frame);
    assert_eq!(events, vec![Event::CrcMismatch]);
}

#[test]
fn decoder_reset_drops_partial_frame() {
    let mut dec = Decoder::new();
    let frame = encode(&[RC_OK, 5, 6]);
    assert!(feed(&mut dec, &frame[..4]).is_empty());
    dec.reset();
    assert_eq!(feed(&mut dec, &frame), vec![Event::Frame(vec![RC_OK, 5, 6])]);
}

#[test]
fn zero_length_header_is_resynced() {
    // A zero length is implausible: the decoder shifts by one byte.
    let mut dec = Decoder::new();
    let mut stream = vec![0x00];
    stream.extend(encode(&[RC_OK]));
    assert_eq!(feed(&mut dec, &stream), vec![Event::Frame(vec![RC_OK])]);
}

#[test]
fn two_frames_back_to_back() {
    let mut dec = Decoder::new();
    let mut stream = encode(&[RC_OK, 1]);
    stream.extend(encode(&[RC_OK, 2]));
    assert_eq!(
        feed(&mut dec, &stream),
        vec![Event::Frame(vec![RC_OK, 1]), Event::Frame(vec![RC_OK, 2])]
    );
}

#[test]
fn och_get_command() {
    let t = Template::parse(r"r\$tsCanId\x30%2o%2c").unwrap();
    let bytes = t
        .build(&Args {
            can_id: 0,
            offset: Some(0),
            count: Some(127),
            ..Default::default()
        })
        .unwrap();
    assert_eq!(bytes, [b'r', 0x00, 0x30, 0x00, 0x00, 127, 0x00]);
}

#[test]
fn page_identifier_and_read() {
    let ident = Template::parse(r"\$tsCanId\x02").unwrap();
    let page_id = ident
        .build(&Args {
            can_id: 0,
            ..Default::default()
        })
        .unwrap();
    assert_eq!(page_id, [0x00, 0x02]);

    let read = Template::parse("p%2i%2o%2c").unwrap();
    let bytes = read
        .build(&Args {
            page_id: Some(&page_id),
            offset: Some(256),
            count: Some(32),
            ..Default::default()
        })
        .unwrap();
    assert_eq!(bytes, [b'p', 0x00, 0x02, 0x00, 0x01, 32, 0x00]);
}

#[test]
fn chunk_write_with_value() {
    let t = Template::parse("M%2i%2o%2c%v").unwrap();
    let bytes = t
        .build(&Args {
            page_id: Some(&[0x00, 0x01]),
            offset: Some(4),
            count: Some(2),
            value: Some(&[0xAB, 0xCD]),
            ..Default::default()
        })
        .unwrap();
    assert_eq!(bytes, [b'M', 0x00, 0x01, 0x04, 0x00, 0x02, 0x00, 0xAB, 0xCD]);
}

#[test]
fn burn_command() {
    let t = Template::parse("b%2i").unwrap();
    let bytes = t
        .build(&Args {
            page_id: Some(&[0x00, 0x05]),
            ..Default::default()
        })
        .unwrap();
    assert_eq!(bytes, [b'b', 0x00, 0x05]);
}

#[test]
fn template_errors() {
    assert!(matches!(Template::parse(r"ab\"), Err(ProtoError::Template(_))));
    assert!(matches!(Template::parse(r"\x4"), Err(ProtoError::Template(_))));
    assert!(matches!(Template::parse(r"\xZZ"), Err(ProtoError::Template(_))));
    assert!(matches!(Template::parse("%2q"), Err(ProtoError::Template(_))));
    assert!(matches!(Template::parse("%"), Err(ProtoError::Template(_))));
    // `+` before one hex digit is accepted by the radix parser.
    let t = Template::parse(r"\x+5").unwrap();
    assert_eq!(t.build(&Args::default()).unwrap(), [0x05]);
    // Other escapes keep the escaped character.
    let t = Template::parse(r"a\%b").unwrap();
    assert_eq!(t.build(&Args::default()).unwrap(), [b'a', b'%', b'b']);
}

#[test]
fn build_reports_missing_arguments() {
    let t = Template::parse("p%2i").unwrap();
    assert!(matches!(t.build(&Args::default()), Err(ProtoError::Template(_))));
    let t = Template::parse(r"\$other").unwrap();
    assert!(matches!(t.build(&Args::default()), Err(ProtoError::Template(_))));
    let t = Template::parse("x%v").unwrap();
    assert!(matches!(t.build(&Args::default()), Err(ProtoError::Template(_))));
    let t = Template::parse("%2o%2c").unwrap();
    assert!(matches!(
        t.build(&Args { offset: Some(1), ..Default::default() }),
        Err(ProtoError::Template(_))
    ));
}

#[test]
fn decodes_echo_and_payload() {
    let mut dec = secondary::Decoder::new(3);
    let stream = [b'r', 0x30, 1, 2, 3];
    let got: Vec<_> = stream.iter().filter_map(|&b| dec.push(b)).collect();
    assert_eq!(got, vec![vec![1, 2, 3]]);
}

#[test]
fn resyncs_past_garbage() {
    let mut dec = secondary::Decoder::new(2);
    let stream = [0xAA, b'r', b'r', 0x30, 7, 8];
    let got: Vec<_> = stream.iter().filter_map(|&b| dec.push(b)).collect();
    assert_eq!(got, vec![vec![7, 8]]);
}

#[test]
fn secondary_reset_changes_expected_size() {
    let mut dec = secondary::Decoder::new(2);
    dec.push(b'r');
    dec.reset(1);
    let stream = [b'r', 0x30, 9];
    let got: Vec<_> = stream.iter().filter_map(|&b| dec.push(b)).collect();
    assert_eq!(got, vec![vec![9]]);
}

fn config(mode: Mode) -> Config {
    let mut c = Config::new(mode, r"r\$tsCanId\x30%2o%2c", 4);
    c.response_timeout = Duration::from_millis(50);
    c
}

#[test]
fn primary_realtime_roundtrip() {
    let mut mock = MockTransport::new();
    let mut body = vec![envelope::RC_OK];
    body.extend([10, 20, 30, 40]);
    mock.queue(envelope::encode(&body));

    let mut s = Session::new(mock, config(Mode::Primary)).unwrap();
    assert_eq!(s.read_realtime().unwrap(), vec![10, 20, 30, 40]);

    let sent = &s.transport_mut().sent[0];
    assert_eq!(sent[..9], [0x00, 0x07, b'r', 0x00, 0x30, 0x00, 0x00, 0x04, 0x00]);
}

#[test]
fn secondary_realtime_roundtrip() {
    let mut mock = MockTransport::new();
    mock.queue([b'r', 0x30, 1, 2, 3, 4]);
    let mut s = Session::new(mock, config(Mode::Secondary)).unwrap();
    assert_eq!(s.read_realtime().unwrap(), vec![1, 2, 3, 4]);
    assert_eq!(
        s.transport_mut().sent[0],
        vec![b'r', 0x00, 0x30, 0x00, 0x00, 0x04, 0x00]
    );
}

#[test]
fn crc_mismatch_flushes_and_errors() {
    let mut mock = MockTransport::new();
    let mut frame = envelope::encode(&[envelope::RC_OK, 1, 2, 3, 4]);
    frame[4] ^= 0xFF;
    mock.queue(frame);
    mock.queue([0xAA, 0xBB]); // junk that must be flushed

    let mut s = Session::new(mock, config(Mode::Primary)).unwrap();
    assert!(matches!(s.read_realtime(), Err(ProtoError::CrcMismatch)));
    assert!(s.transport_mut().responses.is_empty(), "input not flushed");
}

#[test]
fn ecu_error_code_surfaces() {
    let mut mock = MockTransport::new();
    mock.queue(envelope::encode(&[0x83]));
    let mut s = Session::new(mock, config(Mode::Primary)).unwrap();
    assert!(matches!(s.read_realtime(), Err(ProtoError::EcuError(0x83))));
}

#[test]
fn timeout_when_no_response() {
    let mock = MockTransport::new();
    let mut s = Session::new(mock, config(Mode::Primary)).unwrap();
    assert!(matches!(s.read_realtime(), Err(ProtoError::Timeout)));
}

#[test]
fn session_rejects_malformed_och_command() {
    let c = Config::new(Mode::Primary, "r%9", 4);
    assert!(matches!(Session::new(MockTransport::new(), c), Err(ProtoError::Template(_))));
}

#[test]
fn query_string_trims_nul_and_space() {
    let mut mock = MockTransport::new();
    let mut body = vec![RC_OK];
    body.extend(b" speeduino 202501\0\0");
    mock.queue(envelope::encode(&body));
    let mut s = Session::new(mock, config(Mode::Primary)).unwrap();
    assert_eq!(s.query_string("Q").unwrap(), "speeduino 202501");
    assert_eq!(s.transport_mut().sent[0], envelope::encode(b"Q"));
}

#[test]
fn request_on_secondary_is_unsupported() {
    let mut s = Session::new(MockTransport::new(), config(Mode::Secondary)).unwrap();
    assert!(matches!(s.request(b"Q", &[RC_OK]), Err(ProtoError::Unsupported(_))));
    assert!(s.transport_mut().sent.is_empty());
}

fn commands() -> PageCommands {
    let identifiers: Vec<String> = (1..=2).map(|n| format!(r"\$tsCanId\x{n:02X}")).collect();
    let repeat = |s: &str| vec![s.to_string(); 2];
    PageCommands::new(&PagesConfig {
        identifiers: &identifiers,
        page_read: &repeat("p%2i%2o%2c"),
        chunk_write: &repeat("M%2i%2o%2c%v"),
        crc_check: &repeat("d%2i"),
        burn: &repeat("b%2i"),
        sizes: &[6, 300],
        blocking_factor: 251,
        can_id: 0,
    })
    .unwrap()
}

fn session(mock: MockTransport) -> Session<MockTransport> {
    let mut config = Config::new(Mode::Primary, r"r\$tsCanId\x30%2o%2c", 4);
    config.response_timeout = Duration::from_millis(50);
    Session::new(mock, config).unwrap()
}

#[test]
fn read_page_chunks_by_blocking_factor() {
    let content: Vec<u8> = (0..300u16).map(|i| (i % 251) as u8).collect();
    let mut mock = MockTransport::new();
    let mut first = vec![envelope::RC_OK];
    first.extend_from_slice(&content[..251]);
    mock.queue(envelope::encode(&first));
    let mut second = vec![envelope::RC_OK];
    second.extend_from_slice(&content[251..]);
    mock.queue(envelope::encode(&second));

    let mut s = session(mock);
    let page = commands().read_page(&mut s, 1).unwrap();
    assert_eq!(page, content);

    let sent = &s.transport_mut().sent;
    assert_eq!(sent.len(), 2);
    assert_eq!(sent[0][2..9], [b'p', 0x00, 0x02, 0x00, 0x00, 251, 0x00], "first chunk");
    assert_eq!(sent[1][2..9], [b'p', 0x00, 0x02, 251, 0x00, 49, 0x00], "second chunk");
}

#[test]
fn burn_accepts_burn_ok_code() {
    let mut mock = MockTransport::new();
    mock.queue(envelope::encode(&[RC_BURN_OK]));
    let mut s = session(mock);
    commands().burn(&mut s, 0).unwrap();
    assert_eq!(s.transport_mut().sent[0][2..5], [b'b', 0x00, 0x01]);
}

#[test]
fn crc_is_big_endian() {
    let mut mock = MockTransport::new();
    mock.queue(envelope::encode(&[envelope::RC_OK, 0xD3, 0xD9, 0x9E, 0x8B]));
    let mut s = session(mock);
    assert_eq!(commands().page_crc(&mut s, 0).unwrap(), 0xD3D99E8B);
}

#[test]
fn write_chunk_builds_m_command() {
    let mut mock = MockTransport::new();
    mock.queue(envelope::encode(&[envelope::RC_OK]));
    let mut s = session(mock);
    commands().write_chunk(&mut s, 0, 4, &[0xAB, 0xCD]).unwrap();
    assert_eq!(
        s.transport_mut().sent[0][2..11],
        [b'M', 0x00, 0x01, 0x04, 0x00, 0x02, 0x00, 0xAB, 0xCD]
    );
}

#[test]
fn secondary_mode_rejects_requests() {
    let mut config = Config::new(Mode::Secondary, r"r\$tsCanId\x30%2o%2c", 4);
    config.response_timeout = Duration::from_millis(50);
    let mut s = Session::new(MockTransport::new(), config).unwrap();
    assert!(matches!(commands().read_page(&mut s, 0), Err(ProtoError::Unsupported(_))));
}

#[test]
fn page_index_out_of_range() {
    let mut s = session(MockTransport::new());
    assert!(matches!(commands().read_page(&mut s, 2), Err(ProtoError::Template(_))));
    assert!(matches!(commands().burn(&mut s, 7), Err(ProtoError::Template(_))));
    assert!(s.transport_mut().sent.is_empty());
}

#[test]
fn short_response_is_reported() {
    let mut mock = MockTransport::new();
    mock.queue(envelope::encode(&[envelope::RC_OK, 1, 2]));
    let mut s = session(mock);
    assert!(matches!(
        commands().page_crc(&mut s, 0),
        Err(ProtoError::ShortResponse { expected: 4, got: 2 })
    ));
}

#[test]
fn page_commands_geometry() {
    let c = commands();
    assert_eq!(c.page_count(), 2);
    assert_eq!(c.page_size(1), Some(300));
    assert_eq!(c.page_size(2), None);
    assert_eq!(c.blocking_factor(), 251);
}

#[test]
fn missing_page_template_is_an_error() {
    let ids = vec![r"\$tsCanId\x01".to_string()];
    let one = vec!["p%2i%2o%2c".to_string()];
    let r = PageCommands::new(&PagesConfig {
        identifiers: &ids,
        page_read: &one,
        chunk_write: &one,
        crc_check: &one,
        burn: &one,
        sizes: &[6, 300],
        blocking_factor: 0,
        can_id: 0,
    });
    assert!(matches!(r, Err(ProtoError::Template(_))));
}

#[test]
fn zero_blocking_factor_reads_one_byte_at_a_time() {
    let ids = vec![r"\$tsCanId\x01".to_string()];
    let one = |s: &str| vec![s.to_string()];
    let c = PageCommands::new(&PagesConfig {
        identifiers: &ids,
        page_read: &one("p%2i%2o%2c"),
        chunk_write: &one("M%2i%2o%2c%v"),
        crc_check: &one("d%2i"),
        burn: &one("b%2i"),
        sizes: &[2],
        blocking_factor: 0,
        can_id: 0,
    })
    .unwrap();
    assert_eq!(c.blocking_factor(), 1);
    let mut mock = MockTransport::new();
    mock.queue(envelope::encode(&[RC_OK, 7]));
    mock.queue(envelope::encode(&[RC_OK, 8]));
    let mut s = session(mock);
    assert_eq!(c.read_page(&mut s, 0).unwrap(), vec![7, 8]);
    assert_eq!(s.transport_mut().sent.len(), 2);
}

fn crc_reply(v: u32) -> Vec<u8> {
    let mut p = vec![RC_OK];
    p.extend_from_slice(&v.to_be_bytes());
    encode(&p)
}

fn data_reply(d: &[u8]) -> Vec<u8> {
    let mut p = vec![RC_OK];
    p.extend_from_slice(d);
    encode(&p)
}

#[test]
fn download_page_checks_the_crc_and_retries_once() {
    let content = [1u8, 2, 3, 4, 5, 6];
    let good = crc32(&content);
    // Matches on the first attempt.
    let mut mock = MockTransport::new();
    mock.queue(data_reply(&content));
    mock.queue(crc_reply(good));
    let mut s = session(mock);
    assert_eq!(commands().download_page(&mut s, 0).unwrap(), content.to_vec());
    assert_eq!(s.transport_mut().sent.len(), 2);
    // A mismatch, then a match.
    let mut mock = MockTransport::new();
    mock.queue(data_reply(&content));
    mock.queue(crc_reply(good ^ 1));
    mock.queue(data_reply(&content));
    mock.queue(crc_reply(good));
    let mut s = session(mock);
    assert_eq!(commands().download_page(&mut s, 0).unwrap(), content.to_vec());
    assert_eq!(s.transport_mut().sent.len(), 4);
    // Two mismatches.
    let mut mock = MockTransport::new();
    mock.queue(data_reply(&content));
    mock.queue(crc_reply(7));
    mock.queue(data_reply(&content));
    mock.queue(crc_reply(9));
    let mut s = session(mock);
    match commands().download_page(&mut s, 0) {
        Err(ProtoError::ShortResponse { expected, got }) => assert_eq!((expected, got), (9, good as usize)),
        other => panic!("unexpected {other:?}"),
    }
    assert!(matches!(commands().download_page(&mut s, 5), Err(ProtoError::Template(_))));
}

#[test]
fn encoded_frame_yields_only_on_its_last_byte() {
    let mut dec = Decoder::new();
    let frame = encode(&[RC_OK, 4, 5]);
    for (i, &b) in frame.iter().enumerate() {
        let got = dec.push(b);
        if i + 1 < frame.len() {
            assert_eq!(got, None);
        } else {
            assert_eq!(got, Some(Event::Frame(vec![RC_OK, 4, 5])));
        }
    }
}

#[test]
fn reset_decoder_decodes_like_a_new_one() {
    let mut used = Decoder::new();
    let frame = encode(&[RC_OK, 7]);
    assert!(feed(&mut used, &frame[..3]).is_empty());
    used.reset();
    let mut fresh = Decoder::new();
    let mut stream = vec![0x00, 0x00, 0x13];
    stream.extend(encode(&[RC_OK, 7]));
    assert_eq!(feed(&mut used, &stream), feed(&mut fresh, &stream));
}

#[test]
fn secondary_payload_needs_a_fresh_echo() {
    let mut dec = secondary::Decoder::new(2);
    let stream = [b'r', 0x30, 1, 2, 3, 4, b'r', 0x30, 5, 6];
    let got: Vec<_> = stream.iter().filter_map(|&b| dec.push(b)).collect();
    assert_eq!(got, vec![vec![1, 2], vec![5, 6]]);
}

#[test]
fn secondary_reset_decoder_decodes_like_a_new_one() {
    let mut used = secondary::Decoder::new(3);
    used.push(b'r');
    used.push(0x30);
    used.push(1);
    used.reset(2);
    let mut fresh = secondary::Decoder::new(2);
    let stream = [1, b'r', b'r', 0x30, 8, 9, 0x30];
    let a: Vec<_> = stream.iter().filter_map(|&b| used.push(b)).collect();
    let b: Vec<_> = stream.iter().filter_map(|&b| fresh.push(b)).collect();
    assert_eq!(a, b);
    assert_eq!(a, vec![vec![8, 9]]);
}
