use rbxl_editor::base64::base64_encode;
use rbxl_editor::session::{
    decimal_string, LiveSessionState, RpcMessage, SessionEvent, SessionStatus, StartRequest,
    DEFAULT_PORT,
};
use rbxl_editor::sha1::Sha1;
use rbxl_editor::websocket::{
    accept_key, decode_frame, encode_pong, encode_text_frame, frame_action, frame_from_raw,
    handshake_read_state, handshake_response, Frame, FrameAction, FrameDecode, HandshakeError,
    HandshakeRead, MAX_FRAME_PAYLOAD,
};

fn hex(bytes: &[u8]) -> String {
    bytes.iter().map(|b| format!("{:02x}", b)).collect()
}

fn sha1_hex(data: &[u8]) -> String {
    let mut s = Sha1::new();
    s.update(data);
    hex(&s.finalize())
}

#[test]
fn sha1_known_answers() {
    assert_eq!(sha1_hex(b""), "da39a3ee5e6b4b0d3255bfef95601890afd80709");
    assert_eq!(sha1_hex(b"abc"), "a9993e364706816aba3e25717850c26c9cd0d89d");
    assert_eq!(
        sha1_hex(b"abcdbcdecdefdefgefghfghighijhijkijkljklmklmnlmnomnopnopq"),
        "84983e441c3bd26ebaae4aa1f95129e5e54670f1"
    );
    let million_a = vec![b'a'; 1_000_000];
    assert_eq!(sha1_hex(&million_a), "34aa973cd4c4daa4f61eeb2bdbad27316534016f");
}

#[test]
fn sha1_incremental_matches_one_shot() {
    let data: Vec<u8> = (0..300u32).map(|i| (i * 7 % 251) as u8).collect();
    for split in [0usize, 1, 55, 63, 64, 65, 128, 299, 300] {
        let mut s = Sha1::new();
        s.update(&data[..split]);
        s.update(&data[split..]);
        assert_eq!(hex(&s.finalize()), sha1_hex(&data), "split at {}", split);
    }
}

#[test]
fn base64_vectors() {
    assert_eq!(base64_encode(b""), "");
    assert_eq!(base64_encode(b"f"), "Zg==");
    assert_eq!(base64_encode(b"fo"), "Zm8=");
    assert_eq!(base64_encode(b"foo"), "Zm9v");
    assert_eq!(base64_encode(b"foob"), "Zm9vYg==");
    assert_eq!(base64_encode(b"fooba"), "Zm9vYmE=");
    assert_eq!(base64_encode(b"foobar"), "Zm9vYmFy");
    assert_eq!(base64_encode(&[0xfb, 0xff, 0xbf]), "+/+/");
}

#[test]
fn base64_length_is_four_per_started_triple() {
    for n in 0..40usize {
        let data = vec![0x5au8; n];
        assert_eq!(base64_encode(&data).len(), 4 * ((n + 2) / 3));
    }
}

#[test]
fn accept_key_rfc_sample() {
    assert_eq!(accept_key("dGhlIHNhbXBsZSBub25jZQ=="), "s3pPLMBiTxaQ9kYGzzhZRbK+xOo=");
}

#[test]
fn handshake_response_for_sample_request() {
    let req = b"GET /chat HTTP/1.1\r\nHost: server.example.com\r\nUpgrade: websocket\r\nConnection: Upgrade\r\nSEC-WEBSOCKET-KEY :  dGhlIHNhbXBsZSBub25jZQ== \r\nSec-WebSocket-Version: 13\r\n\r\n";
    let resp = handshake_response(req).unwrap();
    assert_eq!(
        resp,
        "HTTP/1.1 101 Switching Protocols\r\nUpgrade: websocket\r\nConnection: Upgrade\r\nSec-WebSocket-Accept: s3pPLMBiTxaQ9kYGzzhZRbK+xOo=\r\n\r\n"
    );
}

#[test]
fn handshake_without_key_is_refused() {
    let req = b"GET / HTTP/1.1\r\nHost: x\r\n\r\n";
    assert_eq!(handshake_response(req), Err(HandshakeError::MissingKey));
    assert_eq!(handshake_response(b""), Err(HandshakeError::MissingKey));
}

#[test]
fn handshake_read_state_detects_end_and_overflow() {
    assert_eq!(handshake_read_state(b"GET"), HandshakeRead::NeedMore);
    assert_eq!(handshake_read_state(b"\r\n\r\n"), HandshakeRead::NeedMore);
    assert_eq!(handshake_read_state(b"x\r\n\r\n"), HandshakeRead::Complete);
    let big = vec![b'a'; 16 * 1024 + 1];
    assert_eq!(handshake_read_state(&big), HandshakeRead::TooLarge);
    let limit = vec![b'a'; 16 * 1024];
    assert_eq!(handshake_read_state(&limit), HandshakeRead::NeedMore);
}

#[test]
fn decode_masked_hello() {
    let bytes = [0x81u8, 0x85, 0x37, 0xfa, 0x21, 0x3d, 0x7f, 0x9f, 0x4d, 0x51, 0x58, 0xff];
    match decode_frame(&bytes) {
        FrameDecode::Complete(raw, used) => {
            assert_eq!(used, 11);
            assert!(raw.fin);
            assert_eq!(raw.opcode, 1);
            assert_eq!(raw.payload, b"Hello".to_vec());
            match frame_from_raw(raw) {
                Frame::Text(t) => assert_eq!(t, "Hello"),
                _ => panic!("expected text"),
            }
        }
        _ => panic!("expected a complete frame"),
    }
}

#[test]
fn decode_incomplete_and_too_large() {
    assert!(matches!(decode_frame(&[0x81]), FrameDecode::Incomplete));
    assert!(matches!(decode_frame(&[0x81, 0x05, b'H', b'e']), FrameDecode::Incomplete));
    assert!(matches!(decode_frame(&[0x81, 0xFE, 0x00]), FrameDecode::Incomplete));
    let mut big = vec![0x82u8, 127];
    big.extend_from_slice(&(MAX_FRAME_PAYLOAD + 1).to_be_bytes());
    assert!(matches!(decode_frame(&big), FrameDecode::TooLarge));
}

#[test]
fn text_frame_encoding_round_trips() {
    for n in [0usize, 1, 125, 126, 127, 65535, 65536, 70000] {
        let text: String = std::iter::repeat('x').take(n).collect();
        let frame = encode_text_frame(&text);
        if n < 126 {
            assert_eq!(frame[1] as usize, n);
            assert_eq!(frame.len(), 2 + n);
        } else if n <= 0xFFFF {
            assert_eq!(frame[1], 126);
            assert_eq!(frame.len(), 4 + n);
        } else {
            assert_eq!(frame[1], 127);
            assert_eq!(frame.len(), 10 + n);
        }
        match decode_frame(&frame) {
            FrameDecode::Complete(raw, used) => {
                assert_eq!(used, frame.len());
                assert_eq!(raw.opcode, 1);
                assert!(raw.fin);
                assert_eq!(raw.payload, text.as_bytes().to_vec());
            }
            _ => panic!("frame of {} bytes did not decode", n),
        }
    }
    let hello = encode_text_frame("Hello");
    assert_eq!(hello, vec![0x81, 0x05, b'H', b'e', b'l', b'l', b'o']);
    let snow = encode_text_frame("\u{2603}");
    assert_eq!(snow, vec![0x81, 0x03, 0xE2, 0x98, 0x83]);
}

#[test]
fn ping_is_answered_with_pong() {
    let ping = [0x89u8, 0x02, 1, 2];
    let raw = match decode_frame(&ping) {
        FrameDecode::Complete(raw, _) => raw,
        _ => panic!("ping did not decode"),
    };
    match frame_action(frame_from_raw(raw)) {
        FrameAction::Reply(bytes) => assert_eq!(bytes, vec![0x8A, 0x02, 1, 2]),
        _ => panic!("expected a pong"),
    }
    assert_eq!(encode_pong(&[]), vec![0x8A, 0x00]);
    let long = vec![7u8; 300];
    let pong = encode_pong(&long);
    assert_eq!(pong[1], (300 % 256) as u8);
    assert_eq!(pong.len(), 302);
}

#[test]
fn close_binary_and_pong_frames() {
    let close = match decode_frame(&[0x88, 0x00]) {
        FrameDecode::Complete(raw, _) => frame_from_raw(raw),
        _ => panic!(),
    };
    assert!(matches!(frame_action(close), FrameAction::Close));
    let bin = match decode_frame(&[0x82, 0x01, 9]) {
        FrameDecode::Complete(raw, _) => frame_from_raw(raw),
        _ => panic!(),
    };
    assert!(matches!(bin, Frame::Binary(ref p) if p == &vec![9u8]));
    assert!(matches!(frame_action(bin), FrameAction::Ignore));
    let odd = match decode_frame(&[0x83, 0x00]) {
        FrameDecode::Complete(raw, _) => frame_from_raw(raw),
        _ => panic!(),
    };
    assert!(matches!(odd, Frame::Binary(_)));
    let pong = match decode_frame(&[0x8A, 0x00]) {
        FrameDecode::Complete(raw, _) => frame_from_raw(raw),
        _ => panic!(),
    };
    assert!(matches!(frame_action(pong), FrameAction::Ignore));
}

#[test]
fn text_frame_with_invalid_utf8_is_decoded_lossily() {
    let raw = match decode_frame(&[0x81, 0x02, b'a', 0xFF]) {
        FrameDecode::Complete(raw, _) => raw,
        _ => panic!(),
    };
    match frame_from_raw(raw) {
        Frame::Text(t) => assert_eq!(t, "a\u{FFFD}"),
        _ => panic!(),
    }
}

#[test]
fn decimal_strings() {
    assert_eq!(decimal_string(0), "0");
    assert_eq!(decimal_string(7), "7");
    assert_eq!(decimal_string(41742), "41742");
    assert_eq!(decimal_string(u64::MAX), "18446744073709551615");
}

#[test]
fn live_session_lifecycle() {
    let mut s = LiveSessionState::new();
    assert_eq!(s.status, SessionStatus::Stopped);
    assert_eq!(s.port, DEFAULT_PORT);
    assert_eq!(s.log, vec!["Live session bridge default port: 41742".to_string()]);
    assert_eq!(s.start(), StartRequest::Spawn { port: 41742 });
    s.server_spawned(true);
    assert_eq!(s.status, SessionStatus::Listening);
    assert_eq!(
        s.log.last().unwrap(),
        "Listening on ws://127.0.0.1:41742 \u{2014} install the companion plugin in Studio to connect."
    );
    assert_eq!(s.start(), StartRequest::AlreadyRunning);
    let events = vec![
        SessionEvent::Connected { peer: "127.0.0.1:5000".to_string() },
        SessionEvent::Message(RpcMessage {
            id: Some(3),
            method: "hello".to_string(),
            params: "{\"a\":1}".to_string(),
        }),
    ];
    let back = s.poll_events(events, false);
    assert_eq!(back.len(), 2);
    assert_eq!(s.status, SessionStatus::Connected);
    let n = s.log.len();
    assert_eq!(s.log[n - 2], "Studio connected from 127.0.0.1:5000");
    assert_eq!(s.log[n - 1], "\u{2190} hello {\"a\":1}");
    s.poll_events(vec![SessionEvent::Disconnected { peer: "p".to_string() }], false);
    assert_eq!(s.status, SessionStatus::Listening);
    assert_eq!(s.log.last().unwrap(), "Studio disconnected (p)");
    s.poll_events(vec![SessionEvent::ServerError("boom".to_string())], true);
    assert_eq!(s.status, SessionStatus::Stopped);
    assert_eq!(s.log.last().unwrap(), "server error: boom");
    s.stop();
    assert!(s.shutdown_requested);
    assert_eq!(s.log.last().unwrap(), "Live session stopped.");
}

#[test]
fn failed_spawn_is_logged() {
    let mut s = LiveSessionState::new();
    s.server_spawned(false);
    assert_eq!(s.status, SessionStatus::Stopped);
    assert_eq!(s.log.last().unwrap(), "Failed to spawn live-session thread");
}

#[test]
fn requests_get_increasing_ids() {
    let mut s = LiveSessionState::new();
    assert_eq!(s.send("get_selection", "null".to_string()), 1);
    assert_eq!(s.send("push_dom", "{}".to_string()), 2);
    s.run_in_studio("print(\"hi\")\n");
    let out = s.take_outbox();
    assert_eq!(out.len(), 3);
    assert_eq!(out[0].id, Some(1));
    assert_eq!(out[0].method, "get_selection");
    assert_eq!(out[1].id, Some(2));
    assert_eq!(out[2].id, Some(3));
    assert_eq!(out[2].method, "run_command");
    assert_eq!(out[2].params, "{\"source\":\"print(\\\"hi\\\")\\n\"}");
    assert_eq!(s.log.last().unwrap(), "\u{2192} sent run_command to Studio");
    assert!(s.take_outbox().is_empty());
    assert_eq!(s.next_id, 4);
}

#[test]
fn run_in_studio_escapes_control_characters() {
    let mut s = LiveSessionState::new();
    s.run_in_studio("a\tb\u{1}\"\\\u{7f}é");
    let out = s.take_outbox();
    assert_eq!(out.len(), 1);
    assert_eq!(out[0].params, "{\"source\":\"a\\tb\\u0001\\\"\\\\\u{7f}é\"}");
}
