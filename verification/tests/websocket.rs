use base64::{engine::general_purpose, Engine as _};
use trojan_rs::buffer::Chunk;
use trojan_rs::protocol::fallback::{FallbackConfig, FallbackPage};
use trojan_rs::protocol::http_head::HeadStep;
use trojan_rs::protocol::websocket::acceptor::{
    decode_early_data, early_data_limit, extract_early_data, is_trojan_go_websocket_request,
    is_trojan_go_websocket_request_with_options, is_valid_header_name, on_request, parse_ed_limit,
    read_request_head, validate_config, websocket_path_matches, AcceptDecision, HandshakeReply,
    WebSocketAcceptor, WebSocketAcceptorConfig,
};
use trojan_rs::protocol::websocket::connector::{
    ConnectorError, WebSocketConnector, WebSocketConnectorConfig,
};
use trojan_rs::protocol::websocket::{
    write_frame, FlushOutcome, Keepalive, KeepaliveEvent, KeepaliveState, KeepaliveStep,
    WebSocketError, WebSocketOptions, WsMessage, WsReadStep, WsReader,
};

#[test]
fn recognizes_trojan_go_websocket_handshake() {
    let request = b"GET /trojan?ed=2048 HTTP/1.1\r\nHost: example.com\r\nUpgrade: WebSocket\r\nConnection: Upgrade\r\nSec-WebSocket-Version: 13\r\nSec-WebSocket-Key: dGhlIHNhbXBsZSBub25jZQ==\r\n\r\n";
    assert!(is_trojan_go_websocket_request(request, "/trojan"));
}

#[test]
fn routes_other_http_paths_to_trojan_fallback() {
    let request = b"GET / HTTP/1.1\r\nHost: example.com\r\nUpgrade: websocket\r\n\r\n";
    assert!(!is_trojan_go_websocket_request(request, "/trojan"));
}

#[test]
fn rejects_incomplete_websocket_handshake() {
    let request = b"GET /trojan HTTP/1.1\r\nHost: example.com\r\nUpgrade: websocket\r\n\r\n";
    assert!(!is_trojan_go_websocket_request(request, "/trojan"));
}

#[test]
fn legacy_path_only_config_uses_safe_defaults() {
    let config = WebSocketAcceptorConfig::new("/trojan".to_string());
    assert_eq!(config.handshake_timeout_secs, 10);
    assert_eq!(config.max_handshake_size, 8 * 1024);
    assert_eq!(config.options.max_message_size, 1024 * 1024);
}

#[test]
fn legacy_uri_only_config_uses_safe_defaults() {
    let config = WebSocketConnectorConfig::new("wss://example.com/trojan".to_string());
    config.validate().unwrap();
    assert_eq!(config.handshake_timeout_secs, 10);
    assert_eq!(config.options.read_buffer_size, 16 * 1024);
    assert_eq!(config.options.max_message_size, 1024 * 1024);
}

#[test]
fn rejects_zero_handshake_timeout() {
    let mut config = WebSocketConnectorConfig::new("wss://example.com/trojan".to_string());
    config.handshake_timeout_secs = 0;
    assert!(config.validate().is_err());
    assert!(matches!(config.validate(), Err(WebSocketError::HandshakeTimeout)));
}

#[test]
fn websocket_options_keep_legacy_defaults() {
    let options = WebSocketOptions::default();
    options.validate().unwrap();
    assert_eq!(options.read_buffer_size, 16 * 1024);
    assert_eq!(options.max_message_size, 1024 * 1024);
    assert_eq!(options.keepalive_interval_secs, 30);
    let limits = options.tungstenite_config();
    assert_eq!(limits.max_message_size, Some(1024 * 1024));
    assert_eq!(limits.max_write_buffer_size, 2 * 1024 * 1024);
}

#[test]
fn options_have_to_fit_each_other() {
    let mut options = WebSocketOptions::default();
    options.max_write_buffer_size = options.write_buffer_size;
    assert!(matches!(options.validate(), Err(WebSocketError::ResourceLimits)));
    let mut options = WebSocketOptions::default();
    options.max_frame_size = 0;
    assert!(options.validate().is_err());
}

#[test]
fn every_configuration_error_is_found() {
    let error = |change: fn(&mut WebSocketAcceptorConfig)| -> String {
        let mut config = WebSocketAcceptorConfig::new("/t".to_string());
        change(&mut config);
        match validate_config(&config) {
            Ok(()) => "ok".to_string(),
            Err(error) => error.message(),
        }
    };
    assert_eq!(error(|_| {}), "ok");
    let limits = error(|c| c.max_handshake_size = 255);
    assert_eq!(error(|c| c.handshake_timeout_secs = 0), limits);
    let all = [
        error(|c| c.path = "t".to_string()),
        error(|c| c.path = "/t?x".to_string()),
        limits,
        error(|c| c.max_early_data = 8193),
        error(|c| c.early_data_header_name = Some("a b".to_string())),
        error(|c| c.options.read_buffer_size = 0),
    ];
    for (i, a) in all.iter().enumerate() {
        assert_ne!(a, "ok");
        for b in &all[i + 1..] {
            assert_ne!(a, b);
        }
    }
    assert!(matches!(
        validate_config(&WebSocketAcceptorConfig::new(String::new())),
        Err(WebSocketError::PathStart)
    ));
    assert!(matches!(
        validate_config(&WebSocketAcceptorConfig::new("/a#b".to_string())),
        Err(WebSocketError::PathQuery)
    ));
    assert!(is_valid_header_name("X-Early_Data!"));
    assert!(!is_valid_header_name("X:Y"));
}

#[test]
fn reads_the_first_bytes_of_a_connection() {
    assert!(matches!(read_request_head(b"", 256), HeadStep::ReadExact(4)));
    assert!(matches!(read_request_head(b"POST", 256), HeadStep::Complete));
    assert!(matches!(read_request_head(b"GET ", 256), HeadStep::Read(252)));
    assert!(matches!(
        read_request_head(b"GET / HTTP/1.1\r\n\r\n", 256),
        HeadStep::Complete
    ));
    let mut long = b"GET /".to_vec();
    long.resize(256, b'a');
    assert!(matches!(read_request_head(&long, 256), HeadStep::TooLarge));
}

#[test]
fn limits_come_from_the_query() {
    assert_eq!(parse_ed_limit("/p?ed=2048"), Some(2048));
    assert_eq!(parse_ed_limit("/p?a=1&ed=x&ed=+7"), Some(7));
    assert_eq!(parse_ed_limit("/p?ED=5"), None);
    assert_eq!(parse_ed_limit("/p"), None);
    assert_eq!(parse_ed_limit("/p?ed=-1"), None);
    assert_eq!(early_data_limit(0, 0), 0);
    assert_eq!(early_data_limit(0, 2048), 2048);
    assert_eq!(early_data_limit(0, 9000), 8192);
    assert_eq!(early_data_limit(100, 0), 100);
    assert_eq!(early_data_limit(100, 50), 50);
    assert_eq!(early_data_limit(100, 150), 100);
}

#[test]
fn paths_may_hold_early_data() {
    assert!(websocket_path_matches("/v", None, "/v", false));
    assert!(websocket_path_matches("/v/abc", Some("ed=5"), "/v", true));
    assert!(!websocket_path_matches("/v/abc", Some("ed=5"), "/v", false));
    assert!(!websocket_path_matches("/v/abc", Some("x=5"), "/v", true));
    assert!(!websocket_path_matches("/v/", Some("ed=5"), "/v", true));
    assert!(!websocket_path_matches("/vabc", Some("ed=5"), "/v", true));
}

#[test]
fn early_data_is_read_in_all_forms() {
    for len in 0..50usize {
        let data: Vec<u8> = (0..len).map(|i| (i * 73 + 250) as u8).collect();
        for encoded in [
            general_purpose::URL_SAFE_NO_PAD.encode(&data),
            general_purpose::URL_SAFE.encode(&data),
            general_purpose::STANDARD_NO_PAD.encode(&data),
            general_purpose::STANDARD.encode(&data),
        ] {
            assert_eq!(decode_early_data(&encoded).unwrap(), data);
        }
    }
    assert!(matches!(decode_early_data("A"), Err(WebSocketError::EarlyDataEncoding)));
    assert!(decode_early_data("AB").is_err());
    assert!(decode_early_data("AA=").is_err());
    assert!(decode_early_data("-_+/").is_err());
}

fn handshake(path: &str, extra: &str) -> Vec<u8> {
    format!(
        "GET {path} HTTP/1.1\r\nHost: example.com\r\nConnection: Upgrade\r\nUpgrade: websocket\r\n\
         Sec-WebSocket-Version: 13\r\nSec-WebSocket-Key: dGhlIHNhbXBsZSBub25jZQ==\r\n{extra}\r\n"
    )
    .into_bytes()
}

fn vless_request() -> Vec<u8> {
    let mut request = vec![0];
    request.extend_from_slice(&[7; 16]);
    request.extend_from_slice(&[0, 1, 0x01, 0xbb, 2, 11]);
    request.extend_from_slice(b"example.com");
    request.extend_from_slice(b"payload");
    request
}

fn strict(path: &str) -> WebSocketAcceptor<()> {
    WebSocketAcceptor::new_strict(&WebSocketAcceptorConfig::new(path.to_string()), None, ()).unwrap()
}

#[test]
fn accepts_xray_style_websocket_early_data() {
    let bytes = vless_request();
    let early_data = general_purpose::URL_SAFE_NO_PAD.encode(&bytes);
    let request = handshake(
        "/vless?ed=2560",
        &format!("Sec-WebSocket-Protocol: {early_data}\r\n"),
    );
    match strict("/vless").decide(&request) {
        AcceptDecision::Upgrade(early) => {
            assert_eq!(early.payload.as_slice(), &bytes[..]);
            assert_eq!(early.response_protocol, Some(early_data));
        }
        _ => panic!("expected an upgrade"),
    }
}

#[test]
fn accepts_path_style_websocket_early_data() {
    let bytes = vless_request();
    let early_data = general_purpose::URL_SAFE_NO_PAD.encode(&bytes);
    let request = handshake(&format!("/vless/{early_data}?ed=2560"), "");
    assert!(is_trojan_go_websocket_request_with_options(&request, "/vless", true));
    assert!(!is_trojan_go_websocket_request_with_options(&request, "/vless", false));
    match strict("/vless").decide(&request) {
        AcceptDecision::Upgrade(early) => {
            assert_eq!(early.payload.as_slice(), &bytes[..]);
            assert_eq!(early.response_protocol, None);
        }
        _ => panic!("expected an upgrade"),
    }
}

#[test]
fn early_data_may_have_a_header_of_its_own() {
    let request = handshake("/v", "X-Early: , AQID\r\nSec-WebSocket-Protocol: BAUG\r\n");
    let early = extract_early_data(&request, "/v", 16, Some("x-early")).unwrap_or_else(|e| {
        panic!("{}", e.message())
    });
    assert_eq!(early.payload.as_slice(), [1, 2, 3]);
    assert_eq!(early.response_protocol, None);
    let early = extract_early_data(&request, "/v", 16, Some("x-other")).ok().unwrap();
    assert_eq!(early.payload.as_slice(), [4, 5, 6]);
    assert_eq!(early.response_protocol.as_deref(), Some("BAUG"));
    // With no limit on either side there is no early data.
    let early = extract_early_data(&request, "/v", 0, Some("x-early")).ok().unwrap();
    assert!(early.payload.is_empty());
    assert!(matches!(
        extract_early_data(&request, "/v", 2, None),
        Err(WebSocketError::EarlyDataTooLarge)
    ));
    let broken = handshake("/v?ed=9", "Sec-WebSocket-Protocol: chat!\r\n");
    assert!(matches!(
        extract_early_data(&broken, "/v", 0, None),
        Err(WebSocketError::EarlyDataEncoding)
    ));
}

#[test]
fn other_connections_are_passed_refused_or_answered() {
    let config = WebSocketAcceptorConfig::new("/t".to_string());
    let other = b"GET /x HTTP/1.1\r\nHost: h\r\n\r\n";
    let raw = WebSocketAcceptor::new(&config, None, ()).ok().unwrap();
    assert!(matches!(raw.decide(other), AcceptDecision::Raw));
    assert!(matches!(
        strict("/t").decide(other),
        AcceptDecision::Refuse(WebSocketError::UpgradeRequired)
    ));
    let page = FallbackPage::new(&FallbackConfig::new("p".to_string()), b"page".to_vec()).ok();
    let with_page = WebSocketAcceptor::new_strict(&config, page, ()).ok().unwrap();
    assert!(matches!(with_page.decide(other), AcceptDecision::Fallback));
    assert!(matches!(
        with_page.decide(&handshake("/t", "")),
        AcceptDecision::Upgrade(_)
    ));
}

#[test]
fn handshakes_are_answered_by_path() {
    match on_request("/t", None, "/t", true, Some("AQID".to_string()), 784_111_777) {
        HandshakeReply::Accept { date, protocol } => {
            assert_eq!(date, "Sun, 06 Nov 1994 08:49:37 GMT");
            assert_eq!(protocol.as_deref(), Some("AQID"));
        }
        HandshakeReply::NotFound { .. } => panic!("expected an upgrade"),
    }
    assert!(matches!(
        on_request("/x", None, "/t", true, None, 0),
        HandshakeReply::NotFound { date } if date == "Thu, 01 Jan 1970 00:00:00 GMT"
    ));
}

#[test]
fn ignores_control_frames_and_reads_binary_data() {
    let mut reader = WsReader::new(Chunk::from_vec(Vec::new()));
    assert!(matches!(reader.next(7), WsReadStep::Wait));
    assert!(matches!(reader.message(WsMessage::Control, 7), WsReadStep::Again));
    assert!(matches!(reader.next(7), WsReadStep::Wait));
    let message = WsMessage::Binary(Chunk::copy_from_slice(b"payload"));
    assert!(matches!(
        reader.message(message, 7),
        WsReadStep::Data(payload) if payload == b"payload"
    ));
}

#[test]
fn close_frame_is_exposed_as_eof() {
    let mut reader = WsReader::new(Chunk::from_vec(Vec::new()));
    assert!(matches!(reader.message(WsMessage::Close, 1), WsReadStep::Again));
    assert!(matches!(reader.next(1), WsReadStep::Flush));
    assert!(matches!(reader.flushed(FlushOutcome::Done), WsReadStep::Eof));
    assert!(matches!(reader.next(1), WsReadStep::Eof));
    assert!(matches!(reader.next(1), WsReadStep::Eof));

    let mut reader = WsReader::new(Chunk::from_vec(Vec::new()));
    assert!(matches!(reader.message(WsMessage::End, 1), WsReadStep::Again));
    assert!(matches!(reader.next(1), WsReadStep::Eof));

    let mut reader = WsReader::new(Chunk::from_vec(Vec::new()));
    reader.message(WsMessage::Close, 1);
    assert!(matches!(reader.flushed(FlushOutcome::Failed), WsReadStep::FlushError));
    assert!(matches!(reader.next(1), WsReadStep::Eof));
}

#[test]
fn reads_hand_out_every_byte_once() {
    let mut reader = WsReader::new(Chunk::copy_from_slice(b"early"));
    let mut messages = vec![b"second".to_vec(), Vec::new(), b"first part".to_vec()];
    let mut read = Vec::new();
    for room in [2usize, 2, 2, 4, 4, 4, 4, 4, 4, 4, 4] {
        let mut step = reader.next(room);
        loop {
            match step {
                WsReadStep::Wait => match messages.pop() {
                    Some(bytes) => {
                        step = reader.message(WsMessage::Binary(Chunk::from_vec(bytes)), room)
                    }
                    None => break,
                },
                WsReadStep::Again => step = reader.next(room),
                WsReadStep::Data(bytes) => {
                    assert!(bytes.len() <= room);
                    read.extend_from_slice(&bytes);
                    break;
                }
                _ => panic!("the stream ended"),
            }
        }
    }
    assert_eq!(read, b"earlyfirst partsecond");
    assert!(matches!(
        reader.message(WsMessage::Other, 1),
        WsReadStep::Fail(WebSocketError::NotBinary)
    ));
}

#[test]
fn splits_writes_by_configured_frame_size() {
    let data = b"abcdef";
    let first = write_frame(data, 3);
    assert_eq!(first.as_slice(), b"abc");
    let second = write_frame(&data[first.len()..], 3);
    assert_eq!(second.as_slice(), b"def");
    assert_eq!(write_frame(data, 0).as_slice(), data);
    assert_eq!(write_frame(data, 4).as_slice(), b"abcd");
}

#[test]
fn sends_keepalive_ping() {
    let mut keepalive = Keepalive::new(1);
    assert!(matches!(keepalive.next(KeepaliveEvent::Start), KeepaliveStep::PollTick));
    assert!(matches!(keepalive.next(KeepaliveEvent::Tick(false)), KeepaliveStep::Ready));
    assert!(matches!(keepalive.next(KeepaliveEvent::Tick(true)), KeepaliveStep::SendPing));
    // A ping that could not be sent is taken up again.
    assert!(matches!(keepalive.next(KeepaliveEvent::Start), KeepaliveStep::SendPing));
    assert!(matches!(keepalive.next(KeepaliveEvent::Sent), KeepaliveStep::Flush));
    assert!(matches!(keepalive.next(KeepaliveEvent::Flushed), KeepaliveStep::Ready));
    assert!(matches!(keepalive.state, KeepaliveState::Idle));

    let mut never = Keepalive::new(0);
    assert!(matches!(never.next(KeepaliveEvent::Tick(true)), KeepaliveStep::Ready));
}

#[test]
fn connectors_take_usable_uris_only() {
    let mut config = WebSocketConnectorConfig::new("wss://example.com/trojan".to_string());
    let connector = WebSocketConnector::new(&config, 7u8).ok().unwrap();
    assert_eq!(connector.uri, "wss://example.com/trojan");
    assert_eq!(connector.handshake_timeout_secs, 10);
    assert_eq!(connector.websocket_config.read_buffer_size, 16384);
    assert_eq!(connector.websocket_config.max_message_size, Some(1048576));
    assert_eq!(connector.inner, 7);

    let words = |config: &WebSocketConnectorConfig| match WebSocketConnector::new(config, ()) {
        Ok(_) => panic!("expected an error"),
        Err(error) => error.message(),
    };
    config.uri = String::new();
    assert_eq!(words(&config), "websocket: empty string");
    config.uri = "wss://exa mple.com".to_string();
    assert_eq!(words(&config), "websocket: invalid uri character");
    assert!(matches!(
        config.check(Some("why".to_string())),
        Err(ConnectorError::Uri(reason)) if reason == "why"
    ));
    assert!(config.check(None).is_ok());
    // The other settings are looked at first.
    config.options.read_buffer_size = 0;
    assert_eq!(words(&config), "websocket: invalid websocket resource limits");
    config.handshake_timeout_secs = 0;
    assert_eq!(words(&config), "websocket: invalid websocket handshake timeout");
}
