use aws_lc_rs::digest::{digest, SHA224};
use trojan_rs::protocol::address::{
    read_socks_address, write_socks_address, Address, AddressError, SocketAddr,
};
use trojan_rs::protocol::fallback::{FallbackConfig, FallbackPage, FallbackRoute, ServeStep};
use trojan_rs::protocol::hostname::{hostname, ipv4_literal};
use trojan_rs::protocol::tls::acceptor::TrojanTlsAcceptorConfig;
use trojan_rs::protocol::tls::connector::TrojanTlsConnectorConfig;
use trojan_rs::protocol::tls::{validate_sni, TlsError};
use trojan_rs::protocol::trojan::acceptor::{
    hash_text, refusal, TrojanAcceptor, TrojanEnd, TrojanStep,
};
use trojan_rs::protocol::trojan::{read_udp_packet, write_udp_packet, TrojanError};
use trojan_rs::protocol::{new_error, AcceptResult};
use trojan_rs::wire::Decoded;

// SHA-224 of "password".
const HASH: &str = "d63dc919e201d7bc4c825630d2cf25fdc93d4b2f0d46706d29038d01";

fn domain(name: &str, port: u16) -> Address {
    Address::DomainNameAddress(name.to_string(), port)
}

fn acceptor() -> TrojanAcceptor<()> {
    TrojanAcceptor::new(HASH, None, ())
}

fn trojan_request(cmd: u8, port: u16, domain: &str) -> Vec<u8> {
    let mut request = HASH.as_bytes().to_vec();
    request.extend_from_slice(b"\r\n");
    request.push(cmd);
    request.extend_from_slice(&[3, domain.len() as u8]);
    request.extend_from_slice(domain.as_bytes());
    request.extend_from_slice(&[(port >> 8) as u8, port as u8]);
    request.extend_from_slice(b"\r\n");
    request
}

#[test]
fn accepts_tcp_request() {
    let mut req = trojan_request(1, 443, "example.com");
    req.extend_from_slice(b"payload");
    match acceptor().step(&req) {
        TrojanStep::Tcp(address, used) => {
            assert!(address.same_as(&domain("example.com", 443)));
            assert_eq!(&req[used..], b"payload");
        }
        _ => panic!("expected TCP stream"),
    }
}

#[test]
fn accepts_udp_request() {
    let mut req = trojan_request(3, 53, "dns.example");
    // Now the UDP packet
    req.extend_from_slice(&[3, 11]); // Address type Domain(3), length 11
    req.extend_from_slice(b"dns.example");
    req.extend_from_slice(&[0, 53]); // Port
    req.extend_from_slice(&[0, 3]); // Length (3)
    req.extend_from_slice(b"\r\n"); // CRLF
    req.extend_from_slice(b"dns"); // Payload
    let used = match acceptor().step(&req) {
        TrojanStep::Udp(used) => used,
        _ => panic!("expected UDP stream"),
    };
    match read_udp_packet(&req[used..], 32) {
        Decoded::Done(packet, length) => {
            assert_eq!(packet.payload, b"dns");
            assert!(packet.address.same_as(&domain("dns.example", 53)));
            assert_eq!(used + length, req.len());
        }
        _ => panic!("expected a packet"),
    }
}

#[test]
fn trojan_requests_are_read_in_pieces() {
    let request = trojan_request(1, 443, "example.com");
    assert!(matches!(acceptor().step(b""), TrojanStep::ReadFirst(56)));
    for cut in 1..56 {
        assert!(matches!(
            acceptor().step(&request[..cut]),
            TrojanStep::Refuse(TrojanError::ShortFirstPacket)
        ));
    }
    for cut in 56..request.len() {
        assert!(matches!(
            acceptor().step(&request[..cut]),
            TrojanStep::Read(more) if more > 0 && cut + more <= request.len()
        ));
    }
}

#[test]
fn visitors_reach_the_fallback_site() {
    let page = FallbackPage::new(&FallbackConfig::new("p".to_string()), Vec::new()).unwrap();
    let with_page = TrojanAcceptor::new(HASH, Some(page.clone()), ());
    let short = b"GET / HTTP/1.1\r\nHost: h\r\n\r\n";
    let long = b"GET /index.html HTTP/1.1\r\nHost: example.com\r\nAccept: */*\r\nX: y\r\n\r\n";
    for request in [&short[..], &long[..56]] {
        assert!(matches!(with_page.step(request), TrojanStep::Fallback));
        assert!(!matches!(page.serve(request, true), ServeStep::Shutdown));
    }
    assert!(matches!(
        page.serve(short, false),
        ServeStep::Respond(FallbackRoute::Page { head_only: false })
    ));
}

#[test]
fn refused_connections_go_to_the_fallback_page() {
    let mut request = trojan_request(1, 443, "example.com");
    request[3] ^= 1;
    let page = FallbackPage::new(&FallbackConfig::new("p".to_string()), Vec::new()).ok();
    let with_page = TrojanAcceptor::new(HASH, page, ());
    assert!(matches!(with_page.step(&request), TrojanStep::Fallback));
    match acceptor().step(&request) {
        TrojanStep::Refuse(error) => {
            assert!(matches!(error, TrojanError::InvalidHash));
            assert!(refusal(&error).starts_with("trojan: invalid packet: "));
        }
        _ => panic!("expected a refusal"),
    }
}

#[test]
fn trojan_requests_are_refused_for_every_reason() {
    let request = trojan_request(1, 443, "example.com");
    let step = |at: usize, byte: u8| {
        let mut changed = request.clone();
        changed[at] = byte;
        acceptor().step(&changed)
    };
    assert!(matches!(
        step(57, b' '),
        TrojanStep::Refuse(TrojanError::MissingLineBreak)
    ));
    assert!(matches!(
        step(request.len() - 1, b' '),
        TrojanStep::Refuse(TrojanError::MissingLineBreak)
    ));
    assert!(matches!(
        step(58, 2),
        TrojanStep::Refuse(TrojanError::UnsupportedCommand(2))
    ));
    assert!(matches!(
        step(59, 9),
        TrojanStep::Refuse(TrojanError::Address(AddressError::UnsupportedType(9)))
    ));
    assert!(matches!(
        step(61, 0xff),
        TrojanStep::Refuse(TrojanError::Address(AddressError::InvalidDomain))
    ));
}

#[test]
fn trojan_packets_are_read_back_as_written() {
    let address = Address::SocketAddress(SocketAddr::V4([9, 9, 9, 9], 53));
    let bytes = write_udp_packet(b"dns", &address).unwrap();
    assert_eq!(bytes, b"\x01\x09\x09\x09\x09\0\x35\0\x03\r\ndns");
    match read_udp_packet(&bytes, 3) {
        Decoded::Done(packet, used) => {
            assert_eq!(packet.payload, b"dns");
            assert!(packet.address.same_as(&address));
            assert_eq!(used, bytes.len());
        }
        _ => panic!("expected a packet"),
    }
    assert!(matches!(
        read_udp_packet(&bytes, 2),
        Decoded::Fail(TrojanError::PacketTooLarge)
    ));
    assert!(matches!(
        write_udp_packet(&vec![0; 65536], &address),
        Err(TrojanError::PacketLength)
    ));
    assert!(matches!(
        write_udp_packet(b"", &domain(&"a".repeat(256), 1)),
        Err(TrojanError::Address(AddressError::DomainTooLong))
    ));
}

#[test]
fn socks_addresses_are_read_back_as_written() {
    for address in [
        Address::SocketAddress(SocketAddr::V4([1, 2, 3, 4], 65535)),
        Address::SocketAddress(SocketAddr::V6([7; 16], 0, 0, 0)),
        domain("", 1),
        domain(&"x".repeat(255), 258),
    ] {
        let mut bytes = vec![0xee];
        write_socks_address(&mut bytes, &address).unwrap();
        let length = bytes.len() - 1;
        bytes.extend_from_slice(b"rest");
        match read_socks_address(&bytes[1..]) {
            Decoded::Done(read, used) => {
                assert!(read.same_as(&address));
                assert_eq!(used, length);
            }
            _ => panic!("expected an address"),
        }
        for cut in 0..length {
            assert!(matches!(
                read_socks_address(&bytes[1..1 + cut]),
                Decoded::Need(more) if cut + more <= length
            ));
        }
    }
}

#[test]
fn address_texts_name_domains_and_ports() {
    let named = |text: &str| Address::from_text(text, None);
    assert!(named("example.com:443").unwrap().same_as(&domain("example.com", 443)));
    assert!(named("example.com").unwrap().same_as(&domain("example.com", 80)));
    assert!(named("example.com:").is_none());
    assert!(named("example.com:65536").is_none());
    let literal = SocketAddr::V4([127, 0, 0, 1], 8080);
    let address = Address::from_text("127.0.0.1:8080", Some(literal)).unwrap();
    assert_eq!(address.port(), 8080);
    assert!(!address.same_as(&domain("127.0.0.1", 8080)));
}

#[test]
fn parses_sni_and_default_handshake_timeout() {
    let config = TrojanTlsAcceptorConfig::new(
        "0.0.0.0:443".to_string(),
        "example.com".to_string(),
        "cert.pem".to_string(),
        "key.pem".to_string(),
    );
    assert_eq!(config.handshake_timeout_secs, 10);
    assert!(config.validate().is_ok());
}

#[test]
fn uses_default_handshake_timeout() {
    let config =
        TrojanTlsConnectorConfig::new("example.com:443".to_string(), "example.com".to_string());
    assert_eq!(config.handshake_timeout_secs, 10);
    assert!(config.validate().is_ok());
}

#[test]
fn rejects_invalid_sni_and_timeout() {
    let invalid_sni =
        TrojanTlsConnectorConfig::new("127.0.0.1:443".to_string(), "127.0.0.1".to_string());
    assert!(invalid_sni.validate().is_err());

    let mut invalid_timeout =
        TrojanTlsConnectorConfig::new("example.com:443".to_string(), "example.com".to_string());
    invalid_timeout.handshake_timeout_secs = 0;
    assert!(invalid_timeout.validate().is_err());
    assert!(matches!(
        invalid_timeout.validate(),
        Err(TlsError::InvalidHandshakeTimeout)
    ));
}

#[test]
fn validates_sni_hostname() {
    assert!(validate_sni("example.com").is_ok());
    assert!(validate_sni("edge-1.example.com").is_ok());
    assert!(validate_sni("").is_err());
    assert!(validate_sni("127.0.0.1").is_err());
    assert!(validate_sni("bad_name.example.com").is_err());
    assert!(validate_sni("example.com.").is_err());
}

#[test]
fn hostnames_have_labels_of_limited_length() {
    assert!(hostname(&"a".repeat(63), false));
    assert!(!hostname(&"a".repeat(64), false));
    assert!(hostname("a_b.c", true));
    assert!(!hostname("a_b.c", false));
    assert!(!hostname(&"a.".repeat(200), true));
    assert!(ipv4_literal("255.0.10.1"));
    assert!(!ipv4_literal("256.0.0.1"));
    assert!(!ipv4_literal("1.2.3"));
    assert!(!ipv4_literal("01.2.3.4"));
}

#[test]
fn errors_and_results_are_plain_values() {
    assert_eq!(new_error("no stream").message(), "protocol: no stream");
    let accepted: AcceptResult<u8, ()> = AcceptResult::Tcp((7, domain("a", 1)));
    let (stream, address) = accepted.unwrap_tcp_with_addr();
    assert_eq!(stream, 7);
    assert!(address.same_as(&domain("a", 1)));
}

#[test]
fn hashes_are_written_in_hexadecimal() {
    assert_eq!(hash_text(digest(&SHA224, b"password").as_ref()), HASH);
    assert_eq!(hash_text(&[]), "");
    assert_eq!(hash_text(&[0x00, 0x0f, 0xa0, 0x9b, 0xff]), "000fa09bff");
}

#[test]
fn connections_that_break_off_are_decided_about() {
    match acceptor().read_failed("connection reset") {
        TrojanEnd::Drop(words) => assert_eq!(words, "trojan: invalid packet: connection reset"),
        TrojanEnd::Fallback => panic!("expected no fallback"),
    }
    let page = FallbackPage::new(&FallbackConfig::new("p".to_string()), Vec::new()).ok();
    let with_page = TrojanAcceptor::new(HASH, page, ());
    assert!(matches!(with_page.read_failed("connection reset"), TrojanEnd::Fallback));
}
