use trojan_rs::protocol::address::{Address, SocketAddr};
use trojan_rs::protocol::vless::acceptor::{
    response_header, VlessAcceptor, VlessAcceptorConfig, VlessConfigError, VlessMultiplexConfig,
};
use trojan_rs::protocol::vless::{
    contains_user, is_compatible_domain_name, read_address, RequestHeader, VlessError,
    VlessUdpReader, VlessUdpWriter,
};
use trojan_rs::wire::Decoded;
use uuid::Uuid;

const USER: &str = "d342d11e-d424-4583-b36e-524ab1f0afa4";

fn done<T>(decoded: Decoded<T, VlessError>) -> (T, usize) {
    match decoded {
        Decoded::Done(value, used) => (value, used),
        Decoded::Need(more) => panic!("{more} bytes are missing"),
        Decoded::Fail(error) => panic!("{}", error.message()),
    }
}

fn assert_domain(address: &Address, domain: &str, port: u16) {
    assert!(address.same_as(&Address::DomainNameAddress(domain.to_string(), port)));
}

#[test]
fn decodes_standard_tcp_request() {
    let user = Uuid::parse_str(USER).unwrap();
    let mut request = vec![0];
    request.extend_from_slice(user.as_bytes());
    request.extend_from_slice(&[0, 1, 0x01, 0xbb, 2, 11]);
    request.extend_from_slice(b"example.com");

    let (header, used) = done(RequestHeader::read_from(&request, &[*user.as_bytes()]));
    assert_eq!(used, request.len());
    match header {
        RequestHeader::Tcp(Address::DomainNameAddress(domain, port)) => {
            assert_eq!(domain, "example.com");
            assert_eq!(port, 443);
        }
        _ => panic!("unexpected VLESS request"),
    }
}

#[test]
fn tolerates_unknown_request_addons() {
    let user = Uuid::parse_str(USER).unwrap();
    let mut request = vec![0];
    request.extend_from_slice(user.as_bytes());
    request.extend_from_slice(&[3, 0xaa, 0xbb, 0xcc, 1, 0x01, 0xbb, 2, 11]);
    request.extend_from_slice(b"example.com");

    let (header, _) = done(RequestHeader::read_from(&request, &[*user.as_bytes()]));
    match header {
        RequestHeader::Tcp(Address::DomainNameAddress(domain, port)) => {
            assert_eq!(domain, "example.com");
            assert_eq!(port, 443);
        }
        _ => panic!("unexpected VLESS request"),
    }
}

#[test]
fn decodes_vless_port_before_ipv4_address() {
    let input = [0x00, 0x35, 1, 8, 8, 8, 8];
    let (address, used) = done(read_address(&input));
    assert!(address.same_as(&Address::SocketAddress(SocketAddr::V4([8, 8, 8, 8], 53))));
    assert_eq!(used, 7);
}

#[test]
fn decodes_ipv6_addresses() {
    let mut input = vec![0x01, 0xbb, 3];
    input.extend_from_slice(&[0x20; 16]);
    input.push(9);
    let (address, used) = done(read_address(&input));
    assert!(address.same_as(&Address::SocketAddress(SocketAddr::V6([0x20; 16], 443, 0, 0))));
    assert_eq!(used, 19);
}

#[test]
fn user_matching_checks_all_configured_ids() {
    let first = *Uuid::nil().as_bytes();
    let second = *Uuid::max().as_bytes();
    assert!(contains_user(&[first, second], &second));
    assert!(!contains_user(&[first], &second));
}

#[test]
fn validates_domain_name_boundaries() {
    assert!(is_compatible_domain_name("dns.example"));
    assert!(is_compatible_domain_name("_service.example"));
    assert!(!is_compatible_domain_name("-bad.example"));
    assert!(!is_compatible_domain_name("bad-.example"));
    assert!(!is_compatible_domain_name("bad..example"));
    assert!(!is_compatible_domain_name("bad/example"));
}

fn request(command: u8, port: u16, domain: &str) -> Vec<u8> {
    let user = Uuid::parse_str(USER).unwrap();
    let mut request = vec![0];
    request.extend_from_slice(user.as_bytes());
    request.extend_from_slice(&[
        0,
        command,
        (port >> 8) as u8,
        port as u8,
        2,
        domain.len() as u8,
    ]);
    request.extend_from_slice(domain.as_bytes());
    request
}

fn acceptor() -> VlessAcceptor<()> {
    let config = VlessAcceptorConfig::new(vec![USER.to_string()]);
    VlessAcceptor::new(&config, ()).unwrap_or_else(|error| panic!("{}", error.message()))
}

#[test]
fn accepts_tcp_and_sends_response_header() {
    let mut bytes = request(1, 443, "example.com");
    bytes.extend_from_slice(b"payload");
    let (header, used) = done(acceptor().read_request(&bytes));
    assert_eq!(response_header(), [0, 0]);
    match header {
        RequestHeader::Tcp(address) => assert_domain(&address, "example.com", 443),
        _ => panic!("expected a TCP stream"),
    }
    assert_eq!(&bytes[used..], b"payload");
}

#[test]
fn requests_are_read_in_pieces() {
    let bytes = request(1, 443, "example.com");
    let acceptor = acceptor();
    for cut in 0..bytes.len() {
        match acceptor.read_request(&bytes[..cut]) {
            Decoded::Need(more) => assert!(more > 0 && cut + more <= bytes.len()),
            _ => panic!("{cut} bytes are no request"),
        }
    }
}

#[test]
fn refused_requests_name_their_reason() {
    let acceptor = acceptor();
    let words = |bytes: &[u8]| match acceptor.read_request(bytes) {
        Decoded::Fail(error) => error.message(),
        _ => "ok".to_string(),
    };
    assert_eq!(words(&[1; 18]), "vless: unsupported version 1");
    assert_eq!(words(&[0; 18]), "vless: invalid user id");
    assert_eq!(words(&request(4, 1, "a")), "vless: unsupported command 4");
    assert_eq!(words(&request(1, 1, "")), "vless: empty domain name");
    assert_eq!(words(&request(1, 1, "a..b")), "vless: invalid domain name");
    assert_eq!(words(&request(1, 1, "b\u{fc}cher")), "vless: invalid domain name");
    let mut bytes = request(1, 1, "a");
    bytes[21] = 9;
    assert_eq!(words(&bytes), "vless: unsupported address type 9");
    assert_eq!(VlessError::HeaderTimedOut.message(), "vless: request header timed out");
}

fn udp_reader() -> (VlessUdpReader<()>, Vec<u8>) {
    let bytes = request(2, 53, "dns.example");
    match done(acceptor().read_request(&bytes)) {
        (RequestHeader::Udp(address), used) => {
            assert_eq!(used, bytes.len());
            (VlessUdpReader { inner: (), address }, bytes)
        }
        _ => panic!("expected UDP stream"),
    }
}

#[test]
fn relays_length_prefixed_udp_packets() {
    let (reader, _) = udp_reader();
    let (packet, used) = done(reader.read_from(b"\0\x03dns", 32));
    assert_eq!(packet.payload, b"dns");
    assert_eq!(used, 5);
    assert_domain(&packet.address, "dns.example", 53);

    let writer = VlessUdpWriter { inner: () };
    assert_eq!(writer.write_to(b"reply").unwrap(), b"\0\x05reply");
}

#[test]
fn accepts_zero_length_udp_packets() {
    let (reader, _) = udp_reader();
    let (packet, used) = done(reader.read_from(&[0, 0], 32));
    assert_eq!(packet.payload.len(), 0);
    assert_eq!(used, 2);
    assert_domain(&packet.address, "dns.example", 53);
}

#[test]
fn udp_packets_are_limited() {
    let (reader, _) = udp_reader();
    assert!(matches!(
        reader.read_from(&[0, 33], 32),
        Decoded::Fail(VlessError::UdpPacketTooLarge(33))
    ));
    assert_eq!(
        VlessError::UdpPacketTooLarge(33).message(),
        "vless: UDP packet of 33 bytes exceeds receive buffer"
    );
    assert!(matches!(reader.read_from(&[0, 3, 1], 32), Decoded::Need(2)));
    let writer = VlessUdpWriter { inner: () };
    assert!(matches!(
        writer.write_to(&vec![0; 65536]),
        Err(VlessError::UdpPacketLength)
    ));
    let largest = writer.write_to(&vec![7; 65535]).unwrap();
    let (packet, _) = done(reader.read_from(&largest, 65535));
    assert_eq!(packet.payload, vec![7; 65535]);
}

#[test]
fn multiplex_defaults_to_auto() {
    let config = VlessAcceptorConfig::new(vec![USER.to_string()]);
    assert!(config.sing_box_mux_enabled());

    let mut config = VlessAcceptorConfig::new(vec![USER.to_string()]);
    config.multiplex = Some(VlessMultiplexConfig {
        h2_probe_timeout_secs: 3,
        ..VlessMultiplexConfig::default()
    });
    assert!(config.sing_box_mux_enabled());
    assert_eq!(config.sing_box_mux_h2_probe_timeout().unwrap(), 3);

    let mut config = VlessAcceptorConfig::new(vec![USER.to_string()]);
    config.multiplex = Some(VlessMultiplexConfig {
        enabled: false,
        ..VlessMultiplexConfig::default()
    });
    assert!(!config.sing_box_mux_enabled());
}

#[test]
fn rejects_zero_mux_probe_timeout() {
    let mut config = VlessAcceptorConfig::new(vec![USER.to_string()]);
    config.multiplex = Some(VlessMultiplexConfig {
        h2_probe_timeout_secs: 0,
        ..VlessMultiplexConfig::default()
    });
    assert!(config.sing_box_mux_h2_probe_timeout().is_err());
}

#[test]
fn users_are_configured_once_each() {
    let new = |users: &[&str]| {
        let users = users.iter().map(|user| user.to_string()).collect();
        VlessAcceptor::new(&VlessAcceptorConfig::new(users), ())
    };
    let other = "00000000-0000-0000-0000-000000000001";
    let accepted = new(&[USER, other]).ok().unwrap();
    let id = Uuid::parse_str(USER).unwrap();
    assert_eq!(accepted.valid_users[0], *id.as_bytes());
    assert_eq!(accepted.valid_users[1][15], 1);
    assert_eq!(accepted.handshake_timeout_secs, 10);
    assert!(matches!(new(&[]), Err(VlessConfigError::NoUsers)));
    // The same id in another notation is still the same.
    match new(&[USER, other, "D342D11ED4244583B36E524AB1F0AFA4"]) {
        Err(error) => assert_eq!(
            error.message(),
            "vless: duplicate user UUID D342D11ED4244583B36E524AB1F0AFA4"
        ),
        Ok(_) => panic!("expected an error"),
    }
    match new(&[other, "not an id"]) {
        Err(error) => {
            assert!(error.message().starts_with("vless: invalid user UUID not an id: "));
            assert!(matches!(
                error,
                VlessConfigError::InvalidUuid { user, .. } if user == "not an id"
            ));
        }
        Ok(_) => panic!("expected an error"),
    }
    let mut config = VlessAcceptorConfig::new(vec!["x".to_string()]);
    config.handshake_timeout_secs = 0;
    assert!(matches!(
        VlessAcceptor::new(&config, ()),
        Err(VlessConfigError::ZeroHandshakeTimeout)
    ));
}

#[test]
fn user_ids_have_four_forms() {
    let first = |user: &str| {
        let config = VlessAcceptorConfig::new(vec![user.to_string()]);
        VlessAcceptor::new(&config, ()).ok().map(|acceptor| acceptor.valid_users[0])
    };
    let id = [
        0xd3, 0x42, 0xd1, 0x1e, 0xd4, 0x24, 0x45, 0x83, 0xb3, 0x6e, 0x52, 0x4a, 0xb1, 0xf0, 0xaf,
        0xa4,
    ];
    for user in [
        "d342d11e-d424-4583-b36e-524ab1f0afa4",
        "D342D11E-d424-4583-B36E-524ab1f0afa4",
        "d342d11ed4244583b36e524ab1f0afa4",
        "{d342d11e-d424-4583-b36e-524ab1f0afa4}",
        "urn:uuid:d342d11e-d424-4583-b36e-524ab1f0afa4",
        "URN:Uuid:d342d11e-d424-4583-b36e-524ab1f0afa4",
    ] {
        assert_eq!(first(user), Some(id), "{}", user);
    }
    for user in [
        "",
        "d342d11ed4244583b36e524ab1f0afa",
        "d342d11ed4244583b36e524ab1f0afag",
        "d342d11e-d424-4583-b36e524a-b1f0afa4",
        "{d342d11ed4244583b36e524ab1f0afa4}",
        "(d342d11e-d424-4583-b36e-524ab1f0afa4)",
        "urn-uuid:d342d11e-d424-4583-b36e-524ab1f0afa4",
        " d342d11e-d424-4583-b36e-524ab1f0afa4",
        "d342d11e-d424-4583-b36e-524ab1f0af\u{e4}",
    ] {
        assert_eq!(first(user), None, "{}", user);
    }
}
