use trojan_rs::buffer::{Chunk, Prefix};
use trojan_rs::protocol::address::{Address, AddressError, SocketAddr};
use trojan_rs::protocol::singbox_mux::{
    self, is_sing_box_mux_destination, read_stream_header, stream_status, PrefaceProbe, ProbeEvent,
    ProbeStep, SingBoxError, SingBoxMuxTcpStream, SingBoxMuxUdpWrite, StreamHeader, TcpWriteStep,
};
use trojan_rs::protocol::vless::mux_cool::{
    check_packet, MuxAction, MuxCoolFrame, MuxCoolMetadata, MuxReadBuffer, MuxSessions, MuxWriter,
    SendOutcome, WriteStep,
};
use trojan_rs::protocol::vless::{RequestHeader, VlessError};
use trojan_rs::wire::Decoded;

fn domain(name: &str, port: u16) -> Address {
    Address::DomainNameAddress(name.to_string(), port)
}

fn frame(bytes: &[u8]) -> MuxCoolMetadata {
    match MuxCoolMetadata::read_from(bytes) {
        Decoded::Done(frame, used) => {
            assert_eq!(used, bytes.len());
            frame
        }
        Decoded::Need(more) => panic!("{more} bytes are missing"),
        Decoded::Fail(error) => panic!("{}", error.message()),
    }
}

fn metadata(fields: &[u8], data: Option<&[u8]>) -> Vec<u8> {
    let mut bytes = (fields.len() as u16).to_be_bytes().to_vec();
    bytes.extend_from_slice(fields);
    if let Some(data) = data {
        bytes.extend_from_slice(&(data.len() as u16).to_be_bytes());
        bytes.extend_from_slice(data);
    }
    bytes
}

fn open_frame(network: u8, port: u16, name: &str, data: &[u8]) -> Vec<u8> {
    let mut fields = vec![0, 1, 1, 1, network];
    fields.extend_from_slice(&port.to_be_bytes());
    fields.extend_from_slice(&[2, name.len() as u8]);
    fields.extend_from_slice(name.as_bytes());
    metadata(&fields, Some(data))
}

#[test]
fn accepts_native_vless_mux_cool_tcp_stream() {
    let user = [7; 16];
    let mut request = vec![0];
    request.extend_from_slice(&user);
    request.extend_from_slice(&[0, 3]);
    assert!(matches!(
        RequestHeader::read_from(&request, &[user]),
        Decoded::Done(RequestHeader::Mux, 19)
    ));

    let mut sessions = MuxSessions::new();
    match sessions.step(frame(&open_frame(1, 443, "example.com", b"payload"))) {
        Ok(MuxAction::OpenTcp { session_id, address, first }) => {
            assert_eq!(session_id, 1);
            assert!(address.same_as(&domain("example.com", 443)));
            assert_eq!(first.unwrap().as_slice(), b"payload");
        }
        _ => panic!("expected a TCP stream"),
    }

    let mut out = Vec::new();
    MuxCoolFrame::keep(1, b"reply").write_to(&mut out).unwrap();
    assert_eq!(out, b"\0\x04\0\x01\x02\x01\0\x05reply");
}

#[test]
fn accepts_native_vless_mux_cool_udp_stream() {
    let mut sessions = MuxSessions::new();
    let address = match sessions.step(frame(&open_frame(2, 53, "dns.example", b"dns"))) {
        Ok(MuxAction::OpenUdp { session_id, address, first }) => {
            assert_eq!(session_id, 1);
            assert_eq!(first.unwrap().as_slice(), b"dns");
            address
        }
        _ => panic!("expected UDP stream"),
    };
    assert!(address.same_as(&domain("dns.example", 53)));

    let reply = MuxCoolFrame::packet(1, &address, b"reply").ok().unwrap();
    let mut out = Vec::new();
    reply.write_to(&mut out).unwrap();
    let mut expected = vec![0, 20, 0, 1, 2, 1, 2, 0, 53, 2, 11];
    expected.extend_from_slice(b"dns.example");
    expected.extend_from_slice(b"\0\x05reply");
    assert_eq!(out, expected);
}

#[test]
fn frames_are_read_back_as_written() {
    let mut bytes = Vec::new();
    MuxCoolFrame::packet(9, &Address::SocketAddress(SocketAddr::V6([3; 16], 853, 0, 0)), b"abc")
        .ok()
        .unwrap()
        .write_to(&mut bytes)
        .unwrap();
    let read = frame(&bytes);
    assert_eq!((read.session_id, read.status, read.network), (9, 2, Some(2)));
    assert!(read
        .address
        .unwrap()
        .same_as(&Address::SocketAddress(SocketAddr::V6([3; 16], 853, 0, 0))));
    assert_eq!(read.data.unwrap().as_slice(), b"abc");

    let mut end = Vec::new();
    MuxCoolFrame::end(513).write_to(&mut end).unwrap();
    assert_eq!(end, [0, 4, 2, 1, 3, 0]);
    let read = frame(&end);
    assert_eq!((read.session_id, read.status), (513, 3));
    assert!(read.data.is_none());

    for cut in 0..bytes.len() {
        assert!(matches!(
            MuxCoolMetadata::read_from(&bytes[..cut]),
            Decoded::Need(more) if more > 0 && cut + more <= bytes.len()
        ));
    }
}

#[test]
fn malformed_frames_name_their_reason() {
    let words = |bytes: &[u8]| match MuxCoolMetadata::read_from(bytes) {
        Decoded::Fail(error) => error.message(),
        _ => "ok".to_string(),
    };
    assert_eq!(words(&[0, 3]), "vless: invalid Mux.Cool metadata length 3");
    assert_eq!(words(&[2, 1]), "vless: invalid Mux.Cool metadata length 513");
    assert_eq!(
        words(&metadata(&[0, 1, 1, 0, 1, 0], None)),
        "vless: insufficient Mux.Cool target metadata"
    );
    assert_eq!(
        words(&metadata(&[0, 1, 1, 0, 1, 0, 1, 1, 9], None)),
        "vless: short Mux.Cool IPv4 address"
    );
    assert_eq!(
        words(&metadata(&[0, 1, 1, 0, 1, 0, 1, 3, 9], None)),
        "vless: short Mux.Cool IPv6 address"
    );
    assert_eq!(
        words(&metadata(&[0, 1, 1, 0, 1, 0, 1, 2, 9], None)),
        "vless: short Mux.Cool domain address"
    );
    assert_eq!(
        words(&metadata(&[0, 1, 1, 0, 1, 0, 1, 2, 1, 0xff], None)),
        "vless: invalid Mux.Cool domain address"
    );
    assert_eq!(
        words(&metadata(&[0, 1, 1, 0, 1, 0, 1, 7, 1], None)),
        "vless: unsupported Mux.Cool address type 7"
    );
}

#[test]
fn frames_that_cannot_be_written_are_refused() {
    let long = "a".repeat(256);
    let reply = MuxCoolFrame::packet(1, &domain(&long, 1), b"x").ok().unwrap();
    assert!(matches!(
        reply.write_to(&mut Vec::new()),
        Err(VlessError::MuxDomainLength)
    ));
    assert!(matches!(
        MuxCoolFrame::packet(1, &domain("a", 1), &vec![0; 65536]),
        Err(VlessError::MuxUdpPacketLength)
    ));
    let mut too_long = MuxCoolFrame::end(1);
    too_long.data = Some(Chunk::from_vec(vec![0; 65536]));
    assert!(matches!(
        too_long.write_to(&mut Vec::new()),
        Err(VlessError::MuxDataLength)
    ));
    assert!(matches!(
        check_packet(&Chunk::copy_from_slice(b"abc"), 2),
        Err(VlessError::MuxUdpPacketTooLarge(3))
    ));
    assert!(check_packet(&Chunk::copy_from_slice(b"abc"), 3).is_ok());
}

#[test]
fn sessions_open_carry_data_and_end() {
    let mut sessions = MuxSessions::new();
    let keep = metadata(&[0, 1, 2, 1], Some(b"data"));
    // Data for a session that is not open is answered with its end.
    assert!(matches!(
        sessions.step(frame(&keep)),
        Ok(MuxAction::SendEnd { session_id: 1 })
    ));
    assert!(sessions.step(frame(&open_frame(2, 53, "dns.example", b""))).is_ok());
    match sessions.step(frame(&keep)) {
        Ok(MuxAction::DeliverUdp { data, address, .. }) => {
            assert_eq!(data.as_slice(), b"data");
            assert!(address.same_as(&domain("dns.example", 53)));
        }
        _ => panic!("expected a packet"),
    }
    let other = metadata(&[0, 1, 2, 1, 2, 0, 80, 1, 9, 9, 9, 9], Some(b"data"));
    match sessions.step(frame(&other)) {
        Ok(MuxAction::DeliverUdp { address, .. }) => assert!(address
            .same_as(&Address::SocketAddress(SocketAddr::V4([9, 9, 9, 9], 80)))),
        _ => panic!("expected a packet"),
    }
    // Keep-alives and frames of other sessions change nothing.
    assert!(matches!(
        sessions.step(frame(&metadata(&[0, 1, 4, 0], None))),
        Ok(MuxAction::Nothing)
    ));
    assert!(matches!(
        sessions.step(frame(&metadata(&[0, 2, 3, 0], None))),
        Ok(MuxAction::Nothing)
    ));
    assert!(matches!(
        sessions.step(frame(&metadata(&[0, 1, 2, 0], None))),
        Ok(MuxAction::Nothing)
    ));
    // A session may be opened anew, as something else.
    assert!(sessions.step(frame(&open_frame(1, 80, "a", b""))).is_ok());
    assert!(matches!(
        sessions.step(frame(&keep)),
        Ok(MuxAction::DeliverTcp { session_id: 1, .. })
    ));
    assert!(matches!(
        sessions.step(frame(&metadata(&[0, 1, 3, 0], None))),
        Ok(MuxAction::Close { session_id: 1 })
    ));
    assert!(matches!(
        sessions.step(frame(&keep)),
        Ok(MuxAction::SendEnd { session_id: 1 })
    ));
    assert!(!sessions.delivery_failed(1));
    assert!(sessions.step(frame(&open_frame(1, 80, "a", b""))).is_ok());
    assert!(sessions.delivery_failed(1));
}

#[test]
fn sessions_refuse_what_they_do_not_know() {
    let mut sessions = MuxSessions::new();
    let mut untargeted = frame(&metadata(&[0, 1, 3, 0], None));
    untargeted.status = 1;
    assert!(matches!(
        sessions.step(untargeted),
        Err(VlessError::MuxTargetMissing)
    ));
    assert!(matches!(
        sessions.step(frame(&metadata(&[0, 1, 1, 0, 3, 0, 80, 1, 9, 9, 9, 9], None))),
        Err(VlessError::MuxNetwork)
    ));
    assert!(matches!(
        sessions.step(frame(&metadata(&[0, 1, 5, 0], None))),
        Err(VlessError::MuxStatus(5))
    ));
}

#[test]
fn chunks_are_read_in_pieces() {
    let mut buffer = MuxReadBuffer::new();
    assert!(buffer.read(4).is_none());
    buffer.store(Chunk::copy_from_slice(b"abcdef"));
    assert_eq!(buffer.read(4).unwrap(), b"abcd");
    assert_eq!(buffer.read(4).unwrap(), b"ef");
    assert!(buffer.read(4).is_none());

    let mut prefix = Prefix::new(b"abc".to_vec());
    assert_eq!(prefix.read(2).unwrap(), b"ab");
    assert_eq!(prefix.read(2).unwrap(), b"c");
    assert!(prefix.read(2).is_none());

    let mut chunk = Chunk::from_vec(b"abcdef".to_vec());
    let head = chunk.split_capacity(2);
    assert_eq!((head.as_slice(), chunk.as_slice()), (&b"ab"[..], &b"cdef"[..]));
    let all = chunk.split_capacity(9);
    assert_eq!(all.to_vec(), b"cdef");
    assert!(chunk.is_empty());
}

#[test]
fn stream_writes_go_through_the_queue() {
    let mut writer = MuxWriter::new(5);
    assert!(matches!(writer.start(b"", true), WriteStep::Done(0)));
    assert!(matches!(writer.start(b"x", true), WriteStep::Reset));
    match writer.start(b"data", false) {
        WriteStep::Offer(frame) => assert_eq!(frame.data.unwrap().as_slice(), b"data"),
        _ => panic!("expected a frame"),
    }
    assert!(matches!(writer.offered(SendOutcome::Sent, 4), WriteStep::Done(4)));
    assert!(matches!(writer.offered(SendOutcome::Closed, 4), WriteStep::Reset));
    assert!(matches!(writer.offered(SendOutcome::Full, 4), WriteStep::Wait));
    assert!(matches!(writer.start(b"data", false), WriteStep::Wait));
    assert!(matches!(writer.waited(true, b"data", false), WriteStep::Offer(_)));
    assert!(!writer.waiting);
    assert!(matches!(writer.waited(false, b"data", false), WriteStep::Reset));
    assert!(matches!(writer.flushed(true), WriteStep::Done(0)));
    assert!(matches!(writer.offered(SendOutcome::Full, 4), WriteStep::Wait));
    assert!(matches!(writer.flushed(false), WriteStep::Reset));
    assert!(matches!(writer.flushed(true), WriteStep::Done(0)));
    assert!(!writer.waiting);
    match writer.start(&vec![1; 70000], false) {
        WriteStep::Offer(frame) => assert_eq!(frame.data.unwrap().len(), 65535),
        _ => panic!("expected a frame"),
    }
}

#[test]
fn recognizes_the_sing_box_mux_destination() {
    assert!(is_sing_box_mux_destination(&Address::DomainNameAddress(
        "sp.mux.sing-box.arpa".into(),
        444
    )));
    assert!(!is_sing_box_mux_destination(&Address::DomainNameAddress(
        "example.com".into(),
        444
    )));
}

#[test]
fn mux_destinations_are_compared_without_case() {
    assert!(is_sing_box_mux_destination(&domain("SP.Mux.sing-box.ARPA", 444)));
    assert!(!is_sing_box_mux_destination(&domain("sp.mux.sing-box.arpa", 443)));
    assert!(!is_sing_box_mux_destination(&Address::SocketAddress(SocketAddr::V4([0; 4], 444))));
}

// Does what a write on a multiplexed TCP stream asks for, step by step.
fn write_stream(stream: &mut SingBoxMuxTcpStream, data: &[u8], sent: &mut Vec<u8>) {
    let mut step = stream.start();
    loop {
        match step {
            TcpWriteStep::Response => {
                sent.push(0);
                step = stream.response_taken(1);
            }
            TcpWriteStep::Data => {
                sent.extend_from_slice(data);
                return;
            }
            TcpWriteStep::Failed => panic!("expected the response to be taken"),
        }
    }
}

#[test]
fn accepts_a_sing_box_h2mux_tcp_stream() {
    assert_eq!(stream_status("CONNECT"), 200);
    assert_eq!(stream_status("GET"), 405);
    let mut header = vec![0, 0, Address::ADDR_TYPE_DOMAIN_NAME, 11];
    header.extend_from_slice(b"example.com");
    header.extend_from_slice(&443u16.to_be_bytes());
    match read_stream_header(&header) {
        Decoded::Done(StreamHeader::Tcp { destination }, used) => {
            assert!(destination.same_as(&domain("example.com", 443)));
            assert_eq!(used, header.len());
        }
        _ => panic!("expected a multiplexed TCP stream"),
    }
    let mut stream = SingBoxMuxTcpStream::new();
    let mut sent = Vec::new();
    write_stream(&mut stream, b"re", &mut sent);
    write_stream(&mut stream, b"ply", &mut sent);
    assert_eq!(sent, b"\0reply");
    assert!(matches!(SingBoxMuxTcpStream::new().response_taken(0), TcpWriteStep::Failed));
}

fn probe(bytes: &[u8]) -> (&'static str, Vec<u8>) {
    let mut probe = PrefaceProbe::new();
    for byte in bytes {
        match probe.next(ProbeEvent::Byte(*byte)) {
            ProbeStep::More => {}
            ProbeStep::Mux => return ("mux", probe.into_prefix()),
            ProbeStep::Direct => return ("direct", probe.into_prefix()),
        }
    }
    assert!(matches!(probe.next(ProbeEvent::TimedOut), ProbeStep::Direct));
    assert!(matches!(probe.next(ProbeEvent::Ended), ProbeStep::Direct));
    ("direct", probe.into_prefix())
}

#[test]
fn does_not_hijack_non_h2_traffic_to_mux_destination() {
    let payload = b"GET / HTTP/1.1\r\n";
    let (found, prefix) = probe(payload);
    assert_eq!(found, "direct");
    // What was read comes first again.
    let mut received = Prefix::new(prefix).read(16).unwrap();
    let rest = received.len();
    received.extend_from_slice(&payload[rest..]);
    assert_eq!(received, payload);

    let preface = b"PRI * HTTP/2.0\r\n\r\nSM\r\n\r\n";
    assert_eq!(probe(preface), ("mux", preface.to_vec()));
    assert_eq!(probe(b"PRI * HTTP/1.1"), ("direct", b"PRI * HTTP/1".to_vec()));
    assert_eq!(probe(b"PRI"), ("direct", b"PRI".to_vec()));
}

#[test]
fn sing_box_stream_headers_have_known_flags() {
    assert!(matches!(
        read_stream_header(&[0, 4]),
        Decoded::Fail(SingBoxError::UnsupportedFlags)
    ));
    assert!(matches!(
        read_stream_header(&[0, 3, 1, 9, 9, 9, 9, 0, 53]),
        Decoded::Done(StreamHeader::Udp { packet_addr: true, .. }, 9)
    ));
    assert!(matches!(
        read_stream_header(&[0, 1, 1, 9, 9, 9, 9, 0, 53]),
        Decoded::Done(StreamHeader::Udp { packet_addr: false, .. }, 9)
    ));
    assert!(matches!(
        read_stream_header(&[0, 2, 1, 9, 9, 9, 9, 0, 53]),
        Decoded::Done(StreamHeader::Tcp { .. }, 9)
    ));
    assert!(matches!(
        read_stream_header(&[0, 0, 2]),
        Decoded::Fail(SingBoxError::Address(AddressError::UnsupportedType(2)))
    ));
    assert_eq!(
        SingBoxError::UnsupportedFlags.message(),
        "unsupported sing-box mux flags"
    );
}

#[test]
fn sing_box_packets_are_read_back_as_written() {
    let address = Address::SocketAddress(SocketAddr::V4([9, 9, 9, 9], 53));
    let destination = domain("dns.example", 53);
    let mut writer = SingBoxMuxUdpWrite::new(true);
    let mut out = Vec::new();
    writer.write_to(b"one", &address, &mut out).unwrap();
    assert_eq!(out, b"\0\x01\x09\x09\x09\x09\0\x35\0\x03one");
    let start = out.len();
    writer.write_to(b"two", &domain("a.b", 1), &mut out).unwrap();
    match singbox_mux::read_udp_packet(&out[start..], &destination, true, 3) {
        Decoded::Done(packet, used) => {
            assert_eq!(packet.payload, b"two");
            assert!(packet.address.same_as(&domain("a.b", 1)));
            assert_eq!(start + used, out.len());
        }
        _ => panic!("expected a packet"),
    }
    match singbox_mux::read_udp_packet(b"\0\x02hi", &destination, false, 2) {
        Decoded::Done(packet, 4) => {
            assert_eq!(packet.payload, b"hi");
            assert!(packet.address.same_as(&destination));
        }
        _ => panic!("expected a packet"),
    }
    assert!(matches!(
        singbox_mux::read_udp_packet(b"\0\x02hi", &destination, false, 1),
        Decoded::Fail(SingBoxError::PacketTooLarge)
    ));
    assert!(matches!(
        writer.write_to(&vec![0; 65536], &address, &mut out),
        Err(SingBoxError::PacketLength)
    ));
    assert_eq!(
        writer
            .write_to(b"x", &domain(&"a".repeat(256), 1), &mut out)
            .unwrap_err()
            .message(),
        "domain name exceeds length limit"
    );
}
