//! sing-box multiplexing: HTTP/2 streams that each carry a connection.

use crate::protocol::address::{
    self, read_socks_address, write_socks_address, Address, AddressError, AddressView,
};
use crate::text::{self, eq_ignore_ascii_case, str_eq};
use crate::wire::{self, append, append_u16, copy_part, get_u16, Decoded, Progress};
use vstd::prelude::*;
use vstd::slice::*;
use vstd::string::*;
use vstd::utf8::*;

verus! {

pub const SING_BOX_MUX_PORT: u16 = 444;

pub const FLAG_UDP: u16 = 1;

pub const FLAG_PACKET_ADDR: u16 = 2;

/// Why a multiplexed stream is refused.
#[derive(Clone, Copy, Debug)]
pub enum SingBoxError {
    UnsupportedFlags,
    Address(AddressError),
    PacketTooLarge,
    PacketLength,
}

impl SingBoxError {
    /// The words of the error.
    pub open spec fn text(self) -> Seq<char> {
        match self {
            SingBoxError::UnsupportedFlags => "unsupported sing-box mux flags"@,
            SingBoxError::Address(AddressError::UnsupportedType(t)) => "unsupported address type "@
                + text::decimal_text(t as nat),
            SingBoxError::Address(AddressError::InvalidDomain) => "invalid domain name"@,
            SingBoxError::Address(AddressError::DomainTooLong) => {
                "domain name exceeds length limit"@
            },
            SingBoxError::PacketTooLarge => "sing-box UDP packet exceeds receive buffer"@,
            SingBoxError::PacketLength => "sing-box UDP packet exceeds length limit"@,
        }
    }

    /// The words of the error.
    pub fn message(&self) -> (r: String)
        ensures
            r@ == self.text(),
    {
        match *self {
            SingBoxError::UnsupportedFlags => "unsupported sing-box mux flags".to_string(),
            SingBoxError::Address(AddressError::UnsupportedType(t)) => text::numbered(
                "unsupported address type ",
                t as u64,
            ),
            SingBoxError::Address(AddressError::InvalidDomain) => {
                "invalid domain name".to_string()
            },
            SingBoxError::Address(AddressError::DomainTooLong) => {
                "domain name exceeds length limit".to_string()
            },
            SingBoxError::PacketTooLarge => {
                "sing-box UDP packet exceeds receive buffer".to_string()
            },
            SingBoxError::PacketLength => "sing-box UDP packet exceeds length limit".to_string(),
        }
    }
}

/// Whether an address asks for multiplexing.
pub open spec fn is_mux_destination(a: AddressView) -> bool {
    a matches AddressView::Domain(host, port) && port == SING_BOX_MUX_PORT
        && text::same_ignoring_case(host, "sp.mux.sing-box.arpa"@)
}

/// Whether an address asks for multiplexing.
pub fn is_sing_box_mux_destination(address: &Address) -> (r: bool)
    ensures
        r == is_mux_destination(address@),
{
    match address {
        Address::DomainNameAddress(host, port) => *port == SING_BOX_MUX_PORT
            && eq_ignore_ascii_case(host, "sp.mux.sing-box.arpa"),
        Address::SocketAddress(_) => false,
    }
}

/// The HTTP/2 connection preface: `PRI * HTTP/2.0\r\n\r\nSM\r\n\r\n`.
pub open spec fn h2_preface() -> Seq<u8> {
    seq![
        0x50u8, 0x52, 0x49, 0x20, 0x2a, 0x20, 0x48, 0x54, 0x54, 0x50, 0x2f, 0x32, 0x2e, 0x30, 0x0d,
        0x0a, 0x0d, 0x0a, 0x53, 0x4d, 0x0d, 0x0a, 0x0d, 0x0a,
    ]
}

fn preface_bytes() -> (r: [u8; 24])
    ensures
        r@ == h2_preface(),
{
    let r: [u8; 24] = [
        0x50, 0x52, 0x49, 0x20, 0x2a, 0x20, 0x48, 0x54, 0x54, 0x50, 0x2f, 0x32, 0x2e, 0x30, 0x0d,
        0x0a, 0x0d, 0x0a, 0x53, 0x4d, 0x0d, 0x0a, 0x0d, 0x0a,
    ];
    assert(r@ =~= h2_preface());
    r
}

/// How reading the next byte of a probe went.
pub enum ProbeEvent {
    Byte(u8),
    /// The connection ended.
    Ended,
    /// No byte came in time.
    TimedOut,
}

/// What a probe found.
pub enum ProbeStep {
    /// Read another byte.
    More,
    /// The connection speaks HTTP/2.
    Mux,
    /// It speaks something else.
    Direct,
}

/// Looks whether a connection starts with the HTTP/2 preface, byte by byte. Every byte that was
/// read is kept, to be read again by whoever gets the connection.
pub struct PrefaceProbe {
    prefix: Vec<u8>,
}

impl View for PrefaceProbe {
    type V = Seq<u8>;

    closed spec fn view(&self) -> Seq<u8> {
        self.prefix@
    }
}

/// Whether `p` can be the start of a preface that is not complete.
pub open spec fn is_partial_preface(p: Seq<u8>) -> bool {
    p.len() < h2_preface().len() && p == h2_preface().subrange(0, p.len() as int)
}

/// What the next event of a probe does to the bytes that were read, and what it finds.
pub open spec fn is_probe_step(
    before: Seq<u8>,
    after: Seq<u8>,
    event: ProbeEvent,
    step: ProbeStep,
) -> bool {
    match event {
        ProbeEvent::Byte(b) => {
            &&& after == before.push(b)
            &&& step == (if after == h2_preface() {
                ProbeStep::Mux
            } else if is_partial_preface(after) {
                ProbeStep::More
            } else {
                ProbeStep::Direct
            })
        },
        _ => after == before && step == ProbeStep::Direct,
    }
}

impl PrefaceProbe {
    pub fn new() -> (r: PrefaceProbe)
        ensures
            r@ == Seq::<u8>::empty(),
            is_partial_preface(r@),
    {
        let r = PrefaceProbe { prefix: Vec::new() };
        assert(h2_preface().subrange(0, 0) =~= Seq::empty());
        r
    }

    /// The next step of a probe.
    pub fn next(&mut self, event: ProbeEvent) -> (r: ProbeStep)
        requires
            is_partial_preface(old(self)@),
        ensures
            is_probe_step(old(self)@, final(self)@, event, r),
    {
        let b: u8 = match event {
            ProbeEvent::Byte(b) => b,
            ProbeEvent::Ended => return ProbeStep::Direct,
            ProbeEvent::TimedOut => return ProbeStep::Direct,
        };
        let preface: [u8; 24] = preface_bytes();
        let at: usize = self.prefix.len();
        let ghost before = self.prefix@;
        self.prefix.push(b);
        let ghost p = self.prefix@;
        if b != preface[at] {
            assert(p[at as int] != h2_preface()[at as int]);
            assert(h2_preface().subrange(0, p.len() as int)[at as int] == h2_preface()[at as int]);
            return ProbeStep::Direct;
        }
        assert(p =~= h2_preface().subrange(0, p.len() as int)) by {
            assert forall|i: int| 0 <= i < p.len() implies p[i] == h2_preface()[i] by {
                if i < at {
                    assert(before[i] == h2_preface().subrange(0, at as int)[i]);
                }
            }
        }
        if self.prefix.len() == 24 {
            assert(p =~= h2_preface());
            ProbeStep::Mux
        } else {
            ProbeStep::More
        }
    }

    /// The bytes that were read.
    pub fn into_prefix(self) -> (r: Vec<u8>)
        ensures
            r@ == self@,
    {
        self.prefix
    }
}

/// Status of the answer to an HTTP/2 request.
pub open spec fn status_of_method(method: Seq<char>) -> u16 {
    if method == "CONNECT"@ {
        200
    } else {
        405
    }
}

/// Status of the answer to an HTTP/2 request: only CONNECT opens a stream.
pub fn stream_status(method: &str) -> (r: u16)
    ensures
        r == status_of_method(method@),
{
    if str_eq(method, "CONNECT") {
        200
    } else {
        405
    }
}

/// What a multiplexed stream carries.
pub enum StreamHeader {
    Tcp { destination: Address },
    Udp { destination: Address, packet_addr: bool },
}

/// The mathematical content of a `StreamHeader`.
pub enum StreamHeaderView {
    Tcp { destination: AddressView },
    Udp { destination: AddressView, packet_addr: bool },
}

impl View for StreamHeader {
    type V = StreamHeaderView;

    open spec fn view(&self) -> StreamHeaderView {
        match *self {
            StreamHeader::Tcp { destination } => StreamHeaderView::Tcp {
                destination: destination@,
            },
            StreamHeader::Udp { destination, packet_addr } => StreamHeaderView::Udp {
                destination: destination@,
                packet_addr,
            },
        }
    }
}

/// What the flags of a stream and its destination say.
pub open spec fn header_of_flags(flags: int, destination: AddressView) -> StreamHeaderView {
    if flags % 2 == 0 {
        StreamHeaderView::Tcp { destination }
    } else {
        StreamHeaderView::Udp { destination, packet_addr: flags / 2 % 2 == 1 }
    }
}

/// What the start of a stream says: two bytes of flags, of which only the two lowest bits are
/// known, and a destination.
pub open spec fn stream_header(b: Seq<u8>) -> Progress<StreamHeaderView, SingBoxError> {
    if b.len() < 2 {
        Progress::Need(2 - b.len())
    } else if wire::u16_at(b, 0) > 3 {
        Progress::Fail(SingBoxError::UnsupportedFlags)
    } else {
        match address::socks_address(wire::after(b, 2)) {
            Progress::Need(more) => Progress::Need(more),
            Progress::Fail(error) => Progress::Fail(SingBoxError::Address(error)),
            Progress::Done(destination, used) => Progress::Done(
                header_of_flags(wire::u16_at(b, 0), destination),
                2 + used,
            ),
        }
    }
}

/// Reads what a stream carries off its start.
pub fn read_stream_header(b: &[u8]) -> (r: Decoded<StreamHeader, SingBoxError>)
    ensures
        r.progress() == stream_header(b@),
{
    let len: usize = b.len();
    if len < 2 {
        return Decoded::Need(2 - len);
    }
    let flags: u16 = get_u16(b, 0);
    assert((flags & !(1u16 | 2u16)) != 0 <==> flags > 3) by (bit_vector);
    assert((flags & 1) == 0 <==> flags % 2 == 0) by (bit_vector);
    assert((flags & 2) != 0 <==> flags / 2 % 2 == 1) by (bit_vector);
    if flags & !(FLAG_UDP | FLAG_PACKET_ADDR) != 0 {
        return Decoded::Fail(SingBoxError::UnsupportedFlags);
    }
    match read_socks_address(slice_subrange(b, 2, len)) {
        Decoded::Need(more) => Decoded::Need(more),
        Decoded::Fail(error) => Decoded::Fail(SingBoxError::Address(error)),
        Decoded::Done(destination, used) => {
            proof {
                address::lemma_socks_used(wire::after(b@, 2));
            }
            if flags & FLAG_UDP == 0 {
                Decoded::Done(StreamHeader::Tcp { destination }, 2 + used)
            } else {
                Decoded::Done(
                    StreamHeader::Udp { destination, packet_addr: flags & FLAG_PACKET_ADDR != 0 },
                    2 + used,
                )
            }
        },
    }
}

/// The flags of a stream.
pub open spec fn flags_of(h: StreamHeaderView) -> int {
    match h {
        StreamHeaderView::Tcp { .. } => 0,
        StreamHeaderView::Udp { packet_addr, .. } => if packet_addr {
            3
        } else {
            1
        },
    }
}

/// Where a stream goes.
pub open spec fn destination_of(h: StreamHeaderView) -> AddressView {
    match h {
        StreamHeaderView::Tcp { destination } => destination,
        StreamHeaderView::Udp { destination, .. } => destination,
    }
}

/// A stream as its start says it on the wire.
pub open spec fn header_on_wire(h: StreamHeaderView) -> StreamHeaderView {
    match h {
        StreamHeaderView::Tcp { destination } => StreamHeaderView::Tcp {
            destination: destination.on_wire(),
        },
        StreamHeaderView::Udp { destination, packet_addr } => StreamHeaderView::Udp {
            destination: destination.on_wire(),
            packet_addr,
        },
    }
}

/// The start of a stream as a client writes it is read back as it was, and takes exactly its
/// bytes.
pub proof fn lemma_stream_header_round_trip(h: StreamHeaderView, rest: Seq<u8>)
    requires
        destination_of(h).valid(),
        address::socks_form(destination_of(h)) is Some,
    ensures
        ({
            let form = wire::be16(flags_of(h)) + address::socks_form(destination_of(h))->0;
            stream_header(form + rest) == Progress::<_, SingBoxError>::Done(
                header_on_wire(h),
                form.len() as int,
            )
        }),
{
    let a = destination_of(h);
    let form = wire::be16(flags_of(h)) + address::socks_form(a)->0;
    let all = form + rest;
    address::lemma_socks_round_trip(a, rest);
    assert(wire::after(all, 2) =~= address::socks_form(a)->0 + rest);
    assert(wire::u16_at(all, 0) == flags_of(h));
}

/// A reader that asks for the missing bytes never asks for one behind the header, and what follows
/// the header does not change it.
pub proof fn lemma_stream_header_prefix(b: Seq<u8>, n: int)
    requires
        0 <= n <= b.len(),
        stream_header(b) is Done,
    ensures
        match stream_header(b.subrange(0, n)) {
            Progress::Need(more) => more > 0 && n + more <= stream_header(b)->1,
            Progress::Done(header, used) => stream_header(b) == Progress::<_, SingBoxError>::Done(
                header,
                used,
            ),
            Progress::Fail(_) => false,
        },
{
    let p = b.subrange(0, n);
    address::lemma_socks_used(wire::after(b, 2));
    if n >= 2 {
        assert(wire::after(p, 2) =~= wire::after(b, 2).subrange(0, n - 2));
        address::lemma_socks_prefix(wire::after(b, 2), n - 2);
    }
}

/// A packet: where it comes from or goes to, and its bytes.
pub struct UdpPacket {
    pub address: Address,
    pub payload: Vec<u8>,
}

/// The mathematical content of a `UdpPacket`.
pub struct UdpPacketView {
    pub address: AddressView,
    pub payload: Seq<u8>,
}

impl View for UdpPacket {
    type V = UdpPacketView;

    open spec fn view(&self) -> UdpPacketView {
        UdpPacketView { address: self.address@, payload: self.payload@ }
    }
}

/// The length and the bytes of a packet, behind `used` bytes of its address.
pub open spec fn packet_body(b: Seq<u8>, address: AddressView, used: int, room: int) -> Progress<
    UdpPacketView,
    SingBoxError,
> {
    if b.len() < used + 2 {
        Progress::Need(used + 2 - b.len())
    } else if wire::u16_at(b, used) > room {
        Progress::Fail(SingBoxError::PacketTooLarge)
    } else if b.len() < used + 2 + wire::u16_at(b, used) {
        Progress::Need(used + 2 + wire::u16_at(b, used) - b.len())
    } else {
        let end = used + 2 + wire::u16_at(b, used);
        Progress::Done(UdpPacketView { address, payload: b.subrange(used + 2, end) }, end)
    }
}

/// What the start of a byte stream says as a packet for a buffer of `room` bytes. Where packets
/// carry no address, it goes to the destination of the stream.
pub open spec fn udp_packet(
    b: Seq<u8>,
    destination: AddressView,
    packet_addr: bool,
    room: int,
) -> Progress<UdpPacketView, SingBoxError> {
    if packet_addr {
        match address::socks_address(b) {
            Progress::Need(more) => Progress::Need(more),
            Progress::Fail(error) => Progress::Fail(SingBoxError::Address(error)),
            Progress::Done(a, used) => packet_body(b, a, used, room),
        }
    } else {
        packet_body(b, destination, 0, room)
    }
}

fn read_packet_body(b: &[u8], address: Address, used: usize, room: usize) -> (r: Decoded<
    UdpPacket,
    SingBoxError,
>)
    requires
        used <= b@.len(),
        used <= 1000,
    ensures
        r.progress() == packet_body(b@, address@, used as int, room as int),
{
    let len: usize = b.len();
    if len < used + 2 {
        return Decoded::Need(used + 2 - len);
    }
    let size: usize = get_u16(b, used) as usize;
    if size > room {
        return Decoded::Fail(SingBoxError::PacketTooLarge);
    }
    if len < used + 2 + size {
        return Decoded::Need(used + 2 + size - len);
    }
    let end: usize = used + 2 + size;
    Decoded::Done(UdpPacket { address, payload: copy_part(b, used + 2, end) }, end)
}

/// Reads a packet off the start of a byte stream, for a buffer of `room` bytes.
pub fn read_udp_packet(b: &[u8], destination: &Address, packet_addr: bool, room: usize) -> (r:
    Decoded<UdpPacket, SingBoxError>)
    ensures
        r.progress() == udp_packet(b@, destination@, packet_addr, room as int),
{
    if packet_addr {
        match read_socks_address(b) {
            Decoded::Need(more) => Decoded::Need(more),
            Decoded::Fail(error) => Decoded::Fail(SingBoxError::Address(error)),
            Decoded::Done(a, used) => {
                proof {
                    address::lemma_socks_used(b@);
                }
                read_packet_body(b, a, used, room)
            },
        }
    } else {
        read_packet_body(b, destination.clone(), 0, room)
    }
}

/// The writing half of a multiplexed packet stream.
pub struct SingBoxMuxUdpWrite {
    pub packet_addr: bool,
    pub response_written: bool,
}

/// The response byte that comes before everything else a stream sends.
pub open spec fn response_byte(written: bool) -> Seq<u8> {
    if written {
        Seq::empty()
    } else {
        seq![0u8]
    }
}

/// Whether the response byte is written once a packet was.
pub open spec fn response_done(written: bool, payload: Seq<u8>) -> bool {
    written || payload.len() <= 65535
}

/// What writing a packet puts on the wire, and how it ends.
pub open spec fn packet_output(
    written: bool,
    packet_addr: bool,
    a: AddressView,
    payload: Seq<u8>,
) -> (Seq<u8>, Result<(), SingBoxError>) {
    if payload.len() > 65535 {
        (Seq::empty(), Err(SingBoxError::PacketLength))
    } else if packet_addr && address::socks_form(a) is None {
        (response_byte(written), Err(SingBoxError::Address(AddressError::DomainTooLong)))
    } else {
        (
            response_byte(written) + (if packet_addr {
                address::socks_form(a)->0
            } else {
                Seq::empty()
            }) + wire::be16(payload.len() as int) + payload,
            Ok(()),
        )
    }
}

impl SingBoxMuxUdpWrite {
    pub fn new(packet_addr: bool) -> (r: SingBoxMuxUdpWrite)
        ensures
            r.packet_addr == packet_addr,
            !r.response_written,
    {
        SingBoxMuxUdpWrite { packet_addr, response_written: false }
    }

    /// Appends a packet as it goes on the wire, behind the response byte if that is due.
    pub fn write_to(&mut self, payload: &[u8], address: &Address, out: &mut Vec<u8>) -> (r: Result<
        (),
        SingBoxError,
    >)
        ensures
            ({
                let output = packet_output(
                    old(self).response_written,
                    old(self).packet_addr,
                    address@,
                    payload@,
                );
                &&& r == output.1
                &&& final(out)@ == old(out)@ + output.0
            }),
            final(self).packet_addr == old(self).packet_addr,
            final(self).response_written == response_done(old(self).response_written, payload@),
    {
        let ghost start = out@;
        let ghost written = self.response_written;
        if payload.len() > 65535 {
            assert(out@ =~= start + Seq::<u8>::empty());
            return Err(SingBoxError::PacketLength);
        }
        if !self.response_written {
            out.push(0);
            self.response_written = true;
        }
        assert(out@ =~= start + response_byte(written));
        if self.packet_addr {
            match write_socks_address(out, address) {
                Ok(()) => {},
                Err(error) => return Err(SingBoxError::Address(error)),
            }
        }
        append_u16(out, payload.len() as u16);
        append(out, payload);
        assert(out@ =~= start + packet_output(
            written,
            self.packet_addr,
            address@,
            payload@,
        ).0);
        Ok(())
    }
}

/// A packet with an address is read back as it was written, and takes exactly its bytes.
pub proof fn lemma_packet_round_trip(
    a: AddressView,
    payload: Seq<u8>,
    destination: AddressView,
    packet_addr: bool,
    room: int,
    rest: Seq<u8>,
)
    requires
        a.valid(),
        packet_output(true, packet_addr, a, payload).1 is Ok,
        payload.len() <= room,
    ensures
        ({
            let bytes = packet_output(true, packet_addr, a, payload).0;
            udp_packet(bytes + rest, destination, packet_addr, room) == Progress::<
                _,
                SingBoxError,
            >::Done(
                UdpPacketView {
                    address: if packet_addr {
                        a.on_wire()
                    } else {
                        destination
                    },
                    payload,
                },
                bytes.len() as int,
            )
        }),
{
    let bytes = packet_output(true, packet_addr, a, payload).0;
    let all = bytes + rest;
    let form = if packet_addr {
        address::socks_form(a)->0
    } else {
        Seq::empty()
    };
    let n = form.len() as int;
    if packet_addr {
        let tail = wire::be16(payload.len() as int) + payload + rest;
        assert(all =~= form + tail);
        address::lemma_socks_round_trip(a, tail);
    }
    assert(all[n] == wire::be16(payload.len() as int)[0]);
    assert(all[n + 1] == wire::be16(payload.len() as int)[1]);
    assert(wire::u16_at(all, n) == payload.len());
    assert(all.subrange(n + 2, n + 2 + payload.len() as int) =~= payload);
}

/// What a write on a multiplexed TCP stream does next.
pub enum TcpWriteStep {
    /// Write the response byte first.
    Response,
    /// Write the data.
    Data,
    /// The response byte could not be written.
    Failed,
}

/// What a write starts with.
pub open spec fn write_start(written: bool) -> TcpWriteStep {
    if written {
        TcpWriteStep::Data
    } else {
        TcpWriteStep::Response
    }
}

/// Whether the response is written once `count` bytes of it were taken, and what follows.
pub open spec fn after_response(written: bool, count: int) -> (bool, TcpWriteStep) {
    (
        written || count == 1,
        if count == 1 {
            TcpWriteStep::Data
        } else {
            TcpWriteStep::Failed
        },
    )
}

/// The writing half of a multiplexed TCP stream: one response byte comes before the data.
pub struct SingBoxMuxTcpStream {
    pub response_written: bool,
}

impl SingBoxMuxTcpStream {
    pub fn new() -> (r: SingBoxMuxTcpStream)
        ensures
            !r.response_written,
    {
        SingBoxMuxTcpStream { response_written: false }
    }

    /// What a write starts with.
    pub fn start(&self) -> (r: TcpWriteStep)
        ensures
            r == write_start(self.response_written),
    {
        if self.response_written {
            TcpWriteStep::Data
        } else {
            TcpWriteStep::Response
        }
    }

    /// What follows when `count` bytes of the response were taken.
    pub fn response_taken(&mut self, count: usize) -> (r: TcpWriteStep)
        ensures
            (final(self).response_written, r) == after_response(
                old(self).response_written,
                count as int,
            ),
    {
        if count == 1 {
            self.response_written = true;
            TcpWriteStep::Data
        } else {
            TcpWriteStep::Failed
        }
    }
}

/// Multiplexing is asked for by one name, in whatever case, with port 444, and by nothing else.
pub proof fn lemma_mux_destinations(host: Seq<char>, port: u16, octets: Seq<u8>)
    ensures
        is_mux_destination(AddressView::Domain(host, port)) <==> port == 444 && text::lowercase(host)
            == text::lowercase("sp.mux.sing-box.arpa"@),
        !is_mux_destination(AddressView::V4(octets, port)),
        !is_mux_destination(AddressView::V6(octets, port, 0, 0)),
{
}

/// The preface is the text that every HTTP/2 connection starts with.
pub proof fn lemma_preface_text()
    ensures
        h2_preface() == encode_utf8("PRI * HTTP/2.0\r\n\r\nSM\r\n\r\n"@),
{
    let chars = "PRI * HTTP/2.0\r\n\r\nSM\r\n\r\n"@;
    reveal_strlit("PRI * HTTP/2.0\r\n\r\nSM\r\n\r\n");
    assert forall|i: int| 0 <= i < chars.len() implies 0 <= #[trigger] chars[i] as int <= 127 by {}
    is_ascii_chars_encode_utf8(chars);
    let bytes = encode_utf8(chars);
    assert forall|i: int| 0 <= i < h2_preface().len() implies h2_preface()[i] == bytes[i] by {
        assert(bytes[i] == chars[i] as u8);
    }
    assert(h2_preface() =~= bytes);
}

/// A probe goes on as long as every byte is the next one of the preface, finds HTTP/2 with the last
/// of them, and something else at the first other byte or when no byte comes. It keeps every byte.
pub proof fn lemma_probe_finds_the_preface(
    n: int,
    after: Seq<u8>,
    event: ProbeEvent,
    step: ProbeStep,
)
    requires
        0 <= n < 24,
        is_probe_step(h2_preface().subrange(0, n), after, event, step),
    ensures
        event matches ProbeEvent::Byte(b) ==> {
            &&& after == h2_preface().subrange(0, n) + seq![b]
            &&& b != h2_preface()[n] <==> step is Direct
            &&& b == h2_preface()[n] && n == 23 <==> step is Mux
            &&& b == h2_preface()[n] && n < 23 <==> step is More
        },
        !(event is Byte) ==> step is Direct && after == h2_preface().subrange(0, n),
{
    let before = h2_preface().subrange(0, n);
    if let ProbeEvent::Byte(b) = event {
        assert(before.push(b) =~= before + seq![b]);
        assert(after[n] == b);
        if b == h2_preface()[n] {
            assert(after =~= h2_preface().subrange(0, n + 1));
            if n == 23 {
                assert(after =~= h2_preface());
            }
        } else {
            if is_partial_preface(after) {
                assert(h2_preface().subrange(0, n + 1)[n] == h2_preface()[n]);
            }
        }
    }
}

/// Only CONNECT, in capitals, opens a stream; any other method is not allowed.
pub proof fn lemma_only_connect_opens_a_stream(method: Seq<char>)
    ensures
        method == "CONNECT"@ <==> status_of_method(method) == 200,
        method != "CONNECT"@ <==> status_of_method(method) == 405,
{
}

/// The start of a stream as it is written: two bytes of flags and an address. The lowest bit says
/// whether it carries packets, the next whether these carry addresses; with any other bit it is
/// refused.
pub proof fn lemma_written_streams_are_read(high: u8, low: u8, a: AddressView, rest: Seq<u8>)
    requires
        a.valid(),
        address::socks_form(a) is Some,
    ensures
        ({
            let form = seq![high, low] + address::written_address(a);
            let n = form.len() as int;
            let r = stream_header(form + rest);
            let to = a.on_wire();
            &&& high == 0 && (low == 0 || low == 2) ==> r == Progress::<_, SingBoxError>::Done(
                StreamHeaderView::Tcp { destination: to },
                n,
            )
            &&& high == 0 && low == 1 ==> r == Progress::<_, SingBoxError>::Done(
                StreamHeaderView::Udp { destination: to, packet_addr: false },
                n,
            )
            &&& high == 0 && low == 3 ==> r == Progress::<_, SingBoxError>::Done(
                StreamHeaderView::Udp { destination: to, packet_addr: true },
                n,
            )
            &&& high > 0 || low > 3 ==> r == Progress::<StreamHeaderView, _>::Fail(
                SingBoxError::UnsupportedFlags,
            )
        }),
{
    let bytes = address::written_address(a);
    let all = seq![high, low] + bytes + rest;
    address::lemma_written_addresses_are_read(a, rest);
    assert(wire::after(all, 2) =~= bytes + rest);
    assert(wire::u16_at(all, 0) == high * 256 + low);
}

/// A packet as it is written: its address where packets carry one, its length, high byte first, and
/// its bytes. The response byte 0 comes before the first one and before no other.
pub proof fn lemma_written_packets(
    written: bool,
    packet_addr: bool,
    a: AddressView,
    payload: Seq<u8>,
)
    requires
        a.valid(),
        payload.len() <= 65535,
        address::socks_form(a) is Some,
    ensures
        packet_output(true, packet_addr, a, payload) == (
            (if packet_addr {
                address::written_address(a)
            } else {
                Seq::empty()
            }) + seq![(payload.len() as int / 256) as u8, (payload.len() as int % 256) as u8]
                + payload,
            Ok::<(), SingBoxError>(()),
        ),
        packet_output(false, packet_addr, a, payload) == (
            seq![0u8] + packet_output(true, packet_addr, a, payload).0,
            Ok::<(), SingBoxError>(()),
        ),
        response_done(written, payload),
{
    address::lemma_written_addresses_are_read(a, Seq::empty());
    let with = packet_output(true, packet_addr, a, payload).0;
    assert(with =~= (if packet_addr {
        address::written_address(a)
    } else {
        Seq::empty()
    }) + seq![(payload.len() as int / 256) as u8, (payload.len() as int % 256) as u8] + payload);
    assert(packet_output(false, packet_addr, a, payload).0 =~= seq![0u8] + with);
}

/// A packet that is too long writes nothing at all, and leaves the response byte to the next one.
/// One that does not fit the buffer of the reader is refused.
pub proof fn lemma_packets_have_limits(
    written: bool,
    packet_addr: bool,
    a: AddressView,
    payload: Seq<u8>,
    b: Seq<u8>,
    room: int,
)
    ensures
        payload.len() > 65535 ==> packet_output(written, packet_addr, a, payload) == (
            Seq::<u8>::empty(),
            Err::<(), _>(SingBoxError::PacketLength),
        ) && response_done(written, payload) == written,
        packet_output(written, false, a, payload).1 is Ok <==> payload.len() <= 65535,
        b.len() >= 2 && b[0] * 256 + b[1] > room ==> udp_packet(b, a, false, room) == Progress::<
            UdpPacketView,
            _,
        >::Fail(SingBoxError::PacketTooLarge),
{
}

/// The response byte of a TCP stream comes before the data, once: a write starts with it until it
/// was taken, and with the data from then on.
pub proof fn lemma_response_comes_once(written: bool, count: int)
    ensures
        write_start(false) is Response,
        after_response(written, 1).1 is Data,
        write_start(after_response(written, 1).0) is Data,
        count != 1 ==> after_response(written, count).1 is Failed && after_response(
            written,
            count,
        ).0 == written,
        write_start(true) is Data,
{
}

/// The start of a stream that is not complete is asked for by its flags and then by its address; a
/// packet by its address, its length, and then all of it.
pub proof fn lemma_missing_bytes(b: Seq<u8>, destination: AddressView, room: int)
    ensures
        b.len() < 2 ==> stream_header(b) == Progress::<StreamHeaderView, SingBoxError>::Need(
            2 - b.len(),
        ),
        b.len() >= 2 && b[0] == 0 && b[1] <= 3 ==> match address::socks_address(wire::after(b, 2)) {
            Progress::Need(n) => stream_header(b) == Progress::<
                StreamHeaderView,
                SingBoxError,
            >::Need(n),
            Progress::Fail(e) => stream_header(b) == Progress::<StreamHeaderView, _>::Fail(
                SingBoxError::Address(e),
            ),
            Progress::Done(_, _) => stream_header(b) is Done,
        },
        b.len() < 2 ==> udp_packet(b, destination, false, room) == Progress::<
            UdpPacketView,
            SingBoxError,
        >::Need(2 - b.len()),
        b.len() >= 2 && b[0] * 256 + b[1] <= room && b.len() < 2 + b[0] * 256 + b[1] ==> udp_packet(
            b,
            destination,
            false,
            room,
        ) == Progress::<UdpPacketView, SingBoxError>::Need(2 + b[0] * 256 + b[1] - b.len()),
        match address::socks_address(b) {
            Progress::Need(n) => udp_packet(b, destination, true, room) == Progress::<
                UdpPacketView,
                SingBoxError,
            >::Need(n),
            Progress::Fail(e) => udp_packet(b, destination, true, room) == Progress::<
                UdpPacketView,
                _,
            >::Fail(SingBoxError::Address(e)),
            Progress::Done(_, used) => b.len() < used + 2 ==> udp_packet(b, destination, true, room)
                == Progress::<UdpPacketView, SingBoxError>::Need(used + 2 - b.len()),
        },
{
}

} // verus!
