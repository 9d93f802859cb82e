//! The Trojan protocol: request header and UDP packets.

pub mod acceptor;

use crate::protocol::address::{
    self, read_socks_address, write_socks_address, Address, AddressError, AddressView,
};
use crate::text::{self, numbered};
use crate::wire::{self, append, append_u16, copy_part, get_u16, same, Decoded, Progress};
use vstd::prelude::*;
use vstd::slice::*;
use vstd::string::*;

verus! {

/// Length of a password hash in hexadecimal.
pub const HASH_STR_LEN: usize = 56;

pub const CMD_TCP_CONNECT: u8 = 0x01;

pub const CMD_UDP_ASSOCIATE: u8 = 0x03;

/// Why Trojan traffic is refused.
#[derive(Clone, Copy, Debug)]
pub enum TrojanError {
    ShortFirstPacket,
    InvalidHash,
    MissingLineBreak,
    UnsupportedCommand(u8),
    Address(AddressError),
    PacketTooLarge,
    PacketLength,
}

impl TrojanError {
    /// The words of the error.
    pub open spec fn text(self) -> Seq<char> {
        match self {
            TrojanError::ShortFirstPacket => "first packet too short"@,
            TrojanError::InvalidHash => "invalid password hash"@,
            TrojanError::MissingLineBreak => "missing line break"@,
            TrojanError::UnsupportedCommand(c) => "unsupported command "@ + text::decimal_text(
                c as nat,
            ),
            TrojanError::Address(AddressError::UnsupportedType(t)) => "unsupported address type "@
                + text::decimal_text(t as nat),
            TrojanError::Address(AddressError::InvalidDomain) => "invalid domain name"@,
            TrojanError::Address(AddressError::DomainTooLong) => {
                "domain name exceeds length limit"@
            },
            TrojanError::PacketTooLarge => "UDP packet exceeds receive buffer"@,
            TrojanError::PacketLength => "UDP packet exceeds length limit"@,
        }
    }

    /// The words of the error.
    pub fn message(&self) -> (r: String)
        ensures
            r@ == self.text(),
    {
        match *self {
            TrojanError::ShortFirstPacket => "first packet too short".to_string(),
            TrojanError::InvalidHash => "invalid password hash".to_string(),
            TrojanError::MissingLineBreak => "missing line break".to_string(),
            TrojanError::UnsupportedCommand(c) => numbered("unsupported command ", c as u64),
            TrojanError::Address(AddressError::UnsupportedType(t)) => numbered(
                "unsupported address type ",
                t as u64,
            ),
            TrojanError::Address(AddressError::InvalidDomain) => "invalid domain name".to_string(),
            TrojanError::Address(AddressError::DomainTooLong) => {
                "domain name exceeds length limit".to_string()
            },
            TrojanError::PacketTooLarge => "UDP packet exceeds receive buffer".to_string(),
            TrojanError::PacketLength => "UDP packet exceeds length limit".to_string(),
        }
    }
}

/// What a client asks for.
pub enum RequestHeader {
    TcpConnect(Address),
    UdpAssociate(Address),
}

/// The mathematical content of a `RequestHeader`.
pub enum RequestView {
    TcpConnect(AddressView),
    UdpAssociate(AddressView),
}

impl RequestView {
    /// The request as it goes on the wire.
    pub open spec fn on_wire(self) -> RequestView {
        match self {
            RequestView::TcpConnect(a) => RequestView::TcpConnect(a.on_wire()),
            RequestView::UdpAssociate(a) => RequestView::UdpAssociate(a.on_wire()),
        }
    }
}

impl View for RequestHeader {
    type V = RequestView;

    open spec fn view(&self) -> RequestView {
        match *self {
            RequestHeader::TcpConnect(address) => RequestView::TcpConnect(address@),
            RequestHeader::UdpAssociate(address) => RequestView::UdpAssociate(address@),
        }
    }
}

/// A line break.
pub open spec fn crlf() -> Seq<u8> {
    seq![13u8, 10u8]
}

/// Whether a line break stands at byte `i`.
pub open spec fn has_crlf(b: Seq<u8>, i: int) -> bool {
    b[i] == 13 && b[i + 1] == 10
}

/// What the start of a byte stream says as a Trojan request: the hash, a line break, a command, an
/// address and a line break.
pub open spec fn trojan_request(b: Seq<u8>, valid_hash: Seq<u8>) -> Progress<
    RequestView,
    TrojanError,
> {
    if b.len() < 56 {
        Progress::Need(56 - b.len())
    } else if b.subrange(0, 56) != valid_hash {
        Progress::Fail(TrojanError::InvalidHash)
    } else if b.len() < 59 {
        Progress::Need(59 - b.len())
    } else if !has_crlf(b, 56) {
        Progress::Fail(TrojanError::MissingLineBreak)
    } else if b[58] != CMD_TCP_CONNECT && b[58] != CMD_UDP_ASSOCIATE {
        Progress::Fail(TrojanError::UnsupportedCommand(b[58]))
    } else {
        match address::socks_address(wire::after(b, 59)) {
            Progress::Need(more) => Progress::Need(more),
            Progress::Fail(error) => Progress::Fail(TrojanError::Address(error)),
            Progress::Done(a, used) => if b.len() < 61 + used {
                Progress::Need(61 + used - b.len())
            } else if !has_crlf(b, 59 + used) {
                Progress::Fail(TrojanError::MissingLineBreak)
            } else {
                Progress::Done(
                    if b[58] == CMD_TCP_CONNECT {
                        RequestView::TcpConnect(a)
                    } else {
                        RequestView::UdpAssociate(a)
                    },
                    61 + used,
                )
            },
        }
    }
}

impl RequestHeader {
    /// Reads a request off the start of a byte stream.
    pub fn read_from(b: &[u8], valid_hash: &[u8]) -> (r: Decoded<Self, TrojanError>)
        ensures
            r.progress() == trojan_request(b@, valid_hash@),
    {
        let len: usize = b.len();
        if len < 56 {
            return Decoded::Need(56 - len);
        }
        if !same(slice_subrange(b, 0, 56), valid_hash) {
            return Decoded::Fail(TrojanError::InvalidHash);
        }
        if len < 59 {
            return Decoded::Need(59 - len);
        }
        if b[56] != 13 || b[57] != 10 {
            return Decoded::Fail(TrojanError::MissingLineBreak);
        }
        let command: u8 = b[58];
        if command != CMD_TCP_CONNECT && command != CMD_UDP_ASSOCIATE {
            return Decoded::Fail(TrojanError::UnsupportedCommand(command));
        }
        match read_socks_address(slice_subrange(b, 59, len)) {
            Decoded::Need(more) => Decoded::Need(more),
            Decoded::Fail(error) => Decoded::Fail(TrojanError::Address(error)),
            Decoded::Done(a, used) => {
                proof {
                    address::lemma_socks_used(wire::after(b@, 59));
                }
                if len < 61 + used {
                    return Decoded::Need(61 + used - len);
                }
                if b[59 + used] != 13 || b[60 + used] != 10 {
                    return Decoded::Fail(TrojanError::MissingLineBreak);
                }
                if command == CMD_TCP_CONNECT {
                    Decoded::Done(RequestHeader::TcpConnect(a), 61 + used)
                } else {
                    Decoded::Done(RequestHeader::UdpAssociate(a), 61 + used)
                }
            },
        }
    }
}

/// A request as a client writes it.
pub open spec fn request_form(hash: Seq<u8>, command: u8, address: Seq<u8>) -> Seq<u8> {
    hash + crlf() + seq![command] + address + crlf()
}

/// A request with the right hash is read back as it was written and takes exactly its bytes.
pub proof fn lemma_request_round_trip(hash: Seq<u8>, request: RequestView, rest: Seq<u8>)
    requires
        hash.len() == 56,
        match request {
            RequestView::TcpConnect(a) => a.valid() && address::socks_form(a) is Some,
            RequestView::UdpAssociate(a) => a.valid() && address::socks_form(a) is Some,
        },
    ensures
        ({
            let form = match request {
                RequestView::TcpConnect(a) => request_form(
                    hash,
                    CMD_TCP_CONNECT,
                    address::socks_form(a)->0,
                ),
                RequestView::UdpAssociate(a) => request_form(
                    hash,
                    CMD_UDP_ASSOCIATE,
                    address::socks_form(a)->0,
                ),
            };
            trojan_request(form + rest, hash) == Progress::<_, TrojanError>::Done(
                request.on_wire(),
                form.len() as int,
            )
        }),
{
    let (command, a) = match request {
        RequestView::TcpConnect(a) => (CMD_TCP_CONNECT, a),
        RequestView::UdpAssociate(a) => (CMD_UDP_ASSOCIATE, a),
    };
    let bytes = address::socks_form(a)->0;
    let all = request_form(hash, command, bytes) + rest;
    let tail = crlf() + rest;
    assert(all.subrange(0, 56) =~= hash);
    assert(wire::after(all, 59) =~= bytes + tail);
    address::lemma_socks_round_trip(a, tail);
    let n = bytes.len() as int;
    assert(all[59 + n] == 13 && all[60 + n] == 10);
}

/// A wrong hash is refused as soon as it is complete, whatever follows.
pub proof fn lemma_wrong_hash_is_refused(b: Seq<u8>, valid_hash: Seq<u8>)
    requires
        b.len() >= 56,
        b.subrange(0, 56) != valid_hash,
    ensures
        trojan_request(b, valid_hash) == Progress::<RequestView, _>::Fail(TrojanError::InvalidHash),
{
}

/// A reader that asks for the missing bytes never asks for one of the payload behind the request,
/// and the payload does not change what is read.
pub proof fn lemma_request_prefix(b: Seq<u8>, valid_hash: Seq<u8>, n: int)
    requires
        0 <= n <= b.len(),
        trojan_request(b, valid_hash) is Done,
    ensures
        match trojan_request(b.subrange(0, n), valid_hash) {
            Progress::Need(more) => more > 0 && n + more <= trojan_request(b, valid_hash)->1,
            Progress::Done(r, used) => trojan_request(b, valid_hash) == Progress::<
                _,
                TrojanError,
            >::Done(r, used),
            Progress::Fail(_) => false,
        },
{
    let p = b.subrange(0, n);
    address::lemma_socks_used(wire::after(b, 59));
    if n >= 56 {
        assert(p.subrange(0, 56) =~= b.subrange(0, 56));
    }
    if n >= 59 {
        assert(wire::after(p, 59) =~= wire::after(b, 59).subrange(0, n - 59));
        address::lemma_socks_prefix(wire::after(b, 59), n - 59);
    }
}

/// A packet: where it comes from or goes to, and its bytes.
pub struct UdpPacket {
    pub address: Address,
    pub payload: Vec<u8>,
}

/// The mathematical content of a `UdpPacket`.
pub struct UdpPacketView {
    pub address: AddressView,
    pub payload: Seq<u8>,
}

impl View for UdpPacket {
    type V = UdpPacketView;

    open spec fn view(&self) -> UdpPacketView {
        UdpPacketView { address: self.address@, payload: self.payload@ }
    }
}

/// What the start of a byte stream says as a packet for a buffer of `room` bytes: an address, a
/// length, a line break and the payload.
pub open spec fn udp_packet(b: Seq<u8>, room: int) -> Progress<UdpPacketView, TrojanError> {
    match address::socks_address(b) {
        Progress::Need(more) => Progress::Need(more),
        Progress::Fail(error) => Progress::Fail(TrojanError::Address(error)),
        Progress::Done(a, used) => if b.len() < used + 4 {
            Progress::Need(used + 4 - b.len())
        } else if wire::u16_at(b, used) > room {
            Progress::Fail(TrojanError::PacketTooLarge)
        } else if !has_crlf(b, used + 2) {
            Progress::Fail(TrojanError::MissingLineBreak)
        } else {
            let end = used + 4 + wire::u16_at(b, used);
            if b.len() < end {
                Progress::Need(end - b.len())
            } else {
                Progress::Done(
                    UdpPacketView { address: a, payload: b.subrange(used + 4, end) },
                    end,
                )
            }
        },
    }
}

/// Reads a packet off the start of a byte stream, for a buffer of `room` bytes.
pub fn read_udp_packet(b: &[u8], room: usize) -> (r: Decoded<UdpPacket, TrojanError>)
    ensures
        r.progress() == udp_packet(b@, room as int),
{
    match read_socks_address(b) {
        Decoded::Need(more) => Decoded::Need(more),
        Decoded::Fail(error) => Decoded::Fail(TrojanError::Address(error)),
        Decoded::Done(address, used) => {
            proof {
                address::lemma_socks_used(b@);
            }
            let len: usize = b.len();
            if len < used + 4 {
                return Decoded::Need(used + 4 - len);
            }
            let size: usize = get_u16(b, used) as usize;
            if size > room {
                return Decoded::Fail(TrojanError::PacketTooLarge);
            }
            if b[used + 2] != 13 || b[used + 3] != 10 {
                return Decoded::Fail(TrojanError::MissingLineBreak);
            }
            let end: usize = used + 4 + size;
            if len < end {
                return Decoded::Need(end - len);
            }
            Decoded::Done(UdpPacket { address, payload: copy_part(b, used + 4, end) }, end)
        },
    }
}

/// A packet on the wire.
pub open spec fn udp_form(address: Seq<u8>, payload: Seq<u8>) -> Seq<u8> {
    address + wire::be16(payload.len() as int) + crlf() + payload
}

/// What writing a packet puts on the wire; a packet or a domain that is too long is refused.
pub open spec fn udp_output(payload: Seq<u8>, a: AddressView) -> Result<Seq<u8>, TrojanError> {
    if payload.len() > 65535 {
        Err(TrojanError::PacketLength)
    } else {
        match address::socks_form(a) {
            Some(bytes) => Ok(udp_form(bytes, payload)),
            None => Err(TrojanError::Address(AddressError::DomainTooLong)),
        }
    }
}

/// A packet as it goes on the wire.
pub fn write_udp_packet(payload: &[u8], address: &Address) -> (r: Result<Vec<u8>, TrojanError>)
    ensures
        match r {
            Ok(out) => udp_output(payload@, address@) == Ok::<_, TrojanError>(out@),
            Err(error) => udp_output(payload@, address@) == Err::<Seq<u8>, _>(error),
        },
{
    if payload.len() > 65535 {
        return Err(TrojanError::PacketLength);
    }
    let mut out: Vec<u8> = Vec::new();
    match write_socks_address(&mut out, address) {
        Ok(()) => {},
        Err(error) => return Err(TrojanError::Address(error)),
    }
    append_u16(&mut out, payload.len() as u16);
    out.push(13);
    out.push(10);
    append(&mut out, payload);
    assert(out@ =~= udp_form(address::socks_form(address@)->0, payload@));
    Ok(out)
}

/// A packet is read back as it was written, and takes exactly its bytes.
pub proof fn lemma_udp_round_trip(a: AddressView, payload: Seq<u8>, rest: Seq<u8>, room: int)
    requires
        a.valid(),
        address::socks_form(a) is Some,
        payload.len() <= 65535,
        payload.len() <= room,
    ensures
        ({
            let form = udp_form(address::socks_form(a)->0, payload);
            udp_packet(form + rest, room) == Progress::<_, TrojanError>::Done(
                UdpPacketView { address: a.on_wire(), payload },
                form.len() as int,
            )
        }),
{
    let bytes = address::socks_form(a)->0;
    let all = udp_form(bytes, payload) + rest;
    let n = bytes.len() as int;
    let tail = wire::be16(payload.len() as int) + crlf() + payload + rest;
    assert(all =~= bytes + tail);
    address::lemma_socks_round_trip(a, tail);
    assert(all[n] == tail[0] && all[n + 1] == tail[1] && all[n + 2] == tail[2] && all[n + 3]
        == tail[3]);
    assert(wire::u16_at(all, n) == payload.len());
    assert(all.subrange(n + 4, n + 4 + payload.len() as int) =~= payload);
}

/// The same of a packet: nothing is asked for behind it, and nothing behind it changes it.
pub proof fn lemma_udp_prefix(b: Seq<u8>, room: int, n: int)
    requires
        0 <= n <= b.len(),
        udp_packet(b, room) is Done,
    ensures
        match udp_packet(b.subrange(0, n), room) {
            Progress::Need(more) => more > 0 && n + more <= udp_packet(b, room)->1,
            Progress::Done(packet, used) => udp_packet(b, room) == Progress::<_, TrojanError>::Done(
                packet,
                used,
            ),
            Progress::Fail(_) => false,
        },
{
    let p = b.subrange(0, n);
    address::lemma_socks_used(b);
    address::lemma_socks_prefix(b, n);
    let used = address::socks_address(b)->1;
    let end = used + 4 + wire::u16_at(b, used);
    if n >= end {
        assert(p.subrange(used + 4, end) =~= b.subrange(used + 4, end));
    }
}

/// A request as a client writes it: the hash, a line break, command 1 for TCP or 3 for UDP, the
/// address and a line break. It is read back as it was written, whatever follows.
pub proof fn lemma_written_requests_are_read(hash: Seq<u8>, a: AddressView, rest: Seq<u8>)
    requires
        hash.len() == 56,
        a.valid(),
        address::socks_form(a) is Some,
    ensures
        ({
            let bytes = address::written_address(a);
            let n = 61 + bytes.len() as int;
            &&& trojan_request(hash + seq![13u8, 10, 1] + bytes + seq![13u8, 10] + rest, hash)
                == Progress::<_, TrojanError>::Done(RequestView::TcpConnect(a.on_wire()), n)
            &&& trojan_request(hash + seq![13u8, 10, 3] + bytes + seq![13u8, 10] + rest, hash)
                == Progress::<_, TrojanError>::Done(RequestView::UdpAssociate(a.on_wire()), n)
        }),
{
    address::lemma_written_addresses_are_read(a, rest);
    let bytes = address::written_address(a);
    lemma_request_round_trip(hash, RequestView::TcpConnect(a), rest);
    lemma_request_round_trip(hash, RequestView::UdpAssociate(a), rest);
    assert(request_form(hash, CMD_TCP_CONNECT, bytes) + rest =~= hash + seq![13u8, 10, 1] + bytes
        + seq![13u8, 10] + rest);
    assert(request_form(hash, CMD_UDP_ASSOCIATE, bytes) + rest =~= hash + seq![13u8, 10, 3] + bytes
        + seq![13u8, 10] + rest);
}

/// Behind the right hash a line break has to follow, then one of the two commands, then an address
/// and again a line break.
pub proof fn lemma_bad_requests_are_refused(
    hash: Seq<u8>,
    x: u8,
    y: u8,
    command: u8,
    a: AddressView,
    rest: Seq<u8>,
)
    requires
        hash.len() == 56,
        a.valid(),
        address::socks_form(a) is Some,
    ensures
        !(x == 13 && y == 10) ==> trojan_request(hash + seq![x, y, command] + rest, hash)
            == Progress::<RequestView, _>::Fail(TrojanError::MissingLineBreak),
        command != 1 && command != 3 ==> trojan_request(
            hash + seq![13u8, 10, command] + rest,
            hash,
        ) == Progress::<RequestView, _>::Fail(TrojanError::UnsupportedCommand(command)),
        (command == 1 || command == 3) && !(x == 13 && y == 10) ==> trojan_request(
            hash + seq![13u8, 10, command] + address::written_address(a) + seq![x, y] + rest,
            hash,
        ) == Progress::<RequestView, _>::Fail(TrojanError::MissingLineBreak),
{
    let first = hash + seq![x, y, command] + rest;
    assert(first.subrange(0, 56) =~= hash);
    assert(first[56] == x && first[57] == y && first[58] == command);
    let second = hash + seq![13u8, 10, command] + rest;
    assert(second.subrange(0, 56) =~= hash);
    assert(second[56] == 13 && second[57] == 10 && second[58] == command);
    let bytes = address::written_address(a);
    let tail = seq![x, y] + rest;
    let third = hash + seq![13u8, 10, command] + bytes + seq![x, y] + rest;
    assert(third.subrange(0, 56) =~= hash);
    assert(third[56] == 13 && third[57] == 10 && third[58] == command);
    assert(wire::after(third, 59) =~= bytes + tail);
    address::lemma_written_addresses_are_read(a, tail);
    let n = bytes.len() as int;
    assert(third[59 + n] == x && third[60 + n] == y);
}

/// A packet as it is written: address, length, high byte first, a line break and the payload. It is
/// read back as it was written where the buffer has room, and refused where it has not.
pub proof fn lemma_written_packets_are_read(
    a: AddressView,
    payload: Seq<u8>,
    rest: Seq<u8>,
    room: int,
)
    requires
        a.valid(),
        address::socks_form(a) is Some,
        payload.len() <= 65535,
    ensures
        ({
            let form = address::written_address(a) + seq![
                (payload.len() as int / 256) as u8,
                (payload.len() as int % 256) as u8,
                13u8,
                10u8,
            ] + payload;
            &&& form == udp_form(address::socks_form(a)->0, payload)
            &&& payload.len() <= room ==> udp_packet(form + rest, room) == Progress::<
                _,
                TrojanError,
            >::Done(UdpPacketView { address: a.on_wire(), payload }, form.len() as int)
            &&& payload.len() > room ==> udp_packet(form + rest, room) == Progress::<
                UdpPacketView,
                _,
            >::Fail(TrojanError::PacketTooLarge)
        }),
{
    address::lemma_written_addresses_are_read(a, rest);
    let bytes = address::written_address(a);
    let form = bytes + seq![
        (payload.len() as int / 256) as u8,
        (payload.len() as int % 256) as u8,
        13u8,
        10u8,
    ] + payload;
    assert(form =~= udp_form(bytes, payload));
    if payload.len() <= room {
        lemma_udp_round_trip(a, payload, rest, room);
    } else {
        let all = form + rest;
        let n = bytes.len() as int;
        let tail = wire::after(form, n) + rest;
        assert(all =~= bytes + tail);
        address::lemma_written_addresses_are_read(a, tail);
        assert(wire::u16_at(all, n) == payload.len());
    }
}

/// A request that is read takes no more bytes than there are.
pub proof fn lemma_request_done_is_whole(b: Seq<u8>, valid_hash: Seq<u8>)
    requires
        trojan_request(b, valid_hash) is Done,
    ensures
        61 < trojan_request(b, valid_hash)->1 <= b.len(),
{
    address::lemma_socks_used(wire::after(b, 59));
}

/// Every packet whose length fits into two bytes can be written to every address that has a form,
/// and is read back as it was.
pub proof fn lemma_packets_that_can_be_written(
    payload: Seq<u8>,
    a: AddressView,
    rest: Seq<u8>,
    room: int,
)
    requires
        a.valid(),
        payload.len() <= room,
    ensures
        udp_output(payload, a) is Ok <==> payload.len() < 65536 && address::socks_form(a) is Some,
        payload.len() >= 65536 ==> udp_output(payload, a) == Err::<Seq<u8>, _>(
            TrojanError::PacketLength,
        ),
        udp_output(payload, a) matches Ok(bytes) ==> udp_packet(bytes + rest, room) == Progress::<
            _,
            TrojanError,
        >::Done(UdpPacketView { address: a.on_wire(), payload }, bytes.len() as int),
{
    if payload.len() < 65536 && address::socks_form(a) is Some {
        lemma_udp_round_trip(a, payload, rest, room);
    }
}

/// A request that is not complete is asked for up to the end of what is known of it: the hash, line
/// break and command, the address, and the last line break.
pub proof fn lemma_missing_bytes_of_a_request(b: Seq<u8>, hash: Seq<u8>)
    requires
        hash.len() == 56,
    ensures
        b.len() < 56 ==> trojan_request(b, hash) == Progress::<RequestView, TrojanError>::Need(
            56 - b.len(),
        ),
        56 <= b.len() < 59 && b.subrange(0, 56) == hash ==> trojan_request(b, hash) == Progress::<
            RequestView,
            TrojanError,
        >::Need(59 - b.len()),
        b.len() >= 59 && b.subrange(0, 56) == hash && b[56] == 13 && b[57] == 10 && (b[58] == 1
            || b[58] == 3) ==> match address::socks_address(wire::after(b, 59)) {
            Progress::Need(n) => trojan_request(b, hash) == Progress::<
                RequestView,
                TrojanError,
            >::Need(n),
            Progress::Fail(e) => trojan_request(b, hash) == Progress::<RequestView, _>::Fail(
                TrojanError::Address(e),
            ),
            Progress::Done(_, used) => b.len() < 61 + used ==> trojan_request(b, hash)
                == Progress::<RequestView, TrojanError>::Need(61 + used - b.len()),
        },
{
}

/// A packet that is not complete is asked for in the same way, and refused when its line break is
/// not one.
pub proof fn lemma_missing_bytes_of_a_packet(
    a: AddressView,
    high: u8,
    low: u8,
    x: u8,
    y: u8,
    rest: Seq<u8>,
    room: int,
)
    requires
        a.valid(),
        address::socks_form(a) is Some,
        high * 256 + low <= room,
    ensures
        ({
            let bytes = address::written_address(a);
            let n = high * 256 + low;
            let b = bytes + seq![high, low, x, y] + rest;
            &&& !(x == 13 && y == 10) ==> udp_packet(b, room) == Progress::<UdpPacketView, _>::Fail(
                TrojanError::MissingLineBreak,
            )
            &&& x == 13 && y == 10 && rest.len() < n ==> udp_packet(b, room) == Progress::<
                UdpPacketView,
                TrojanError,
            >::Need(n - rest.len())
            &&& udp_packet(bytes, room) == Progress::<UdpPacketView, TrojanError>::Need(4)
        }),
{
    let bytes = address::written_address(a);
    let k = bytes.len() as int;
    let b = bytes + seq![high, low, x, y] + rest;
    let tail = seq![high, low, x, y] + rest;
    assert(b =~= bytes + tail);
    address::lemma_written_addresses_are_read(a, tail);
    address::lemma_written_addresses_are_read(a, Seq::empty());
    assert(bytes + Seq::<u8>::empty() =~= bytes);
    assert(b[k] == high && b[k + 1] == low && b[k + 2] == x && b[k + 3] == y);
    assert(wire::u16_at(b, k) == high * 256 + low);
}

} // verus!
