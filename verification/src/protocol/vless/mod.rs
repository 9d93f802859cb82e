//! The VLESS protocol: request header, addresses and UDP packets.

pub mod acceptor;
pub mod mux_cool;

use crate::protocol::address::{domain_text, Address, AddressView, SocketAddr};
use crate::protocol::hostname::{self, hostname};
use crate::text::{self, numbered};
use crate::wire::{
    self, append, append_u16, array_at, copy_part, get_u16, Decoded, Progress,
};
use vstd::prelude::*;
use vstd::slice::*;
use vstd::string::*;
use vstd::utf8::*;

verus! {

pub const VERSION: u8 = 0;

pub const COMMAND_TCP: u8 = 0x01;

pub const COMMAND_UDP: u8 = 0x02;

pub const COMMAND_MUX: u8 = 0x03;

pub const ADDRESS_IPV4: u8 = 0x01;

pub const ADDRESS_DOMAIN: u8 = 0x02;

pub const ADDRESS_IPV6: u8 = 0x03;

/// Why VLESS traffic is refused.
#[derive(Clone, Copy, Debug)]
pub enum VlessError {
    UnsupportedVersion(u8),
    InvalidUser,
    UnsupportedCommand(u8),
    EmptyDomain,
    InvalidDomain,
    UnsupportedAddressType(u8),
    UdpPacketTooLarge(usize),
    UdpPacketLength,
    HeaderTimedOut,
    MuxDataLength,
    MuxDomainLength,
    MuxMetadataLength(usize),
    MuxTargetShort,
    MuxIpv4Short,
    MuxDomainShort,
    MuxDomainInvalid,
    MuxIpv6Short,
    MuxAddressType(u8),
    MuxTargetMissing,
    MuxNetwork,
    MuxStatus(u8),
    MuxUdpPacketTooLarge(usize),
    MuxUdpPacketLength,
}

impl VlessError {
    /// The words of the error.
    pub open spec fn text(self) -> Seq<char> {
        match self {
            VlessError::UnsupportedVersion(v) => "vless: unsupported version "@
                + text::decimal_text(v as nat),
            VlessError::InvalidUser => "vless: invalid user id"@,
            VlessError::UnsupportedCommand(c) => "vless: unsupported command "@
                + text::decimal_text(c as nat),
            VlessError::EmptyDomain => "vless: empty domain name"@,
            VlessError::InvalidDomain => "vless: invalid domain name"@,
            VlessError::UnsupportedAddressType(t) => "vless: unsupported address type "@
                + text::decimal_text(t as nat),
            VlessError::UdpPacketTooLarge(n) => "vless: UDP packet of "@ + text::decimal_text(
                n as nat,
            ) + " bytes exceeds receive buffer"@,
            VlessError::UdpPacketLength => "vless: UDP packet exceeds VLESS length limit"@,
            VlessError::HeaderTimedOut => "vless: request header timed out"@,
            VlessError::MuxDataLength => "vless: Mux.Cool data exceeds length limit"@,
            VlessError::MuxDomainLength => "vless: Mux.Cool domain exceeds length limit"@,
            VlessError::MuxMetadataLength(n) => "vless: invalid Mux.Cool metadata length "@
                + text::decimal_text(n as nat),
            VlessError::MuxTargetShort => "vless: insufficient Mux.Cool target metadata"@,
            VlessError::MuxIpv4Short => "vless: short Mux.Cool IPv4 address"@,
            VlessError::MuxDomainShort => "vless: short Mux.Cool domain address"@,
            VlessError::MuxDomainInvalid => "vless: invalid Mux.Cool domain address"@,
            VlessError::MuxIpv6Short => "vless: short Mux.Cool IPv6 address"@,
            VlessError::MuxAddressType(t) => "vless: unsupported Mux.Cool address type "@
                + text::decimal_text(t as nat),
            VlessError::MuxTargetMissing => "vless: Mux.Cool new stream missing target"@,
            VlessError::MuxNetwork => "vless: unsupported Mux.Cool network"@,
            VlessError::MuxStatus(s) => "vless: unknown Mux.Cool status "@ + text::decimal_text(
                s as nat,
            ),
            VlessError::MuxUdpPacketTooLarge(n) => "vless: Mux.Cool UDP packet of "@
                + text::decimal_text(n as nat) + " bytes exceeds receive buffer"@,
            VlessError::MuxUdpPacketLength => "vless: Mux.Cool UDP packet exceeds length limit"@,
        }
    }

    /// The words of the error.
    pub fn message(&self) -> (r: String)
        ensures
            r@ == self.text(),
    {
        match *self {
            VlessError::UnsupportedVersion(v) => numbered("vless: unsupported version ", v as u64),
            VlessError::InvalidUser => "vless: invalid user id".to_string(),
            VlessError::UnsupportedCommand(c) => numbered("vless: unsupported command ", c as u64),
            VlessError::EmptyDomain => "vless: empty domain name".to_string(),
            VlessError::InvalidDomain => "vless: invalid domain name".to_string(),
            VlessError::UnsupportedAddressType(t) => numbered(
                "vless: unsupported address type ",
                t as u64,
            ),
            VlessError::UdpPacketTooLarge(n) => numbered("vless: UDP packet of ", n as u64).concat(
                " bytes exceeds receive buffer",
            ),
            VlessError::UdpPacketLength => "vless: UDP packet exceeds VLESS length limit".to_string(),
            VlessError::HeaderTimedOut => "vless: request header timed out".to_string(),
            VlessError::MuxDataLength => "vless: Mux.Cool data exceeds length limit".to_string(),
            VlessError::MuxDomainLength => "vless: Mux.Cool domain exceeds length limit".to_string(),
            VlessError::MuxMetadataLength(n) => numbered(
                "vless: invalid Mux.Cool metadata length ",
                n as u64,
            ),
            VlessError::MuxTargetShort => "vless: insufficient Mux.Cool target metadata".to_string(),
            VlessError::MuxIpv4Short => "vless: short Mux.Cool IPv4 address".to_string(),
            VlessError::MuxDomainShort => "vless: short Mux.Cool domain address".to_string(),
            VlessError::MuxDomainInvalid => "vless: invalid Mux.Cool domain address".to_string(),
            VlessError::MuxIpv6Short => "vless: short Mux.Cool IPv6 address".to_string(),
            VlessError::MuxAddressType(t) => numbered(
                "vless: unsupported Mux.Cool address type ",
                t as u64,
            ),
            VlessError::MuxTargetMissing => "vless: Mux.Cool new stream missing target".to_string(),
            VlessError::MuxNetwork => "vless: unsupported Mux.Cool network".to_string(),
            VlessError::MuxStatus(s) => numbered("vless: unknown Mux.Cool status ", s as u64),
            VlessError::MuxUdpPacketTooLarge(n) => numbered(
                "vless: Mux.Cool UDP packet of ",
                n as u64,
            ).concat(" bytes exceeds receive buffer"),
            VlessError::MuxUdpPacketLength => {
                "vless: Mux.Cool UDP packet exceeds length limit".to_string()
            },
        }
    }
}

/// What a client asks for.
pub enum RequestHeader {
    Tcp(Address),
    Udp(Address),
    Mux,
}

/// The mathematical content of a `RequestHeader`.
pub enum RequestView {
    Tcp(AddressView),
    Udp(AddressView),
    Mux,
}

impl RequestView {
    /// The request as it goes on the wire.
    pub open spec fn on_wire(self) -> RequestView {
        match self {
            RequestView::Tcp(a) => RequestView::Tcp(a.on_wire()),
            RequestView::Udp(a) => RequestView::Udp(a.on_wire()),
            RequestView::Mux => RequestView::Mux,
        }
    }
}

impl View for RequestHeader {
    type V = RequestView;

    open spec fn view(&self) -> RequestView {
        match *self {
            RequestHeader::Tcp(address) => RequestView::Tcp(address@),
            RequestHeader::Udp(address) => RequestView::Udp(address@),
            RequestHeader::Mux => RequestView::Mux,
        }
    }
}

/// Whether `candidate` agrees with `user` on every byte that both have.
pub open spec fn agrees(user: Seq<u8>, candidate: Seq<u8>) -> bool {
    forall|i: int| 0 <= i < user.len() && i < candidate.len() ==> user[i] == candidate[i]
}

/// Whether `candidate` is one of the users.
pub open spec fn is_user(users: Seq<[u8; 16]>, candidate: Seq<u8>) -> bool {
    exists|k: int| 0 <= k < users.len() && agrees(#[trigger] users[k]@, candidate)
}

/// What the start of a byte stream says as a VLESS address, port first.
pub open spec fn vless_address(b: Seq<u8>) -> Progress<AddressView, VlessError> {
    if b.len() < 3 {
        Progress::Need(3 - b.len())
    } else {
        let port = wire::u16_at(b, 0) as u16;
        if b[2] == ADDRESS_IPV4 {
            if b.len() < 7 {
                Progress::Need(7 - b.len())
            } else {
                Progress::Done(AddressView::V4(b.subrange(3, 7), port), 7)
            }
        } else if b[2] == ADDRESS_DOMAIN {
            if b.len() < 4 {
                Progress::Need(1)
            } else if b[3] == 0 {
                Progress::Fail(VlessError::EmptyDomain)
            } else if b.len() < 4 + b[3] {
                Progress::Need(4 + b[3] - b.len())
            } else {
                let name = b.subrange(4, 4 + b[3]);
                if valid_utf8(name) && hostname::is_hostname(decode_utf8(name), true) {
                    Progress::Done(AddressView::Domain(decode_utf8(name), port), 4 + b[3])
                } else {
                    Progress::Fail(VlessError::InvalidDomain)
                }
            }
        } else if b[2] == ADDRESS_IPV6 {
            if b.len() < 19 {
                Progress::Need(19 - b.len())
            } else {
                Progress::Done(AddressView::V6(b.subrange(3, 19), port, 0, 0), 19)
            }
        } else {
            Progress::Fail(VlessError::UnsupportedAddressType(b[2]))
        }
    }
}

/// What the start of a byte stream says as a VLESS request.
pub open spec fn vless_request(b: Seq<u8>, users: Seq<[u8; 16]>) -> Progress<
    RequestView,
    VlessError,
> {
    if b.len() < 18 {
        Progress::Need(18 - b.len())
    } else if b[0] != VERSION {
        Progress::Fail(VlessError::UnsupportedVersion(b[0]))
    } else if !is_user(users, b.subrange(1, 17)) {
        Progress::Fail(VlessError::InvalidUser)
    } else {
        // The addons are skipped.
        let at = 18 + b[17];
        if b.len() < at + 1 {
            Progress::Need(at + 1 - b.len())
        } else if b[at] == COMMAND_MUX {
            Progress::Done(RequestView::Mux, at + 1)
        } else if b[at] != COMMAND_TCP && b[at] != COMMAND_UDP {
            Progress::Fail(VlessError::UnsupportedCommand(b[at]))
        } else {
            match vless_address(wire::after(b, at + 1)) {
                Progress::Need(more) => Progress::Need(more),
                Progress::Fail(error) => Progress::Fail(error),
                Progress::Done(address, used) => Progress::Done(
                    if b[at] == COMMAND_TCP {
                        RequestView::Tcp(address)
                    } else {
                        RequestView::Udp(address)
                    },
                    at + 1 + used,
                ),
            }
        }
    }
}

/// The VLESS form of an address; a domain that is no host name of 1 to 253 bytes has none.
pub open spec fn vless_form(a: AddressView) -> Option<Seq<u8>> {
    match a {
        AddressView::V4(octets, port) => Some(
            wire::be16(port as int) + seq![ADDRESS_IPV4] + octets,
        ),
        AddressView::V6(octets, port, _, _) => Some(
            wire::be16(port as int) + seq![ADDRESS_IPV6] + octets,
        ),
        AddressView::Domain(domain, port) => {
            let bytes = encode_utf8(domain);
            if hostname::is_hostname(domain, true) && bytes.len() <= 255 {
                Some(wire::be16(port as int) + seq![ADDRESS_DOMAIN, bytes.len() as u8] + bytes)
            } else {
                None
            }
        },
    }
}

/// The command and the address of a request.
pub open spec fn command_form(r: RequestView) -> Option<Seq<u8>> {
    match r {
        RequestView::Mux => Some(seq![COMMAND_MUX]),
        RequestView::Tcp(a) => match vless_form(a) {
            Some(bytes) => Some(seq![COMMAND_TCP] + bytes),
            None => None,
        },
        RequestView::Udp(a) => match vless_form(a) {
            Some(bytes) => Some(seq![COMMAND_UDP] + bytes),
            None => None,
        },
    }
}

/// A request as a client writes it.
pub open spec fn request_form(user: Seq<u8>, addons: Seq<u8>, command: Seq<u8>) -> Seq<u8> {
    seq![VERSION] + user + seq![addons.len() as u8] + addons + command
}

proof fn lemma_ascii_encoding(s: Seq<char>)
    requires
        is_ascii_chars(s),
    ensures
        encode_utf8(s).len() == s.len(),
{
    is_ascii_chars_encode_utf8(s);
}

proof fn lemma_hostname_ascii(s: Seq<char>, underscore: bool)
    requires
        hostname::is_hostname(s, underscore),
    ensures
        is_ascii_chars(s),
{
    let all = text::segments(s, '.');
    assert forall|k: int| 0 <= k < s.len() implies 0 <= #[trigger] s[k] as int <= 127 by {
        if s[k] != '.' {
            text::lemma_segments_cover(s, '.', k);
            let (i, j) = choose|i: int, j: int|
                0 <= i < all.len() && 0 <= j < #[trigger] all[i].len() && #[trigger] all[i][j] == s[k];
            assert(hostname::is_label(all[i], underscore));
            assert(hostname::is_label_char(all[i][j], underscore));
        }
    }
}

/// A host name has a VLESS form: its encoding takes one byte per character.
pub proof fn lemma_hostname_has_form(domain: Seq<char>, port: u16)
    requires
        hostname::is_hostname(domain, true),
    ensures
        vless_form(AddressView::Domain(domain, port)) is Some,
{
    lemma_hostname_ascii(domain, true);
    lemma_ascii_encoding(domain);
}

/// Reading back what was written gives what of the address goes on the wire, and takes exactly its
/// bytes.
pub proof fn lemma_vless_address_round_trip(a: AddressView, rest: Seq<u8>)
    requires
        a.valid(),
        vless_form(a) is Some,
    ensures
        vless_address(vless_form(a)->0 + rest) == Progress::<_, VlessError>::Done(
            a.on_wire(),
            vless_form(a)->0.len() as int,
        ),
{
    let all = vless_form(a)->0 + rest;
    match a {
        AddressView::V4(octets, port) => {
            assert(all.subrange(3, 7) =~= octets);
        },
        AddressView::V6(octets, port, _, _) => {
            assert(all.subrange(3, 19) =~= octets);
        },
        AddressView::Domain(domain, port) => {
            let name = encode_utf8(domain);
            encode_utf8_valid_utf8(domain);
            encode_utf8_decode_utf8(domain);
            lemma_hostname_ascii(domain, true);
            lemma_ascii_encoding(domain);
            assert(all.subrange(4, 4 + name.len() as int) =~= name);
        },
    }
}

/// A request of a known user is read back as it was written, whatever its addons, and takes
/// exactly its bytes.
pub proof fn lemma_request_round_trip(
    users: Seq<[u8; 16]>,
    k: int,
    addons: Seq<u8>,
    request: RequestView,
    rest: Seq<u8>,
)
    requires
        0 <= k < users.len(),
        addons.len() <= 255,
        match request {
            RequestView::Tcp(a) => a.valid(),
            RequestView::Udp(a) => a.valid(),
            RequestView::Mux => true,
        },
        command_form(request) is Some,
    ensures
        vless_request(
            request_form(users[k]@, addons, command_form(request)->0) + rest,
            users,
        ) == Progress::<_, VlessError>::Done(
            request.on_wire(),
            request_form(users[k]@, addons, command_form(request)->0).len() as int,
        ),
{
    let command = command_form(request)->0;
    let all = request_form(users[k]@, addons, command) + rest;
    assert(all.subrange(1, 17) =~= users[k]@);
    assert(agrees(users[k]@, all.subrange(1, 17)));
    let at = 18 + addons.len() as int;
    assert(all[17] == addons.len());
    assert(all[at] == command[0]);
    match request {
        RequestView::Mux => {},
        RequestView::Tcp(a) => {
            assert(wire::after(all, at + 1) =~= vless_form(a)->0 + rest);
            lemma_vless_address_round_trip(a, rest);
        },
        RequestView::Udp(a) => {
            assert(wire::after(all, at + 1) =~= vless_form(a)->0 + rest);
            lemma_vless_address_round_trip(a, rest);
        },
    }
}

/// Only the version and a configured user get past the first 18 bytes.
pub proof fn lemma_request_is_authenticated(b: Seq<u8>, users: Seq<[u8; 16]>)
    requires
        vless_request(b, users) is Done,
    ensures
        b[0] == VERSION,
        exists|k: int| 0 <= k < users.len() && #[trigger] users[k]@ == b.subrange(1, 17),
{
    let id = b.subrange(1, 17);
    let k = choose|k: int| 0 <= k < users.len() && agrees(#[trigger] users[k]@, id);
    assert(users[k]@ =~= id);
}

/// A reader that asks for the missing bytes never asks for more than the address takes, and
/// bytes behind the address do not change it.
pub proof fn lemma_vless_address_prefix(b: Seq<u8>, n: int)
    requires
        0 <= n <= b.len(),
        vless_address(b) is Done,
    ensures
        match vless_address(b.subrange(0, n)) {
            Progress::Need(more) => more > 0 && n + more <= vless_address(b)->1,
            Progress::Done(a, used) => vless_address(b) == Progress::<_, VlessError>::Done(a, used),
            Progress::Fail(_) => false,
        },
{
    let p = b.subrange(0, n);
    if n >= 4 && b[2] == ADDRESS_DOMAIN && n >= 4 + b[3] {
        assert(p.subrange(4, 4 + b[3]) =~= b.subrange(4, 4 + b[3]));
    }
    if n >= 7 && b[2] == ADDRESS_IPV4 {
        assert(p.subrange(3, 7) =~= b.subrange(3, 7));
    }
    if n >= 19 && b[2] == ADDRESS_IPV6 {
        assert(p.subrange(3, 19) =~= b.subrange(3, 19));
    }
}

/// The same of a whole request: no byte of the payload behind it is ever asked for.
pub proof fn lemma_request_prefix(b: Seq<u8>, users: Seq<[u8; 16]>, n: int)
    requires
        0 <= n <= b.len(),
        vless_request(b, users) is Done,
    ensures
        match vless_request(b.subrange(0, n), users) {
            Progress::Need(more) => more > 0 && n + more <= vless_request(b, users)->1,
            Progress::Done(r, used) => vless_request(b, users) == Progress::<_, VlessError>::Done(
                r,
                used,
            ),
            Progress::Fail(_) => false,
        },
{
    let p = b.subrange(0, n);
    if n >= 18 {
        assert(p.subrange(1, 17) =~= b.subrange(1, 17));
        let at = 18 + b[17];
        if n >= at + 1 && (b[at] == COMMAND_TCP || b[at] == COMMAND_UDP) {
            assert(wire::after(p, at + 1) =~= wire::after(b, at + 1).subrange(0, n - at - 1));
            lemma_vless_address_prefix(wire::after(b, at + 1), n - at - 1);
        }
    }
}

/// Whether `candidate` is one of the users, looking at every byte of every user.
pub fn contains_user(valid_users: &[[u8; 16]], candidate: &[u8]) -> (r: bool)
    ensures
        r == is_user(valid_users@, candidate@),
{
    let mut any_match: u8 = 0;
    let shared: usize = if candidate.len() < 16 {
        candidate.len()
    } else {
        16
    };
    for k in 0..valid_users.len()
        invariant
            shared <= 16,
            shared == candidate@.len() || (shared == 16 && candidate@.len() > 16),
            (any_match != 0) == (exists|j: int|
                0 <= j < k && agrees(#[trigger] valid_users@[j]@, candidate@)),
    {
        let mut difference: u8 = 0;
        let ghost user = valid_users@[k as int]@;
        for i in 0..shared
            invariant
                user == valid_users@[k as int]@,
                k < valid_users@.len(),
                shared <= 16,
                shared <= candidate@.len(),
                (difference == 0) == (forall|j: int|
                    0 <= j < i ==> #[trigger] user[j] == candidate@[j]),
        {
            let expected: u8 = valid_users[k][i];
            let actual: u8 = candidate[i];
            let before: u8 = difference;
            difference = difference | (expected ^ actual);
            assert((before | (expected ^ actual)) == 0 <==> before == 0 && expected == actual)
                by (bit_vector);
            assert(user[i as int] == expected);
        }
        let is_match: u8 = if difference == 0 {
            1
        } else {
            0
        };
        let before: u8 = any_match;
        assert((is_match != 0) == agrees(user, candidate@));
        assert((before | is_match) != 0 <==> before != 0 || is_match != 0) by (bit_vector);
        any_match = any_match | is_match;
    }
    any_match != 0
}

/// Whether a domain name in a request is acceptable.
pub fn is_compatible_domain_name(domain: &str) -> (r: bool)
    ensures
        r == hostname::is_hostname(domain@, true),
{
    hostname(domain, true)
}

/// Reads a VLESS address off the start of a byte stream.
pub fn read_address(b: &[u8]) -> (r: Decoded<Address, VlessError>)
    ensures
        r.progress() == vless_address(b@),
{
    let len: usize = b.len();
    if len < 3 {
        return Decoded::Need(3 - len);
    }
    let port: u16 = get_u16(b, 0);
    let kind: u8 = b[2];
    if kind == ADDRESS_IPV4 {
        if len < 7 {
            return Decoded::Need(7 - len);
        }
        let octets: [u8; 4] = array_at::<4>(b, 3);
        return Decoded::Done(Address::SocketAddress(SocketAddr::V4(octets, port)), 7);
    }
    if kind == ADDRESS_DOMAIN {
        if len < 4 {
            return Decoded::Need(1);
        }
        let size: usize = b[3] as usize;
        if size == 0 {
            return Decoded::Fail(VlessError::EmptyDomain);
        }
        if len < 4 + size {
            return Decoded::Need(4 + size - len);
        }
        return match domain_text(slice_subrange(b, 4, 4 + size)) {
            Some(domain) => {
                if is_compatible_domain_name(&domain) {
                    Decoded::Done(Address::DomainNameAddress(domain, port), 4 + size)
                } else {
                    Decoded::Fail(VlessError::InvalidDomain)
                }
            },
            None => Decoded::Fail(VlessError::InvalidDomain),
        };
    }
    if kind == ADDRESS_IPV6 {
        if len < 19 {
            return Decoded::Need(19 - len);
        }
        let octets: [u8; 16] = array_at::<16>(b, 3);
        return Decoded::Done(Address::SocketAddress(SocketAddr::V6(octets, port, 0, 0)), 19);
    }
    Decoded::Fail(VlessError::UnsupportedAddressType(kind))
}

impl RequestHeader {
    /// Reads a request off the start of a byte stream.
    pub fn read_from(b: &[u8], valid_users: &[[u8; 16]]) -> (r: Decoded<Self, VlessError>)
        ensures
            r.progress() == vless_request(b@, valid_users@),
    {
        let len: usize = b.len();
        if len < 18 {
            return Decoded::Need(18 - len);
        }
        if b[0] != VERSION {
            return Decoded::Fail(VlessError::UnsupportedVersion(b[0]));
        }
        if !contains_user(valid_users, slice_subrange(b, 1, 17)) {
            return Decoded::Fail(VlessError::InvalidUser);
        }
        let at: usize = 18 + b[17] as usize;
        if len < at + 1 {
            return Decoded::Need(at + 1 - len);
        }
        let command: u8 = b[at];
        if command == COMMAND_MUX {
            return Decoded::Done(RequestHeader::Mux, at + 1);
        }
        if command != COMMAND_TCP && command != COMMAND_UDP {
            return Decoded::Fail(VlessError::UnsupportedCommand(command));
        }
        match read_address(slice_subrange(b, at + 1, len)) {
            Decoded::Need(more) => Decoded::Need(more),
            Decoded::Fail(error) => Decoded::Fail(error),
            Decoded::Done(address, used) => {
                proof {
                    lemma_vless_address_used(wire::after(b@, at + 1));
                }
                let total: usize = at + 1 + used;
                if command == COMMAND_TCP {
                    Decoded::Done(RequestHeader::Tcp(address), total)
                } else {
                    Decoded::Done(RequestHeader::Udp(address), total)
                }
            },
        }
    }
}

proof fn lemma_vless_address_used(b: Seq<u8>)
    requires
        vless_address(b) is Done,
    ensures
        0 <= vless_address(b)->1 <= b.len(),
        vless_address(b)->1 <= 4 + 255,
{
}

/// A UDP packet and where it goes.
pub struct UdpPacket {
    pub address: Address,
    pub payload: Vec<u8>,
}

/// The mathematical content of a `UdpPacket`.
pub struct UdpPacketView {
    pub address: AddressView,
    pub payload: Seq<u8>,
}

impl View for UdpPacket {
    type V = UdpPacketView;

    open spec fn view(&self) -> UdpPacketView {
        UdpPacketView { address: self.address@, payload: self.payload@ }
    }
}

/// What the start of a byte stream says as a UDP packet to `address`, for a buffer of `room` bytes.
pub open spec fn vless_udp_packet(b: Seq<u8>, address: AddressView, room: int) -> Progress<
    UdpPacketView,
    VlessError,
> {
    if b.len() < 2 {
        Progress::Need(2 - b.len())
    } else if wire::u16_at(b, 0) > room {
        Progress::Fail(VlessError::UdpPacketTooLarge(wire::u16_at(b, 0) as usize))
    } else if b.len() < 2 + wire::u16_at(b, 0) {
        Progress::Need(2 + wire::u16_at(b, 0) - b.len())
    } else {
        Progress::Done(
            UdpPacketView { address, payload: b.subrange(2, 2 + wire::u16_at(b, 0)) },
            2 + wire::u16_at(b, 0),
        )
    }
}

/// A UDP packet on the wire: its length, then its bytes.
pub open spec fn vless_udp_form(payload: Seq<u8>) -> Seq<u8> {
    wire::be16(payload.len() as int) + payload
}

/// Reading back what was written gives the payload, with the address of the stream, and takes
/// exactly its bytes.
pub proof fn lemma_udp_round_trip(
    payload: Seq<u8>,
    address: AddressView,
    rest: Seq<u8>,
    room: int,
)
    requires
        payload.len() <= 65535,
        payload.len() <= room,
    ensures
        vless_udp_packet(vless_udp_form(payload) + rest, address, room) == Progress::<
            _,
            VlessError,
        >::Done(UdpPacketView { address, payload }, payload.len() as int + 2),
{
    let all = vless_udp_form(payload) + rest;
    assert(all.subrange(2, 2 + payload.len() as int) =~= payload);
}

/// The reading half of a stream of UDP packets, all of which go to one address.
pub struct VlessUdpReader<T> {
    pub inner: T,
    pub address: Address,
}

impl<T> VlessUdpReader<T> {
    /// Reads a UDP packet off the start of a byte stream, for a buffer of `room` bytes. It goes to
    /// the address of the stream.
    pub fn read_from(&self, b: &[u8], room: usize) -> (r: Decoded<UdpPacket, VlessError>)
        ensures
            r.progress() == vless_udp_packet(b@, self.address@, room as int),
    {
        let len: usize = b.len();
        if len < 2 {
            return Decoded::Need(2 - len);
        }
        let size: usize = get_u16(b, 0) as usize;
        if size > room {
            return Decoded::Fail(VlessError::UdpPacketTooLarge(size));
        }
        if len < 2 + size {
            return Decoded::Need(2 + size - len);
        }
        let payload = copy_part(b, 2, 2 + size);
        Decoded::Done(UdpPacket { address: self.address.clone(), payload }, 2 + size)
    }
}

/// What writing a packet puts on the wire; one of more than 65535 bytes is refused.
pub open spec fn vless_udp_output(payload: Seq<u8>) -> Result<Seq<u8>, VlessError> {
    if payload.len() > 65535 {
        Err(VlessError::UdpPacketLength)
    } else {
        Ok(vless_udp_form(payload))
    }
}

/// The writing half of a stream of UDP packets.
pub struct VlessUdpWriter<T> {
    pub inner: T,
}

impl<T> VlessUdpWriter<T> {
    /// A UDP packet as it goes on the wire.
    pub fn write_to(&self, payload: &[u8]) -> (r: Result<Vec<u8>, VlessError>)
        ensures
            match r {
                Ok(out) => vless_udp_output(payload@) == Ok::<_, VlessError>(out@),
                Err(error) => vless_udp_output(payload@) == Err::<Seq<u8>, _>(error),
            },
    {
        if payload.len() > 65535 {
            return Err(VlessError::UdpPacketLength);
        }
        let mut out: Vec<u8> = Vec::new();
        append_u16(&mut out, payload.len() as u16);
        append(&mut out, payload);
        assert(out@ =~= vless_udp_form(payload@));
        Ok(out)
    }
}

/// An address as it is written: port, type and address.
pub open spec fn written_address(a: AddressView) -> Seq<u8> {
    match a {
        AddressView::V4(octets, port) => seq![
            (port as int / 256) as u8,
            (port as int % 256) as u8,
            1u8,
        ] + octets,
        AddressView::Domain(domain, port) => seq![
            (port as int / 256) as u8,
            (port as int % 256) as u8,
            2u8,
            encode_utf8(domain).len() as u8,
        ] + encode_utf8(domain),
        AddressView::V6(octets, port, _, _) => seq![
            (port as int / 256) as u8,
            (port as int % 256) as u8,
            3u8,
        ] + octets,
    }
}

/// Every host can be asked for: an IP address, and every name of labels of 1 to 63 letters, digits,
/// underscores and inner hyphens that is at most 253 characters long. It is read back as it was
/// written, and takes exactly its bytes.
pub proof fn lemma_every_host_can_be_asked_for(
    labels: Seq<Seq<char>>,
    port: u16,
    octets: Seq<u8>,
    rest: Seq<u8>,
)
    requires
        labels.len() > 0,
        text::joined_with(labels, '.').len() <= 253,
        forall|i: int|
            0 <= i < labels.len() ==> 1 <= (#[trigger] labels[i]).len() <= 63 && labels[i][0] != '-'
                && labels[i][labels[i].len() - 1] != '-',
        forall|i: int, k: int|
            0 <= i < labels.len() && 0 <= k < labels[i].len() ==> {
                let c = #[trigger] labels[i][k];
                'a' <= c <= 'z' || 'A' <= c <= 'Z' || '0' <= c <= '9' || c == '-' || c == '_'
            },
    ensures
        ({
            let a = AddressView::Domain(text::joined_with(labels, '.'), port);
            vless_address(written_address(a) + rest) == Progress::<_, VlessError>::Done(
                a,
                written_address(a).len() as int,
            )
        }),
        octets.len() == 4 ==> vless_address(
            written_address(AddressView::V4(octets, port)) + rest,
        ) == Progress::<_, VlessError>::Done(AddressView::V4(octets, port), 7),
        octets.len() == 16 ==> vless_address(
            written_address(AddressView::V6(octets, port, 0, 0)) + rest,
        ) == Progress::<_, VlessError>::Done(AddressView::V6(octets, port, 0, 0), 19),
{
    let domain = text::joined_with(labels, '.');
    assert forall|i: int| 0 <= i < labels.len() implies !(#[trigger] labels[i]).contains('.') by {
        if labels[i].contains('.') {
            let k = choose|k: int| 0 <= k < labels[i].len() && labels[i][k] == '.';
            assert(labels[i][k] == '.');
        }
    }
    hostname::lemma_host_names_are_labels(labels, true);
    lemma_hostname_ascii(domain, true);
    lemma_ascii_encoding(domain);
    let a = AddressView::Domain(domain, port);
    assert(vless_form(a)->0 =~= written_address(a));
    lemma_vless_address_round_trip(a, rest);
    if octets.len() == 4 {
        let v4 = AddressView::V4(octets, port);
        assert(vless_form(v4)->0 =~= written_address(v4));
        lemma_vless_address_round_trip(v4, rest);
    }
    if octets.len() == 16 {
        let v6 = AddressView::V6(octets, port, 0, 0);
        assert(vless_form(v6)->0 =~= written_address(v6));
        lemma_vless_address_round_trip(v6, rest);
    }
}

/// No other name can be asked for: an empty one, one that is no text and one that is no host name
/// are refused, and so is an address of another type.
pub proof fn lemma_other_hosts_are_refused(b: Seq<u8>)
    requires
        b.len() >= 4,
    ensures
        b[2] == 2 && b[3] == 0 ==> vless_address(b) == Progress::<AddressView, _>::Fail(
            VlessError::EmptyDomain,
        ),
        b[2] == 2 && b[3] > 0 && b.len() >= 4 + b[3] && !(valid_utf8(b.subrange(4, 4 + b[3]))
            && hostname::is_hostname(decode_utf8(b.subrange(4, 4 + b[3])), true)) ==> vless_address(b)
            == Progress::<AddressView, _>::Fail(VlessError::InvalidDomain),
        b[2] == 0 || b[2] > 3 ==> vless_address(b) == Progress::<AddressView, _>::Fail(
            VlessError::UnsupportedAddressType(b[2]),
        ),
{
}

/// A user is known exactly when its id is one of the configured ones, at whatever position and to
/// the last byte.
pub proof fn lemma_known_users(users: Seq<[u8; 16]>, id: Seq<u8>)
    requires
        id.len() == 16,
    ensures
        is_user(users, id) <==> exists|k: int| 0 <= k < users.len() && (#[trigger] users[k])@ == id,
{
    if is_user(users, id) {
        let k = choose|k: int| 0 <= k < users.len() && agrees(#[trigger] users[k]@, id);
        assert(users[k]@ =~= id);
    }
    if exists|k: int| 0 <= k < users.len() && (#[trigger] users[k])@ == id {
        let k = choose|k: int| 0 <= k < users.len() && (#[trigger] users[k])@ == id;
        assert(agrees(users[k]@, id));
    }
}

/// The request of a configured user as it is written: version 0, the id, the addons with their
/// length, command 1, 2 or 3 and, but for the last, an address. It is read back as it was written,
/// whatever the addons hold and whatever follows.
#[verifier::rlimit(40)]
pub proof fn lemma_written_requests_are_read(
    users: Seq<[u8; 16]>,
    k: int,
    addons: Seq<u8>,
    a: AddressView,
    rest: Seq<u8>,
)
    requires
        0 <= k < users.len(),
        addons.len() <= 255,
        a.valid(),
        a matches AddressView::Domain(domain, _) ==> hostname::is_hostname(domain, true),
    ensures
        ({
            let start = seq![0u8] + users[k]@ + seq![addons.len() as u8] + addons;
            let n = start.len() as int + 1;
            &&& vless_request(start + seq![1u8] + written_address(a) + rest, users) == Progress::<
                _,
                VlessError,
            >::Done(RequestView::Tcp(a.on_wire()), n + written_address(a).len())
            &&& vless_request(start + seq![2u8] + written_address(a) + rest, users) == Progress::<
                _,
                VlessError,
            >::Done(RequestView::Udp(a.on_wire()), n + written_address(a).len())
            &&& vless_request(start + seq![3u8] + rest, users) == Progress::<_, VlessError>::Done(
                RequestView::Mux,
                n,
            )
        }),
{
    let start = seq![0u8] + users[k]@ + seq![addons.len() as u8] + addons;
    if let AddressView::Domain(domain, _) = a {
        lemma_hostname_ascii(domain, true);
        lemma_ascii_encoding(domain);
    }
    assert(vless_form(a)->0 =~= written_address(a));
    lemma_request_round_trip(users, k, addons, RequestView::Tcp(a), rest);
    lemma_request_round_trip(users, k, addons, RequestView::Udp(a), rest);
    lemma_request_round_trip(users, k, addons, RequestView::Mux, rest);
    assert(request_form(users[k]@, addons, command_form(RequestView::Tcp(a))->0) + rest =~= start
        + seq![1u8] + written_address(a) + rest);
    assert(request_form(users[k]@, addons, command_form(RequestView::Udp(a))->0) + rest =~= start
        + seq![2u8] + written_address(a) + rest);
    assert(request_form(users[k]@, addons, command_form(RequestView::Mux)->0) + rest =~= start
        + seq![3u8] + rest);
}

/// Whoever sends another version or an unknown id is refused after 18 bytes, and so is another
/// command as soon as it is there.
pub proof fn lemma_other_requests_are_refused(b: Seq<u8>, users: Seq<[u8; 16]>)
    requires
        b.len() >= 18,
    ensures
        b[0] != 0 ==> vless_request(b, users) == Progress::<RequestView, _>::Fail(
            VlessError::UnsupportedVersion(b[0]),
        ),
        b[0] == 0 && (forall|k: int|
            0 <= k < users.len() ==> (#[trigger] users[k])@ != b.subrange(1, 17)) ==> vless_request(
            b,
            users,
        ) == Progress::<RequestView, _>::Fail(VlessError::InvalidUser),
        ({
            let at = 18 + b[17] as int;
            b[0] == 0 && is_user(users, b.subrange(1, 17)) && b.len() > at && (b[at] == 0 || b[at]
                > 3) ==> vless_request(b, users) == Progress::<RequestView, _>::Fail(
                VlessError::UnsupportedCommand(b[at]),
            )
        }),
{
    lemma_known_users(users, b.subrange(1, 17));
}

/// A packet is its length, high byte first, and its bytes; one that does not fit the buffer is
/// refused as soon as its length is known.
pub proof fn lemma_written_packets(payload: Seq<u8>, address: AddressView, rest: Seq<u8>, room: int)
    requires
        payload.len() <= 65535,
    ensures
        vless_udp_form(payload) == seq![
            (payload.len() as int / 256) as u8,
            (payload.len() as int % 256) as u8,
        ] + payload,
        payload.len() > room ==> vless_udp_packet(vless_udp_form(payload) + rest, address, room)
            == Progress::<UdpPacketView, _>::Fail(
            VlessError::UdpPacketTooLarge(payload.len() as usize),
        ),
{
    assert(vless_udp_form(payload) =~= seq![
        (payload.len() as int / 256) as u8,
        (payload.len() as int % 256) as u8,
    ] + payload);
    let all = vless_udp_form(payload) + rest;
    assert(wire::u16_at(all, 0) == payload.len());
}

/// Every packet whose length fits into two bytes can be written, and is read back as it was.
pub proof fn lemma_packets_that_can_be_written(
    payload: Seq<u8>,
    address: AddressView,
    rest: Seq<u8>,
    room: int,
)
    requires
        payload.len() <= room,
    ensures
        vless_udp_output(payload) is Ok <==> payload.len() < 65536,
        vless_udp_output(payload) matches Err(e) ==> e is UdpPacketLength,
        vless_udp_output(payload) matches Ok(bytes) ==> vless_udp_packet(bytes + rest, address, room)
            == Progress::<_, VlessError>::Done(
            UdpPacketView { address, payload },
            bytes.len() as int,
        ),
{
    if payload.len() < 65536 {
        lemma_udp_round_trip(payload, address, rest, room);
    }
}

/// An address that is not complete is asked for up to the end of what is known of it: port and
/// type, the length of its domain, and then all of it.
pub proof fn lemma_missing_bytes_of_an_address(b: Seq<u8>)
    ensures
        b.len() < 3 ==> vless_address(b) == Progress::<AddressView, VlessError>::Need(3 - b.len()),
        b.len() >= 3 && b[2] == 1 && b.len() < 7 ==> vless_address(b) == Progress::<
            AddressView,
            VlessError,
        >::Need(7 - b.len()),
        b.len() >= 3 && b[2] == 3 && b.len() < 19 ==> vless_address(b) == Progress::<
            AddressView,
            VlessError,
        >::Need(19 - b.len()),
        b.len() == 3 && b[2] == 2 ==> vless_address(b) == Progress::<AddressView, VlessError>::Need(
            1,
        ),
        b.len() >= 4 && b[2] == 2 && b[3] > 0 && b.len() < 4 + b[3] ==> vless_address(b)
            == Progress::<AddressView, VlessError>::Need(4 + b[3] - b.len()),
{
}

/// The same of a request: version, id and the length of the addons, then addons and command, then
/// the address. A packet is asked for by its length, and then all of it.
pub proof fn lemma_missing_bytes_of_a_request(
    b: Seq<u8>,
    users: Seq<[u8; 16]>,
    address: AddressView,
    room: int,
)
    ensures
        b.len() < 18 ==> vless_request(b, users) == Progress::<RequestView, VlessError>::Need(
            18 - b.len(),
        ),
        b.len() >= 18 && b[0] == 0 && is_user(users, b.subrange(1, 17)) && b.len() < 19 + b[17]
            ==> vless_request(b, users) == Progress::<RequestView, VlessError>::Need(
            19 + b[17] - b.len(),
        ),
        b.len() >= 18 && b.len() >= 19 + b[17] && b[0] == 0 && is_user(users, b.subrange(1, 17))
            && (b[18 + b[17]] == 1 || b[18 + b[17]] == 2) && vless_address(
            wire::after(b, 19 + b[17]),
        ) is Need ==> vless_request(b, users) == Progress::<RequestView, VlessError>::Need(
            vless_address(wire::after(b, 19 + b[17]))->Need_0,
        ),
        b.len() < 2 ==> vless_udp_packet(b, address, room) == Progress::<
            UdpPacketView,
            VlessError,
        >::Need(2 - b.len()),
        b.len() >= 2 && b[0] * 256 + b[1] <= room && b.len() < 2 + b[0] * 256 + b[1]
            ==> vless_udp_packet(b, address, room) == Progress::<UdpPacketView, VlessError>::Need(
            2 + b[0] * 256 + b[1] - b.len(),
        ),
{
}

} // verus!
