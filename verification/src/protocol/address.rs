//! Destination addresses and their SOCKS wire form.

use crate::text::{self, parse_number, split_once, utf8_text};
use crate::wire::{self, append, append_u16, array_at, get_u16, same, Decoded, Progress};
use vstd::prelude::*;
use vstd::slice::*;
use vstd::string::*;
use vstd::utf8::*;

verus! {

/// An IP address with a port. An IPv6 address has its flow information and its scope id behind
/// the port; both are zero unless the system gave them.
#[derive(Clone, Copy, Debug)]
pub enum SocketAddr {
    V4([u8; 4], u16),
    V6([u8; 16], u16, u32, u32),
}

/// Where a connection or a packet goes.
#[derive(Debug)]
pub enum Address {
    SocketAddress(SocketAddr),
    DomainNameAddress(String, u16),
}

/// The mathematical content of an `Address`.
pub enum AddressView {
    V4(Seq<u8>, u16),
    V6(Seq<u8>, u16, u32, u32),
    Domain(Seq<char>, u16),
}

impl View for SocketAddr {
    type V = AddressView;

    open spec fn view(&self) -> AddressView {
        match *self {
            SocketAddr::V4(octets, port) => AddressView::V4(octets@, port),
            SocketAddr::V6(octets, port, flow, scope) => AddressView::V6(
                octets@,
                port,
                flow,
                scope,
            ),
        }
    }
}

impl View for Address {
    type V = AddressView;

    open spec fn view(&self) -> AddressView {
        match *self {
            Address::SocketAddress(addr) => addr@,
            Address::DomainNameAddress(domain, port) => AddressView::Domain(domain@, port),
        }
    }
}

impl Clone for Address {
    fn clone(&self) -> (r: Self)
        ensures
            r == *self,
    {
        match self {
            Address::SocketAddress(addr) => Address::SocketAddress(*addr),
            Address::DomainNameAddress(domain, port) => {
                Address::DomainNameAddress(domain.clone(), *port)
            },
        }
    }
}

impl AddressView {
    /// The port.
    pub open spec fn port(self) -> u16 {
        match self {
            AddressView::V4(_, port) => port,
            AddressView::V6(_, port, _, _) => port,
            AddressView::Domain(_, port) => port,
        }
    }

    /// What of an address a protocol carries: all but the flow information and the scope id, which
    /// mean something on one machine only.
    pub open spec fn on_wire(self) -> AddressView {
        match self {
            AddressView::V6(octets, port, _, _) => AddressView::V6(octets, port, 0, 0),
            _ => self,
        }
    }

    /// Holds of the addresses that an `Address` can stand for.
    pub open spec fn valid(self) -> bool {
        match self {
            AddressView::V4(octets, _) => octets.len() == 4,
            AddressView::V6(octets, _, _, _) => octets.len() == 16,
            AddressView::Domain(_, _) => true,
        }
    }
}

/// Port of an address text that names none.
pub const DEFAULT_PORT: u16 = 80;

/// What an address text that is no IP literal names: a domain, and after the first `:` a port.
pub open spec fn named_address(text: Seq<char>) -> Option<AddressView> {
    match text::cut(text, ':') {
        Some((domain, port)) => match text::parsed_number(port, 65535) {
            Some(n) => Some(AddressView::Domain(domain, n as u16)),
            None => None,
        },
        None => Some(AddressView::Domain(text, DEFAULT_PORT)),
    }
}

/// The address that `text` names, where `literal` is the IP literal that it is, if it is one.
pub open spec fn address_of_text(
    text: Seq<char>,
    literal: Option<SocketAddr>,
) -> Option<AddressView> {
    match literal {
        Some(addr) => Some(addr@),
        None => named_address(text),
    }
}

impl Address {
    pub const ADDR_TYPE_IPV4: u8 = 1;

    pub const ADDR_TYPE_DOMAIN_NAME: u8 = 3;

    pub const ADDR_TYPE_IPV6: u8 = 4;

    /// The address that `text` names. `literal` is the IP literal with port that `text` is, if it
    /// is one.
    pub fn from_text(text: &str, literal: Option<SocketAddr>) -> (r: Option<Address>)
        ensures
            match r {
                Some(address) => address_of_text(text@, literal) == Some(address@),
                None => address_of_text(text@, literal) is None,
            },
    {
        if let Some(addr) = literal {
            return Some(Address::SocketAddress(addr));
        }
        match split_once(text, ':') {
            Some((domain, port)) => match parse_number(port, 65535) {
                Some(n) => Some(Address::DomainNameAddress(domain.to_owned(), n as u16)),
                None => None,
            },
            None => Some(Address::DomainNameAddress(text.to_owned(), DEFAULT_PORT)),
        }
    }

    /// The port of the address.
    pub fn port(&self) -> (r: u16)
        ensures
            r == self@.port(),
    {
        match self {
            Address::SocketAddress(SocketAddr::V4(_, port)) => *port,
            Address::SocketAddress(SocketAddr::V6(_, port, _, _)) => *port,
            Address::DomainNameAddress(_, port) => *port,
        }
    }

    /// Whether `self` and `other` are the same address.
    pub fn same_as(&self, other: &Address) -> (r: bool)
        ensures
            r == (self@ == other@),
    {
        match (self, other) {
            (
                Address::SocketAddress(SocketAddr::V4(a, p)),
                Address::SocketAddress(SocketAddr::V4(b, q)),
            ) => *p == *q && same(a, b),
            (
                Address::SocketAddress(SocketAddr::V6(a, p, flow, scope)),
                Address::SocketAddress(SocketAddr::V6(b, q, other_flow, other_scope)),
            ) => *p == *q && *flow == *other_flow && *scope == *other_scope && same(a, b),
            (Address::DomainNameAddress(a, p), Address::DomainNameAddress(b, q)) => {
                *p == *q && text::str_eq(a, b)
            },
            _ => false,
        }
    }

    /// Every `Address` stands for a valid one.
    pub proof fn lemma_valid(self)
        ensures
            self@.valid(),
    {
    }
}

/// Why bytes are no SOCKS address, or an address has no SOCKS form.
#[derive(Clone, Copy, Debug)]
pub enum AddressError {
    UnsupportedType(u8),
    InvalidDomain,
    DomainTooLong,
}

/// What the start of a byte stream says as a SOCKS address.
pub open spec fn socks_address(b: Seq<u8>) -> Progress<AddressView, AddressError> {
    if b.len() < 1 {
        Progress::Need(1)
    } else if b[0] == Address::ADDR_TYPE_IPV4 {
        if b.len() < 7 {
            Progress::Need(7 - b.len())
        } else {
            Progress::Done(AddressView::V4(b.subrange(1, 5), wire::u16_at(b, 5) as u16), 7)
        }
    } else if b[0] == Address::ADDR_TYPE_IPV6 {
        if b.len() < 19 {
            Progress::Need(19 - b.len())
        } else {
            Progress::Done(
                AddressView::V6(b.subrange(1, 17), wire::u16_at(b, 17) as u16, 0, 0),
                19,
            )
        }
    } else if b[0] == Address::ADDR_TYPE_DOMAIN_NAME {
        if b.len() < 2 {
            Progress::Need(1)
        } else if b.len() < 4 + b[1] {
            Progress::Need(4 + b[1] - b.len())
        } else if valid_utf8(b.subrange(2, 2 + b[1])) {
            Progress::Done(
                AddressView::Domain(
                    decode_utf8(b.subrange(2, 2 + b[1])),
                    wire::u16_at(b, 2 + b[1]) as u16,
                ),
                4 + b[1],
            )
        } else {
            Progress::Fail(AddressError::InvalidDomain)
        }
    } else {
        Progress::Fail(AddressError::UnsupportedType(b[0]))
    }
}

/// How many bytes a SOCKS address takes.
pub proof fn lemma_socks_used(b: Seq<u8>)
    requires
        socks_address(b) is Done,
    ensures
        0 < socks_address(b)->1 <= b.len(),
        socks_address(b)->1 <= 4 + 255,
{
}

/// The SOCKS form of an address; a domain of more than 255 bytes has none.
pub open spec fn socks_form(a: AddressView) -> Option<Seq<u8>> {
    match a {
        AddressView::V4(octets, port) => Some(
            seq![Address::ADDR_TYPE_IPV4] + octets + wire::be16(port as int),
        ),
        AddressView::V6(octets, port, _, _) => Some(
            seq![Address::ADDR_TYPE_IPV6] + octets + wire::be16(port as int),
        ),
        AddressView::Domain(domain, port) => {
            let bytes = encode_utf8(domain);
            if bytes.len() <= 255 {
                Some(
                    seq![Address::ADDR_TYPE_DOMAIN_NAME, bytes.len() as u8] + bytes + wire::be16(
                        port as int,
                    ),
                )
            } else {
                None
            }
        },
    }
}

/// Reading back what was written gives what of the address goes on the wire, and takes exactly its
/// bytes.
pub proof fn lemma_socks_round_trip(a: AddressView, rest: Seq<u8>)
    requires
        a.valid(),
        socks_form(a) is Some,
    ensures
        socks_address(socks_form(a)->0 + rest) == Progress::<_, AddressError>::Done(
            a.on_wire(),
            socks_form(a)->0.len() as int,
        ),
{
    let bytes = socks_form(a)->0;
    let all = bytes + rest;
    match a {
        AddressView::V4(octets, port) => {
            assert(all.subrange(1, 5) =~= octets);
        },
        AddressView::V6(octets, port, _, _) => {
            assert(all.subrange(1, 17) =~= octets);
        },
        AddressView::Domain(domain, port) => {
            let name = encode_utf8(domain);
            encode_utf8_valid_utf8(domain);
            encode_utf8_decode_utf8(domain);
            assert(all.subrange(2, 2 + name.len() as int) =~= name);
        },
    }
}

/// A reader that asks for the missing bytes never asks for more than the address takes, and
/// bytes behind the address do not change it.
pub proof fn lemma_socks_prefix(b: Seq<u8>, n: int)
    requires
        0 <= n <= b.len(),
        socks_address(b) is Done,
    ensures
        match socks_address(b.subrange(0, n)) {
            Progress::Need(more) => more > 0 && n + more <= socks_address(b)->1,
            Progress::Done(a, used) => socks_address(b) == Progress::<_, AddressError>::Done(
                a,
                used,
            ),
            Progress::Fail(_) => false,
        },
{
    let p = b.subrange(0, n);
    if n >= 2 && b[0] == Address::ADDR_TYPE_DOMAIN_NAME && n >= 4 + b[1] {
        assert(p.subrange(2, 2 + b[1]) =~= b.subrange(2, 2 + b[1]));
    }
    if n >= 7 && b[0] == Address::ADDR_TYPE_IPV4 {
        assert(p.subrange(1, 5) =~= b.subrange(1, 5));
    }
    if n >= 19 && b[0] == Address::ADDR_TYPE_IPV6 {
        assert(p.subrange(1, 17) =~= b.subrange(1, 17));
    }
}

/// The text that the bytes of a domain name encode.
pub fn domain_text(bytes: &[u8]) -> (r: Option<String>)
    ensures
        match r {
            Some(s) => valid_utf8(bytes@) && s@ == decode_utf8(bytes@),
            None => !valid_utf8(bytes@),
        },
{
    match utf8_text(bytes) {
        Some(s) => Some(s.to_owned()),
        None => None,
    }
}

/// Reads a SOCKS address off the start of a byte stream.
pub fn read_socks_address(b: &[u8]) -> (r: Decoded<Address, AddressError>)
    ensures
        r.progress() == socks_address(b@),
{
    let len: usize = b.len();
    if len < 1 {
        return Decoded::Need(1);
    }
    let kind: u8 = b[0];
    if kind == Address::ADDR_TYPE_IPV4 {
        if len < 7 {
            return Decoded::Need(7 - len);
        }
        let octets: [u8; 4] = array_at::<4>(b, 1);
        let addr = SocketAddr::V4(octets, get_u16(b, 5));
        return Decoded::Done(Address::SocketAddress(addr), 7);
    }
    if kind == Address::ADDR_TYPE_IPV6 {
        if len < 19 {
            return Decoded::Need(19 - len);
        }
        let octets: [u8; 16] = array_at::<16>(b, 1);
        let addr = SocketAddr::V6(octets, get_u16(b, 17), 0, 0);
        return Decoded::Done(Address::SocketAddress(addr), 19);
    }
    if kind == Address::ADDR_TYPE_DOMAIN_NAME {
        if len < 2 {
            return Decoded::Need(1);
        }
        let size: usize = b[1] as usize;
        if len < 4 + size {
            return Decoded::Need(4 + size - len);
        }
        return match domain_text(slice_subrange(b, 2, 2 + size)) {
            Some(domain) => Decoded::Done(
                Address::DomainNameAddress(domain, get_u16(b, 2 + size)),
                4 + size,
            ),
            None => Decoded::Fail(AddressError::InvalidDomain),
        };
    }
    Decoded::Fail(AddressError::UnsupportedType(kind))
}

/// Appends the SOCKS form of `address`; appends nothing where it has none.
pub fn write_socks_address(out: &mut Vec<u8>, address: &Address) -> (r: Result<(), AddressError>)
    ensures
        match r {
            Ok(()) => socks_form(address@) is Some && final(out)@ == old(out)@ + socks_form(
                address@,
            )->0,
            Err(error) => socks_form(address@) is None && final(out)@ == old(out)@ && error
                == AddressError::DomainTooLong,
        },
{
    let ghost start = out@;
    match address {
        Address::SocketAddress(SocketAddr::V4(octets, port)) => {
            out.push(Address::ADDR_TYPE_IPV4);
            append(out, octets);
            append_u16(out, *port);
        },
        Address::SocketAddress(SocketAddr::V6(octets, port, _, _)) => {
            out.push(Address::ADDR_TYPE_IPV6);
            append(out, octets);
            append_u16(out, *port);
        },
        Address::DomainNameAddress(domain, port) => {
            let bytes = domain.as_str().as_bytes();
            if bytes.len() > 255 {
                return Err(AddressError::DomainTooLong);
            }
            out.push(Address::ADDR_TYPE_DOMAIN_NAME);
            out.push(bytes.len() as u8);
            append(out, bytes);
            append_u16(out, *port);
        },
    }
    assert(out@ =~= start + socks_form(address@)->0);
    Ok(())
}

/// An address as it is written: type, address and port, high byte first.
pub open spec fn written_address(a: AddressView) -> Seq<u8> {
    match a {
        AddressView::V4(octets, port) => seq![1u8] + octets + seq![
            (port as int / 256) as u8,
            (port as int % 256) as u8,
        ],
        AddressView::Domain(domain, port) => seq![3u8, encode_utf8(domain).len() as u8]
            + encode_utf8(domain) + seq![(port as int / 256) as u8, (port as int % 256) as u8],
        AddressView::V6(octets, port, _, _) => seq![4u8] + octets + seq![
            (port as int / 256) as u8,
            (port as int % 256) as u8,
        ],
    }
}

/// Every address has its form, but for a domain of more than 255 bytes; and the form is read back
/// as the address that was written, whatever follows.
pub proof fn lemma_written_addresses_are_read(a: AddressView, rest: Seq<u8>)
    requires
        a.valid(),
    ensures
        ({
            let fits = a matches AddressView::Domain(domain, _) ==> encode_utf8(domain).len() <= 255;
            &&& socks_form(a) is Some <==> fits
            &&& fits ==> socks_form(a) == Some(written_address(a))
            &&& fits ==> socks_address(written_address(a) + rest) == Progress::<
                _,
                AddressError,
            >::Done(a.on_wire(), written_address(a).len() as int)
        }),
{
    if socks_form(a) is Some {
        assert(socks_form(a)->0 =~= written_address(a));
        lemma_socks_round_trip(a, rest);
    }
}

/// Bytes of another type are no address, nor is a domain that is no text.
pub proof fn lemma_other_bytes_are_no_address(b: Seq<u8>)
    requires
        b.len() > 0,
    ensures
        b[0] != 1 && b[0] != 3 && b[0] != 4 ==> socks_address(b) == Progress::<AddressView, _>::Fail(
            AddressError::UnsupportedType(b[0]),
        ),
        b[0] == 3 && b.len() >= 2 && b.len() >= 4 + b[1] && !valid_utf8(b.subrange(2, 2 + b[1]))
            ==> socks_address(b) == Progress::<AddressView, _>::Fail(AddressError::InvalidDomain),
{
}

/// What goes on the wire keeps host and port; only an IPv6 address loses anything, and that twice
/// is the same as once.
pub proof fn lemma_wire_keeps_host_and_port(a: AddressView)
    ensures
        a.on_wire().port() == a.port(),
        a.on_wire().on_wire() == a.on_wire(),
        !(a is V6) ==> a.on_wire() == a,
        a matches AddressView::V6(octets, port, flow, scope) ==> a.on_wire() == AddressView::V6(
            octets,
            port,
            0,
            0,
        ),
        a matches AddressView::V4(_, port) ==> a.port() == port,
        a matches AddressView::V6(_, port, _, _) ==> a.port() == port,
        a matches AddressView::Domain(_, port) ==> a.port() == port,
{
}

/// A domain and a port are read from `domain:port`; the port is 80 where there is no colon, and
/// what is no port behind one makes it no address. An IP literal is taken as it is.
pub proof fn lemma_domains_with_ports(
    domain: Seq<char>,
    n: nat,
    junk: Seq<char>,
    k: int,
    addr: SocketAddr,
)
    requires
        !domain.contains(':'),
    ensures
        n <= 65535 ==> address_of_text(domain + seq![':'] + text::decimal_text(n), None) == Some(
            AddressView::Domain(domain, n as u16),
        ),
        n > 65535 ==> address_of_text(domain + seq![':'] + text::decimal_text(n), None) is None,
        address_of_text(domain, None) == Some(AddressView::Domain(domain, 80)),
        junk.len() == 0 || (0 <= k < junk.len() && junk[k] != '+' && !('0' <= junk[k] <= '9'))
            ==> address_of_text(domain + seq![':'] + junk, None) is None,
        address_of_text(domain, Some(addr)) == Some(addr@),
        address_of_text(domain + seq![':'] + junk, Some(addr)) == Some(addr@),
{
    text::lemma_cut_of_joined(domain, ':', text::decimal_text(n));
    text::lemma_cut_of_joined(domain, ':', junk);
    text::lemma_number_round_trip(n, 65535);
    if junk.len() == 0 || (0 <= k < junk.len() && junk[k] != '+' && !('0' <= junk[k] <= '9')) {
        text::lemma_no_number(junk, 65535, k);
    }
}

/// An address that is not complete is asked for up to the end of what is known of it: its type, the
/// length of its domain, and then all of it.
pub proof fn lemma_missing_bytes_of_an_address(b: Seq<u8>)
    ensures
        b.len() == 0 ==> socks_address(b) == Progress::<AddressView, AddressError>::Need(1),
        b.len() > 0 && b[0] == 1 && b.len() < 7 ==> socks_address(b) == Progress::<
            AddressView,
            AddressError,
        >::Need(7 - b.len()),
        b.len() > 0 && b[0] == 4 && b.len() < 19 ==> socks_address(b) == Progress::<
            AddressView,
            AddressError,
        >::Need(19 - b.len()),
        b.len() == 1 && b[0] == 3 ==> socks_address(b) == Progress::<
            AddressView,
            AddressError,
        >::Need(1),
        b.len() > 1 && b[0] == 3 && b.len() < 4 + b[1] ==> socks_address(b) == Progress::<
            AddressView,
            AddressError,
        >::Need(4 + b[1] - b.len()),
{
}

} // verus!
