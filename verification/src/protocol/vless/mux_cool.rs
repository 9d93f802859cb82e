//! The Mux.Cool sub-protocol: many sessions over one VLESS connection.

use super::{VlessError, ADDRESS_DOMAIN, ADDRESS_IPV4, ADDRESS_IPV6};
use crate::buffer::{self, Chunk};
use crate::protocol::address::{domain_text, Address, AddressView, SocketAddr};
use crate::wire::{self, append, append_u16, array_at, copy_part, get_u16, Decoded, Progress};
use std::collections::HashMap;
use vstd::prelude::*;
use vstd::slice::*;
use vstd::string::*;
use vstd::utf8::*;

verus! {

pub const STATUS_NEW: u8 = 0x01;

pub const STATUS_KEEP: u8 = 0x02;

pub const STATUS_END: u8 = 0x03;

pub const STATUS_KEEP_ALIVE: u8 = 0x04;

pub const OPTION_DATA: u8 = 0x01;

pub const NETWORK_TCP: u8 = 0x01;

pub const NETWORK_UDP: u8 = 0x02;

pub const MAX_METADATA_LEN: usize = 512;

pub const MAX_DATA_LEN: usize = 0xffff;

/// A frame that the server sends.
pub struct MuxCoolFrame {
    pub session_id: u16,
    pub status: u8,
    pub packet_address: Option<Address>,
    pub data: Option<Chunk>,
}

/// The mathematical content of an optional chunk.
pub open spec fn chunk_view(data: Option<Chunk>) -> Option<Seq<u8>> {
    match data {
        Some(chunk) => Some(chunk@),
        None => None,
    }
}

/// The mathematical content of an optional address.
pub open spec fn address_view(address: Option<Address>) -> Option<AddressView> {
    match address {
        Some(a) => Some(a@),
        None => None,
    }
}

/// The mathematical content of a `MuxCoolFrame`.
pub struct FrameView {
    pub session_id: u16,
    pub status: u8,
    pub packet_address: Option<AddressView>,
    pub data: Option<Seq<u8>>,
}

impl View for MuxCoolFrame {
    type V = FrameView;

    open spec fn view(&self) -> FrameView {
        FrameView {
            session_id: self.session_id,
            status: self.status,
            packet_address: address_view(self.packet_address),
            data: chunk_view(self.data),
        }
    }
}

/// The address of a packet as the metadata writes it, without the network: port, type, address.
/// A domain of more than 255 bytes has none.
pub open spec fn target_form(a: AddressView) -> Option<Seq<u8>> {
    match a {
        AddressView::V4(octets, port) => Some(
            wire::be16(port as int) + seq![ADDRESS_IPV4] + octets,
        ),
        AddressView::V6(octets, port, _, _) => Some(
            wire::be16(port as int) + seq![ADDRESS_IPV6] + octets,
        ),
        AddressView::Domain(domain, port) => {
            let bytes = encode_utf8(domain);
            if bytes.len() <= 255 {
                Some(wire::be16(port as int) + seq![ADDRESS_DOMAIN, bytes.len() as u8] + bytes)
            } else {
                None
            }
        },
    }
}

/// How many bytes of metadata a packet address takes, its network byte among them.
pub open spec fn udp_address_len(a: AddressView) -> int {
    match a {
        AddressView::V4(_, _) => 8,
        AddressView::V6(_, _, _, _) => 20,
        AddressView::Domain(domain, _) => 5 + encode_utf8(domain).len() as int,
    }
}

/// The length, id, status and option that every frame starts with.
pub open spec fn frame_start(f: FrameView) -> Seq<u8> {
    wire::be16(metadata_len(f.packet_address)) + wire::be16(f.session_id as int) + seq![
        f.status,
        if f.data is Some {
            OPTION_DATA
        } else {
            0u8
        },
    ]
}

/// The packet address behind the start of a frame.
pub open spec fn frame_target(f: FrameView) -> Option<Seq<u8>> {
    match f.packet_address {
        Some(a) => match target_form(a) {
            Some(bytes) => Some(seq![NETWORK_UDP] + bytes),
            None => None,
        },
        None => Some(Seq::empty()),
    }
}

/// What writing a frame puts on the wire, and how it ends. A frame that cannot be written in
/// full stops at the part that does not fit.
pub open spec fn frame_output(f: FrameView) -> (Seq<u8>, Result<(), VlessError>) {
    match frame_target(f) {
        None => (frame_start(f) + seq![NETWORK_UDP], Err(VlessError::MuxDomainLength)),
        Some(target) => match f.data {
            None => (frame_start(f) + target, Ok(())),
            Some(data) => if data.len() <= 65535 {
                (frame_start(f) + target + wire::be16(data.len() as int) + data, Ok(()))
            } else {
                (frame_start(f) + target, Err(VlessError::MuxDataLength))
            },
        },
    }
}

/// Bytes of metadata of a frame, as its two-byte length field holds them.
pub open spec fn metadata_len(address: Option<AddressView>) -> int {
    (4 + match address {
        Some(a) => udp_address_len(a),
        None => 0,
    }) % 65536
}

proof fn lemma_wrapped_sum(n: int)
    requires
        0 <= n,
    ensures
        (9 + n % 65536) % 65536 == (9 + n) % 65536,
{
}

fn metadata_len_field(address: &Option<Address>) -> (r: u16)
    ensures
        r == metadata_len(address_view(*address)),
{
    match address {
        Some(Address::SocketAddress(SocketAddr::V4(_, _))) => 4 + 1 + 2 + 1 + 4,
        Some(Address::SocketAddress(SocketAddr::V6(_, _, _, _))) => 4 + 1 + 2 + 1 + 16,
        Some(Address::DomainNameAddress(domain, _)) => {
            let len: usize = domain.as_str().as_bytes().len();
            proof {
                lemma_wrapped_sum(len as int);
            }
            ((4 + 1 + 2 + 1 + 1 + len % 65536) % 65536) as u16
        },
        None => 4,
    }
}

/// Appends the network and the address of a packet; of a domain that is too long only the
/// network.
fn write_mux_udp_address(out: &mut Vec<u8>, address: &Address) -> (r: Result<(), VlessError>)
    ensures
        match target_form(address@) {
            Some(bytes) => r is Ok && final(out)@ == old(out)@ + (seq![NETWORK_UDP] + bytes),
            None => r == Err::<(), _>(VlessError::MuxDomainLength) && final(out)@ == old(out)@
                + seq![NETWORK_UDP],
        },
{
    let ghost start = out@;
    out.push(NETWORK_UDP);
    assert(out@ =~= start + seq![NETWORK_UDP]);
    match address {
        Address::SocketAddress(SocketAddr::V4(octets, port)) => {
            append_u16(out, *port);
            out.push(ADDRESS_IPV4);
            append(out, octets);
        },
        Address::DomainNameAddress(domain, port) => {
            let bytes = domain.as_str().as_bytes();
            if bytes.len() > 255 {
                return Err(VlessError::MuxDomainLength);
            }
            append_u16(out, *port);
            out.push(ADDRESS_DOMAIN);
            out.push(bytes.len() as u8);
            append(out, bytes);
        },
        Address::SocketAddress(SocketAddr::V6(octets, port, _, _)) => {
            append_u16(out, *port);
            out.push(ADDRESS_IPV6);
            append(out, octets);
        },
    }
    assert(out@ =~= start + (seq![NETWORK_UDP] + target_form(address@)->0));
    Ok(())
}

/// The frame that ends a session.
pub open spec fn end_frame(session_id: u16) -> FrameView {
    FrameView { session_id, status: STATUS_END, packet_address: None, data: None }
}

/// The frame that carries a packet from `address`; a packet of more than 65535 bytes has none.
pub open spec fn packet_frame(session_id: u16, address: AddressView, buf: Seq<u8>) -> Result<
    FrameView,
    VlessError,
> {
    if buf.len() > 65535 {
        Err(VlessError::MuxUdpPacketLength)
    } else {
        Ok(
            FrameView {
                session_id,
                status: STATUS_KEEP,
                packet_address: Some(address),
                data: Some(buf),
            },
        )
    }
}

impl MuxCoolFrame {
    /// The frame that ends a session.
    pub fn end(session_id: u16) -> (r: MuxCoolFrame)
        ensures
            r@ == end_frame(session_id),
    {
        MuxCoolFrame { session_id, status: STATUS_END, packet_address: None, data: None }
    }

    /// The frame that carries stream data: the first bytes of `buf`, as many as a frame holds.
    pub fn keep(session_id: u16, buf: &[u8]) -> (r: MuxCoolFrame)
        ensures
            r@ == keep_frame(session_id, buf@),
    {
        let length: usize = if buf.len() < MAX_DATA_LEN {
            buf.len()
        } else {
            MAX_DATA_LEN
        };
        MuxCoolFrame {
            session_id,
            status: STATUS_KEEP,
            packet_address: None,
            data: Some(Chunk::copy_from_slice(slice_subrange(buf, 0, length))),
        }
    }

    /// The frame that carries a packet from `address`.
    pub fn packet(session_id: u16, address: &Address, buf: &[u8]) -> (r: Result<
        MuxCoolFrame,
        VlessError,
    >)
        ensures
            match r {
                Ok(frame) => packet_frame(session_id, address@, buf@) == Ok::<_, VlessError>(
                    frame@,
                ),
                Err(error) => packet_frame(session_id, address@, buf@) == Err::<FrameView, _>(
                    error,
                ),
            },
    {
        if buf.len() > 65535 {
            return Err(VlessError::MuxUdpPacketLength);
        }
        Ok(
            MuxCoolFrame {
                session_id,
                status: STATUS_KEEP,
                packet_address: Some(address.clone()),
                data: Some(Chunk::copy_from_slice(buf)),
            },
        )
    }

    /// Appends the length, id, status and option.
    fn write_start(&self, out: &mut Vec<u8>)
        ensures
            final(out)@ == old(out)@ + frame_start(self@),
    {
        let ghost start = out@;
        let option: u8 = if self.data.is_some() {
            OPTION_DATA
        } else {
            0
        };
        append_u16(out, metadata_len_field(&self.packet_address));
        append_u16(out, self.session_id);
        out.push(self.status);
        out.push(option);
        assert(out@ =~= start + frame_start(self@));
    }

    /// Appends the packet address, when there is one.
    fn write_target(&self, out: &mut Vec<u8>) -> (r: Result<(), VlessError>)
        ensures
            match frame_target(self@) {
                Some(bytes) => r is Ok && final(out)@ == old(out)@ + bytes,
                None => r == Err::<(), _>(VlessError::MuxDomainLength) && final(out)@ == old(out)@
                    + seq![NETWORK_UDP],
            },
    {
        match &self.packet_address {
            Some(address) => write_mux_udp_address(out, address),
            None => {
                assert(out@ + Seq::<u8>::empty() =~= out@);
                Ok(())
            },
        }
    }

    /// Appends the frame as it goes on the wire.
    pub fn write_to(&self, out: &mut Vec<u8>) -> (r: Result<(), VlessError>)
        ensures
            r == frame_output(self@).1,
            final(out)@ == old(out)@ + frame_output(self@).0,
    {
        let ghost before = out@;
        let ghost start = frame_start(self@);
        self.write_start(out);
        let written = self.write_target(out);
        if written.is_err() {
            assert((before + start) + seq![NETWORK_UDP] =~= before + (start + seq![NETWORK_UDP]));
            return written;
        }
        let ghost target = frame_target(self@)->0;
        assert((before + start) + target =~= before + (start + target));
        if let Some(data) = &self.data {
            if data.len() > 65535 {
                return Err(VlessError::MuxDataLength);
            }
            append_u16(out, data.len() as u16);
            append(out, data.as_slice());
            assert((before + (start + target)) + wire::be16(data@.len() as int) + data@ =~= before
                + (start + target + wire::be16(data@.len() as int) + data@));
        }
        Ok(())
    }
}

/// A frame that a client sent.
pub struct MuxCoolMetadata {
    pub session_id: u16,
    pub status: u8,
    pub network: Option<u8>,
    pub address: Option<Address>,
    pub data: Option<Chunk>,
}

/// The mathematical content of a `MuxCoolMetadata`.
pub struct MetadataView {
    pub session_id: u16,
    pub status: u8,
    pub network: Option<u8>,
    pub address: Option<AddressView>,
    pub data: Option<Seq<u8>>,
}

impl View for MuxCoolMetadata {
    type V = MetadataView;

    open spec fn view(&self) -> MetadataView {
        MetadataView {
            session_id: self.session_id,
            status: self.status,
            network: self.network,
            address: address_view(self.address),
            data: chunk_view(self.data),
        }
    }
}

/// The address in metadata bytes, port first; whatever follows it is ignored.
pub open spec fn mux_address(s: Seq<u8>) -> Result<AddressView, VlessError> {
    let port = wire::u16_at(s, 0) as u16;
    if s[2] == ADDRESS_IPV4 {
        if s.len() < 7 {
            Err(VlessError::MuxIpv4Short)
        } else {
            Ok(AddressView::V4(s.subrange(3, 7), port))
        }
    } else if s[2] == ADDRESS_DOMAIN {
        if s.len() < 4 || s.len() < 4 + s[3] {
            Err(VlessError::MuxDomainShort)
        } else if valid_utf8(s.subrange(4, 4 + s[3])) {
            Ok(AddressView::Domain(decode_utf8(s.subrange(4, 4 + s[3])), port))
        } else {
            Err(VlessError::MuxDomainInvalid)
        }
    } else if s[2] == ADDRESS_IPV6 {
        if s.len() < 19 {
            Err(VlessError::MuxIpv6Short)
        } else {
            Ok(AddressView::V6(s.subrange(3, 19), port, 0, 0))
        }
    } else {
        Err(VlessError::MuxAddressType(s[2]))
    }
}

/// Whether metadata holds a target behind its first four bytes.
pub open spec fn has_target(meta: Seq<u8>) -> bool {
    ||| meta[2] == STATUS_NEW
    ||| (meta[2] == STATUS_KEEP && meta.len() > 4 && meta[4] == NETWORK_UDP)
}

/// The network and the address in metadata, when there is a target.
pub open spec fn metadata_target(meta: Seq<u8>) -> Result<Option<(u8, AddressView)>, VlessError> {
    if !has_target(meta) {
        Ok(None)
    } else if meta.len() < 8 {
        Err(VlessError::MuxTargetShort)
    } else {
        match mux_address(wire::after(meta, 5)) {
            Ok(a) => Ok(Some((meta[4], a))),
            Err(error) => Err(error),
        }
    }
}

/// What metadata and data say together.
pub open spec fn metadata_view(
    meta: Seq<u8>,
    target: Option<(u8, AddressView)>,
    data: Option<Seq<u8>>,
) -> MetadataView {
    MetadataView {
        session_id: wire::u16_at(meta, 0) as u16,
        status: meta[2],
        network: match target {
            Some((network, _)) => Some(network),
            None => None,
        },
        address: match target {
            Some((_, a)) => Some(a),
            None => None,
        },
        data,
    }
}

/// What the start of a byte stream says as a Mux.Cool frame.
pub open spec fn mux_frame(b: Seq<u8>) -> Progress<MetadataView, VlessError> {
    if b.len() < 2 {
        Progress::Need(2 - b.len())
    } else {
        let len = wire::u16_at(b, 0);
        if len < 4 || len > MAX_METADATA_LEN {
            Progress::Fail(VlessError::MuxMetadataLength(len as usize))
        } else if b.len() < 2 + len {
            Progress::Need(2 + len - b.len())
        } else {
            let meta = b.subrange(2, 2 + len);
            match metadata_target(meta) {
                Err(error) => Progress::Fail(error),
                Ok(target) => if meta[3] % 2 == 0 {
                    Progress::Done(metadata_view(meta, target, None), 2 + len)
                } else if b.len() < 4 + len {
                    Progress::Need(4 + len - b.len())
                } else {
                    let size = wire::u16_at(b, 2 + len);
                    if b.len() < 4 + len + size {
                        Progress::Need(4 + len + size - b.len())
                    } else {
                        Progress::Done(
                            metadata_view(
                                meta,
                                target,
                                Some(b.subrange(4 + len, 4 + len + size)),
                            ),
                            4 + len + size,
                        )
                    }
                },
            }
        }
    }
}

/// A frame that the server writes in full is read back as it was: an end, stream data, or a
/// packet with its address.
#[verifier::rlimit(60)]
#[verifier::spinoff_prover]
pub proof fn lemma_frame_round_trip(f: FrameView, rest: Seq<u8>)
    requires
        f.status == STATUS_KEEP || f.status == STATUS_END,
        f.packet_address is Some ==> f.status == STATUS_KEEP && f.packet_address->0.valid(),
        frame_output(f).1 is Ok,
    ensures
        mux_frame(frame_output(f).0 + rest) == Progress::<_, VlessError>::Done(
            MetadataView {
                session_id: f.session_id,
                status: f.status,
                network: if f.packet_address is Some {
                    Some(NETWORK_UDP)
                } else {
                    None
                },
                address: match f.packet_address {
                    Some(a) => Some(a.on_wire()),
                    None => None,
                },
                data: f.data,
            },
            frame_output(f).0.len() as int,
        ),
{
    let all = frame_output(f).0 + rest;
    let target = frame_target(f)->0;
    let len = 4 + target.len() as int;
    if let Some(a) = f.packet_address {
        lemma_target_round_trip(a);
    }
    let tail = match f.data {
        Some(data) => wire::be16(data.len() as int) + data + rest,
        None => rest,
    };
    assert(all =~= frame_start(f) + target + tail);
    lemma_frame_head(f, target, tail);
    let meta = all.subrange(2, 2 + len);
    assert(metadata_target(meta) == Ok::<_, VlessError>(
        match f.packet_address {
            Some(a) => Some((NETWORK_UDP, a.on_wire())),
            None => None,
        },
    )) by {
        if let Some(a) = f.packet_address {
            assert(wire::after(meta, 5) =~= target_form(a)->0);
        }
    }
    if let Some(data) = f.data {
        assert(all[2 + len] == tail[0] && all[3 + len] == tail[1]);
        assert(wire::u16_at(all, 2 + len) == data.len());
        assert(all.subrange(4 + len, 4 + len + data.len() as int) =~= data);
    }
}

proof fn lemma_target_round_trip(a: AddressView)
    requires
        a.valid(),
        target_form(a) is Some,
    ensures
        mux_address(target_form(a)->0) == Ok::<_, VlessError>(a.on_wire()),
        target_form(a)->0.len() + 1 == udp_address_len(a),
        3 <= target_form(a)->0.len() <= 259,
{
    let form = target_form(a)->0;
    match a {
        AddressView::V4(octets, port) => {
            assert(form.subrange(3, 7) =~= octets);
        },
        AddressView::V6(octets, port, _, _) => {
            assert(form.subrange(3, 19) =~= octets);
        },
        AddressView::Domain(domain, port) => {
            let name = encode_utf8(domain);
            encode_utf8_valid_utf8(domain);
            encode_utf8_decode_utf8(domain);
            assert(form.subrange(4, 4 + name.len() as int) =~= name);
        },
    }
}

proof fn lemma_frame_head(f: FrameView, target: Seq<u8>, tail: Seq<u8>)
    requires
        target.len() <= 260,
        target.len() == (match f.packet_address {
            Some(a) => udp_address_len(a),
            None => 0,
        }),
    ensures
        ({
            let all = frame_start(f) + target + tail;
            let len = 4 + target.len() as int;
            let meta = all.subrange(2, 2 + len);
            &&& wire::u16_at(all, 0) == len
            &&& wire::u16_at(meta, 0) == f.session_id
            &&& meta[2] == f.status
            &&& (meta[3] % 2 == 1) == (f.data is Some)
            &&& wire::after(meta, 4) == target
            &&& wire::after(all, 2 + len) == tail
        }),
{
    let all = frame_start(f) + target + tail;
    let len = 4 + target.len() as int;
    let meta = all.subrange(2, 2 + len);
    assert(wire::after(meta, 4) =~= target);
    assert(wire::after(all, 2 + len) =~= tail);
}

/// A reader that asks for the missing bytes never asks for more than the frame takes, and bytes
/// behind the frame do not change it.
pub proof fn lemma_frame_prefix(b: Seq<u8>, n: int)
    requires
        0 <= n <= b.len(),
        mux_frame(b) is Done,
    ensures
        match mux_frame(b.subrange(0, n)) {
            Progress::Need(more) => more > 0 && n + more <= mux_frame(b)->1,
            Progress::Done(f, used) => mux_frame(b) == Progress::<_, VlessError>::Done(f, used),
            Progress::Fail(_) => false,
        },
{
    let p = b.subrange(0, n);
    if n >= 2 {
        let len = wire::u16_at(b, 0);
        if n >= 2 + len {
            assert(p.subrange(2, 2 + len) =~= b.subrange(2, 2 + len));
            if n >= 4 + len && b.subrange(2, 2 + len)[3] % 2 == 1 {
                let size = wire::u16_at(b, 2 + len);
                if n >= 4 + len + size {
                    assert(p.subrange(4 + len, 4 + len + size) =~= b.subrange(
                        4 + len,
                        4 + len + size,
                    ));
                }
            }
        }
    }
}

fn read_mux_address(s: &[u8]) -> (r: Result<Address, VlessError>)
    requires
        s@.len() >= 3,
    ensures
        match r {
            Ok(a) => mux_address(s@) == Ok::<_, VlessError>(a@),
            Err(error) => mux_address(s@) == Err::<AddressView, _>(error),
        },
{
    let len: usize = s.len();
    let port: u16 = get_u16(s, 0);
    let kind: u8 = s[2];
    if kind == ADDRESS_IPV4 {
        if len < 7 {
            return Err(VlessError::MuxIpv4Short);
        }
        return Ok(Address::SocketAddress(SocketAddr::V4(array_at::<4>(s, 3), port)));
    }
    if kind == ADDRESS_DOMAIN {
        if len < 4 {
            return Err(VlessError::MuxDomainShort);
        }
        let size: usize = s[3] as usize;
        if len < 4 + size {
            return Err(VlessError::MuxDomainShort);
        }
        return match domain_text(slice_subrange(s, 4, 4 + size)) {
            Some(domain) => Ok(Address::DomainNameAddress(domain, port)),
            None => Err(VlessError::MuxDomainInvalid),
        };
    }
    if kind == ADDRESS_IPV6 {
        if len < 19 {
            return Err(VlessError::MuxIpv6Short);
        }
        return Ok(Address::SocketAddress(SocketAddr::V6(array_at::<16>(s, 3), port, 0, 0)));
    }
    Err(VlessError::MuxAddressType(kind))
}

impl MuxCoolMetadata {
    /// Reads a frame off the start of a byte stream.
    pub fn read_from(b: &[u8]) -> (r: Decoded<Self, VlessError>)
        ensures
            r.progress() == mux_frame(b@),
    {
        let total: usize = b.len();
        if total < 2 {
            return Decoded::Need(2 - total);
        }
        let len: usize = get_u16(b, 0) as usize;
        if len < 4 || len > MAX_METADATA_LEN {
            return Decoded::Fail(VlessError::MuxMetadataLength(len));
        }
        if total < 2 + len {
            return Decoded::Need(2 + len - total);
        }
        let meta = slice_subrange(b, 2, 2 + len);
        let session_id: u16 = get_u16(meta, 0);
        let status: u8 = meta[2];
        let option: u8 = meta[3];
        let mut network: Option<u8> = None;
        let mut address: Option<Address> = None;
        if status == STATUS_NEW || (status == STATUS_KEEP && len > 4 && meta[4] == NETWORK_UDP) {
            if len < 8 {
                return Decoded::Fail(VlessError::MuxTargetShort);
            }
            match read_mux_address(slice_subrange(meta, 5, len)) {
                Ok(target) => {
                    network = Some(meta[4]);
                    address = Some(target);
                },
                Err(error) => {
                    return Decoded::Fail(error);
                },
            }
        }
        assert((option & 1) == 0 <==> option % 2 == 0) by (bit_vector);
        if option & OPTION_DATA == 0 {
            return Decoded::Done(
                MuxCoolMetadata { session_id, status, network, address, data: None },
                2 + len,
            );
        }
        if total < 4 + len {
            return Decoded::Need(4 + len - total);
        }
        let size: usize = get_u16(b, 2 + len) as usize;
        if total < 4 + len + size {
            return Decoded::Need(4 + len + size - total);
        }
        let data = Some(Chunk::from_vec(copy_part(b, 4 + len, 4 + len + size)));
        Decoded::Done(MuxCoolMetadata { session_id, status, network, address, data }, 4 + len + size)
    }
}

/// A session that a client opened.
pub enum MuxCoolSession {
    Tcp,
    Udp { default_address: Address },
}

/// The mathematical content of a session.
pub enum SessionView {
    Tcp,
    Udp { default_address: AddressView },
}

impl View for MuxCoolSession {
    type V = SessionView;

    open spec fn view(&self) -> SessionView {
        match *self {
            MuxCoolSession::Tcp => SessionView::Tcp,
            MuxCoolSession::Udp { default_address } => SessionView::Udp {
                default_address: default_address@,
            },
        }
    }
}

/// What is to be done about a frame.
pub enum MuxAction {
    /// Hand out a new TCP stream to `address`, with the first bytes to read from it.
    OpenTcp { session_id: u16, address: Address, first: Option<Chunk> },
    /// Hand out a new UDP stream, with the first packet to read from it.
    OpenUdp { session_id: u16, address: Address, first: Option<Chunk> },
    /// Hand bytes to a TCP stream.
    DeliverTcp { session_id: u16, data: Chunk },
    /// Hand a packet to a UDP stream.
    DeliverUdp { session_id: u16, data: Chunk, address: Address },
    /// Tell the client that the session is over.
    SendEnd { session_id: u16 },
    /// Mark the stream of a session as closed.
    Close { session_id: u16 },
    Nothing,
}

/// The mathematical content of a `MuxAction`.
pub enum ActionView {
    OpenTcp { session_id: u16, address: AddressView, first: Option<Seq<u8>> },
    OpenUdp { session_id: u16, address: AddressView, first: Option<Seq<u8>> },
    DeliverTcp { session_id: u16, data: Seq<u8> },
    DeliverUdp { session_id: u16, data: Seq<u8>, address: AddressView },
    SendEnd { session_id: u16 },
    Close { session_id: u16 },
    Nothing,
}

impl View for MuxAction {
    type V = ActionView;

    open spec fn view(&self) -> ActionView {
        match *self {
            MuxAction::OpenTcp { session_id, address, first } => ActionView::OpenTcp {
                session_id,
                address: address@,
                first: chunk_view(first),
            },
            MuxAction::OpenUdp { session_id, address, first } => ActionView::OpenUdp {
                session_id,
                address: address@,
                first: chunk_view(first),
            },
            MuxAction::DeliverTcp { session_id, data } => ActionView::DeliverTcp {
                session_id,
                data: data@,
            },
            MuxAction::DeliverUdp { session_id, data, address } => ActionView::DeliverUdp {
                session_id,
                data: data@,
                address: address@,
            },
            MuxAction::SendEnd { session_id } => ActionView::SendEnd { session_id },
            MuxAction::Close { session_id } => ActionView::Close { session_id },
            MuxAction::Nothing => ActionView::Nothing,
        }
    }
}

/// The sessions of one connection by their ids.
pub struct MuxSessions {
    sessions: HashMap<u16, MuxCoolSession>,
}

impl View for MuxSessions {
    type V = Map<u16, SessionView>;

    closed spec fn view(&self) -> Map<u16, SessionView> {
        self.sessions@.map_values(|s: MuxCoolSession| s@)
    }
}

/// The sessions behind a frame and what is to be done about it, or why the connection ends.
pub open spec fn mux_step(s: Map<u16, SessionView>, f: MetadataView) -> Result<
    (Map<u16, SessionView>, ActionView),
    VlessError,
> {
    let id = f.session_id;
    if f.status == STATUS_NEW {
        match f.address {
            None => Err(VlessError::MuxTargetMissing),
            Some(address) => if f.network == Some(NETWORK_TCP) {
                Ok(
                    (
                        s.insert(id, SessionView::Tcp),
                        ActionView::OpenTcp { session_id: id, address, first: f.data },
                    ),
                )
            } else if f.network == Some(NETWORK_UDP) {
                Ok(
                    (
                        s.insert(id, SessionView::Udp { default_address: address }),
                        ActionView::OpenUdp { session_id: id, address, first: f.data },
                    ),
                )
            } else {
                Err(VlessError::MuxNetwork)
            },
        }
    } else if f.status == STATUS_KEEP {
        match f.data {
            None => Ok((s, ActionView::Nothing)),
            Some(data) => if !s.contains_key(id) {
                Ok((s, ActionView::SendEnd { session_id: id }))
            } else {
                match s[id] {
                    SessionView::Tcp => Ok((s, ActionView::DeliverTcp { session_id: id, data })),
                    SessionView::Udp { default_address } => Ok(
                        (
                            s,
                            ActionView::DeliverUdp {
                                session_id: id,
                                data,
                                address: match f.address {
                                    Some(a) => a,
                                    None => default_address,
                                },
                            },
                        ),
                    ),
                }
            },
        }
    } else if f.status == STATUS_END {
        if s.contains_key(id) {
            Ok((s.remove(id), ActionView::Close { session_id: id }))
        } else {
            Ok((s, ActionView::Nothing))
        }
    } else if f.status == STATUS_KEEP_ALIVE {
        Ok((s, ActionView::Nothing))
    } else {
        Err(VlessError::MuxStatus(f.status))
    }
}

/// A frame touches no session but its own.
pub proof fn lemma_step_is_local(s: Map<u16, SessionView>, f: MetadataView, other: u16)
    requires
        mux_step(s, f) is Ok,
        other != f.session_id,
    ensures
        mux_step(s, f)->Ok_0.0.contains_key(other) == s.contains_key(other),
        s.contains_key(other) ==> mux_step(s, f)->Ok_0.0[other] == s[other],
{
}

/// Data for a session that is not open is answered with its end; data for one that is open goes to
/// it, and nothing is opened or closed by data.
pub proof fn lemma_data_goes_to_open_sessions(s: Map<u16, SessionView>, f: MetadataView)
    requires
        f.status == STATUS_KEEP,
        f.data is Some,
    ensures
        mux_step(s, f) is Ok,
        mux_step(s, f)->Ok_0.0 == s,
        s.contains_key(f.session_id) <==> !(mux_step(s, f)->Ok_0.1 is SendEnd),
{
}

/// What `DeliverTcp` and `DeliverUdp` reach after a session was opened: bytes of a TCP session, and
/// packets of a UDP session, which go to the address it was opened with unless they name another.
pub proof fn lemma_open_then_data(s: Map<u16, SessionView>, open: MetadataView, data: MetadataView)
    requires
        open.status == STATUS_NEW,
        mux_step(s, open) is Ok,
        data.status == STATUS_KEEP,
        data.session_id == open.session_id,
        data.data is Some,
    ensures
        ({
            let s2 = mux_step(s, open)->Ok_0.0;
            mux_step(s2, data)->Ok_0.1 == (if open.network == Some(NETWORK_TCP) {
                ActionView::DeliverTcp { session_id: open.session_id, data: data.data->0 }
            } else {
                ActionView::DeliverUdp {
                    session_id: open.session_id,
                    data: data.data->0,
                    address: match data.address {
                        Some(a) => a,
                        None => open.address->0,
                    },
                }
            })
        }),
{
}

/// After the end of a session its data is answered with an end.
pub proof fn lemma_end_then_data(s: Map<u16, SessionView>, end: MetadataView, data: MetadataView)
    requires
        end.status == STATUS_END,
        data.status == STATUS_KEEP,
        data.session_id == end.session_id,
        data.data is Some,
    ensures
        mux_step(s, end) is Ok,
        mux_step(mux_step(s, end)->Ok_0.0, data)->Ok_0.1 == (ActionView::SendEnd {
            session_id: end.session_id,
        }),
{
}

impl MuxSessions {
    pub fn new() -> (r: MuxSessions)
        ensures
            r@ == Map::<u16, SessionView>::empty(),
    {
        broadcast use vstd::std_specs::hash::group_hash_axioms;

        let r = MuxSessions { sessions: HashMap::new() };
        assert(r@ =~= Map::empty());
        r
    }

    fn insert(&mut self, session_id: u16, session: MuxCoolSession)
        ensures
            final(self)@ == old(self)@.insert(session_id, session@),
    {
        broadcast use vstd::std_specs::hash::group_hash_axioms;

        let ghost before = self@;
        self.sessions.insert(session_id, session);
        assert(self@ =~= before.insert(session_id, session@));
    }

    /// Takes a session out, when it is open.
    fn remove(&mut self, session_id: u16) -> (r: bool)
        ensures
            r == old(self)@.contains_key(session_id),
            final(self)@ == old(self)@.remove(session_id),
    {
        broadcast use vstd::std_specs::hash::group_hash_axioms;

        let ghost before = self@;
        let r = self.sessions.remove(&session_id);
        assert(self@ =~= before.remove(session_id));
        r.is_some()
    }

    /// Decides what is to be done about a frame.
    pub fn step(&mut self, frame: MuxCoolMetadata) -> (r: Result<MuxAction, VlessError>)
        ensures
            match r {
                Ok(action) => mux_step(old(self)@, frame@) == Ok::<_, VlessError>(
                    (final(self)@, action@),
                ),
                Err(error) => mux_step(old(self)@, frame@) == Err::<
                    (Map<u16, SessionView>, ActionView),
                    _,
                >(error) && final(self)@ == old(self)@,
            },
    {
        broadcast use vstd::std_specs::hash::group_hash_axioms;

        let session_id: u16 = frame.session_id;
        if frame.status == STATUS_NEW {
            let address = match frame.address {
                Some(address) => address,
                None => return Err(VlessError::MuxTargetMissing),
            };
            return match frame.network {
                Some(NETWORK_TCP) => {
                    self.insert(session_id, MuxCoolSession::Tcp);
                    Ok(MuxAction::OpenTcp { session_id, address, first: frame.data })
                },
                Some(NETWORK_UDP) => {
                    self.insert(
                        session_id,
                        MuxCoolSession::Udp { default_address: address.clone() },
                    );
                    Ok(MuxAction::OpenUdp { session_id, address, first: frame.data })
                },
                _ => Err(VlessError::MuxNetwork),
            };
        }
        if frame.status == STATUS_KEEP {
            let data = match frame.data {
                Some(data) => data,
                None => return Ok(MuxAction::Nothing),
            };
            return match self.sessions.get(&session_id) {
                Some(MuxCoolSession::Tcp) => Ok(MuxAction::DeliverTcp { session_id, data }),
                Some(MuxCoolSession::Udp { default_address }) => {
                    let address = match frame.address {
                        Some(address) => address,
                        None => default_address.clone(),
                    };
                    Ok(MuxAction::DeliverUdp { session_id, data, address })
                },
                None => Ok(MuxAction::SendEnd { session_id }),
            };
        }
        if frame.status == STATUS_END {
            let ghost before = self@;
            if self.remove(session_id) {
                return Ok(MuxAction::Close { session_id });
            }
            assert(self@ =~= before);
            return Ok(MuxAction::Nothing);
        }
        if frame.status == STATUS_KEEP_ALIVE {
            return Ok(MuxAction::Nothing);
        }
        Err(VlessError::MuxStatus(frame.status))
    }

    /// Forgets a session whose stream takes no more data; says whether it is to be closed.
    pub fn delivery_failed(&mut self, session_id: u16) -> (r: bool)
        ensures
            r == old(self)@.contains_key(session_id),
            final(self)@ == old(self)@.remove(session_id),
    {
        self.remove(session_id)
    }
}

/// The bytes that a stream received and its reader has not taken.
pub struct MuxReadBuffer {
    buffer: Option<Chunk>,
}

impl View for MuxReadBuffer {
    type V = Option<Seq<u8>>;

    closed spec fn view(&self) -> Option<Seq<u8>> {
        chunk_view(self.buffer)
    }
}

/// What a read into `room` bytes gets from the kept chunk, and what stays of it.
pub open spec fn is_buffer_read(
    before: Option<Seq<u8>>,
    after: Option<Seq<u8>>,
    room: int,
    out: Option<Seq<u8>>,
) -> bool {
    match (before, out) {
        (Some(kept), Some(bytes)) => {
            &&& bytes == kept.subrange(0, buffer::least(kept.len() as int, room))
            &&& if kept.len() <= room {
                after is None
            } else {
                after == Some(kept.subrange(room, kept.len() as int))
            }
        },
        (None, None) => after is None,
        _ => false,
    }
}

impl MuxReadBuffer {
    pub fn new() -> (r: MuxReadBuffer)
        ensures
            r@ == None::<Seq<u8>>,
    {
        MuxReadBuffer { buffer: None }
    }

    /// Keeps a chunk that came in while nothing was kept.
    pub fn store(&mut self, data: Chunk)
        requires
            old(self)@ is None,
        ensures
            final(self)@ == Some(data@),
    {
        self.buffer = Some(data);
    }

    /// What a read into `room` bytes gets: the next bytes of the kept chunk, or `None` when the
    /// next chunk has to be waited for. A chunk that was taken in full is gone.
    pub fn read(&mut self, room: usize) -> (r: Option<Vec<u8>>)
        ensures
            is_buffer_read(
                old(self)@,
                final(self)@,
                room as int,
                match r {
                    Some(out) => Some(out@),
                    None => None,
                },
            ),
    {
        match self.buffer.take() {
            Some(mut chunk) => {
                let whole: bool = chunk.len() <= room;
                let out = chunk.take(room);
                if !whole {
                    self.buffer = Some(chunk);
                }
                Some(out)
            },
            None => None,
        }
    }
}

/// How handing a frame to the connection went.
pub enum SendOutcome {
    Sent,
    Full,
    Closed,
}

/// What a write on a stream does next.
pub enum WriteStep {
    /// The write is done with this many bytes.
    Done(usize),
    /// The connection is gone.
    Reset,
    /// Wait for the frame that did not fit into the queue.
    Wait,
    /// Offer this frame to the queue.
    Offer(MuxCoolFrame),
}

/// The writing half of a stream: whether a frame waits for room in the queue.
pub struct MuxWriter {
    pub session_id: u16,
    pub waiting: bool,
}

/// The frame that carries the start of `buf`.
pub open spec fn keep_frame(session_id: u16, buf: Seq<u8>) -> FrameView {
    FrameView {
        session_id,
        status: STATUS_KEEP,
        packet_address: None,
        data: Some(buf.subrange(0, buffer::least(buf.len() as int, MAX_DATA_LEN as int))),
    }
}

/// The step that offers the start of `buf` to a queue that may be closed.
pub open spec fn is_offer(session_id: u16, buf: Seq<u8>, closed: bool, step: WriteStep) -> bool {
    if closed {
        step == WriteStep::Reset
    } else {
        step matches WriteStep::Offer(frame) && frame@ == keep_frame(session_id, buf)
    }
}

/// What a write of `buf` starts with.
pub open spec fn is_write_start(w: MuxWriter, buf: Seq<u8>, closed: bool, step: WriteStep) -> bool {
    if buf.len() == 0 {
        step == WriteStep::Done(0)
    } else if w.waiting {
        step == WriteStep::Wait
    } else {
        is_offer(w.session_id, buf, closed, step)
    }
}

/// What follows when the frame that waited has gone out or never will.
pub open spec fn is_waited(
    before: MuxWriter,
    after: MuxWriter,
    sent: bool,
    buf: Seq<u8>,
    closed: bool,
    step: WriteStep,
) -> bool {
    &&& after.session_id == before.session_id
    &&& after.waiting == (before.waiting && !sent)
    &&& is_offer(before.session_id, buf, !sent || closed, step)
}

/// What a flush comes to when the frame that waited has gone out or never will.
pub open spec fn is_flushed(
    before: MuxWriter,
    after: MuxWriter,
    sent: bool,
    step: WriteStep,
) -> bool {
    &&& after.session_id == before.session_id
    &&& after.waiting == (before.waiting && !sent)
    &&& step == (if before.waiting && !sent {
        WriteStep::Reset
    } else {
        WriteStep::Done(0)
    })
}

/// What follows the offer of a frame with `length` bytes of data.
pub open spec fn is_offered(
    before: MuxWriter,
    after: MuxWriter,
    outcome: SendOutcome,
    length: usize,
    step: WriteStep,
) -> bool {
    &&& after.session_id == before.session_id
    &&& after.waiting == (before.waiting || outcome is Full)
    &&& step == (match outcome {
        SendOutcome::Sent => WriteStep::Done(length),
        SendOutcome::Full => WriteStep::Wait,
        SendOutcome::Closed => WriteStep::Reset,
    })
}

impl MuxWriter {
    pub fn new(session_id: u16) -> (r: MuxWriter)
        ensures
            r.session_id == session_id,
            !r.waiting,
    {
        MuxWriter { session_id, waiting: false }
    }

    /// What a write of `buf` starts with.
    pub fn start(&self, buf: &[u8], closed: bool) -> (r: WriteStep)
        ensures
            is_write_start(*self, buf@, closed, r),
    {
        if buf.len() == 0 {
            return WriteStep::Done(0);
        }
        if self.waiting {
            return WriteStep::Wait;
        }
        self.offer(buf, closed)
    }

    fn offer(&self, buf: &[u8], closed: bool) -> (r: WriteStep)
        ensures
            is_offer(self.session_id, buf@, closed, r),
    {
        if closed {
            WriteStep::Reset
        } else {
            WriteStep::Offer(MuxCoolFrame::keep(self.session_id, buf))
        }
    }

    /// What follows when the frame that waited has gone out (`sent`) or never will. A write that
    /// waited offers its bytes after that.
    pub fn waited(&mut self, sent: bool, buf: &[u8], closed: bool) -> (r: WriteStep)
        ensures
            is_waited(*old(self), *final(self), sent, buf@, closed, r),
    {
        if !sent {
            return WriteStep::Reset;
        }
        self.waiting = false;
        self.offer(buf, closed)
    }

    /// What a flush comes to when the frame that waited has gone out (`sent`) or never will; with
    /// no frame waiting a flush is done.
    pub fn flushed(&mut self, sent: bool) -> (r: WriteStep)
        ensures
            is_flushed(*old(self), *final(self), sent, r),
    {
        if self.waiting && !sent {
            return WriteStep::Reset;
        }
        self.waiting = false;
        WriteStep::Done(0)
    }

    /// What follows the offer of a frame with `length` bytes of data.
    pub fn offered(&mut self, outcome: SendOutcome, length: usize) -> (r: WriteStep)
        ensures
            is_offered(*old(self), *final(self), outcome, length, r),
    {
        match outcome {
            SendOutcome::Sent => WriteStep::Done(length),
            SendOutcome::Full => {
                self.waiting = true;
                WriteStep::Wait
            },
            SendOutcome::Closed => WriteStep::Reset,
        }
    }
}

/// Whether a packet fits into a receive buffer of `room` bytes.
pub fn check_packet(packet: &Chunk, room: usize) -> (r: Result<(), VlessError>)
    ensures
        match r {
            Ok(()) => packet@.len() <= room,
            Err(error) => packet@.len() > room && error == VlessError::MuxUdpPacketTooLarge(
                packet@.len() as usize,
            ),
        },
{
    if packet.len() > room {
        Err(VlessError::MuxUdpPacketTooLarge(packet.len()))
    } else {
        Ok(())
    }
}

/// The end of a session closes its stream exactly when the session is open, TCP or UDP; an end for
/// a session that is not open does nothing. Either way the session is gone.
pub proof fn lemma_end_closes_the_session(s: Map<u16, SessionView>, end: MetadataView)
    requires
        end.status == 3,
    ensures
        mux_step(s, end) matches Ok((after, action)) && {
            &&& s.contains_key(end.session_id) <==> action == (ActionView::Close {
                session_id: end.session_id,
            })
            &&& !s.contains_key(end.session_id) <==> action is Nothing
            &&& !after.contains_key(end.session_id)
        },
{
}

/// A new session needs a target. One of TCP or UDP is then open, in place of one that had its id
/// before, and its stream is handed out with the address of the target and the first data; any
/// other network is refused.
pub proof fn lemma_new_sessions_are_opened(s: Map<u16, SessionView>, open: MetadataView)
    requires
        open.status == 1,
    ensures
        open.address is None ==> mux_step(s, open) is Err,
        open.address matches Some(a) ==> {
            &&& open.network == Some(1u8) ==> (mux_step(s, open) matches Ok((after, action)) && action
                == (ActionView::OpenTcp {
                session_id: open.session_id,
                address: a,
                first: open.data,
            }) && after.contains_key(open.session_id) && after[open.session_id] is Tcp)
            &&& open.network == Some(2u8) ==> (mux_step(s, open) matches Ok((after, action)) && action
                == (ActionView::OpenUdp {
                session_id: open.session_id,
                address: a,
                first: open.data,
            }) && after.contains_key(open.session_id) && after[open.session_id]
                == (SessionView::Udp { default_address: a }))
            &&& open.network != Some(1u8) && open.network != Some(2u8) ==> mux_step(s, open) is Err
        },
{
}

/// Data goes to the stream of its session, to a packet stream with the address that the frame
/// names or else the one it was opened with; no session is opened or closed by it. Without data
/// there is nothing to do.
pub proof fn lemma_data_reaches_its_session(s: Map<u16, SessionView>, f: MetadataView)
    requires
        f.status == 2,
    ensures
        mux_step(s, f) matches Ok((after, action)) && {
            &&& after == s
            &&& f.data is None ==> action is Nothing
            &&& f.data matches Some(data) ==> {
                &&& !s.contains_key(f.session_id) ==> action == (ActionView::SendEnd {
                    session_id: f.session_id,
                })
                &&& s.contains_key(f.session_id) && s[f.session_id] is Tcp ==> action
                    == (ActionView::DeliverTcp { session_id: f.session_id, data })
                &&& s.contains_key(f.session_id) && s[f.session_id] is Udp ==> action
                    == (ActionView::DeliverUdp {
                    session_id: f.session_id,
                    data,
                    address: match f.address {
                        Some(a) => a,
                        None => s[f.session_id]->default_address,
                    },
                })
            }
        },
{
}

/// A keepalive changes nothing, and a status that is none of the four ends the connection.
pub proof fn lemma_other_statuses(s: Map<u16, SessionView>, f: MetadataView)
    ensures
        f.status == 4 ==> mux_step(s, f) == Ok::<_, VlessError>((s, ActionView::Nothing)),
        f.status == 0 || f.status > 4 ==> mux_step(s, f) == Err::<
            (Map<u16, SessionView>, ActionView),
            _,
        >(VlessError::MuxStatus(f.status)),
{
}

/// The target of a frame as it is written: port, type and address.
pub open spec fn written_target(a: AddressView) -> Seq<u8> {
    match a {
        AddressView::V4(octets, port) => seq![
            (port as int / 256) as u8,
            (port as int % 256) as u8,
            1u8,
        ] + octets,
        AddressView::Domain(domain, port) => seq![
            (port as int / 256) as u8,
            (port as int % 256) as u8,
            2u8,
            encode_utf8(domain).len() as u8,
        ] + encode_utf8(domain),
        AddressView::V6(octets, port, _, _) => seq![
            (port as int / 256) as u8,
            (port as int % 256) as u8,
            3u8,
        ] + octets,
    }
}

proof fn lemma_written_target(a: AddressView, extra: Seq<u8>)
    requires
        a.valid(),
        a matches AddressView::Domain(domain, _) ==> encode_utf8(domain).len() <= 255,
    ensures
        mux_address(written_target(a) + extra) == Ok::<_, VlessError>(a.on_wire()),
        3 <= written_target(a).len(),
{
    let all = written_target(a) + extra;
    match a {
        AddressView::V4(octets, port) => {
            assert(all.subrange(3, 7) =~= octets);
        },
        AddressView::V6(octets, port, _, _) => {
            assert(all.subrange(3, 19) =~= octets);
        },
        AddressView::Domain(domain, port) => {
            let name = encode_utf8(domain);
            encode_utf8_valid_utf8(domain);
            encode_utf8_decode_utf8(domain);
            assert(all[3] == name.len());
            assert(all.subrange(4, 4 + name.len() as int) =~= name);
        },
    }
}

/// The metadata of a frame as it is written: id, status, option, and what follows them.
pub open spec fn written_metadata(id: u16, status: u8, option: u8, more: Seq<u8>) -> Seq<u8> {
    seq![(id as int / 256) as u8, (id as int % 256) as u8, status, option] + more
}

/// A frame as it is written: the length of its metadata, the metadata and, where the option says
/// so, the length of the data and the data.
pub open spec fn written_frame(meta: Seq<u8>, data: Option<Seq<u8>>) -> Seq<u8> {
    let start = seq![(meta.len() as int / 256) as u8, (meta.len() as int % 256) as u8] + meta;
    match data {
        Some(d) => start + seq![(d.len() as int / 256) as u8, (d.len() as int % 256) as u8] + d,
        None => start,
    }
}

proof fn lemma_written_frame(meta: Seq<u8>, data: Option<Seq<u8>>, rest: Seq<u8>)
    requires
        4 <= meta.len() <= 512,
        data matches Some(d) ==> d.len() < 65536,
        data is Some <==> meta[3] % 2 == 1,
    ensures
        mux_frame(written_frame(meta, data) + rest) == (match metadata_target(meta) {
            Err(error) => Progress::Fail(error),
            Ok(target) => Progress::Done(
                metadata_view(meta, target, data),
                written_frame(meta, data).len() as int,
            ),
        }),
{
    let all = written_frame(meta, data) + rest;
    let n = meta.len() as int;
    assert(all[0] == (n / 256) as u8 && all[1] == (n % 256) as u8);
    assert(wire::u16_at(all, 0) == n);
    assert(all.subrange(2, 2 + n) =~= meta);
    if let Some(d) = data {
        let m = d.len() as int;
        assert(all[2 + n] == (m / 256) as u8 && all[3 + n] == (m % 256) as u8);
        assert(wire::u16_at(all, 2 + n) == m);
        assert(all.subrange(4 + n, 4 + n + m) =~= d);
    }
}

/// A frame with a target is read back as a client wrote it: a new session, or a packet that names
/// an address. Bytes of the metadata behind the address are ignored, only the lowest bit of the
/// option counts, and bytes behind the frame are left alone.
pub proof fn lemma_frames_with_target_are_read(
    id: u16,
    status: u8,
    option: u8,
    network: u8,
    a: AddressView,
    extra: Seq<u8>,
    data: Option<Seq<u8>>,
    rest: Seq<u8>,
)
    requires
        status == 1 || (status == 2 && network == 2),
        a.valid(),
        a matches AddressView::Domain(domain, _) ==> encode_utf8(domain).len() <= 255,
        5 + written_target(a).len() + extra.len() <= 512,
        data matches Some(d) ==> d.len() < 65536,
        data is Some <==> option % 2 == 1,
    ensures
        ({
            let f = written_frame(
                written_metadata(id, status, option, seq![network] + (written_target(a) + extra)),
                data,
            );
            mux_frame(f + rest) == Progress::<_, VlessError>::Done(
                MetadataView {
                    session_id: id,
                    status,
                    network: Some(network),
                    address: Some(a.on_wire()),
                    data,
                },
                f.len() as int,
            )
        }),
{
    let more = seq![network] + (written_target(a) + extra);
    let meta = written_metadata(id, status, option, more);
    lemma_written_target(a, extra);
    assert(meta[0] == (id as int / 256) as u8 && meta[1] == (id as int % 256) as u8);
    assert(meta[2] == status && meta[3] == option && meta[4] == network);
    assert(wire::u16_at(meta, 0) == id);
    assert(wire::after(meta, 5) =~= written_target(a) + extra);
    lemma_written_frame(meta, data, rest);
}

/// A frame without a target is read back too, and whatever its metadata holds besides is ignored.
pub proof fn lemma_frames_without_target_are_read(
    id: u16,
    status: u8,
    option: u8,
    extra: Seq<u8>,
    data: Option<Seq<u8>>,
    rest: Seq<u8>,
)
    requires
        status != 1,
        status == 2 ==> extra.len() == 0 || extra[0] != 2,
        extra.len() <= 508,
        data matches Some(d) ==> d.len() < 65536,
        data is Some <==> option % 2 == 1,
    ensures
        ({
            let f = written_frame(written_metadata(id, status, option, extra), data);
            mux_frame(f + rest) == Progress::<_, VlessError>::Done(
                MetadataView { session_id: id, status, network: None, address: None, data },
                f.len() as int,
            )
        }),
{
    let meta = written_metadata(id, status, option, extra);
    assert(meta[0] == (id as int / 256) as u8 && meta[1] == (id as int % 256) as u8);
    assert(meta[2] == status && meta[3] == option);
    if extra.len() > 0 {
        assert(meta[4] == extra[0]);
    }
    assert(wire::u16_at(meta, 0) == id);
    lemma_written_frame(meta, data, rest);
}

/// Metadata of fewer than 4 or more than 512 bytes ends the connection.
pub proof fn lemma_metadata_has_limits(b: Seq<u8>)
    requires
        b.len() >= 2,
    ensures
        ({
            let n = b[0] as int * 256 + b[1] as int;
            n < 4 || n > 512 <==> mux_frame(b) == Progress::<MetadataView, _>::Fail(
                VlessError::MuxMetadataLength(n as usize),
            )
        }),
{
    let n = b[0] as int * 256 + b[1] as int;
    if 4 <= n <= 512 && b.len() >= 2 + n {
        let meta = b.subrange(2, 2 + n);
        assert(metadata_target(meta) matches Err(e) ==> !(e is MuxMetadataLength));
    }
}

/// What the server sends can be read by the same rules: the frames that it writes are those that
/// are written out here.
pub proof fn lemma_frames_are_written_out(f: FrameView)
    requires
        f.packet_address matches Some(a) ==> a.valid(),
        frame_output(f).1 is Ok,
    ensures
        frame_output(f).0 == written_frame(
            written_metadata(
                f.session_id,
                f.status,
                if f.data is Some {
                    1u8
                } else {
                    0u8
                },
                match f.packet_address {
                    Some(a) => seq![2u8] + written_target(a),
                    None => Seq::empty(),
                },
            ),
            f.data,
        ),
{
    let out = frame_output(f).0;
    if let Some(a) = f.packet_address {
        assert(target_form(a)->0 =~= written_target(a));
        lemma_target_round_trip(a);
    }
    let more = match f.packet_address {
        Some(a) => seq![2u8] + written_target(a),
        None => Seq::empty(),
    };
    assert(frame_target(f)->0 =~= more);
    let meta = written_metadata(
        f.session_id,
        f.status,
        if f.data is Some {
            1u8
        } else {
            0u8
        },
        more,
    );
    assert(metadata_len(f.packet_address) == meta.len());
    assert(frame_start(f) + more =~= wire::be16(meta.len() as int) + meta);
    assert(out =~= written_frame(meta, f.data));
}

/// A write offers a frame of its session with as much of its bytes as a frame holds, at least one.
/// It offers nothing while a frame waits, and a closed queue ends it.
pub proof fn lemma_writes_offer_frames(w: MuxWriter, buf: Seq<u8>, closed: bool, step: WriteStep)
    requires
        is_write_start(w, buf, closed, step),
    ensures
        buf.len() == 0 <==> step == WriteStep::Done(0),
        buf.len() > 0 && w.waiting <==> step is Wait,
        buf.len() > 0 && !w.waiting && closed <==> step is Reset,
        buf.len() > 0 && !w.waiting && !closed <==> step is Offer,
        step matches WriteStep::Offer(frame) ==> {
            &&& frame@.session_id == w.session_id
            &&& frame@.status == 2
            &&& frame@.packet_address is None
            &&& frame@.data matches Some(data) && 0 < data.len() <= 65535 && (data.len() == 65535
                || data.len() == buf.len()) && data == buf.subrange(0, data.len() as int)
        },
{
}

/// A frame that does not fit waits, and the writer with it; once it is gone the bytes are offered,
/// and if it never goes the connection is gone. A flush waits for it too.
pub proof fn lemma_writers_wait_for_room(
    w0: MuxWriter,
    w1: MuxWriter,
    w2: MuxWriter,
    outcome: SendOutcome,
    length: usize,
    step1: WriteStep,
    sent: bool,
    buf: Seq<u8>,
    closed: bool,
    step2: WriteStep,
)
    requires
        is_offered(w0, w1, outcome, length, step1),
    ensures
        outcome is Sent ==> step1 == WriteStep::Done(length) && w1 == w0,
        outcome is Full ==> step1 is Wait && w1.waiting,
        outcome is Closed ==> step1 is Reset && w1 == w0,
        is_waited(w1, w2, sent, buf, closed, step2) ==> {
            &&& w2.session_id == w0.session_id
            &&& sent ==> !w2.waiting
            &&& !sent ==> w2.waiting == w1.waiting
            &&& step2 is Offer <==> sent && !closed
            &&& step2 is Reset <==> !sent || closed
        },
        is_flushed(w1, w2, sent, step2) ==> {
            &&& w2.session_id == w0.session_id
            &&& sent ==> step2 == WriteStep::Done(0) && !w2.waiting
            &&& !sent && w1.waiting ==> step2 is Reset && w2.waiting
            &&& !sent && !w1.waiting ==> step2 == WriteStep::Done(0) && !w2.waiting
        },
{
}

/// No byte of a chunk is lost or read twice: what a read gets and what stays make up what was kept,
/// and as much is read as there is room for.
pub proof fn lemma_buffered_bytes_are_read_once(
    before: Option<Seq<u8>>,
    after: Option<Seq<u8>>,
    room: int,
    out: Option<Seq<u8>>,
)
    requires
        0 <= room,
        is_buffer_read(before, after, room, out),
    ensures
        out is Some <==> before is Some,
        before matches Some(kept) ==> {
            &&& out->0 + (match after {
                Some(rest) => rest,
                None => Seq::empty(),
            }) == kept
            &&& out->0.len() <= room
            &&& after is None || (out->0.len() == room && after->0.len() > 0)
        },
        before is None ==> after is None,
{
    if let Some(kept) = before {
        assert(out->0 + (match after {
            Some(rest) => rest,
            None => Seq::empty(),
        }) =~= kept);
    }
}

/// A packet goes into one frame of its session, whole and with its address, unless it is too long;
/// the end of a session is a frame without anything.
pub proof fn lemma_frames_that_are_sent(session_id: u16, address: AddressView, buf: Seq<u8>)
    ensures
        packet_frame(session_id, address, buf) is Ok <==> buf.len() < 65536,
        packet_frame(session_id, address, buf) matches Ok(f) ==> f.session_id == session_id
            && f.status == 2 && f.packet_address == Some(address) && f.data == Some(buf),
        packet_frame(session_id, address, buf) matches Err(e) ==> e is MuxUdpPacketLength,
        end_frame(session_id).session_id == session_id,
        end_frame(session_id).status == 3,
        end_frame(session_id).data is None,
        end_frame(session_id).packet_address is None,
{
}

/// A frame that is not complete is asked for by the length of its metadata, the metadata, the length
/// of its data, and then all of it.
pub proof fn lemma_missing_bytes_of_a_frame(b: Seq<u8>)
    ensures
        b.len() < 2 ==> mux_frame(b) == Progress::<MetadataView, VlessError>::Need(2 - b.len()),
        b.len() >= 2 && 4 <= b[0] * 256 + b[1] <= 512 ==> {
            let n = b[0] * 256 + b[1];
            &&& b.len() < 2 + n ==> mux_frame(b) == Progress::<MetadataView, VlessError>::Need(
                2 + n - b.len(),
            )
            &&& b.len() >= 2 + n && metadata_target(b.subrange(2, 2 + n)) is Ok && b[5] % 2 == 1 ==> {
                &&& b.len() < 4 + n ==> mux_frame(b) == Progress::<MetadataView, VlessError>::Need(
                    4 + n - b.len(),
                )
                &&& b.len() >= 4 + n && b.len() < 4 + n + b[2 + n] * 256 + b[3 + n] ==> mux_frame(b)
                    == Progress::<MetadataView, VlessError>::Need(
                    4 + n + b[2 + n] * 256 + b[3 + n] - b.len(),
                )
            }
        },
{
    if b.len() >= 2 {
        let n = b[0] * 256 + b[1];
        if 4 <= n <= 512 && b.len() >= 2 + n {
            assert(b.subrange(2, 2 + n)[3] == b[5]);
        }
    }
}

/// A new session whose metadata has no room for network, port and type lacks its target; one whose
/// address is cut short, of another type or no text is refused for that.
pub proof fn lemma_bad_targets_are_refused(meta: Seq<u8>)
    requires
        meta.len() >= 4,
        meta[2] == 1 || (meta[2] == 2 && meta.len() > 4 && meta[4] == 2),
    ensures
        metadata_target(meta) == Err::<Option<(u8, AddressView)>, _>(VlessError::MuxTargetShort)
            <==> meta.len() < 8,
        meta.len() >= 8 && meta[7] == 1 && meta.len() < 12 ==> metadata_target(meta) == Err::<
            Option<(u8, AddressView)>,
            _,
        >(VlessError::MuxIpv4Short),
        meta.len() >= 8 && meta[7] == 3 && meta.len() < 24 ==> metadata_target(meta) == Err::<
            Option<(u8, AddressView)>,
            _,
        >(VlessError::MuxIpv6Short),
        meta.len() == 8 && meta[7] == 2 ==> metadata_target(meta) == Err::<
            Option<(u8, AddressView)>,
            _,
        >(VlessError::MuxDomainShort),
        meta.len() >= 9 && meta[7] == 2 && meta.len() < 9 + meta[8] ==> metadata_target(meta)
            == Err::<Option<(u8, AddressView)>, _>(VlessError::MuxDomainShort),
        meta.len() >= 9 && meta[7] == 2 && meta.len() >= 9 + meta[8] && !valid_utf8(
            meta.subrange(9, 9 + meta[8]),
        ) ==> metadata_target(meta) == Err::<Option<(u8, AddressView)>, _>(
            VlessError::MuxDomainInvalid,
        ),
        meta.len() >= 8 && (meta[7] == 0 || meta[7] > 3) ==> metadata_target(meta) == Err::<
            Option<(u8, AddressView)>,
            _,
        >(VlessError::MuxAddressType(meta[7])),
{
    if meta.len() >= 8 {
        let s = wire::after(meta, 5);
        assert(s[2] == meta[7]);
        if meta.len() >= 9 {
            assert(s[3] == meta[8]);
            if meta.len() >= 9 + meta[8] {
                assert(s.subrange(4, 4 + s[3]) =~= meta.subrange(9, 9 + meta[8]));
            }
        }
    }
}

/// A frame with a bad target is refused as soon as its metadata is there.
pub proof fn lemma_bad_frames_are_refused(meta: Seq<u8>, rest: Seq<u8>)
    requires
        4 <= meta.len() <= 512,
    ensures
        metadata_target(meta) matches Err(e) ==> mux_frame(
            seq![(meta.len() as int / 256) as u8, (meta.len() as int % 256) as u8] + meta + rest,
        ) == Progress::<MetadataView, _>::Fail(e),
{
    let n = meta.len() as int;
    let b = seq![(n / 256) as u8, (n % 256) as u8] + meta + rest;
    assert(b[0] == (n / 256) as u8 && b[1] == (n % 256) as u8);
    assert(wire::u16_at(b, 0) == n);
    assert(b.subrange(2, 2 + n) =~= meta);
}

/// Every frame can be written but for one with a domain of more than 255 bytes or with more than
/// 65535 bytes of data.
pub proof fn lemma_frames_that_can_be_written(f: FrameView)
    ensures
        ({
            let long_name = f.packet_address matches Some(AddressView::Domain(domain, _))
                && encode_utf8(domain).len() > 255;
            let long_data = f.data matches Some(data) && data.len() > 65535;
            &&& frame_output(f).1 is Ok <==> !long_name && !long_data
            &&& long_name ==> frame_output(f).1 == Err::<(), _>(VlessError::MuxDomainLength)
            &&& !long_name && long_data ==> frame_output(f).1 == Err::<(), _>(
                VlessError::MuxDataLength,
            )
        }),
{
}

} // verus!
