//! Accepting Trojan connections.

use super::{RequestHeader, RequestView, TrojanError, HASH_STR_LEN};
use crate::protocol::address::{self, Address, AddressView};
use crate::protocol::fallback::{self, FallbackPage};
use crate::protocol::http_head;
use crate::text::{self, joined, to_hex};
use crate::wire::{array_at, Decoded, Progress};
use vstd::prelude::*;
use vstd::string::*;
use vstd::utf8::*;

verus! {

/// The `[trojan]` table.
pub struct TrojanAcceptorConfig {
    pub password: String,
}

/// What accepts Trojan connections on top of `inner`.
pub struct TrojanAcceptor<T> {
    pub valid_hash: [u8; 56],
    pub fallback: Option<FallbackPage>,
    pub inner: T,
}

/// What is to be done about a connection.
pub enum TrojanStep {
    /// Read once, up to this many bytes.
    ReadFirst(usize),
    /// Read this many bytes more.
    Read(usize),
    /// A TCP stream to an address; the request took this many bytes.
    Tcp(Address, usize),
    /// A stream of UDP packets; the request took this many bytes.
    Udp(usize),
    /// Let the fallback site answer, with the bytes that were read.
    Fallback,
    /// Drop it.
    Refuse(TrojanError),
}

/// What is done about a connection that is refused for a reason.
pub open spec fn is_refusal(s: TrojanStep, error: TrojanError, has_fallback: bool) -> bool {
    if has_fallback {
        s is Fallback
    } else {
        s == TrojanStep::Refuse(error)
    }
}

/// What is done about a connection on which `received` came in. The first packet has to bring the
/// whole hash.
pub open spec fn is_step(
    s: TrojanStep,
    received: Seq<u8>,
    valid_hash: Seq<u8>,
    has_fallback: bool,
) -> bool {
    if received.len() == 0 {
        s == TrojanStep::ReadFirst(HASH_STR_LEN)
    } else if received.len() < HASH_STR_LEN {
        is_refusal(s, TrojanError::ShortFirstPacket, has_fallback)
    } else {
        match super::trojan_request(received, valid_hash) {
            Progress::Need(more) => s == TrojanStep::Read(more as usize),
            Progress::Done(RequestView::TcpConnect(a), used) => s matches TrojanStep::Tcp(
                address,
                n,
            ) && address@ == a && n == used,
            Progress::Done(RequestView::UdpAssociate(_), used) => s matches TrojanStep::Udp(n) && n
                == used,
            Progress::Fail(error) => is_refusal(s, error, has_fallback),
        }
    }
}

/// Whether a byte is a hexadecimal digit, letters in lower case.
pub open spec fn is_hex_digit(b: u8) -> bool {
    0x30 <= b <= 0x39 || 0x61 <= b <= 0x66
}

/// A visitor who sends an HTTP request is never taken for a client: with a fallback site the site
/// gets the connection, and it does not close it without an answer.
pub proof fn lemma_visitors_reach_the_site(
    received: Seq<u8>,
    valid_hash: Seq<u8>,
    step: TrojanStep,
    ended: bool,
    password: Option<Seq<char>>,
    max: int,
)
    requires
        valid_hash.len() == HASH_STR_LEN,
        forall|i: int| 0 <= i < valid_hash.len() ==> is_hex_digit(#[trigger] valid_hash[i]),
        http_head::starts_like_http(received),
        is_step(step, received, valid_hash, true),
    ensures
        step is Fallback,
        !(fallback::serve_step_of(received, ended, password, max) is Shutdown),
{
    assert(received.subrange(0, 4)[0] == received[0]);
    assert(is_hex_digit(valid_hash[0]));
    if received.len() >= HASH_STR_LEN {
        assert(received.subrange(0, 56)[0] == received[0]);
    }
}

/// The text that stands for a password on the wire, made from the SHA-224 digest of the password.
pub fn hash_text(digest: &[u8]) -> (r: String)
    ensures
        r@ == text::hex_text(digest@),
{
    to_hex(digest)
}

/// The text of a digest of 28 bytes is a hash: 56 hexadecimal digits.
pub proof fn lemma_hash_text_is_a_hash(digest: Seq<u8>)
    requires
        2 * digest.len() == HASH_STR_LEN,
    ensures
        encode_utf8(text::hex_text(digest)).len() == HASH_STR_LEN,
        forall|i: int|
            0 <= i < HASH_STR_LEN ==> is_hex_digit(
                #[trigger] encode_utf8(text::hex_text(digest))[i],
            ),
{
    let chars = text::hex_text(digest);
    assert forall|i: int| 0 <= i < chars.len() implies 0 <= #[trigger] chars[i] as int <= 127 by {}
    is_ascii_chars_encode_utf8(chars);
    assert forall|i: int| 0 <= i < HASH_STR_LEN implies is_hex_digit(
        #[trigger] encode_utf8(chars)[i],
    ) by {
        assert(chars[i] as u8 == encode_utf8(chars)[i]);
    }
}

/// How a connection ends that could not be read to the end of its request.
pub enum TrojanEnd {
    /// Let the fallback site answer, with the bytes that were read.
    Fallback,
    /// Drop it, with these words.
    Drop(String),
}

/// How a connection ends that could not be read on, for a reason.
pub open spec fn is_end(end: TrojanEnd, reason: Seq<char>, has_fallback: bool) -> bool {
    if has_fallback {
        end is Fallback
    } else {
        end matches TrojanEnd::Drop(words) && words@ == "trojan: invalid packet: "@ + reason
    }
}

impl<T> TrojanAcceptor<T> {
    /// An acceptor for the password with this hash: the first 56 bytes of its text.
    pub fn new(password_hash: &str, fallback: Option<FallbackPage>, inner: T) -> (r: Self)
        requires
            encode_utf8(password_hash@).len() >= HASH_STR_LEN,
        ensures
            r.valid_hash@ == encode_utf8(password_hash@).subrange(0, HASH_STR_LEN as int),
            r.fallback == fallback,
            r.inner == inner,
    {
        TrojanAcceptor {
            valid_hash: array_at::<56>(password_hash.as_bytes(), 0),
            fallback,
            inner,
        }
    }

    /// Decides about a connection on which `received` came in.
    pub fn step(&self, received: &[u8]) -> (r: TrojanStep)
        ensures
            is_step(r, received@, self.valid_hash@, self.fallback is Some),
    {
        if received.len() == 0 {
            return TrojanStep::ReadFirst(HASH_STR_LEN);
        }
        if received.len() < HASH_STR_LEN {
            return self.refuse(TrojanError::ShortFirstPacket);
        }
        match RequestHeader::read_from(received, &self.valid_hash) {
            Decoded::Need(more) => TrojanStep::Read(more),
            Decoded::Done(RequestHeader::TcpConnect(address), used) => TrojanStep::Tcp(
                address,
                used,
            ),
            Decoded::Done(RequestHeader::UdpAssociate(_), used) => TrojanStep::Udp(used),
            Decoded::Fail(error) => self.refuse(error),
        }
    }

    /// Decides about a connection that could not be read on, for a reason.
    pub fn read_failed(&self, reason: &str) -> (r: TrojanEnd)
        ensures
            is_end(r, reason@, self.fallback is Some),
    {
        if self.fallback.is_some() {
            TrojanEnd::Fallback
        } else {
            TrojanEnd::Drop(joined("trojan: invalid packet: ".to_string(), reason))
        }
    }

    fn refuse(&self, error: TrojanError) -> (r: TrojanStep)
        ensures
            is_refusal(r, error, self.fallback is Some),
    {
        if self.fallback.is_some() {
            TrojanStep::Fallback
        } else {
            TrojanStep::Refuse(error)
        }
    }
}

/// The words with which a connection is dropped whose request is refused.
pub fn refusal(error: &TrojanError) -> (r: String)
    ensures
        r@ == "trojan: invalid packet: "@ + error.text(),
{
    let words = error.message();
    joined("trojan: invalid packet: ".to_string(), words.as_str())
}

/// With a fallback site no connection is dropped, and without one none goes there, whether the
/// request was refused or could not be read.
pub proof fn lemma_nobody_is_dropped_with_a_site(
    s: TrojanStep,
    received: Seq<u8>,
    valid_hash: Seq<u8>,
    end: TrojanEnd,
    reason: Seq<char>,
)
    ensures
        is_step(s, received, valid_hash, true) ==> !(s is Refuse),
        is_step(s, received, valid_hash, false) ==> !(s is Fallback),
        is_end(end, reason, true) ==> !(end is Drop),
        is_end(end, reason, false) ==> !(end is Fallback),
{
}

/// The first read asks for the 56 bytes of the hash. A first packet that brings fewer is refused,
/// and so is a wrong hash, whatever follows it.
pub proof fn lemma_first_packet_brings_the_hash(
    s: TrojanStep,
    received: Seq<u8>,
    valid_hash: Seq<u8>,
    has_fallback: bool,
)
    requires
        valid_hash.len() == 56,
        is_step(s, received, valid_hash, has_fallback),
    ensures
        received.len() == 0 <==> s is ReadFirst,
        s matches TrojanStep::ReadFirst(n) ==> n == 56,
        0 < received.len() < 56 && has_fallback ==> s is Fallback,
        0 < received.len() < 56 && !has_fallback ==> s == TrojanStep::Refuse(
            TrojanError::ShortFirstPacket,
        ),
        received.len() >= 56 && received.subrange(0, 56) != valid_hash && has_fallback ==> s
            is Fallback,
        received.len() >= 56 && received.subrange(0, 56) != valid_hash && !has_fallback ==> s
            == TrojanStep::Refuse(TrojanError::InvalidHash),
{
}

/// A client with the right hash gets its stream: to the address it asked for with command 1, and of
/// packets with command 3. What follows its request is left alone. As long as its request is not
/// complete, more is read, and never past its end.
pub proof fn lemma_clients_get_in(
    s: TrojanStep,
    valid_hash: Seq<u8>,
    command: u8,
    a: AddressView,
    rest: Seq<u8>,
    n: int,
    has_fallback: bool,
)
    requires
        valid_hash.len() == 56,
        a.valid(),
        address::socks_form(a) is Some,
        command == 1 || command == 3,
    ensures
        ({
            let form = valid_hash + seq![13u8, 10, command] + address::written_address(a) + seq![
                13u8,
                10,
            ];
            &&& is_step(s, form + rest, valid_hash, has_fallback) && command == 1 ==> (
            s matches TrojanStep::Tcp(address, used) && address@ == a.on_wire() && used
                == form.len())
            &&& is_step(s, form + rest, valid_hash, has_fallback) && command == 3 ==> (
            s matches TrojanStep::Udp(used) && used == form.len())
            &&& 56 <= n < form.len() && is_step(
                s,
                form.subrange(0, n),
                valid_hash,
                has_fallback,
            ) ==> (s matches TrojanStep::Read(more) && 0 < more && n + more <= form.len())
        }),
{
    let bytes = address::written_address(a);
    let form = valid_hash + seq![13u8, 10, command] + bytes + seq![13u8, 10];
    super::lemma_written_requests_are_read(valid_hash, a, rest);
    super::lemma_written_requests_are_read(valid_hash, a, Seq::empty());
    address::lemma_written_addresses_are_read(a, rest);
    assert(form + Seq::<u8>::empty() =~= form);
    assert(valid_hash + seq![13u8, 10, 1] + bytes + seq![13u8, 10] + Seq::<u8>::empty()
        =~= valid_hash + seq![13u8, 10, 1] + bytes + seq![13u8, 10]);
    assert(valid_hash + seq![13u8, 10, 3] + bytes + seq![13u8, 10] + Seq::<u8>::empty()
        =~= valid_hash + seq![13u8, 10, 3] + bytes + seq![13u8, 10]);
    if 56 <= n < form.len() {
        super::lemma_request_prefix(form, valid_hash, n);
        address::lemma_written_addresses_are_read(a, seq![13u8, 10]);
        address::lemma_socks_used(bytes + seq![13u8, 10]);
        assert(form.len() <= 61 + 4 + 255);
        if super::trojan_request(form.subrange(0, n), valid_hash) is Done {
            super::lemma_request_done_is_whole(form.subrange(0, n), valid_hash);
        }
    }
}

} // verus!
