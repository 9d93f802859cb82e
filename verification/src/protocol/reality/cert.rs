//! The REALITY leaf certificate.
//!
//! The server holds one Ed25519 key pair and a self-issued certificate for it. For each
//! connection the 64 signature bytes at the end of the certificate are replaced by a value that
//! only a holder of the REALITY private key can compute. The certificate is written by hand: all
//! it needs is an Ed25519 public key and a signature of fixed length.

use super::RealityError;
use crate::calendar::{self, civil_from_unix};
use crate::wire::{self, append, array_at};
use vstd::prelude::*;
use vstd::slice::*;

verus! {

/// The DER encoding of a length.
pub open spec fn der_length(n: int) -> Seq<u8> {
    if n < 0x80 {
        seq![n as u8]
    } else if n < 0x100 {
        seq![0x81u8, n as u8]
    } else if n < 0x10000 {
        seq![0x82u8, (n / 256) as u8, (n % 256) as u8]
    } else {
        seq![0x83u8, (n / 65536 % 256) as u8, (n / 256 % 256) as u8, (n % 256) as u8]
    }
}

/// A DER value with the given tag and content.
pub open spec fn der(tag: u8, content: Seq<u8>) -> Seq<u8> {
    seq![tag] + der_length(content.len() as int) + content
}

/// The tag and the content of the DER value that `b` starts with, and how many bytes it takes.
/// Lengths of up to three bytes are read.
pub open spec fn read_der(b: Seq<u8>) -> Option<(u8, Seq<u8>, int)> {
    if b.len() < 2 {
        None
    } else {
        let (start, len) = if b[1] < 0x80 {
            (2int, b[1] as int)
        } else if b[1] == 0x81 && b.len() >= 3 {
            (3, b[2] as int)
        } else if b[1] == 0x82 && b.len() >= 4 {
            (4, wire::u16_at(b, 2))
        } else if b[1] == 0x83 && b.len() >= 5 {
            (5, wire::u24_at(b, 2))
        } else {
            (2, b.len() as int)
        };
        if b.len() < start + len {
            None
        } else {
            Some((b[0], b.subrange(start, start + len), start + len))
        }
    }
}

/// Reading back a DER value gives its tag and content, for contents of less than 2^24 bytes.
pub proof fn lemma_der_round_trip(tag: u8, content: Seq<u8>, rest: Seq<u8>)
    requires
        content.len() < 16777216,
    ensures
        read_der(der(tag, content) + rest) == Some(
            (tag, content, der(tag, content).len() as int),
        ),
{
    let n = content.len() as int;
    let all = der(tag, content) + rest;
    let start = 1 + der_length(n).len() as int;
    assert(all.subrange(start, start + n) =~= content);
    if n < 0x80 {
        assert(all[1] == n);
    } else if n < 0x100 {
        assert(all[1] == 0x81 && all[2] == n);
    } else if n < 0x10000 {
        assert(all[1] == 0x82 && all[2] == (n / 256) as u8 && all[3] == (n % 256) as u8);
    } else {
        assert(all[1] == 0x83);
        assert(all[2] == n / 65536);
        assert(all[3] == n / 256 % 256);
        assert(all[4] == n % 256);
    }
}

/// Appends the DER encoding of a length.
fn der_len(out: &mut Vec<u8>, len: usize)
    ensures
        final(out)@ == old(out)@ + der_length(len as int),
{
    let ghost start = out@;
    if len < 0x80 {
        out.push(len as u8);
    } else if len < 0x100 {
        out.push(0x81);
        out.push(len as u8);
    } else if len < 0x10000 {
        out.push(0x82);
        out.push((len / 256) as u8);
        out.push((len % 256) as u8);
    } else {
        out.push(0x83);
        out.push((len / 65536 % 256) as u8);
        out.push((len / 256 % 256) as u8);
        out.push((len % 256) as u8);
    }
    assert(out@ =~= start + der_length(len as int));
}

/// A DER value with the given tag and content.
pub fn tlv(tag: u8, content: &[u8]) -> (r: Vec<u8>)
    ensures
        r@ == der(tag, content@),
{
    let mut out: Vec<u8> = Vec::new();
    out.push(tag);
    der_len(&mut out, content.len());
    append(&mut out, content);
    assert(out@ =~= der(tag, content@));
    out
}

/// A BIT STRING with no unused bits.
pub open spec fn der_bit_string(content: Seq<u8>) -> Seq<u8> {
    der(0x03, seq![0u8] + content)
}

fn bit_string(content: &[u8]) -> (r: Vec<u8>)
    ensures
        r@ == der_bit_string(content@),
{
    let mut body: Vec<u8> = Vec::new();
    body.push(0);
    append(&mut body, content);
    assert(body@ =~= seq![0u8] + content@);
    tlv(0x03, body.as_slice())
}

/// Ed25519 algorithm identifier 1.3.101.112.
pub open spec fn oid_ed25519() -> Seq<u8> {
    seq![0x06u8, 0x03, 0x2b, 0x65, 0x70]
}

/// commonName attribute 2.5.4.3.
pub open spec fn oid_common_name() -> Seq<u8> {
    seq![0x06u8, 0x03, 0x55, 0x04, 0x03]
}

/// `REALITY` in ASCII.
pub open spec fn common_name() -> Seq<u8> {
    seq![0x52u8, 0x45, 0x41, 0x4c, 0x49, 0x54, 0x59]
}

/// The issuer and subject: one relative name with one common name.
pub open spec fn der_name() -> Seq<u8> {
    der(0x30, der(0x31, der(0x30, oid_common_name() + der(0x0c, common_name()))))
}

fn name() -> (r: Vec<u8>)
    ensures
        r@ == der_name(),
{
    let oid: [u8; 5] = [0x06, 0x03, 0x55, 0x04, 0x03];
    let text: [u8; 7] = [0x52, 0x45, 0x41, 0x4c, 0x49, 0x54, 0x59];
    assert(oid@ =~= oid_common_name());
    assert(text@ =~= common_name());
    let mut atv: Vec<u8> = wire::copy(&oid);
    append(&mut atv, tlv(0x0c, &text).as_slice());
    tlv(0x30, tlv(0x31, tlv(0x30, atv.as_slice()).as_slice()).as_slice())
}

/// `n` as two ASCII digits.
pub open spec fn two_digits(n: int) -> Seq<u8> {
    seq![(48 + n / 10) as u8, (48 + n % 10) as u8]
}

/// `YYMMDDHHMMSSZ` of a unix time.
pub open spec fn utc_text(unix: int) -> Seq<u8> {
    let date = calendar::date_of(unix / 86400);
    let t = unix % 86400;
    two_digits(date.0 % 100) + two_digits(date.1) + two_digits(date.2) + two_digits(t / 3600)
        + two_digits(t % 3600 / 60) + two_digits(t % 60) + seq![0x5au8]
}

fn push_two_digits(out: &mut Vec<u8>, n: u32)
    requires
        n < 100,
    ensures
        final(out)@ == old(out)@ + two_digits(n as int),
{
    let ghost start = out@;
    out.push((48 + n / 10) as u8);
    out.push((48 + n % 10) as u8);
    assert(out@ =~= start + two_digits(n as int));
}

/// The UTCTime of a unix time.
pub fn utc_time(unix: u64) -> (r: Vec<u8>)
    ensures
        r@ == der(0x17, utc_text(unix as int)),
{
    let (year, month, day, hour, min, sec) = civil_from_unix(unix);
    proof {
        calendar::lemma_date_of(year as int, month as int, day as int);
    }
    let mut text: Vec<u8> = Vec::new();
    assert(text@ + two_digits(year as int % 100) =~= two_digits(year as int % 100));
    push_two_digits(&mut text, (year as u64 % 100) as u32);
    push_two_digits(&mut text, month);
    push_two_digits(&mut text, day);
    push_two_digits(&mut text, hour);
    push_two_digits(&mut text, min);
    push_two_digits(&mut text, sec);
    let ghost before = text@;
    text.push(0x5a);
    assert(text@ =~= before + seq![0x5au8]);
    let ghost t = unix as int % 86400;
    assert(hour == t / 3600 && min == t % 3600 / 60 && sec == t % 60);
    tlv(0x17, text.as_slice())
}

/// Seconds of validity behind the time of issue.
pub const VALIDITY_SECS: u64 = 31_536_000;

/// Seconds of validity before the time of issue.
pub const BACKDATE_SECS: u64 = 86_400;

/// The serial number: the first half of the key, positive and without a leading zero byte.
pub open spec fn serial_number(public_key: Seq<u8>) -> Seq<u8> {
    public_key.subrange(0, 16).update(0, (public_key[0] & 0x7f) | 0x01)
}

/// The algorithm identifier.
pub open spec fn der_algorithm() -> Seq<u8> {
    der(0x30, oid_ed25519())
}

/// When the certificate is valid.
pub open spec fn der_validity(now: int) -> Seq<u8> {
    der(
        0x30,
        der(
            0x17,
            utc_text(
                if now < BACKDATE_SECS {
                    0
                } else {
                    now - BACKDATE_SECS
                },
            ),
        ) + der(0x17, utc_text(now + VALIDITY_SECS)),
    )
}

/// The part of the certificate that a signature covers.
pub open spec fn der_body(public_key: Seq<u8>, now: int) -> Seq<u8> {
    der(
        0x30,
        der(0xa0, der(0x02, seq![0x02u8])) + der(0x02, serial_number(public_key)) + der_algorithm()
            + der_name() + der_validity(now) + der_name() + der(
            0x30,
            der_algorithm() + der_bit_string(public_key),
        ),
    )
}

/// The whole certificate with the given signature.
pub open spec fn der_certificate(public_key: Seq<u8>, now: int, signature: Seq<u8>) -> Seq<u8> {
    der(0x30, der_body(public_key, now) + der_algorithm() + der_bit_string(signature))
}

fn algorithm() -> (r: Vec<u8>)
    ensures
        r@ == der_algorithm(),
{
    let oid: [u8; 5] = [0x06, 0x03, 0x2b, 0x65, 0x70];
    assert(oid@ =~= oid_ed25519());
    tlv(0x30, &oid)
}

fn validity(now: u64) -> (r: Vec<u8>)
    requires
        now <= u64::MAX - VALIDITY_SECS,
    ensures
        r@ == der_validity(now as int),
{
    let not_before: u64 = if now < BACKDATE_SECS {
        0
    } else {
        now - BACKDATE_SECS
    };
    let mut body: Vec<u8> = utc_time(not_before);
    append(&mut body, utc_time(now + VALIDITY_SECS).as_slice());
    tlv(0x30, body.as_slice())
}

fn certificate_body(public_key: &[u8; 32], now: u64) -> (r: Vec<u8>)
    requires
        now <= u64::MAX - VALIDITY_SECS,
    ensures
        r@ == der_body(public_key@, now as int),
{
    // version [0] EXPLICIT INTEGER 2 (v3)
    let v3: [u8; 1] = [0x02];
    assert(v3@ =~= seq![0x02u8]);
    let mut body: Vec<u8> = tlv(0xa0, tlv(0x02, &v3).as_slice());

    let mut serial: [u8; 16] = array_at::<16>(public_key, 0);
    serial[0] = (serial[0] & 0x7f) | 0x01;
    assert(serial@ =~= serial_number(public_key@));

    let mut key_info: Vec<u8> = algorithm();
    append(&mut key_info, bit_string(public_key).as_slice());

    append(&mut body, tlv(0x02, &serial).as_slice());
    append(&mut body, algorithm().as_slice());
    append(&mut body, name().as_slice());
    append(&mut body, validity(now).as_slice());
    append(&mut body, name().as_slice());
    append(&mut body, tlv(0x30, key_info.as_slice()).as_slice());
    tlv(0x30, body.as_slice())
}

/// The certificate for a key with a signature of zeros.
pub fn build_certificate(public_key: &[u8; 32], now: u64) -> (r: Vec<u8>)
    requires
        now <= u64::MAX - VALIDITY_SECS,
    ensures
        r@ == der_certificate(public_key@, now as int, wire::repeated(0, 64)),
{
    let zeros: [u8; 64] = [0u8; 64];
    assert(zeros@ =~= wire::repeated(0, 64));
    let mut body: Vec<u8> = certificate_body(public_key, now);
    append(&mut body, algorithm().as_slice());
    append(&mut body, bit_string(&zeros).as_slice());
    tlv(0x30, body.as_slice())
}

/// The signature is the last 64 bytes of a certificate, and the bytes before it do not depend on
/// it: splicing another signature in gives the certificate with that signature.
pub proof fn lemma_signature_is_last(public_key: Seq<u8>, now: int, old_one: Seq<u8>, new_one: Seq<u8>)
    requires
        old_one.len() == 64,
        new_one.len() == 64,
    ensures
        ({
            let cert = der_certificate(public_key, now, old_one);
            let n = cert.len() - 64;
            &&& n >= 0
            &&& wire::after(cert, n) == old_one
            &&& cert.subrange(0, n) + new_one == der_certificate(public_key, now, new_one)
        }),
{
    let head = der_body(public_key, now) + der_algorithm();
    let a = der_certificate(public_key, now, old_one);
    let b = der_certificate(public_key, now, new_one);
    let n = a.len() - 64;
    assert(der_bit_string(old_one).len() == 67);
    assert(der_bit_string(new_one).len() == 67);
    assert(wire::after(der_bit_string(old_one), 3) =~= old_one);
    assert(wire::after(der_bit_string(new_one), 3) =~= new_one);
    assert(der_bit_string(old_one).subrange(0, 3) =~= der_bit_string(new_one).subrange(0, 3));
    assert(a.len() == b.len());
    assert(wire::after(a, n) =~= old_one);
    assert forall|i: int| 0 <= i < n implies a[i] == b[i] by {
        let k = (head + der_bit_string(old_one)).len() as int;
        let lead = 1 + der_length(k).len() as int;
        if i >= lead {
            assert(a[i] == (head + der_bit_string(old_one))[i - lead]);
            assert(b[i] == (head + der_bit_string(new_one))[i - lead]);
            if i - lead >= head.len() {
                let j = i - lead - head.len();
                assert(der_bit_string(old_one)[j] == der_bit_string(old_one).subrange(0, 3)[j]);
                assert(der_bit_string(new_one)[j] == der_bit_string(new_one).subrange(0, 3)[j]);
            }
        }
    }
    assert(wire::after(b, n) =~= new_one);
    assert(a.subrange(0, n) + new_one =~= b) by {
        assert forall|i: int| n <= i < b.len() implies b[i] == new_one[i - n] by {
            assert(b[i] == wire::after(b, n)[i - n]);
        }
    }
}

/// The long-lived REALITY identity: the public key and the certificate for it. The private key
/// stays with whoever does the TLS handshake.
pub struct RealityCertificate {
    public: [u8; 32],
    base_der: Vec<u8>,
    now: Ghost<int>,
}

impl RealityCertificate {
    /// The public key.
    pub closed spec fn public_key(&self) -> Seq<u8> {
        self.public@
    }

    /// The unix time of issue.
    pub closed spec fn issued(&self) -> int {
        self.now@
    }

    #[verifier::type_invariant]
    spec fn inv(&self) -> bool {
        self.base_der@ == der_certificate(self.public@, self.now@, wire::repeated(0, 64))
    }

    /// An identity for an Ed25519 public key, issued at unix time `now`.
    pub fn new(public_key: &[u8], now: u64) -> (r: Result<Self, RealityError>)
        requires
            now <= u64::MAX - VALIDITY_SECS,
        ensures
            match r {
                Ok(cert) => public_key@.len() == 32 && cert.public_key() == public_key@
                    && cert.issued() == now,
                Err(error) => public_key@.len() != 32 && error == RealityError::PublicKeyLength,
            },
    {
        if public_key.len() != 32 {
            return Err(RealityError::PublicKeyLength);
        }
        let public: [u8; 32] = array_at::<32>(public_key, 0);
        assert(public@ =~= public_key@);
        let base_der = build_certificate(&public, now);
        Ok(RealityCertificate { public, base_der, now: Ghost(now as int) })
    }

    /// The public key.
    pub fn public(&self) -> (r: [u8; 32])
        ensures
            r@ == self.public_key(),
    {
        self.public
    }

    /// The certificate with a signature of zeros.
    pub fn base_der(&self) -> (r: &[u8])
        ensures
            r@ == der_certificate(self.public_key(), self.issued(), wire::repeated(0, 64)),
    {
        proof {
            use_type_invariant(self);
        }
        self.base_der.as_slice()
    }

    /// The certificate of one connection: the last 64 bytes are `signature`.
    pub fn forge(&self, signature: &[u8; 64]) -> (r: Vec<u8>)
        ensures
            r@ == der_certificate(self.public_key(), self.issued(), signature@),
    {
        proof {
            use_type_invariant(self);
            lemma_signature_is_last(
                self.public@,
                self.now@,
                wire::repeated(0, 64),
                signature@,
            );
        }
        let len: usize = self.base_der.len();
        let mut der: Vec<u8> = wire::copy_part(self.base_der.as_slice(), 0, len - 64);
        append(&mut der, signature);
        der
    }
}

/// Two digits are read back as the number that they were written for.
pub proof fn lemma_two_digits(n: int)
    requires
        0 <= n < 100,
    ensures
        two_digits(n).len() == 2,
        48 <= two_digits(n)[0] <= 57,
        48 <= two_digits(n)[1] <= 57,
        (two_digits(n)[0] - 48) * 10 + (two_digits(n)[1] - 48) == n,
{
}

/// A date and a time of day are written as the two last digits of the year, then month, day, hour,
/// minute and second with two digits each, and a Z.
pub proof fn lemma_utc_text(y: int, m: int, d: int, hour: int, minute: int, second: int)
    requires
        calendar::is_date(y, m, d),
        0 <= hour < 24,
        0 <= minute < 60,
        0 <= second < 60,
    ensures
        ({
            let unix = calendar::day_number(y, m, d) * 86400 + hour * 3600 + minute * 60 + second;
            let text = utc_text(unix);
            &&& text.len() == 13
            &&& text.subrange(0, 2) == two_digits(y % 100)
            &&& text.subrange(2, 4) == two_digits(m)
            &&& text.subrange(4, 6) == two_digits(d)
            &&& text.subrange(6, 8) == two_digits(hour)
            &&& text.subrange(8, 10) == two_digits(minute)
            &&& text.subrange(10, 12) == two_digits(second)
            &&& text[12] == 90
        }),
{
    let days = calendar::day_number(y, m, d);
    let unix = days * 86400 + hour * 3600 + minute * 60 + second;
    calendar::lemma_date_of(y, m, d);
    assert(unix / 86400 == days);
    assert(unix % 86400 == hour * 3600 + minute * 60 + second);
    let t = unix % 86400;
    assert(t / 3600 == hour && t % 3600 / 60 == minute && t % 60 == second);
    lemma_pieces_of_a_time(
        two_digits(y % 100),
        two_digits(m),
        two_digits(d),
        two_digits(hour),
        two_digits(minute),
        two_digits(second),
    );
}

proof fn lemma_pieces_of_a_time(
    a: Seq<u8>,
    b: Seq<u8>,
    c: Seq<u8>,
    d: Seq<u8>,
    e: Seq<u8>,
    f: Seq<u8>,
)
    requires
        a.len() == 2,
        b.len() == 2,
        c.len() == 2,
        d.len() == 2,
        e.len() == 2,
        f.len() == 2,
    ensures
        ({
            let text = a + b + c + d + e + f + seq![0x5au8];
            &&& text.len() == 13
            &&& text.subrange(0, 2) == a
            &&& text.subrange(2, 4) == b
            &&& text.subrange(4, 6) == c
            &&& text.subrange(6, 8) == d
            &&& text.subrange(8, 10) == e
            &&& text.subrange(10, 12) == f
            &&& text[12] == 0x5a
        }),
{
    let text = a + b + c + d + e + f + seq![0x5au8];
    assert(text.subrange(0, 2) =~= a);
    assert(text.subrange(2, 4) =~= b);
    assert(text.subrange(4, 6) =~= c);
    assert(text.subrange(6, 8) =~= d);
    assert(text.subrange(8, 10) =~= e);
    assert(text.subrange(10, 12) =~= f);
}

/// The serial number is a positive number of 16 bytes without a leading zero byte, and all of its
/// bytes but the first are those of the key.
pub proof fn lemma_serial_number_is_positive(public_key: Seq<u8>)
    requires
        public_key.len() == 32,
    ensures
        serial_number(public_key).len() == 16,
        1 <= serial_number(public_key)[0] <= 127,
        serial_number(public_key).subrange(1, 16) == public_key.subrange(1, 16),
        public_key[0] < 128 && public_key[0] % 2 == 1 ==> serial_number(public_key)
            == public_key.subrange(0, 16),
{
    let b: u8 = public_key[0];
    assert(1 <= ((b & 0x7f) | 0x01) <= 127) by (bit_vector);
    assert(b < 128 && b % 2 == 1 ==> ((b & 0x7f) | 0x01) == b) by (bit_vector);
    assert(serial_number(public_key).subrange(1, 16) =~= public_key.subrange(1, 16));
    if b < 128 && b % 2 == 1 {
        assert(serial_number(public_key) =~= public_key.subrange(0, 16));
    }
}

/// The DER values that make up all of `b`, as tags and contents.
pub open spec fn der_values(b: Seq<u8>) -> Option<Seq<(u8, Seq<u8>)>>
    decreases b.len(),
{
    if b.len() == 0 {
        Some(Seq::empty())
    } else {
        match read_der(b) {
            None => None,
            Some((tag, content, n)) => if n <= 0 || n > b.len() {
                None
            } else {
                match der_values(b.subrange(n, b.len() as int)) {
                    None => None,
                    Some(more) => Some(seq![(tag, content)] + more),
                }
            },
        }
    }
}

/// DER values one behind the other.
spec fn written_values(list: Seq<(u8, Seq<u8>)>) -> Seq<u8>
    decreases list.len(),
{
    if list.len() == 0 {
        Seq::empty()
    } else {
        der(list[0].0, list[0].1) + written_values(list.subrange(1, list.len() as int))
    }
}

proof fn lemma_written_values_are_read(list: Seq<(u8, Seq<u8>)>)
    requires
        forall|i: int| 0 <= i < list.len() ==> (#[trigger] list[i]).1.len() < 16777216,
    ensures
        der_values(written_values(list)) == Some(list),
    decreases list.len(),
{
    if list.len() == 0 {
        assert(list =~= Seq::empty());
    } else {
        let (tag, content) = list[0];
        let more = list.subrange(1, list.len() as int);
        let rest = written_values(more);
        let b = der(tag, content) + rest;
        assert forall|i: int| 0 <= i < more.len() implies (#[trigger] more[i]).1.len() < 16777216 by {
            assert(more[i] == list[i + 1]);
        }
        lemma_written_values_are_read(more);
        lemma_der_round_trip(tag, content, rest);
        let n = der(tag, content).len() as int;
        assert(b.subrange(n, b.len() as int) =~= rest);
        assert(seq![(tag, content)] + more =~= list);
    }
}

proof fn lemma_one_value(a: (u8, Seq<u8>))
    requires
        a.1.len() < 16777216,
    ensures
        der_values(der(a.0, a.1)) == Some(seq![a]),
{
    let list = seq![a];
    lemma_written_values_are_read(list);
    assert(list.subrange(1, 1) =~= Seq::empty());
    reveal_with_fuel(written_values, 2);
    assert(written_values(list) =~= der(a.0, a.1));
}

proof fn lemma_two_values(a: (u8, Seq<u8>), b: (u8, Seq<u8>))
    requires
        a.1.len() < 16777216,
        b.1.len() < 16777216,
    ensures
        der_values(der(a.0, a.1) + der(b.0, b.1)) == Some(seq![a, b]),
{
    let list = seq![a, b];
    lemma_written_values_are_read(list);
    lemma_written_pair(a, b);
}

proof fn lemma_written_pair(a: (u8, Seq<u8>), b: (u8, Seq<u8>))
    ensures
        written_values(seq![a, b]) == der(a.0, a.1) + der(b.0, b.1),
{
    assert(seq![a, b].subrange(1, 2) =~= seq![b]);
    assert(seq![b].subrange(1, 1) =~= Seq::empty());
    reveal_with_fuel(written_values, 2);
    assert(written_values(seq![b]) =~= der(b.0, b.1));
}

proof fn lemma_three_values(a: (u8, Seq<u8>), b: (u8, Seq<u8>), c: (u8, Seq<u8>))
    requires
        a.1.len() < 16777216,
        b.1.len() < 16777216,
        c.1.len() < 16777216,
    ensures
        der_values(der(a.0, a.1) + der(b.0, b.1) + der(c.0, c.1)) == Some(seq![a, b, c]),
{
    let list = seq![a, b, c];
    lemma_written_values_are_read(list);
    lemma_written_triple(a, b, c);
}

proof fn lemma_written_triple(a: (u8, Seq<u8>), b: (u8, Seq<u8>), c: (u8, Seq<u8>))
    ensures
        written_values(seq![a, b, c]) == der(a.0, a.1) + der(b.0, b.1) + der(c.0, c.1),
{
    assert(seq![a, b, c].subrange(1, 3) =~= seq![b, c]);
    lemma_written_pair(b, c);
    assert(der(a.0, a.1) + (der(b.0, b.1) + der(c.0, c.1)) =~= der(a.0, a.1) + der(b.0, b.1) + der(
        c.0,
        c.1,
    ));
}

proof fn lemma_written_four_more(
    a: (u8, Seq<u8>),
    b: (u8, Seq<u8>),
    c: (u8, Seq<u8>),
    d: (u8, Seq<u8>),
    more: Seq<(u8, Seq<u8>)>,
)
    ensures
        written_values(seq![a, b, c, d] + more) == der(a.0, a.1) + der(b.0, b.1) + der(c.0, c.1)
            + der(d.0, d.1) + written_values(more),
{
    let l4 = seq![a, b, c, d] + more;
    let l3 = seq![b, c, d] + more;
    let l2 = seq![c, d] + more;
    let l1 = seq![d] + more;
    assert(l4.subrange(1, l4.len() as int) =~= l3);
    assert(l3.subrange(1, l3.len() as int) =~= l2);
    assert(l2.subrange(1, l2.len() as int) =~= l1);
    assert(l1.subrange(1, l1.len() as int) =~= more);
    let da = der(a.0, a.1);
    let db = der(b.0, b.1);
    let dc = der(c.0, c.1);
    let dd = der(d.0, d.1);
    assert(written_values(l1) == dd + written_values(more));
    assert(written_values(l2) == dc + written_values(l1));
    assert(written_values(l3) == db + written_values(l2));
    assert(written_values(l4) == da + written_values(l3));
    lemma_sums(da, db, dc, dd, written_values(more));
}

proof fn lemma_sums(a: Seq<u8>, b: Seq<u8>, c: Seq<u8>, d: Seq<u8>, e: Seq<u8>)
    ensures
        a + (b + (c + (d + e))) == a + b + c + d + e,
{
    assert(a + (b + (c + (d + e))) =~= a + b + c + d + e);
}

proof fn lemma_seven_values(list: Seq<(u8, Seq<u8>)>)
    requires
        list.len() == 7,
        forall|i: int| 0 <= i < 7 ==> (#[trigger] list[i]).1.len() < 16777216,
    ensures
        der_values(
            der(list[0].0, list[0].1) + der(list[1].0, list[1].1) + der(list[2].0, list[2].1) + der(
                list[3].0,
                list[3].1,
            ) + der(list[4].0, list[4].1) + der(list[5].0, list[5].1) + der(list[6].0, list[6].1),
        ) == Some(list),
{
    let more = seq![list[4], list[5], list[6]];
    lemma_written_values_are_read(list);
    lemma_written_four_more(list[0], list[1], list[2], list[3], more);
    lemma_written_triple(list[4], list[5], list[6]);
    assert(seq![list[0], list[1], list[2], list[3]] + more =~= list);
    let front = der(list[0].0, list[0].1) + der(list[1].0, list[1].1) + der(list[2].0, list[2].1)
        + der(list[3].0, list[3].1);
    lemma_sum_of_three(
        front,
        der(list[4].0, list[4].1),
        der(list[5].0, list[5].1),
        der(list[6].0, list[6].1),
    );
}

proof fn lemma_sum_of_three(front: Seq<u8>, a: Seq<u8>, b: Seq<u8>, c: Seq<u8>)
    ensures
        front + (a + b + c) == front + a + b + c,
{
    assert(front + (a + b + c) =~= front + a + b + c);
}

/// A certificate is one sequence of three values: what the signature covers, the Ed25519 algorithm,
/// and the signature.
#[verifier::spinoff_prover]
#[verifier::rlimit(60)]
pub proof fn lemma_parts_of_a_certificate(public_key: Seq<u8>, now: int, signature: Seq<u8>)
    requires
        public_key.len() == 32,
        signature.len() == 64,
    ensures
        der_values(der_certificate(public_key, now, signature)) matches Some(outer) && outer.len()
            == 1 && outer[0].0 == 48 && (der_values(outer[0].1) matches Some(parts) && {
            &&& parts.len() == 3
            &&& parts[0].0 == 48
            &&& seq![parts[0]] == der_values(der_body(public_key, now))->0
            &&& parts[1] == (48u8, seq![6u8, 3, 43, 101, 112])
            &&& parts[2] == (3u8, seq![0u8] + signature)
        }),
{
    lemma_body_is_short(public_key, now);
    let inside = body_inside(public_key, now);
    let bits = seq![0u8] + signature;
    lemma_one_value((0x30u8, inside));
    lemma_three_values((0x30u8, inside), (0x30u8, oid_ed25519()), (3u8, bits));
    let content = der(0x30, inside) + der(0x30, oid_ed25519()) + der(3, bits);
    lemma_der_is_short(3, bits);
    lemma_der_is_short(0x30, oid_ed25519());
    lemma_der_is_short(0x30, inside);
    lemma_one_value((0x30u8, content));
    assert(oid_ed25519() =~= seq![6u8, 3, 43, 101, 112]);
}

proof fn lemma_der_is_short(tag: u8, content: Seq<u8>)
    ensures
        content.len() < der(tag, content).len() <= content.len() + 5,
{
}

/// What stands inside the part that a signature covers.
spec fn body_inside(public_key: Seq<u8>, now: int) -> Seq<u8> {
    der(0xa0, der(0x02, seq![0x02u8])) + der(0x02, serial_number(public_key)) + der_algorithm()
        + der_name() + der_validity(now) + der_name() + der(
        0x30,
        der_algorithm() + der_bit_string(public_key),
    )
}

/// The times between which a certificate is valid: from a day before its issue, or from the start
/// of 1970, to 365 days behind it.
pub open spec fn validity_times(now: int) -> (int, int) {
    (
        if now < 86_400 {
            0
        } else {
            now - 86_400
        },
        now + 365 * 86_400,
    )
}

/// What a signature covers: version 3, the serial number, the algorithm, the issuer, the validity,
/// the subject, who is the issuer, and the key with its algorithm.
#[verifier::rlimit(40)]
pub proof fn lemma_parts_of_the_body(public_key: Seq<u8>, now: int)
    requires
        public_key.len() == 32,
    ensures
        der_values(der_body(public_key, now)) matches Some(outer) && outer.len() == 1 && outer[0].0
            == 48 && (der_values(outer[0].1) matches Some(parts) && {
            &&& parts.len() == 7
            &&& parts[0] == (0xa0u8, seq![2u8, 1, 2])
            &&& parts[1] == (2u8, serial_number(public_key))
            &&& parts[2] == (48u8, seq![6u8, 3, 43, 101, 112])
            &&& parts[3].0 == 48
            &&& parts[5] == parts[3]
            &&& parts[4].0 == 48
            &&& der_values(parts[4].1) == Some(
                seq![
                    (23u8, utc_text(validity_times(now).0)),
                    (23u8, utc_text(validity_times(now).1)),
                ],
            )
            &&& parts[6].0 == 48
            &&& der_values(parts[6].1) == Some(
                seq![(48u8, seq![6u8, 3, 43, 101, 112]), (3u8, seq![0u8] + public_key)],
            )
        }),
{
    let version = der(0x02, seq![0x02u8]);
    assert(version =~= seq![2u8, 1, 2]);
    assert(oid_ed25519() =~= seq![6u8, 3, 43, 101, 112]);
    let serial = serial_number(public_key);
    lemma_serial_number_is_positive(public_key);
    let from = utc_text(validity_times(now).0);
    let to = utc_text(validity_times(now).1);
    assert(from.len() == 13 && to.len() == 13);
    let times = der(0x17, from) + der(0x17, to);
    lemma_two_values((0x17u8, from), (0x17u8, to));
    let bits = seq![0u8] + public_key;
    let key = der(0x30, oid_ed25519()) + der(3, bits);
    lemma_two_values((0x30u8, oid_ed25519()), (3u8, bits));
    let named = der(0x31, der(0x30, oid_common_name() + der(0x0c, common_name())));
    lemma_body_is_short(public_key, now);
    let inside = body_inside(public_key, now);
    let list = seq![
        (0xa0u8, version),
        (2u8, serial),
        (0x30u8, oid_ed25519()),
        (0x30u8, named),
        (0x30u8, times),
        (0x30u8, named),
        (0x30u8, key),
    ];
    lemma_shorter_than(0x30, named, der_name().len() as int);
    lemma_shorter_than(0x30, times, der_validity(now).len() as int);
    lemma_shorter_than(0x30, key, der(0x30, key).len() as int);
    lemma_seven_values(list);
    lemma_one_value((0x30u8, inside));
}

proof fn lemma_shorter_than(tag: u8, content: Seq<u8>, n: int)
    requires
        der(tag, content).len() == n,
    ensures
        content.len() < n,
{
}

proof fn lemma_body_is_short(public_key: Seq<u8>, now: int)
    requires
        public_key.len() == 32,
    ensures
        body_inside(public_key, now).len() < 1000,
        der_name().len() == 20,
        der_validity(now).len() == 32,
        der(0x30, der_algorithm() + der_bit_string(public_key)).len() == 44,
{
    lemma_serial_number_is_positive(public_key);
    assert(der(0xa0, der(0x02, seq![0x02u8])).len() == 5);
    assert(der(0x02, serial_number(public_key)).len() == 18);
    assert(der_algorithm().len() == 7);
    let common = oid_common_name() + der(0x0c, common_name());
    assert(common.len() == 14);
    assert(der_name().len() == 20);
    assert(der_validity(now).len() == 32);
    assert(der_bit_string(public_key).len() == 35);
    assert(der(0x30, der_algorithm() + der_bit_string(public_key)).len() == 44);
}

/// A length takes as few bytes as it can: one below 128, and else one more than its own bytes.
pub proof fn lemma_lengths_are_short(n: int)
    requires
        0 <= n < 16777216,
    ensures
        n < 128 ==> der_length(n) == seq![n as u8],
        128 <= n < 256 ==> der_length(n) == seq![129u8, n as u8],
        256 <= n < 65536 ==> der_length(n).len() == 3 && der_length(n)[0] == 130
            && der_length(n)[1] * 256 + der_length(n)[2] == n,
        n >= 65536 ==> der_length(n).len() == 4 && der_length(n)[0] == 131 && der_length(n)[1]
            * 65536 + der_length(n)[2] * 256 + der_length(n)[3] == n,
{
}

} // verus!
