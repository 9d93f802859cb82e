//! Keys, short ids and the authentication data of REALITY.
//!
//! The client hides its credentials in the ClientHello session id:
//!   * `shared   = X25519(server_private_key, client_key_share)`
//!   * `auth_key = HKDF-SHA256(ikm = shared, salt = client_random[..20], info = "REALITY")`
//!   * `plain    = AES-256-GCM.open(key = auth_key, nonce = client_random[20..], ct = session_id,
//!     aad = client_hello with a zeroed session id)`
//!
//! The 16 bytes of `plain` are `version (3), 0, unix time (4), short id (8)`.

use super::RealityError;
use crate::codec::{self, decode_loose};
use crate::text::{self, trim};
use crate::wire::{self, array_at, copy_part, get_u32};
use vstd::prelude::*;
use vstd::slice::*;
use vstd::string::*;
use vstd::utf8::*;
use x25519_dalek::{PublicKey, StaticSecret};

verus! {

/// Length of the X25519 shared secret and of the derived key.
pub const AUTH_KEY_LEN: usize = 32;

/// Length of the session id: 16 bytes of ciphertext and 16 of tag.
pub const SESSION_ID_LEN: usize = 32;

/// Length of the decrypted session id.
pub const PLAINTEXT_LEN: usize = 16;

/// Decodes base64 of either alphabet, with padding or without.
pub fn base64_decode(input: &str) -> (r: Result<Vec<u8>, RealityError>)
    ensures
        match r {
            Ok(out) => codec::loose_decode(input@) == Some(out@),
            Err(error) => codec::loose_decode(input@) is None && error
                == RealityError::InvalidBase64,
        },
{
    match decode_loose(input) {
        Some(out) => Ok(out),
        None => Err(RealityError::InvalidBase64),
    }
}

/// The private key that a text holds.
pub open spec fn private_key_of(encoded: Seq<char>) -> Result<Seq<u8>, RealityError> {
    match codec::loose_decode(text::trimmed(encoded)) {
        None => Err(RealityError::InvalidBase64),
        Some(bytes) => if bytes.len() == 32 {
            Ok(bytes)
        } else {
            Err(RealityError::PrivateKeyLength(bytes.len() as usize))
        },
    }
}

/// Reads an X25519 private key: 32 bytes in base64.
pub fn parse_private_key(encoded: &str) -> (r: Result<[u8; 32], RealityError>)
    ensures
        match r {
            Ok(key) => private_key_of(encoded@) == Ok::<_, RealityError>(key@),
            Err(error) => private_key_of(encoded@) == Err::<Seq<u8>, _>(error),
        },
{
    let bytes = match base64_decode(trim(encoded)) {
        Ok(bytes) => bytes,
        Err(error) => return Err(error),
    };
    if bytes.len() != 32 {
        return Err(RealityError::PrivateKeyLength(bytes.len()));
    }
    let key: [u8; 32] = array_at::<32>(bytes.as_slice(), 0);
    assert(key@ =~= bytes@);
    Ok(key)
}

/// Byte `i` of a short id: two digits, or zero behind the last.
pub open spec fn short_id_byte(b: Seq<u8>, i: int) -> u8 {
    if 2 * i + 1 < b.len() {
        (text::hex_digit(b[2 * i])->0 * 16 + text::hex_digit(b[2 * i + 1])->0) as u8
    } else {
        0
    }
}

/// The short id that a text holds: up to 16 hexadecimal digits, filled up with zeros.
pub open spec fn short_id_of(s: Seq<char>) -> Result<Seq<u8>, RealityError> {
    let b = encode_utf8(text::trimmed(s));
    if b.len() > 16 {
        Err(RealityError::ShortIdTooLong)
    } else if b.len() % 2 != 0 {
        Err(RealityError::ShortIdOddLength)
    } else if exists|k: int| 0 <= k < b.len() && (#[trigger] text::hex_digit(b[k])) is None {
        Err(RealityError::ShortIdNotHex)
    } else {
        Ok(Seq::new(8, |i: int| short_id_byte(b, i)))
    }
}

fn hex_value(byte: u8) -> (r: Option<u8>)
    ensures
        match r {
            Some(v) => v < 16 && text::hex_digit(byte) == Some(v as int),
            None => text::hex_digit(byte) is None,
        },
{
    if 0x30 <= byte && byte <= 0x39 {
        Some(byte - 0x30)
    } else if 0x61 <= byte && byte <= 0x66 {
        Some(byte - 0x61 + 10)
    } else if 0x41 <= byte && byte <= 0x46 {
        Some(byte - 0x41 + 10)
    } else {
        None
    }
}

/// Reads a short id: an even number of hexadecimal digits, at most 16. The empty text is the id
/// of zeros.
pub fn parse_short_id(short_id: &str) -> (r: Result<[u8; 8], RealityError>)
    ensures
        match r {
            Ok(id) => short_id_of(short_id@) == Ok::<_, RealityError>(id@),
            Err(error) => short_id_of(short_id@) == Err::<Seq<u8>, _>(error),
        },
{
    let bytes = trim(short_id).as_bytes();
    let ghost b = encode_utf8(text::trimmed(short_id@));
    if bytes.len() > 16 {
        return Err(RealityError::ShortIdTooLong);
    }
    if bytes.len() % 2 != 0 {
        return Err(RealityError::ShortIdOddLength);
    }
    let mut out: [u8; 8] = [0u8; 8];
    let pairs: usize = bytes.len() / 2;
    for i in 0..pairs
        invariant
            bytes@ == b,
            b == encode_utf8(text::trimmed(short_id@)),
            b.len() <= 16,
            b.len() == 2 * pairs,
            out@.len() == 8,
            forall|k: int| 0 <= k < 2 * i ==> (#[trigger] text::hex_digit(b[k])) is Some,
            forall|k: int| 0 <= k < i ==> out@[k] == #[trigger] short_id_byte(b, k),
            forall|k: int| i <= k < 8 ==> out@[k] == 0,
    {
        let hi: u8 = match hex_value(bytes[2 * i]) {
            Some(v) => v,
            None => return Err(RealityError::ShortIdNotHex),
        };
        let lo: u8 = match hex_value(bytes[2 * i + 1]) {
            Some(v) => v,
            None => return Err(RealityError::ShortIdNotHex),
        };
        out[i] = hi * 16 + lo;
        assert(out@[i as int] == short_id_byte(b, i as int));
    }
    assert(out@ =~= Seq::new(8, |i: int| short_id_byte(b, i)));
    Ok(out)
}

/// The X25519 shared secret of a private key and a peer's public key.
pub uninterp spec fn x25519(private_key: Seq<u8>, peer_public: Seq<u8>) -> Seq<u8>;

/// `x25519_dalek::StaticSecret::diffie_hellman`: the 32 bytes of the shared secret, a function of
/// the two keys.
#[verifier::external_body]
pub(crate) fn shared_secret(private_key: &[u8; 32], peer_public: &[u8; 32]) -> (r: [u8; 32])
    ensures
        r@ == x25519(private_key@, peer_public@),
{
    let secret = StaticSecret::from(*private_key);
    let public = PublicKey::from(*peer_public);
    *secret.diffie_hellman(&public).as_bytes()
}

/// `REALITY` in ASCII, followed by the number of the only HKDF output block.
pub open spec fn hkdf_info_block() -> Seq<u8> {
    seq![0x52u8, 0x45, 0x41, 0x4c, 0x49, 0x54, 0x59, 0x01]
}

/// What the second HMAC of the key derivation runs over.
pub fn info_block() -> (r: Vec<u8>)
    ensures
        r@ == hkdf_info_block(),
{
    let block: [u8; 8] = [0x52, 0x45, 0x41, 0x4c, 0x49, 0x54, 0x59, 0x01];
    assert(block@ =~= hkdf_info_block());
    wire::copy(&block)
}

/// HKDF-SHA256 to 32 bytes over a given HMAC: extract, then one block of expand. The output has
/// the length of the hash, so there is only one block.
pub open spec fn derived_key(
    hmac: spec_fn(Seq<u8>, Seq<u8>) -> Seq<u8>,
    salt: Seq<u8>,
    shared: Seq<u8>,
) -> Seq<u8> {
    hmac(hmac(salt, shared), hkdf_info_block())
}

/// What goes into an HMAC: its key and its data.
pub struct HmacInput {
    pub key: Vec<u8>,
    pub data: Vec<u8>,
}

/// The key derivation up to its first HMAC, the extract step, which runs over the shared secret
/// with the salt as its key.
pub fn derive_auth_key(
    private_key: &[u8; 32],
    peer_public: &[u8; 32],
    client_random_salt: &[u8],
) -> (r: HmacInput)
    ensures
        r.key@ == client_random_salt@,
        r.data@ == x25519(private_key@, peer_public@),
{
    let shared: [u8; 32] = shared_secret(private_key, peer_public);
    HmacInput { key: wire::copy(client_random_salt), data: wire::copy(&shared) }
}

/// The second HMAC of the key derivation, the expand step, given what the first one gave.
pub fn expand_auth_key(prk: &[u8]) -> (r: HmacInput)
    ensures
        r.key@ == prk@,
        r.data@ == hkdf_info_block(),
{
    HmacInput { key: wire::copy(prk), data: info_block() }
}

/// Running the two HMACs one after the other derives the key.
pub proof fn lemma_two_hmacs_derive_the_key(
    hmac: spec_fn(Seq<u8>, Seq<u8>) -> Seq<u8>,
    first: HmacInput,
    second: HmacInput,
)
    requires
        second.key@ == hmac(first.key@, first.data@),
        second.data@ == hkdf_info_block(),
    ensures
        hmac(second.key@, second.data@) == derived_key(hmac, first.key@, first.data@),
{
}

/// Splits a session id into ciphertext and tag.
pub fn split_session_id(session_id: &[u8]) -> (r: Result<(Vec<u8>, Vec<u8>), RealityError>)
    ensures
        match r {
            Ok((ciphertext, tag)) => session_id@.len() == SESSION_ID_LEN && ciphertext@
                == session_id@.subrange(0, 16) && tag@ == session_id@.subrange(16, 32),
            Err(error) => session_id@.len() != SESSION_ID_LEN && error
                == RealityError::SessionIdLength,
        },
{
    if session_id.len() != SESSION_ID_LEN {
        return Err(RealityError::SessionIdLength);
    }
    Ok((copy_part(session_id, 0, 16), copy_part(session_id, 16, 32)))
}

/// The plaintext of a session id, given what decryption made of it: nothing when the tag did not
/// match.
pub fn open_session_id(opened: Option<Vec<u8>>) -> (r: Result<[u8; 16], RealityError>)
    ensures
        match opened {
            None => r == Err::<[u8; 16], _>(RealityError::TagMismatch),
            Some(plain) => match r {
                Ok(out) => plain@.len() == PLAINTEXT_LEN && out@ == plain@,
                Err(error) => plain@.len() != PLAINTEXT_LEN && error
                    == RealityError::PlaintextLength,
            },
        },
{
    let plain = match opened {
        Some(plain) => plain,
        None => return Err(RealityError::TagMismatch),
    };
    if plain.len() != PLAINTEXT_LEN {
        return Err(RealityError::PlaintextLength);
    }
    let out: [u8; 16] = array_at::<16>(plain.as_slice(), 0);
    assert(out@ =~= plain@);
    Ok(out)
}

/// Splits the plaintext into client version, unix time and short id.
pub fn parse_plaintext(plain: &[u8; 16]) -> (r: ([u8; 3], u32, [u8; 8]))
    ensures
        r.0@ == plain@.subrange(0, 3),
        r.1 == wire::u32_at(plain@, 4),
        r.2@ == plain@.subrange(8, 16),
{
    (array_at::<3>(plain, 0), get_u32(plain, 4), array_at::<8>(plain, 8))
}

/// Short ids of up to eight bytes are written in hexadecimal, with whitespace around them or not,
/// and filled up with zeros.
pub proof fn lemma_short_ids_are_hexadecimal(
    bytes: Seq<u8>,
    before: Seq<char>,
    after: Seq<char>,
)
    requires
        bytes.len() <= 8,
        forall|k: int| 0 <= k < before.len() ==> text::is_whitespace(#[trigger] before[k]),
        forall|k: int| 0 <= k < after.len() ==> text::is_whitespace(#[trigger] after[k]),
    ensures
        short_id_of(before + text::hex_text(bytes) + after) == Ok::<_, RealityError>(
            bytes + Seq::new((8 - bytes.len()) as nat, |i: int| 0u8),
        ),
{
    let s = text::hex_text(bytes);
    let b = encode_utf8(s);
    assert forall|i: int| 0 <= i < s.len() implies '\0' <= #[trigger] s[i] <= '\u{7f}' by {}
    is_ascii_chars_encode_utf8(s);
    if bytes.len() > 0 {
        text::lemma_ascii_whitespace(s[0]);
        text::lemma_ascii_whitespace(s[s.len() - 1]);
        text::lemma_trimmed(before, s, after);
    } else {
        assert(s =~= Seq::<char>::empty());
        assert(before + s + after =~= before + after);
        let one = seq!['x'];
        text::lemma_ascii_whitespace('x');
        text::lemma_trimmed(before, one, after);
    }
    assert(text::trimmed(before + s + after) == s);
    assert forall|k: int| 0 <= k < b.len() implies (#[trigger] text::hex_digit(b[k])) is Some by {
        let i = k / 2;
        text::lemma_hex_text_reads_back(bytes, i);
        assert(s[k] as u8 == b[k]);
    }
    let id = Seq::new(8, |i: int| short_id_byte(b, i));
    assert forall|i: int| 0 <= i < bytes.len() implies #[trigger] id[i] == bytes[i] by {
        text::lemma_hex_text_reads_back(bytes, i);
        assert(s[2 * i] as u8 == b[2 * i] && s[2 * i + 1] as u8 == b[2 * i + 1]);
    }
    assert(id =~= bytes + Seq::new((8 - bytes.len()) as nat, |i: int| 0u8));
}

/// What is no short id: more than 16 digits, an odd number of them, or anything that is no digit.
pub proof fn lemma_other_short_ids(s: Seq<char>)
    requires
        text::trimmed(s) == s,
        is_ascii_chars(s),
    ensures
        short_id_of(s) is Ok <==> s.len() <= 16 && s.len() % 2 == 0 && forall|i: int|
            0 <= i < s.len() ==> '0' <= #[trigger] s[i] <= '9' || 'a' <= s[i] <= 'f' || 'A' <= s[i]
                <= 'F',
        s.len() > 16 ==> short_id_of(s) == Err::<Seq<u8>, _>(RealityError::ShortIdTooLong),
        s.len() <= 16 && s.len() % 2 == 1 ==> short_id_of(s) == Err::<Seq<u8>, _>(
            RealityError::ShortIdOddLength,
        ),
{
    let b = encode_utf8(s);
    is_ascii_chars_encode_utf8(s);
    assert forall|i: int| 0 <= i < s.len() implies (text::hex_digit(b[i]) is Some <==> ('0'
        <= #[trigger] s[i] <= '9' || 'a' <= s[i] <= 'f' || 'A' <= s[i] <= 'F')) by {
        assert(s[i] as u8 == b[i]);
    }
    if exists|i: int| 0 <= i < b.len() && (#[trigger] text::hex_digit(b[i])) is None {
        let i = choose|i: int| 0 <= i < b.len() && (#[trigger] text::hex_digit(b[i])) is None;
        assert(!('0' <= s[i] <= '9' || 'a' <= s[i] <= 'f' || 'A' <= s[i] <= 'F'));
    } else {
        assert forall|i: int| 0 <= i < s.len() implies '0' <= #[trigger] s[i] <= '9' || 'a' <= s[i]
            <= 'f' || 'A' <= s[i] <= 'F' by {
            assert(text::hex_digit(b[i]) is Some);
        }
    }
}

/// A private key is 32 bytes in any form of base64, with whitespace around it or not; so many bytes
/// and no others.
pub proof fn lemma_private_keys_are_base64(
    key: Seq<u8>,
    url: bool,
    pad: bool,
    before: Seq<char>,
    after: Seq<char>,
)
    requires
        0 < key.len() <= usize::MAX,
        forall|k: int| 0 <= k < before.len() ==> text::is_whitespace(#[trigger] before[k]),
        forall|k: int| 0 <= k < after.len() ==> text::is_whitespace(#[trigger] after[k]),
    ensures
        private_key_of(before + codec::base64_form(key, url, pad) + after) == (if key.len() == 32 {
            Ok::<_, RealityError>(key)
        } else {
            Err(RealityError::PrivateKeyLength(key.len() as usize))
        }),
{
    let s = codec::base64_form(key, url, pad);
    assert(codec::unpadded(key, url).len() > 0);
    codec::lemma_form_characters(key, url, pad, 0);
    codec::lemma_form_characters(key, url, pad, s.len() - 1);
    text::lemma_ascii_whitespace(s[0]);
    text::lemma_ascii_whitespace(s[s.len() - 1]);
    text::lemma_trimmed(before, s, after);
    codec::lemma_loose_round_trip(key, url, pad);
}

/// The key derivation is bound to its purpose by the name of the protocol, followed by the number
/// of the block.
pub proof fn lemma_info_block()
    ensures
        hkdf_info_block() == encode_utf8("REALITY"@) + seq![1u8],
{
    reveal_strlit("REALITY");
    let s = "REALITY"@;
    assert forall|i: int| 0 <= i < s.len() implies '\0' <= #[trigger] s[i] <= '\u{7f}' by {}
    is_ascii_chars_encode_utf8(s);
    assert(s[0] as u8 == 0x52 && s[1] as u8 == 0x45 && s[2] as u8 == 0x41 && s[3] as u8 == 0x4c
        && s[4] as u8 == 0x49 && s[5] as u8 == 0x54 && s[6] as u8 == 0x59);
    assert(hkdf_info_block() =~= encode_utf8(s) + seq![1u8]);
}

} // verus!
