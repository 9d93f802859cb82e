use trojan_rs::calendar::civil_from_unix;
use trojan_rs::protocol::address::{Address, SocketAddr};
use trojan_rs::protocol::reality::acceptor::{
    begin_authentication, connection_step, finish_authentication, read_client_hello,
    time_within_window, RealityStep,
};
use trojan_rs::protocol::reality::cert::{build_certificate, tlv, utc_time, RealityCertificate};
use trojan_rs::protocol::reality::client_hello::{
    parse, EXT_KEY_SHARE, EXT_SERVER_NAME, EXT_SUPPORTED_VERSIONS, GROUP_X25519,
    GROUP_X25519MLKEM768, HANDSHAKE_TYPE_CLIENT_HELLO,
};
use trojan_rs::protocol::reality::config::{RealityConfigError, RealityServer};
use trojan_rs::protocol::reality::crypto::{
    base64_decode, derive_auth_key, expand_auth_key, open_session_id, parse_plaintext,
    parse_private_key, parse_short_id, split_session_id, PLAINTEXT_LEN,
};
use trojan_rs::protocol::reality::{RealityAcceptorConfig, RealityError};
use trojan_rs::wire::Decoded;

use aws_lc_rs::{aead, hmac};
use base64::{engine::general_purpose, Engine as _};
use x25519_dalek::{PublicKey, StaticSecret};

const VALID_KEY: &str = "YOuhqB7XBNCYNqzbgZWf0evVCkOPTvxvSU2-3LfFqRg";

fn hmac_sha256(key: &[u8], data: &[u8]) -> Vec<u8> {
    hmac::sign(&hmac::Key::new(hmac::HMAC_SHA256, key), data).as_ref().to_vec()
}

fn hmac_sha512(key: &[u8], data: &[u8]) -> [u8; 64] {
    let tag = hmac::sign(&hmac::Key::new(hmac::HMAC_SHA512, key), data);
    tag.as_ref().try_into().unwrap()
}

fn gcm_key(key: &[u8]) -> aead::LessSafeKey {
    aead::LessSafeKey::new(aead::UnboundKey::new(&aead::AES_256_GCM, key).unwrap())
}

fn seal(key: &[u8], nonce: &[u8], aad: &[u8], plain: &[u8]) -> Vec<u8> {
    let mut out = plain.to_vec();
    let nonce = aead::Nonce::try_assume_unique_for_key(nonce).unwrap();
    gcm_key(key)
        .seal_in_place_append_tag(nonce, aead::Aad::from(aad), &mut out)
        .unwrap();
    out
}

fn open(key: &[u8], nonce: &[u8], aad: &[u8], ciphertext: &[u8], tag: &[u8]) -> Option<Vec<u8>> {
    let mut data = [ciphertext, tag].concat();
    let nonce = aead::Nonce::try_assume_unique_for_key(nonce).unwrap();
    let plain = gcm_key(key).open_in_place(nonce, aead::Aad::from(aad), &mut data).ok()?;
    Some(plain.to_vec())
}

fn extension(kind: u16, data: &[u8]) -> Vec<u8> {
    let mut out = kind.to_be_bytes().to_vec();
    out.extend_from_slice(&(data.len() as u16).to_be_bytes());
    out.extend_from_slice(data);
    out
}

fn sni_extension(names: &[(u8, &[u8])]) -> Vec<u8> {
    let mut list = Vec::new();
    for (kind, name) in names {
        list.push(*kind);
        list.extend_from_slice(&(name.len() as u16).to_be_bytes());
        list.extend_from_slice(name);
    }
    let mut data = (list.len() as u16).to_be_bytes().to_vec();
    data.extend_from_slice(&list);
    extension(EXT_SERVER_NAME, &data)
}

fn key_share_extension(shares: &[(u16, Vec<u8>)]) -> Vec<u8> {
    let mut list = Vec::new();
    for (group, key) in shares {
        list.extend_from_slice(&group.to_be_bytes());
        list.extend_from_slice(&(key.len() as u16).to_be_bytes());
        list.extend_from_slice(key);
    }
    let mut data = (list.len() as u16).to_be_bytes().to_vec();
    data.extend_from_slice(&list);
    extension(EXT_KEY_SHARE, &data)
}

fn hello_with(random: [u8; 32], session_id: &[u8], extensions: Option<&[u8]>) -> Vec<u8> {
    let mut body = Vec::new();
    body.extend_from_slice(&[0x03, 0x03]); // legacy_version TLS 1.2
    body.extend_from_slice(&random);
    body.push(session_id.len() as u8);
    body.extend_from_slice(session_id);
    body.extend_from_slice(&[0x00, 0x02, 0x13, 0x01]); // cipher_suites
    body.extend_from_slice(&[0x01, 0x00]); // compression_methods
    if let Some(extensions) = extensions {
        body.extend_from_slice(&(extensions.len() as u16).to_be_bytes());
        body.extend_from_slice(extensions);
    }
    let mut message = vec![HANDSHAKE_TYPE_CLIENT_HELLO];
    let len = body.len();
    message.extend_from_slice(&[(len >> 16) as u8, (len >> 8) as u8, len as u8]);
    message.extend_from_slice(&body);
    message
}

fn usual_extensions(host: &[u8], key: [u8; 32]) -> Vec<u8> {
    let mut extensions = sni_extension(&[(0, host)]);
    extensions.extend_from_slice(&extension(EXT_SUPPORTED_VERSIONS, &[0x02, 0x03, 0x04]));
    extensions.extend_from_slice(&key_share_extension(&[(GROUP_X25519, key.to_vec())]));
    extensions
}

fn sample_client_hello() -> Vec<u8> {
    let extensions = usual_extensions(b"example.com", [0xCC; 32]);
    hello_with([0xAA; 32], &[0xBB; 32], Some(&extensions))
}

#[test]
fn parses_reality_fields() {
    let message = sample_client_hello();
    let parsed = parse(&message).unwrap();
    assert_eq!(parsed.server_name, "example.com");
    assert_eq!(parsed.random, [0xAA; 32]);
    assert_eq!(parsed.session_id, [0xBB; 32]);
    assert_eq!(parsed.key_share_x25519, Some([0xCC; 32]));
    assert!(parsed.offers_tls13);
    // session_id sits at: 1(type)+3(len)+2(version)+32(random)+1(sid len)
    assert_eq!(parsed.session_id_offset, 39);
    assert_eq!(
        &message[parsed.session_id_offset..parsed.session_id_offset + 32],
        &[0xBB; 32]
    );
}

#[test]
fn rejects_malformed_input() {
    assert!(parse(&[]).is_err());
    assert!(parse(&[HANDSHAKE_TYPE_CLIENT_HELLO, 0x00, 0x00, 0xff]).is_err());
    // Truncated body
    let mut message = sample_client_hello();
    message.truncate(message.len() - 10);
    assert!(parse(&message).is_err());
}

#[test]
fn names_what_is_wrong_with_a_client_hello() {
    assert!(matches!(parse(&[]), Err(RealityError::HelloTruncated)));
    assert!(matches!(parse(&[2, 0, 0, 0]), Err(RealityError::NotClientHello)));
    assert!(matches!(parse(&[1, 0, 0]), Err(RealityError::HelloTruncated)));
    assert!(matches!(parse(&[1, 0, 0, 9]), Err(RealityError::HelloLengthMismatch)));
    assert!(matches!(parse(&[1, 0, 0, 0]), Err(RealityError::HelloTruncated)));

    let mut message = sample_client_hello();
    let at = 39 + 32 + 4 + 2;
    message[at + 1] -= 1;
    assert!(matches!(parse(&message), Err(RealityError::ExtensionsLengthMismatch)));

    let cut_extension = [0x00, 0x00, 0x00, 0x09, 0x00];
    let message = hello_with([0; 32], &[0; 32], Some(&cut_extension));
    assert!(matches!(parse(&message), Err(RealityError::HelloTruncated)));
}

#[test]
fn a_hello_without_extensions_has_no_name_and_no_key() {
    let parsed = parse(&hello_with([1; 32], &[7; 16], None)).unwrap();
    assert_eq!(parsed.server_name, "");
    assert_eq!(parsed.key_share_x25519, None);
    assert!(!parsed.offers_tls13);
    // Only a session id of 32 bytes is kept.
    assert_eq!(parsed.session_id, [0u8; 32]);
    assert_eq!(parsed.session_id_offset, 39);
}

#[test]
fn the_last_extension_of_a_kind_counts() {
    let mut extensions = sni_extension(&[(0, b"First.Example")]);
    extensions.extend_from_slice(&sni_extension(&[(1, b"ignored"), (0, b"SECOND.example")]));
    // A server name list that does not parse leaves the name as it is.
    extensions.extend_from_slice(&extension(EXT_SERVER_NAME, &[0, 9, 0]));
    extensions.extend_from_slice(&extension(EXT_SUPPORTED_VERSIONS, &[0x04, 0x03, 0x03, 0x03, 0x04]));
    let mut hybrid = vec![1u8; 1184];
    hybrid.extend_from_slice(&[0xDD; 32]);
    extensions.extend_from_slice(&key_share_extension(&[
        (0x0017, vec![4; 65]),
        (GROUP_X25519MLKEM768, hybrid),
        (GROUP_X25519, vec![0xEE; 32]),
    ]));
    let parsed = parse(&hello_with([0; 32], &[0; 32], Some(&extensions))).unwrap();
    assert_eq!(parsed.server_name, "second.example");
    assert!(parsed.offers_tls13);
    assert_eq!(parsed.key_share_x25519, Some([0xDD; 32]));

    extensions.extend_from_slice(&extension(EXT_SUPPORTED_VERSIONS, &[0x02, 0x03, 0x03]));
    extensions.extend_from_slice(&extension(EXT_KEY_SHARE, &[0, 0]));
    let parsed = parse(&hello_with([0; 32], &[0; 32], Some(&extensions))).unwrap();
    assert!(!parsed.offers_tls13);
    assert_eq!(parsed.key_share_x25519, None);
}

fn records(fragments: &[&[u8]]) -> Vec<u8> {
    let mut out = Vec::new();
    for fragment in fragments {
        out.extend_from_slice(&[0x16, 3, 1]);
        out.extend_from_slice(&(fragment.len() as u16).to_be_bytes());
        out.extend_from_slice(fragment);
    }
    out
}

#[test]
fn client_hello_is_put_together_from_fragments() {
    let message = sample_client_hello();
    let bytes = records(&[&message[..3], &message[3..50], &message[50..]]);
    let mut stream = bytes.clone();
    stream.extend_from_slice(b"later bytes");

    // A reader that asks for what is missing reads exactly the three records.
    let mut received = Vec::new();
    let (read, used) = loop {
        match read_client_hello(&received, 16 * 1024) {
            Decoded::Need(more) => {
                let start = received.len();
                received.extend_from_slice(&stream[start..start + more]);
            }
            Decoded::Done(read, used) => break (read, used),
            Decoded::Fail(error) => panic!("{}", error.message()),
        }
    };
    assert_eq!(read, message);
    assert_eq!(used, bytes.len());
    assert_eq!(received, bytes);
}

#[test]
fn client_hello_records_are_limited() {
    assert!(matches!(
        read_client_hello(&[0x17, 3, 1, 0, 5], 512),
        Decoded::Fail(RealityError::NotHandshakeRecord)
    ));
    assert!(matches!(
        read_client_hello(&[0x16, 3, 1, 0, 0], 512),
        Decoded::Fail(RealityError::RecordLength)
    ));
    assert!(matches!(
        read_client_hello(&[0x16, 3, 1, 0x40, 1], 65536),
        Decoded::Fail(RealityError::RecordLength)
    ));
    assert!(matches!(
        read_client_hello(&[0x16, 3, 1, 2, 0], 512),
        Decoded::Fail(RealityError::HelloTooLarge)
    ));
    assert!(matches!(read_client_hello(&[], 512), Decoded::Need(5)));
    assert!(matches!(read_client_hello(&[], 4), Decoded::Fail(RealityError::HelloTooLarge)));
    assert!(matches!(read_client_hello(&[0x16, 3, 1, 0, 9], 512), Decoded::Need(9)));
}

// Walks into a DER value: (tag, content, rest).
fn der(bytes: &[u8]) -> (u8, &[u8], &[u8]) {
    let (start, len) = match bytes[1] {
        n if n < 0x80 => (2, n as usize),
        0x81 => (3, bytes[2] as usize),
        0x82 => (4, u16::from_be_bytes([bytes[2], bytes[3]]) as usize),
        _ => panic!("long length"),
    };
    (bytes[0], &bytes[start..start + len], &bytes[start + len..])
}

#[test]
fn builds_parseable_certificate() {
    let public = [0x5A; 32];
    let cert = RealityCertificate::new(&public, 1_700_000_000).unwrap();
    let base = cert.base_der().to_vec();
    assert_eq!(base, build_certificate(&public, 1_700_000_000));

    let (tag, body, rest) = der(&base);
    assert_eq!((tag, rest.len()), (0x30, 0));
    let (tag, tbs, rest) = der(body);
    assert_eq!(tag, 0x30);
    let (_, algorithm, rest) = der(rest);
    assert_eq!(algorithm, [0x06, 0x03, 0x2b, 0x65, 0x70]);
    let (tag, signature, rest) = der(rest);
    assert_eq!((tag, signature.len(), rest.len()), (0x03, 65, 0));
    assert_eq!(signature, [0u8; 65]);

    let (tag, version, rest) = der(tbs);
    assert_eq!((tag, version), (0xa0, &[0x02, 0x01, 0x02][..]));
    let (tag, serial, rest) = der(rest);
    assert_eq!((tag, serial.len(), serial[0]), (0x02, 16, 0x5B));
    let (_, _, rest) = der(rest);
    let (_, issuer, rest) = der(rest);
    let (tag, validity, rest) = der(rest);
    assert_eq!(tag, 0x30);
    let (_, subject, rest) = der(rest);
    assert_eq!(issuer, subject);
    let (tag, not_before, not_after) = der(validity);
    assert_eq!((tag, not_before), (0x17, &b"231113221320Z"[..]));
    assert_eq!(der(not_after).1, b"241113221320Z");
    // The leaf public key round-trips back to our Ed25519 key.
    let (_, key_info, rest) = der(rest);
    assert_eq!(rest.len(), 0);
    let (_, _, key) = der(key_info);
    let (tag, key, _) = der(key);
    assert_eq!((tag, key[0]), (0x03, 0));
    assert_eq!(&key[1..], &cert.public());
}

#[test]
fn forges_signature_into_trailing_bytes() {
    let cert = RealityCertificate::new(&[7; 32], 1_700_000_000).unwrap();
    let signature = hmac_sha512(&[0x11; 32], &cert.public());
    let der = cert.forge(&signature);
    assert_eq!(&der[der.len() - 64..], &signature[..]);
    assert_eq!(der[..der.len() - 64], cert.base_der()[..der.len() - 64]);

    let other = cert.forge(&hmac_sha512(&[0x22; 32], &cert.public()));
    assert_ne!(&der[der.len() - 64..], &other[other.len() - 64..]);
}

#[test]
fn forged_certificates_have_the_shape_of_the_base() {
    let cert = RealityCertificate::new(&[7; 32], 1_700_000_000).unwrap();
    let signature = hmac_sha512(&[0x11; 32], &cert.public());
    let forged = cert.forge(&signature);
    let (tag, body, rest) = der(&forged);
    assert_eq!((tag, rest.len()), (0x30, 0));
    let (tag, tbs, rest) = der(body);
    assert_eq!(tag, 0x30);
    assert_eq!(tbs, der(der(cert.base_der()).1).1);
    let (tag, algorithm, rest) = der(rest);
    assert_eq!((tag, algorithm), (0x30, &[0x06, 0x03, 0x2b, 0x65, 0x70][..]));
    let (tag, bits, rest) = der(rest);
    assert_eq!((tag, rest.len()), (0x03, 0));
    assert_eq!((bits[0], &bits[1..]), (0, &signature[..]));

    let (_, _, rest) = der(tbs);
    let (_, serial, rest) = der(rest);
    assert_eq!(serial.len(), 16);
    let (_, signed_with, rest) = der(rest);
    assert_eq!(signed_with, algorithm);
    let (_, issuer, rest) = der(rest);
    let (_, _, rest) = der(rest);
    let (_, subject, rest) = der(rest);
    assert_eq!(issuer, subject);
    let (_, key_info, rest) = der(rest);
    assert_eq!(rest.len(), 0);
    let (_, _, key) = der(key_info);
    assert_eq!(der(key).1[1..], cert.public());
}

#[test]
fn refuses_public_keys_of_another_length() {
    assert!(matches!(
        RealityCertificate::new(&[7; 31], 0),
        Err(RealityError::PublicKeyLength)
    ));
}

#[test]
fn der_lengths_have_their_shortest_form() {
    assert_eq!(tlv(4, &[9; 3]), [4, 3, 9, 9, 9]);
    assert_eq!(tlv(4, &[0; 127])[..2], [4, 127]);
    assert_eq!(tlv(4, &[0; 128])[..3], [4, 0x81, 128]);
    assert_eq!(tlv(4, &[0; 256])[..4], [4, 0x82, 1, 0]);
    assert_eq!(tlv(4, &vec![0; 65536])[..5], [4, 0x83, 1, 0, 0]);
}

#[test]
fn civil_time_matches_known_values() {
    // 2021-01-01T00:00:00Z == 1609459200
    assert_eq!(civil_from_unix(1_609_459_200), (2021, 1, 1, 0, 0, 0));
    // 2000-02-29T12:34:56Z == 951827696
    assert_eq!(civil_from_unix(951_827_696), (2000, 2, 29, 12, 34, 56));
}

#[test]
fn civil_time_at_the_edges_of_years() {
    assert_eq!(civil_from_unix(0), (1970, 1, 1, 0, 0, 0));
    assert_eq!(civil_from_unix(951_782_399), (2000, 2, 28, 23, 59, 59));
    assert_eq!(civil_from_unix(951_868_800), (2000, 3, 1, 0, 0, 0));
    assert_eq!(civil_from_unix(4_107_542_399), (2100, 2, 28, 23, 59, 59));
    assert_eq!(civil_from_unix(4_107_542_400), (2100, 3, 1, 0, 0, 0));
    assert_eq!(civil_from_unix(1_735_689_599), (2024, 12, 31, 23, 59, 59));
    assert_eq!(utc_time(951_827_696)[2..], b"000229123456Z"[..]);
}

fn base_config() -> RealityAcceptorConfig {
    RealityAcceptorConfig::new(
        "0.0.0.0:443".to_string(),
        "www.example.com:443".to_string(),
        vec!["www.example.com".to_string()],
        VALID_KEY.to_string(),
        vec!["0123456789abcdef".to_string()],
    )
}

#[test]
fn parses_valid_config() {
    let server = base_config().validate(None).unwrap();
    assert_eq!(server.handshake_timeout_secs, 10);
    assert_eq!(server.max_client_hello_size, 16 * 1024);
    assert!(server.max_time_diff_secs.is_none());
    assert!(server.server_names.contains(&"www.example.com".to_string()));
    assert!(server
        .short_ids
        .contains(&[0x01, 0x23, 0x45, 0x67, 0x89, 0xab, 0xcd, 0xef]));
}

#[test]
fn rejects_invalid_inputs() {
    let mut config = base_config();
    config.private_key = "not-base64!!".to_string();
    assert!(config.validate(None).is_err());

    let mut config = base_config();
    config.server_names = Vec::new();
    assert!(config.validate(None).is_err());

    let mut config = base_config();
    config.target = "www.example.com".to_string();
    // Defaults to port 80 via Address parsing, so this is actually valid.
    let server = config.validate(None).unwrap();
    assert_eq!(server.target.port(), 80);
}

#[test]
fn honours_max_time_diff() {
    let mut config = base_config();
    config.max_time_diff_secs = 90;
    let server = config.validate(None).unwrap();
    assert_eq!(server.max_time_diff_secs, Some(90));
}

#[test]
fn every_configuration_error_has_its_words() {
    let words = |change: fn(&mut RealityAcceptorConfig)| -> String {
        let mut config = base_config();
        change(&mut config);
        match config.validate(None) {
            Ok(_) => "ok".to_string(),
            Err(error) => error.message(),
        }
    };
    assert_eq!(
        words(|c| c.handshake_timeout_secs = 0),
        "reality: handshake_timeout_secs must be greater than zero"
    );
    let size = "reality: max_client_hello_size must be between 512 and 65536";
    assert_eq!(words(|c| c.max_client_hello_size = 511), size);
    assert_eq!(words(|c| c.max_client_hello_size = 65537), size);
    assert_eq!(words(|c| c.max_client_hello_size = 65536), "ok");
    assert_eq!(
        words(|c| c.target = "host:port".to_string()),
        "reality: invalid target address host:port"
    );
    assert_eq!(
        words(|c| c.target = "host:0".to_string()),
        "reality: target must include a non-zero port"
    );
    assert_eq!(
        words(|c| c.server_names.clear()),
        "reality: at least one server_name is required"
    );
    assert_eq!(
        words(|c| c.server_names.push("127.0.0.1".to_string())),
        "tls: sni must be a valid DNS hostname"
    );
    assert_eq!(
        words(|c| c.private_key = "####".to_string()),
        "reality: invalid base64 character in key"
    );
    assert_eq!(
        words(|c| c.private_key = "AAAA".to_string()),
        "reality: private_key must decode to 32 bytes, got 3"
    );
    assert_eq!(
        words(|c| c.short_ids.clear()),
        "reality: at least one short_id is required"
    );
    assert_eq!(
        words(|c| c.short_ids.push("zz".to_string())),
        "reality: short_id must be hexadecimal"
    );
}

#[test]
fn configured_names_and_ids_are_kept_once() {
    let mut config = base_config();
    config.server_names.push("WWW.Example.COM".to_string());
    config.server_names.push("b.example".to_string());
    config.short_ids.push("0123456789ABCDEF".to_string());
    config.short_ids.push("".to_string());
    config.target = "192.0.2.1:8443".to_string();
    let server = config.validate(Some(SocketAddr::V4([192, 0, 2, 1], 8443))).unwrap();
    assert_eq!(server.server_names, ["www.example.com", "b.example"]);
    assert_eq!(
        server.short_ids,
        [[0x01, 0x23, 0x45, 0x67, 0x89, 0xab, 0xcd, 0xef], [0; 8]]
    );
    assert!(server
        .target
        .same_as(&Address::SocketAddress(SocketAddr::V4([192, 0, 2, 1], 8443))));
    assert!(matches!(
        base_config().validate(Some(SocketAddr::V4([192, 0, 2, 1], 0))),
        Err(RealityConfigError::TargetPortZero)
    ));
}

#[test]
fn decodes_base64_url_and_standard() {
    // 32 zero bytes, RawURLEncoding == 43 'A' characters.
    let key = parse_private_key(&"A".repeat(43)).unwrap();
    assert_eq!(key, [0u8; 32]);
    // Standard alphabet with padding decodes to the same bytes.
    assert_eq!(base64_decode("AAAA").unwrap(), vec![0, 0, 0]);
    assert!(parse_private_key("####").is_err());
    assert!(parse_private_key("AAAA").is_err());
}

#[test]
fn base64_round_trips_in_every_form() {
    for len in 0..70usize {
        let data: Vec<u8> = (0..len).map(|i| (i * 37 + len * 11) as u8).collect();
        assert_eq!(base64_decode(&general_purpose::STANDARD.encode(&data)).unwrap(), data);
        assert_eq!(base64_decode(&general_purpose::STANDARD_NO_PAD.encode(&data)).unwrap(), data);
        assert_eq!(base64_decode(&general_purpose::URL_SAFE.encode(&data)).unwrap(), data);
        assert_eq!(base64_decode(&general_purpose::URL_SAFE_NO_PAD.encode(&data)).unwrap(), data);
    }
    // Bits that make up no byte are dropped, and so is what follows padding.
    assert_eq!(base64_decode("AQ==ignored").unwrap(), [1]);
    assert_eq!(base64_decode("A").unwrap(), Vec::<u8>::new());
    assert_eq!(base64_decode("-_+/").unwrap(), [0xfb, 0xff, 0xbf]);
    assert!(matches!(base64_decode("AA A"), Err(RealityError::InvalidBase64)));
    assert_eq!(
        parse_private_key(&format!("  {}\n", VALID_KEY)).unwrap()[..3],
        [0x60, 0xeb, 0xa1]
    );
}

#[test]
fn parses_short_ids() {
    assert_eq!(parse_short_id("").unwrap(), [0u8; 8]);
    assert_eq!(
        parse_short_id("0123456789abcdef").unwrap(),
        [0x01, 0x23, 0x45, 0x67, 0x89, 0xab, 0xcd, 0xef]
    );
    assert_eq!(parse_short_id("01").unwrap(), [0x01, 0, 0, 0, 0, 0, 0, 0]);
    assert!(parse_short_id("0").is_err());
    assert!(parse_short_id("zz").is_err());
    assert!(parse_short_id("00112233445566778899").is_err());
}

#[test]
fn short_id_errors_come_in_order() {
    assert_eq!(parse_short_id(" aB \t").unwrap(), [0xab, 0, 0, 0, 0, 0, 0, 0]);
    assert!(matches!(parse_short_id("zzzzzzzzzzzzzzzzz"), Err(RealityError::ShortIdTooLong)));
    assert!(matches!(parse_short_id("zzz"), Err(RealityError::ShortIdOddLength)));
    assert!(matches!(parse_short_id("0g"), Err(RealityError::ShortIdNotHex)));
}

#[test]
fn parses_plaintext_fields() {
    let mut plain = [0u8; PLAINTEXT_LEN];
    plain[0..3].copy_from_slice(&[1, 2, 3]);
    plain[4..8].copy_from_slice(&0x6500_0000u32.to_be_bytes());
    plain[8..16].copy_from_slice(&[9, 9, 9, 9, 9, 9, 9, 9]);
    let (ver, time, short_id) = parse_plaintext(&plain);
    assert_eq!(ver, [1, 2, 3]);
    assert_eq!(time, 0x6500_0000);
    assert_eq!(short_id, [9u8; 8]);
}

fn derive(private_key: &[u8; 32], public: &[u8; 32], salt: &[u8]) -> Vec<u8> {
    let extract = derive_auth_key(private_key, public, salt);
    let prk = hmac_sha256(&extract.key, &extract.data);
    let expand = expand_auth_key(&prk);
    hmac_sha256(&expand.key, &expand.data)
}

#[test]
fn auth_key_and_session_id_round_trip() {
    // Derive an auth key, encrypt a known plaintext exactly like the client,
    // then confirm the server decrypt path recovers it.
    let server_secret = StaticSecret::from([7u8; 32]);
    let server_public = PublicKey::from(&server_secret);
    let client_secret = StaticSecret::from([9u8; 32]);
    let client_public = PublicKey::from(&client_secret);

    let mut random = [0u8; 32];
    for (i, b) in random.iter_mut().enumerate() {
        *b = i as u8;
    }

    // The key derivation clamps the scalar internally, matching curve25519.X25519.
    let server_private = [7u8; 32];
    let auth_key = derive(&server_private, client_public.as_bytes(), &random[..20]);

    // Client-equivalent derivation using the server public key.
    let client_auth = {
        let shared = client_secret.diffie_hellman(&server_public);
        let prk = hmac_sha256(&random[..20], shared.as_bytes());
        let mut info = b"REALITY".to_vec();
        info.push(1);
        hmac_sha256(&prk, &info)
    };
    assert_eq!(auth_key, client_auth);

    let aad = b"fake-client-hello-with-zeroed-session-id";
    let mut plain = [0u8; PLAINTEXT_LEN];
    plain[8..16].copy_from_slice(&[0xab; 8]);
    let session_id = seal(&auth_key, &random[20..32], aad, &plain);
    assert_eq!(session_id.len(), 32);

    let (ciphertext, tag) = split_session_id(&session_id).unwrap();
    let opened = open(&auth_key, &random[20..32], aad, &ciphertext, &tag);
    let recovered = open_session_id(opened).unwrap();
    assert_eq!(recovered, plain);

    // Wrong AAD must fail authentication.
    let opened = open(&auth_key, &random[20..32], b"tampered", &ciphertext, &tag);
    assert!(open_session_id(opened).is_err());
}

#[test]
fn session_id_errors() {
    assert!(matches!(split_session_id(&[0; 31]), Err(RealityError::SessionIdLength)));
    assert!(matches!(open_session_id(None), Err(RealityError::TagMismatch)));
    assert!(matches!(
        open_session_id(Some(vec![0; 15])),
        Err(RealityError::PlaintextLength)
    ));
}

#[test]
fn time_window_enforced_only_when_configured() {
    let now = std::time::SystemTime::now()
        .duration_since(std::time::UNIX_EPOCH)
        .unwrap()
        .as_secs();
    assert!(time_within_window(now, 0, None));
    let client = now as u32;
    assert!(time_within_window(now, client, Some(60)));
    assert!(!time_within_window(now, client - 600, Some(60)));
}

#[test]
fn time_window_reaches_both_ways() {
    assert!(time_within_window(1000, 1060, Some(60)));
    assert!(!time_within_window(1000, 1061, Some(60)));
    assert!(time_within_window(1000, 940, Some(60)));
    assert!(!time_within_window(1000, 939, Some(60)));
}

fn server() -> RealityServer {
    let mut config = base_config();
    config.server_names = vec!["example.com".to_string()];
    config.private_key = "BwcHBwcHBwcHBwcHBwcHBwcHBwcHBwcHBwcHBwcHBwc".to_string();
    config.max_time_diff_secs = 60;
    config.validate(None).unwrap()
}

// A ClientHello of a client that knows the server's public key.
fn authenticated_hello(host: &[u8], unix_time: u32, short_id: [u8; 8]) -> Vec<u8> {
    let server_public = PublicKey::from(&StaticSecret::from([7u8; 32]));
    let client_secret = StaticSecret::from([9u8; 32]);
    let client_public = PublicKey::from(&client_secret);
    let random = [0x42; 32];
    let extensions = usual_extensions(host, *client_public.as_bytes());
    let zeroed = hello_with(random, &[0; 32], Some(&extensions));
    let shared = client_secret.diffie_hellman(&server_public);
    let prk = hmac_sha256(&random[..20], shared.as_bytes());
    let key = hmac_sha256(&prk, b"REALITY\x01");
    let mut plain = [0u8; 16];
    plain[4..8].copy_from_slice(&unix_time.to_be_bytes());
    plain[8..].copy_from_slice(&short_id);
    let session_id = seal(&key, &random[20..], &zeroed, &plain);
    hello_with(random, &session_id, Some(&extensions))
}

fn authenticate(server: &RealityServer, message: &[u8], now: u64) -> bool {
    let pending = match begin_authentication(server, message) {
        Some(pending) => pending,
        None => return false,
    };
    let prk = hmac_sha256(&pending.extract.key, &pending.extract.data);
    let expand = expand_auth_key(&prk);
    let key = hmac_sha256(&expand.key, &expand.data);
    let opened = open(&key, &pending.nonce, &pending.aad, &pending.ciphertext, &pending.tag);
    finish_authentication(server, opened, now)
}

#[test]
fn authenticates_clients_and_nobody_else() {
    let server = server();
    let id = [0x01, 0x23, 0x45, 0x67, 0x89, 0xab, 0xcd, 0xef];
    let now = 1_700_000_000u64;
    let good = authenticated_hello(b"example.com", now as u32, id);
    assert!(authenticate(&server, &good, now));
    assert!(authenticate(&server, &good, now + 60));
    assert!(!authenticate(&server, &good, now + 61));
    // Another name, another short id, a changed message, no key share.
    assert!(!authenticate(&server, &authenticated_hello(b"other.com", now as u32, id), now));
    assert!(!authenticate(&server, &authenticated_hello(b"example.com", now as u32, [0; 8]), now));
    let mut changed = good.clone();
    changed[10] ^= 1;
    assert!(!authenticate(&server, &changed, now));
    assert!(begin_authentication(&server, &hello_with([0; 32], &[0; 32], None)).is_none());
    assert!(begin_authentication(&server, b"garbage").is_none());
}

// How a connection that sends `sent` is decided about, and the bytes that were read for that.
fn decided(server: &RealityServer, sent: &[u8]) -> (RealityStep, Vec<u8>) {
    let mut received = Vec::new();
    loop {
        match connection_step(server, &received) {
            RealityStep::Read(more) => {
                let start = received.len();
                received.extend_from_slice(&sent[start..start + more]);
            }
            step => return (step, received),
        }
    }
}

#[test]
fn whoever_is_no_client_is_forwarded_with_all_bytes() {
    let server = server();
    let id = [0x01, 0x23, 0x45, 0x67, 0x89, 0xab, 0xcd, 0xef];
    let good = authenticated_hello(b"example.com", 1_700_000_000, id);

    // A client of ours: exactly its records are read.
    let mut sent = records(&[&good[..7], &good[7..]]);
    let len = sent.len();
    sent.extend_from_slice(b"later bytes");
    match decided(&server, &sent) {
        (RealityStep::Authenticate(pending), received) => {
            assert_eq!(received, sent[..len]);
            assert_eq!(pending.nonce, [0x42; 12]);
            assert_eq!(pending.ciphertext, good[39..55]);
            assert_eq!(pending.tag, good[55..71]);
        }
        _ => panic!("expected a client"),
    }

    // Another name, no ClientHello in the record, no TLS at all, an alert, an empty record.
    let other = authenticated_hello(b"other.com", 1_700_000_000, id);
    let visitors: [(Vec<u8>, usize); 5] = [
        (records(&[&other]), other.len() + 5),
        (records(&[&[2, 0, 0, 1, 9]]), 10),
        (b"GET / HTTP/1.1\r\nHost: example.com\r\n\r\n".to_vec(), 5),
        (vec![0x15, 3, 1, 0, 2, 1, 0], 5),
        (vec![0x16, 3, 1, 0, 0, 1, 2, 3], 5),
    ];
    for (sent, used) in visitors {
        match decided(&server, &sent) {
            (RealityStep::Forward, received) => assert_eq!(received, sent[..used]),
            _ => panic!("expected a visitor"),
        }
    }

}

#[test]
fn hellos_over_the_limit_are_dropped() {
    let mut server = server();
    server.max_client_hello_size = 600;
    // One record that does not fit, and several that fit one by one.
    for (sent, used) in [
        (records(&[&[1u8; 596]]), 5),
        (records(&[&[1u8; 290], &[1u8; 290], &[1u8; 290]]), 595),
        (records(&[&[1u8; 295], &[1u8; 295], &[1u8; 9]]), 600),
    ] {
        match decided(&server, &sent) {
            (RealityStep::Drop(error), received) => {
                assert_eq!(received, sent[..used]);
                assert_eq!(error.message(), "reality: client hello exceeds size limit");
            }
            _ => panic!("expected the connection to be dropped"),
        }
    }
}
