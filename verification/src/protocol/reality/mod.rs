//! Server side of the REALITY transport.

pub mod acceptor;
pub mod cert;
pub mod client_hello;
pub mod config;
pub mod crypto;

pub use self::config::RealityAcceptorConfig;



use crate::text::{self, numbered};
use vstd::prelude::*;
use vstd::string::*;

verus! {

/// Why REALITY input is refused.
#[derive(Clone, Copy, Debug)]
pub enum RealityError {
    HelloTruncated,
    NotClientHello,
    HelloLengthMismatch,
    ExtensionsLengthMismatch,
    PublicKeyLength,
    InvalidBase64,
    PrivateKeyLength(usize),
    ShortIdTooLong,
    ShortIdOddLength,
    ShortIdNotHex,
    SessionIdLength,
    TagMismatch,
    PlaintextLength,
    NotHandshakeRecord,
    RecordLength,
    HelloTooLarge,
    HelloTimedOut,
    HandshakeTimedOut,
}

impl RealityError {
    /// The words of the error.
    pub open spec fn text(self) -> Seq<char> {
        match self {
            RealityError::HelloTruncated => "reality: ClientHello truncated"@,
            RealityError::NotClientHello => "reality: not a ClientHello handshake message"@,
            RealityError::HelloLengthMismatch => "reality: ClientHello length mismatch"@,
            RealityError::ExtensionsLengthMismatch => {
                "reality: ClientHello extensions length mismatch"@
            },
            RealityError::PublicKeyLength => "reality: unexpected Ed25519 public key length"@,
            RealityError::InvalidBase64 => "reality: invalid base64 character in key"@,
            RealityError::PrivateKeyLength(n) => {
                "reality: private_key must decode to 32 bytes, got "@ + text::decimal_text(
                    n as nat,
                )
            },
            RealityError::ShortIdTooLong => "reality: short_id must be at most 16 hex characters"@,
            RealityError::ShortIdOddLength => {
                "reality: short_id must have an even number of hex characters"@
            },
            RealityError::ShortIdNotHex => "reality: short_id must be hexadecimal"@,
            RealityError::SessionIdLength => "reality: session_id must be 32 bytes"@,
            RealityError::TagMismatch => "reality: REALITY authentication tag mismatch"@,
            RealityError::PlaintextLength => "reality: unexpected REALITY plaintext length"@,
            RealityError::NotHandshakeRecord => "reality: first record is not a TLS handshake"@,
            RealityError::RecordLength => "reality: invalid TLS record length"@,
            RealityError::HelloTooLarge => "reality: client hello exceeds size limit"@,
            RealityError::HelloTimedOut => "reality: reality client hello timed out"@,
            RealityError::HandshakeTimedOut => "reality: reality TLS handshake timed out"@,
        }
    }

    /// The words of the error.
    pub fn message(&self) -> (r: String)
        ensures
            r@ == self.text(),
    {
        match *self {
            RealityError::HelloTruncated => "reality: ClientHello truncated".to_string(),
            RealityError::NotClientHello => {
                "reality: not a ClientHello handshake message".to_string()
            },
            RealityError::HelloLengthMismatch => "reality: ClientHello length mismatch".to_string(),
            RealityError::ExtensionsLengthMismatch => {
                "reality: ClientHello extensions length mismatch".to_string()
            },
            RealityError::PublicKeyLength => {
                "reality: unexpected Ed25519 public key length".to_string()
            },
            RealityError::InvalidBase64 => "reality: invalid base64 character in key".to_string(),
            RealityError::PrivateKeyLength(n) => numbered(
                "reality: private_key must decode to 32 bytes, got ",
                n as u64,
            ),
            RealityError::ShortIdTooLong => {
                "reality: short_id must be at most 16 hex characters".to_string()
            },
            RealityError::ShortIdOddLength => {
                "reality: short_id must have an even number of hex characters".to_string()
            },
            RealityError::ShortIdNotHex => "reality: short_id must be hexadecimal".to_string(),
            RealityError::SessionIdLength => "reality: session_id must be 32 bytes".to_string(),
            RealityError::TagMismatch => "reality: REALITY authentication tag mismatch".to_string(),
            RealityError::PlaintextLength => {
                "reality: unexpected REALITY plaintext length".to_string()
            },
            RealityError::NotHandshakeRecord => {
                "reality: first record is not a TLS handshake".to_string()
            },
            RealityError::RecordLength => "reality: invalid TLS record length".to_string(),
            RealityError::HelloTooLarge => "reality: client hello exceeds size limit".to_string(),
            RealityError::HelloTimedOut => "reality: reality client hello timed out".to_string(),
            RealityError::HandshakeTimedOut => {
                "reality: reality TLS handshake timed out".to_string()
            },
        }
    }
}

} // verus!
