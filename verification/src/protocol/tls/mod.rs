//! TLS settings.

pub mod acceptor;
pub mod connector;

use crate::protocol::hostname::{self, hostname, ipv4_literal};
use crate::text;
use vstd::prelude::*;
use vstd::string::*;

verus! {

pub const DEFAULT_HANDSHAKE_TIMEOUT_SECS: u64 = 10;

/// Handshake timeout of a configuration that names none.
pub fn default_handshake_timeout_secs() -> (r: u64)
    ensures
        r == DEFAULT_HANDSHAKE_TIMEOUT_SECS,
{
    DEFAULT_HANDSHAKE_TIMEOUT_SECS
}

/// Why a TLS configuration or handshake is refused.
#[derive(Clone, Copy, Debug)]
pub enum TlsError {
    InvalidSni,
    InvalidHandshakeTimeout,
    HandshakeTimedOut,
}

impl TlsError {
    /// The words of the error.
    pub open spec fn text(self) -> Seq<char> {
        match self {
            TlsError::InvalidSni => "tls: sni must be a valid DNS hostname"@,
            TlsError::InvalidHandshakeTimeout => "tls: invalid TLS handshake timeout"@,
            TlsError::HandshakeTimedOut => "tls: TLS handshake timed out"@,
        }
    }

    /// The words of the error.
    pub fn message(&self) -> (r: String)
        ensures
            r@ == self.text(),
    {
        match self {
            TlsError::InvalidSni => "tls: sni must be a valid DNS hostname".to_string(),
            TlsError::InvalidHandshakeTimeout => "tls: invalid TLS handshake timeout".to_string(),
            TlsError::HandshakeTimedOut => "tls: TLS handshake timed out".to_string(),
        }
    }
}

/// What can be sent as a server name: a host name that is no IP literal. (An IPv6 literal is no
/// host name to begin with.)
pub open spec fn is_sni(s: Seq<char>) -> bool {
    hostname::is_hostname(s, false) && !hostname::is_ipv4_literal(s)
}

/// Accepts server names only.
pub fn validate_sni(sni: &str) -> (r: Result<(), TlsError>)
    ensures
        match r {
            Ok(()) => is_sni(sni@),
            Err(error) => !is_sni(sni@) && error == TlsError::InvalidSni,
        },
{
    if !hostname(sni, false) || ipv4_literal(sni) {
        return Err(TlsError::InvalidSni);
    }
    Ok(())
}

/// Whether a server name and a handshake timeout can be used, and else what is wrong: the name
/// first.
pub open spec fn tls_settings(sni: Seq<char>, handshake_timeout_secs: u64) -> Result<(), TlsError> {
    if !is_sni(sni) {
        Err(TlsError::InvalidSni)
    } else if handshake_timeout_secs == 0 {
        Err(TlsError::InvalidHandshakeTimeout)
    } else {
        Ok(())
    }
}

fn check_settings(sni: &str, handshake_timeout_secs: u64) -> (r: Result<(), TlsError>)
    ensures
        r == tls_settings(sni@, handshake_timeout_secs),
{
    match validate_sni(sni) {
        Ok(()) => {},
        Err(error) => return Err(error),
    }
    if handshake_timeout_secs == 0 {
        return Err(TlsError::InvalidHandshakeTimeout);
    }
    Ok(())
}

/// What may be a server name: a host name without underscores that has more in it than numbers, or
/// not four of them. An IPv4 literal is none, and whatever may be one names no port and no other
/// thing than a host.
pub proof fn lemma_server_names(s: Seq<char>, i: int, k: int)
    ensures
        is_sni(s) ==> hostname::is_hostname(s, false) && !s.contains('_'),
        hostname::is_ipv4_literal(s) ==> !is_sni(s),
        hostname::is_hostname(s, true) && !s.contains('_') && (text::segments(s, '.').len() != 4 || (
        0 <= i < 4 && 0 <= k < text::segments(s, '.')[i].len() && !('0' <= text::segments(
            s,
            '.',
        )[i][k] <= '9'))) ==> is_sni(s),
{
    hostname::lemma_underscores_only_add_names(s);
    if hostname::is_ipv4_literal(s) && 0 <= i < 4 {
        assert(hostname::is_octet(text::segments(s, '.')[i]));
        if 0 <= k < text::segments(s, '.')[i].len() {
            assert(text::is_digit(text::segments(s, '.')[i][k]));
        }
    }
}

/// A name is looked at before the timeout, which has to be set.
pub proof fn lemma_tls_settings(sni: Seq<char>, secs: u64)
    ensures
        tls_settings(sni, secs) is Ok <==> is_sni(sni) && secs > 0,
        !is_sni(sni) ==> tls_settings(sni, secs) == tls_settings(sni, 0) && tls_settings(sni, secs)
            == Err::<(), _>(TlsError::InvalidSni),
        is_sni(sni) ==> tls_settings(sni, 0) == Err::<(), _>(TlsError::InvalidHandshakeTimeout),
{
}

} // verus!
