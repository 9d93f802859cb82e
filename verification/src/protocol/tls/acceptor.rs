//! Configuration of the TLS listener.

use super::{check_settings, default_handshake_timeout_secs, TlsError};
use vstd::prelude::*;

verus! {

/// The `[tls]` table of a server.
pub struct TrojanTlsAcceptorConfig {
    pub addr: String,
    pub sni: String,
    pub cert: String,
    pub key: String,
    pub handshake_timeout_secs: u64,
}

impl TrojanTlsAcceptorConfig {
    /// A configuration with the default handshake timeout.
    pub fn new(addr: String, sni: String, cert: String, key: String) -> (r: Self)
        ensures
            r.addr == addr,
            r.sni == sni,
            r.cert == cert,
            r.key == key,
            r.handshake_timeout_secs == super::DEFAULT_HANDSHAKE_TIMEOUT_SECS,
    {
        TrojanTlsAcceptorConfig {
            addr,
            sni,
            cert,
            key,
            handshake_timeout_secs: default_handshake_timeout_secs(),
        }
    }

    /// Whether the configuration can be used, and else what is wrong.
    pub fn validate(&self) -> (r: Result<(), TlsError>)
        ensures
            r == super::tls_settings(self.sni@, self.handshake_timeout_secs),
    {
        check_settings(&self.sni, self.handshake_timeout_secs)
    }
}

} // verus!
