//! Configuration of outgoing TLS connections.

use super::{check_settings, default_handshake_timeout_secs, TlsError};
use vstd::prelude::*;

verus! {

/// The `[tls]` table of a client.
pub struct TrojanTlsConnectorConfig {
    pub addr: String,
    pub sni: String,
    pub cipher: Option<Vec<String>>,
    pub cert: Option<String>,
    pub handshake_timeout_secs: u64,
}

impl TrojanTlsConnectorConfig {
    /// A configuration with defaults for all but the address and the server name.
    pub fn new(addr: String, sni: String) -> (r: Self)
        ensures
            r.addr == addr,
            r.sni == sni,
            r.cipher is None,
            r.cert is None,
            r.handshake_timeout_secs == super::DEFAULT_HANDSHAKE_TIMEOUT_SECS,
    {
        TrojanTlsConnectorConfig {
            addr,
            sni,
            cipher: None,
            cert: None,
            handshake_timeout_secs: default_handshake_timeout_secs(),
        }
    }

    /// Whether the configuration can be used, and else what is wrong.
    pub fn validate(&self) -> (r: Result<(), TlsError>)
        ensures
            r == super::tls_settings(self.sni@, self.handshake_timeout_secs),
    {
        check_settings(&self.sni, self.handshake_timeout_secs)
    }
}

} // verus!
