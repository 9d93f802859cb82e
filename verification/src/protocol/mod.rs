//! The protocols that the server speaks.

pub mod address;
pub mod camouflage;
pub mod fallback;
pub mod hostname;
pub mod http_head;
pub mod reality;
pub mod singbox_mux;
pub mod tls;
pub mod trojan;
pub mod vless;
pub mod websocket;

pub use self::address::Address;

use crate::error::Error;
use vstd::prelude::*;
use vstd::string::*;

verus! {

/// An error of the protocol layer with these words.
pub fn new_error(message: &str) -> (r: Error)
    ensures
        r@ == "protocol: "@ + message@,
{
    Error::new("protocol: ".to_string().concat(message))
}

/// What an acceptor hands out: a TCP stream with its address, or a UDP stream.
pub enum AcceptResult<T, U> {
    Tcp((T, Address)),
    Udp(U),
}

impl<T, U> AcceptResult<T, U> {
    /// The TCP stream and its address.
    pub fn unwrap_tcp_with_addr(self) -> (r: (T, Address))
        requires
            self is Tcp,
        ensures
            self == AcceptResult::<T, U>::Tcp(r),
    {
        match self {
            AcceptResult::Tcp(t) => t,
            AcceptResult::Udp(_) => vstd::pervasive::unreached(),
        }
    }
}

} // verus!
