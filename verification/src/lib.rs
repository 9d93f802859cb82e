//! Verified core of a Trojan / VLESS / REALITY proxy server.

pub mod buffer;
pub mod calendar;
pub mod codec;
pub mod error;
pub mod protocol;
pub mod proxy;
pub mod text;
pub mod wire;
