//! The SOCKS5 front end.
pub mod socks5;
