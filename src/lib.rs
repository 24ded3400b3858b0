//! A gateway between browsers and media players on the local network: the
//! verified logic of device discovery, request parsing, routing and the
//! key-press relay. Sockets, files and the clock stay with the caller.

pub mod text;
pub mod device;
pub mod discovery;
pub mod request;
pub mod response;
pub mod dispatch;
