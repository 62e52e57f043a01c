//! Host-side driver for Plugwise Circles (ZigBee power sockets) behind a
//! Plugwise stick on a serial line: the framed, CRC-protected ASCII-hex
//! protocol, the message codec, the decisions of each request/response
//! exchange, the device façade logic, and an in-memory simulated stick.
use vstd::prelude::*;

pub mod circle;
pub mod engine;
pub mod error;
pub mod frame;
pub mod hex;
pub mod messages;
pub mod protocol;
pub mod raw;
pub mod stub;

pub use circle::{Circle, Plugwise};
pub use error::{IoErrorKind, PlError, PlResult};
pub use protocol::Protocol;
pub use stub::Stub;

verus! {

} // verus!
