//! The peer wire protocol of a BitTorrent client: the messages and their
//! framing, the handshake, piece bitfields, and the decisions a peer session
//! takes on each message.  Every transport concern (sockets, tasks, channels)
//! lives outside this crate; what is here is the logic, with its contracts.

mod error;
pub mod bitfield;
pub mod connection;
pub mod handshake;
pub mod message;
pub mod peer;
pub mod sink;
pub mod stream;

pub use error::{AsResult, Error};
