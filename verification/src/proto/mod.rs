//! The protobuf messages of the wire protocol, and their framing.
//!
//! Only field numbers matter on the wire, so the messages are encoded and
//! decoded by hand, in terms of the tagged fields of [`wire`].

use vstd::prelude::*;

pub mod environment;
pub mod et_packet;
pub mod framing;
pub mod handshake;
pub mod initial;
pub mod layout;
pub mod message;
pub mod terminal;
pub mod terminal_packet;
pub mod wire;

pub use handshake::{
    CatchupBuffer, ConnectRequest, ConnectResponse, ConnectStatus, SequenceHeader,
};
pub use framing::{read_proto, write_proto};
pub use environment::EnvironmentVariables;
pub use initial::{InitialPayload, InitialResponse, PortForwardSourceRequest, SocketEndpoint};
pub use message::ProtoMessage;
pub use terminal::{TerminalBuffer, TerminalInfo};
pub use wire::ProtoError;

verus! {

/// The version of the protocol that the client announces.
pub const PROTOCOL_VERSION: i32 = 6;

} // verus!
