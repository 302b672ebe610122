//! Packet types of the connection layer.

use vstd::prelude::*;

verus! {

pub const HEARTBEAT: u8 = 254;

pub const INITIAL_PAYLOAD: u8 = 253;

pub const INITIAL_RESPONSE: u8 = 252;

} // verus!
