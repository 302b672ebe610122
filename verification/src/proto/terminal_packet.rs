//! Packet types of the terminal session.

use vstd::prelude::*;

verus! {

pub const KEEP_ALIVE: u8 = 0;

pub const TERMINAL_BUFFER: u8 = 1;

pub const TERMINAL_INFO: u8 = 2;

pub const PORT_FORWARD_DESTINATION_REQUEST: u8 = 5;

pub const PORT_FORWARD_DESTINATION_RESPONSE: u8 = 6;

pub const PORT_FORWARD_DATA: u8 = 7;

pub const TERMINAL_USER_INFO: u8 = 8;

pub const TERMINAL_INIT: u8 = 9;

pub const JUMPHOST_INIT: u8 = 10;

} // verus!
