//! Protocol core of an Eternal Terminal client.

pub mod backed;
pub mod byte_order;
pub mod cli;
pub mod client;
pub mod connection;
pub mod crypto;
pub mod handshake;
pub mod host;
pub mod io;
pub mod packet;
pub mod proto;
pub mod recovery;
pub mod ssh_setup;
pub mod terminal;
pub mod text;
