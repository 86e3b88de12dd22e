//! A user-space bridge that moves Ethernet frames between the receive rings
//! of one packet-I/O endpoint and the transmit rings of another.

pub mod bridge;
pub mod header;
pub mod poll;
pub mod ring;
