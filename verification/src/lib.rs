//! Wake-on-LAN core: hardware-address parsing and canonical form, magic-packet
//! construction, and the name-to-address lookup table read from a flat
//! configuration file.

pub mod addr;
pub mod args;
pub mod error;
pub mod packet;
pub mod resolve;
pub mod table;
pub mod text;

use vstd::prelude::*;

verus! {

/// Conventional Wake-on-LAN destination port.
pub const WOL_PORT: u16 = 9;

} // verus!
