//! The numbers of CD+G.
use vstd::prelude::*;

verus! {

/// How many bytes a packet has.
pub const CDG_PACKET_SIZE: i32 = 24;

/// How many packets come in a second: 75 sectors with 4 packets each.
pub const CDG_PACKET_PERIOD: u64 = 300;

/// The size of the screen.
pub const CDG_WIDTH: u32 = 300;

pub const CDG_HEIGHT: u32 = 216;

/// What is left of a byte without the two bits of other channels.
pub const CDG_MASK: u8 = 0x3F;

/// What a packet begins with.
pub const CDG_COMMAND: u8 = 0x09;

/// The lower bits of a byte, which make the graphics.
pub open spec fn masked(b: u8) -> int {
    b as int % 64
}

/// The lower bits of a byte.
pub fn mask(b: u8) -> (r: u8)
    ensures
        r == masked(b),
{
    let r: u8 = b & CDG_MASK;
    assert(b & 0x3F == b % 64) by (bit_vector);
    r
}

/// Whether a packet begins with the byte.
pub open spec fn begins_packet(b: u8) -> bool {
    masked(b) == CDG_COMMAND
}

} // verus!
