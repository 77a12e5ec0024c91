//! Finds the packets of CD+G.
use crate::cdgconstants::{mask, CDG_COMMAND, CDG_PACKET_PERIOD, CDG_PACKET_SIZE};
use crate::clock::{mul_div_round, SECOND};
use vstd::prelude::*;

verus! {

pub const CDG_CMD_MEMORY_PRESET: u8 = 1;

pub const CDG_CMD_MEMORY_LOAD_COLOR_TABLE_1: u8 = 30;

pub const CDG_CMD_MEMORY_LOAD_COLOR_TABLE_2: u8 = 31;

/// When the packet with the given position comes, rounded to nanoseconds.
pub open spec fn time_of(bytes: u64) -> int {
    crate::clock::scaled_round(
        bytes as int / CDG_PACKET_SIZE as int,
        SECOND as int,
        CDG_PACKET_PERIOD as int,
    )
}

/// The position that is reached at the given time, rounded to bytes.
pub open spec fn bytes_of(time: u64) -> int {
    crate::clock::scaled_round(
        time as int,
        CDG_PACKET_PERIOD * CDG_PACKET_SIZE,
        SECOND as int,
    )
}

/// When the packet with the given position comes. There is no result where it does not fit.
pub fn bytes_to_time(bytes: u64) -> (r: Option<u64>)
    ensures
        r == crate::clock::fits(time_of(bytes)),
{
    let nb: u64 = bytes / CDG_PACKET_SIZE as u64;
    mul_div_round(nb, SECOND, CDG_PACKET_PERIOD)
}

/// The position that is reached at the given time.
pub fn time_to_bytes(time: u64) -> (r: u64)
    ensures
        r == bytes_of(time),
{
    match mul_div_round(time, CDG_PACKET_PERIOD * CDG_PACKET_SIZE as u64, SECOND) {
        Some(bytes) => bytes,
        None => {
            assert((time * 7200 + 500_000_000) / 1_000_000_000 <= u64::MAX) by (nonlinear_arith)
                requires
                    time <= u64::MAX,
            ;
            assert(false);
            0
        },
    }
}

/// A position or a time that may be known.
#[derive(Debug, Clone, Copy, PartialEq, Eq, Structural)]
pub enum Value {
    Bytes(Option<u64>),
    Time(Option<u64>),
    Other,
}

/// What a value is to be converted to.
#[derive(Debug, Clone, Copy, PartialEq, Eq, Structural)]
pub enum Format {
    Bytes,
    Time,
    Other,
}

/// What came of a conversion.
#[derive(Debug, Clone, Copy, PartialEq, Eq, Structural)]
pub enum Converted {
    Done(Value),
    /// There is no such conversion.
    Unknown,
    /// The time does not fit.
    Overflow,
}

/// Converts a position to a time, or a time to a position.
pub fn convert(src: Value, dest_format: Format) -> (r: Converted)
    ensures
        r == match (src, dest_format) {
            (Value::Bytes(Some(b)), Format::Time) => match crate::clock::fits(time_of(b)) {
                Some(t) => Converted::Done(Value::Time(Some(t))),
                None => Converted::Overflow,
            },
            (Value::Bytes(None), Format::Time) => Converted::Done(Value::Time(None)),
            (Value::Time(Some(t)), Format::Bytes) => Converted::Done(
                Value::Bytes(Some(bytes_of(t) as u64)),
            ),
            (Value::Time(None), Format::Bytes) => Converted::Done(Value::Bytes(None)),
            _ => Converted::Unknown,
        },
{
    match (src, dest_format) {
        (Value::Bytes(bytes), Format::Time) => match bytes {
            Some(b) => match bytes_to_time(b) {
                Some(t) => Converted::Done(Value::Time(Some(t))),
                None => Converted::Overflow,
            },
            None => Converted::Done(Value::Time(None)),
        },
        (Value::Time(time), Format::Bytes) => match time {
            Some(t) => Converted::Done(Value::Bytes(Some(time_to_bytes(t)))),
            None => Converted::Done(Value::Bytes(None)),
        },
        _ => Converted::Unknown,
    }
}

/// How many bytes come before the first packet.
pub open spec fn skipped(data: Seq<u8>) -> int
    decreases data.len(),
{
    if data.len() == 0 || crate::cdgconstants::begins_packet(data[0]) {
        0
    } else {
        1 + skipped(data.drop_first())
    }
}

/// What is to be done with data.
#[derive(Debug, Clone, Copy, PartialEq, Eq, Structural)]
pub enum ParseAction {
    /// Bytes that are no packet are skipped.
    Skip(u32),
    /// A packet of known size goes out. It can be decoded without those before it, or prepares
    /// the decoding of others.
    Frame { pts: u64, keyframe: bool, header: bool },
    /// The time does not fit.
    Overflow,
}

proof fn lemma_skipped(data: Seq<u8>, n: int)
    requires
        0 <= n <= data.len(),
        forall|i: int| 0 <= i < n ==> !crate::cdgconstants::begins_packet(#[trigger] data[i]),
        n < data.len() ==> crate::cdgconstants::begins_packet(data[n]),
    ensures
        skipped(data) == n,
    decreases data.len(),
{
    if n > 0 {
        assert(!crate::cdgconstants::begins_packet(data[0]));
        let rest = data.drop_first();
        assert forall|i: int| 0 <= i < n - 1 implies !crate::cdgconstants::begins_packet(
            #[trigger] rest[i],
        ) by {
            assert(rest[i] == data[i + 1]);
        }
        lemma_skipped(rest, n - 1);
    }
}

fn count_skipped(data: &[u8]) -> (r: usize)
    ensures
        r == skipped(data@),
        r <= data@.len(),
{
    let mut n: usize = 0;
    while n < data.len()
        invariant
            n <= data@.len(),
            forall|i: int|
                0 <= i < n ==> !crate::cdgconstants::begins_packet(#[trigger] data@[i]),
        decreases data@.len() - n,
    {
        if mask(data[n]) == CDG_COMMAND {
            proof {
                lemma_skipped(data@, n as int);
            }
            return n;
        }
        n += 1;
    }
    proof {
        lemma_skipped(data@, n as int);
    }
    n
}

/// Looks for a packet in data that stands at the given offset of the stream.
pub fn handle_frame(data: &[u8], offset: u64) -> (r: ParseAction)
    requires
        2 <= data@.len() <= u32::MAX,
    ensures
        r == if skipped(data@) != 0 {
            ParseAction::Skip(skipped(data@) as u32)
        } else {
            let command = crate::cdgconstants::masked(data@[1]);
            match crate::clock::fits(time_of(offset)) {
                Some(pts) => ParseAction::Frame {
                    pts,
                    keyframe: command == CDG_CMD_MEMORY_PRESET,
                    header: command == CDG_CMD_MEMORY_LOAD_COLOR_TABLE_1 || command
                        == CDG_CMD_MEMORY_LOAD_COLOR_TABLE_2,
                },
                None => ParseAction::Overflow,
            }
        },
{
    let skip: usize = count_skipped(data);
    if skip != 0 {
        return ParseAction::Skip(skip as u32);
    }
    let command: u8 = mask(data[1]);
    // memory preset clears the screen
    let keyframe: bool = command == CDG_CMD_MEMORY_PRESET;
    let header: bool = command == CDG_CMD_MEMORY_LOAD_COLOR_TABLE_1 || command
        == CDG_CMD_MEMORY_LOAD_COLOR_TABLE_2;
    match bytes_to_time(offset) {
        Some(pts) => ParseAction::Frame { pts, keyframe, header },
        None => ParseAction::Overflow,
    }
}

/// Only bytes before the first packet are skipped: none of them begins a packet, and the next one
/// does, if there is one.
pub proof fn law_no_packet_is_skipped(data: Seq<u8>)
    ensures
        0 <= skipped(data) <= data.len(),
        forall|i: int|
            0 <= i < skipped(data) ==> !crate::cdgconstants::begins_packet(#[trigger] data[i]),
        skipped(data) < data.len() ==> crate::cdgconstants::begins_packet(data[skipped(data)]),
    decreases data.len(),
{
    if data.len() > 0 && !crate::cdgconstants::begins_packet(data[0]) {
        let rest = data.drop_first();
        law_no_packet_is_skipped(rest);
        assert forall|i: int| 0 <= i < skipped(data) implies !crate::cdgconstants::begins_packet(
            #[trigger] data[i],
        ) by {
            if i > 0 {
                assert(rest[i - 1] == data[i]);
            }
        }
    }
}

/// The time of a packet leads back to its position.
pub proof fn law_time_of_packet_is_its_position(n: u64)
    requires
        crate::clock::fits(time_of((n * CDG_PACKET_SIZE) as u64)) is Some,
        n * CDG_PACKET_SIZE <= u64::MAX,
    ensures
        bytes_of(time_of((n * CDG_PACKET_SIZE) as u64) as u64) == n * CDG_PACKET_SIZE,
{
    let bytes = n * CDG_PACKET_SIZE;
    assert(bytes / 24 == n) by (nonlinear_arith)
        requires
            bytes == n * 24,
    ;
    let time = time_of(bytes as u64);
    assert(time == (n * 1_000_000_000 + 150) / 300);
    assert((time * 7200 + 500_000_000) / 1_000_000_000 == n * 24) by (nonlinear_arith)
        requires
            time == (n * 1_000_000_000 + 150) / 300,
    ;
}

} // verus!
