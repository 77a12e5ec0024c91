//! Splitting of ancillary data into one stream per kind and place.
use crate::st2038anc_utils::{parse_header_at, AncDataHeader};
use crate::text::{push_dec, push_hex2, push_text};
use vstd::prelude::*;

verus! {

/// How far behind a stream may be before it is moved on, in nanoseconds.
pub const LATE_AFTER: u64 = 500_000_000;

/// How often streams are looked over, in nanoseconds.
pub const CHECK_INTERVAL: u64 = 10_000_000_000;

/// What tells streams apart.
#[derive(Clone, Copy, Debug, PartialEq, Eq, Hash, Structural)]
pub struct AncDataId {
    pub c_not_y_channel_flag: bool,
    pub did: u8,
    pub sdid: u8,
    pub line_number: u16,
    pub horizontal_offset: u16,
}

/// The stream that a packet belongs to.
pub open spec fn id_of(header: AncDataHeader) -> AncDataId {
    AncDataId {
        c_not_y_channel_flag: header.c_not_y_channel_flag,
        did: header.did,
        sdid: header.sdid,
        line_number: header.line_number,
        horizontal_offset: header.horizontal_offset,
    }
}

impl From<AncDataHeader> for AncDataId {
    fn from(value: AncDataHeader) -> (r: Self) {
        AncDataId {
            c_not_y_channel_flag: value.c_not_y_channel_flag,
            did: value.did,
            sdid: value.sdid,
            line_number: value.line_number,
            horizontal_offset: value.horizontal_offset,
        }
    }
}

impl vstd::std_specs::convert::FromSpecImpl<AncDataHeader> for AncDataId {
    open spec fn obeys_from_spec() -> bool {
        true
    }

    open spec fn from_spec(value: AncDataHeader) -> Self {
        id_of(value)
    }
}

/// The name of the stream: `anc_DID_SDID_at_LINE_OFFSET`.
pub open spec fn stream_name(id: AncDataId) -> Seq<u8> {
    crate::text::text("anc_") + crate::text::hex2(id.did, false) + crate::text::text("_")
        + crate::text::hex2(id.sdid, false) + crate::text::text("_at_") + crate::text::dec_padded(
        id.line_number as nat,
        0,
    ) + crate::text::text("_") + crate::text::dec_padded(id.horizontal_offset as nat, 0)
}

impl AncDataId {
    /// The name of the stream.
    pub fn pad_name(&self) -> (r: Vec<u8>)
        ensures
            r@ == stream_name(*self),
    {
        let mut name: Vec<u8> = Vec::new();
        push_text(&mut name, "anc_");
        assert(name@ =~= crate::text::text("anc_"));
        push_hex2(&mut name, self.did, false);
        push_text(&mut name, "_");
        push_hex2(&mut name, self.sdid, false);
        push_text(&mut name, "_at_");
        push_dec(&mut name, self.line_number as u64, 0);
        push_text(&mut name, "_");
        push_dec(&mut name, self.horizontal_offset as u64, 0);
        name
    }
}

/// A stream, and the latest running time at which it had data.
#[derive(Clone, Copy, Debug, PartialEq, Eq, Structural)]
pub struct AncStream {
    pub id: AncDataId,
    pub last_used: Option<u64>,
}

/// Splits ancillary data.
#[derive(Debug)]
pub struct St2038AncDemux {
    /// The streams that were found, in that order. No two have the same identity.
    pub streams: Vec<AncStream>,
    pub last_inactivity_check: Option<u64>,
}

/// A packet, where it stands and the stream that it goes to.
#[derive(Clone, Copy, Debug, PartialEq, Eq, Structural)]
pub struct Packet {
    pub start: usize,
    pub end: usize,
    /// The place of the stream.
    pub stream: usize,
    /// Whether the stream begins with this packet.
    pub new_stream: bool,
}

/// The distance of two times.
pub open spec fn distance(a: u64, b: u64) -> int {
    if a < b {
        b - a
    } else {
        a - b
    }
}

fn absdiff(a: u64, b: u64) -> (r: u64)
    ensures
        r == distance(a, b),
{
    if a < b {
        b - a
    } else {
        a - b
    }
}

/// The later of two times.
pub open spec fn latest(last: Option<u64>, now: Option<u64>) -> Option<u64> {
    match (last, now) {
        (Some(l), Some(n)) => if l < n {
            now
        } else {
            last
        },
        (None, _) => now,
        (Some(_), None) => last,
    }
}

/// Whether a stream is that far away from the current time that it has to be moved on.
pub open spec fn is_late(stream: AncStream, running_time: u64) -> bool {
    stream.last_used matches Some(l) && distance(l, running_time) > LATE_AFTER
}

impl St2038AncDemux {
    /// No two streams have the same identity.
    pub open spec fn wf(&self) -> bool {
        forall|i: int, j: int|
            0 <= i < j < self.streams@.len() ==> (#[trigger] self.streams@[i]).id != (
            #[trigger] self.streams@[j]).id
    }

    /// Whether there is a stream with the given identity.
    pub open spec fn has_stream(&self, id: AncDataId) -> bool {
        exists|i: int| 0 <= i < self.streams@.len() && (#[trigger] self.streams@[i]).id == id
    }

    /// A demuxer without streams.
    pub fn new() -> (r: St2038AncDemux)
        ensures
            r.wf(),
            r.streams@.len() == 0,
            r.last_inactivity_check is None,
    {
        St2038AncDemux { streams: Vec::new(), last_inactivity_check: None }
    }

    fn find_stream(&self, id: AncDataId) -> (r: Option<usize>)
        ensures
            r is Some <==> self.has_stream(id),
            r matches Some(i) ==> i < self.streams@.len() && self.streams@[i as int].id == id,
    {
        let mut i: usize = 0;
        while i < self.streams.len()
            invariant
                i <= self.streams@.len(),
                forall|j: int| 0 <= j < i ==> (#[trigger] self.streams@[j]).id != id,
            decreases self.streams@.len() - i,
        {
            if self.streams[i].id == id {
                return Some(i);
            }
            i += 1;
        }
        None
    }

    /// Takes the packet at `at`, which arrives at the given running time, and finds the stream
    /// that it goes to. A stream that was not there is added behind the others.
    ///
    /// There is no packet at the end, at stuffing and where something else than a packet stands.
    pub fn next_packet(&mut self, data: &[u8], at: usize, running_time: Option<u64>) -> (r: Option<
        Packet,
    >)
        requires
            old(self).wf(),
            at <= data@.len(),
        ensures
            final(self).wf(),
            final(self).last_inactivity_check == old(self).last_inactivity_check,
            r is Some <==> crate::st2038anc_utils::header_at(data@, at as int) is Some,
            r is None ==> final(self).streams@ == old(self).streams@,
            r matches Some(p) ==> {
                let header = crate::st2038anc_utils::header_at(data@, at as int)->0;
                let id = id_of(header);
                &&& p.start == at
                &&& p.end == at + header.len
                &&& at < p.end <= data@.len()
                &&& p.new_stream == !old(self).has_stream(id)
                &&& p.stream < final(self).streams@.len()
                &&& if p.new_stream {
                    &&& p.stream == old(self).streams@.len()
                    &&& final(self).streams@ == old(self).streams@.push(
                        AncStream { id, last_used: running_time },
                    )
                } else {
                    let was = old(self).streams@[p.stream as int];
                    &&& was.id == id
                    &&& final(self).streams@ == old(self).streams@.update(
                        p.stream as int,
                        AncStream { id, last_used: latest(was.last_used, running_time) },
                    )
                }
            },
    {
        let header: AncDataHeader = match parse_header_at(data, at) {
            Some(v) => v,
            None => return None,
        };
        let len: usize = data.len();
        let end: usize = at + header.len;
        let id: AncDataId = AncDataId::from(header);
        match self.find_stream(id) {
            Some(i) => {
                let was: AncStream = self.streams[i];
                let last_used: Option<u64> = match (was.last_used, running_time) {
                    (Some(l), Some(n)) => if l < n {
                        Some(n)
                    } else {
                        Some(l)
                    },
                    (None, now) => now,
                    (Some(l), None) => Some(l),
                };
                self.streams.set(i, AncStream { id, last_used });
                Some(Packet { start: at, end, stream: i, new_stream: false })
            },
            None => {
                let i: usize = self.streams.len();
                self.streams.push(AncStream { id, last_used: running_time });
                Some(Packet { start: at, end, stream: i, new_stream: true })
            },
        }
    }

    /// Notes that streams were looked over, where it is time to do so.
    pub fn check_inactivity(&mut self, running_time: Option<u64>)
        ensures
            final(self).streams@ == old(self).streams@,
            final(self).last_inactivity_check == match (
                old(self).last_inactivity_check,
                running_time,
            ) {
                (Some(last), Some(now)) => if distance(now, last) >= CHECK_INTERVAL {
                    running_time
                } else {
                    old(self).last_inactivity_check
                },
                _ => old(self).last_inactivity_check,
            },
    {
        if let Some(last) = self.last_inactivity_check {
            if let Some(now) = running_time {
                if absdiff(now, last) >= CHECK_INTERVAL {
                    self.last_inactivity_check = Some(now);
                }
            }
        }
    }

    /// The places of the streams that have to be moved on, in order.
    pub fn late_streams(&self, running_time: u64) -> (r: Vec<usize>)
        ensures
            forall|k: int|
                0 <= k < r@.len() ==> (#[trigger] r@[k]) < self.streams@.len() && is_late(
                    self.streams@[r@[k] as int],
                    running_time,
                ),
            forall|i: int|
                0 <= i < self.streams@.len() && is_late(#[trigger] self.streams@[i], running_time)
                    ==> exists|k: int| 0 <= k < r@.len() && #[trigger] r@[k] == i,
            forall|k: int, l: int| 0 <= k < l < r@.len() ==> #[trigger] r@[k] < #[trigger] r@[l],
    {
        let mut late: Vec<usize> = Vec::new();
        let mut i: usize = 0;
        while i < self.streams.len()
            invariant
                i <= self.streams@.len(),
                forall|k: int|
                    0 <= k < late@.len() ==> (#[trigger] late@[k]) < i && is_late(
                        self.streams@[late@[k] as int],
                        running_time,
                    ),
                forall|j: int|
                    0 <= j < i && is_late(#[trigger] self.streams@[j], running_time) ==> exists|
                        k: int,
                    |
                        0 <= k < late@.len() && #[trigger] late@[k] == j,
                forall|k: int, l: int|
                    0 <= k < l < late@.len() ==> #[trigger] late@[k] < #[trigger] late@[l],
            decreases self.streams@.len() - i,
        {
            let ghost before = late@;
            let is_late_now: bool = match self.streams[i].last_used {
                Some(last) => absdiff(last, running_time) > LATE_AFTER,
                None => false,
            };
            if is_late_now {
                late.push(i);
                proof {
                    assert forall|j: int|
                        0 <= j < i + 1 && is_late(
                            #[trigger] self.streams@[j],
                            running_time,
                        ) implies exists|k: int| 0 <= k < late@.len() && #[trigger] late@[k]
                        == j by {
                        if j < i {
                            let k = choose|k: int| 0 <= k < before.len() && #[trigger] before[k] == j;
                            assert(late@[k] == j);
                        } else {
                            assert(late@[before.len() as int] == j);
                        }
                    }
                }
            }
            i += 1;
        }
        late
    }

    /// A stream was moved on to the given running time.
    pub fn advance(&mut self, stream: usize, running_time: u64)
        requires
            old(self).wf(),
            stream < old(self).streams@.len(),
        ensures
            final(self).wf(),
            final(self).last_inactivity_check == old(self).last_inactivity_check,
            final(self).streams@ == old(self).streams@.update(
                stream as int,
                AncStream {
                    id: old(self).streams@[stream as int].id,
                    last_used: Some(running_time),
                },
            ),
    {
        let id: AncDataId = self.streams[stream].id;
        self.streams.set(stream, AncStream { id, last_used: Some(running_time) });
    }

    /// A new stream of data began.
    pub fn stream_start(&mut self)
        ensures
            final(self).streams@ == old(self).streams@,
            final(self).last_inactivity_check == Some(0u64),
    {
        self.last_inactivity_check = Some(0);
    }

    /// The data was flushed.
    pub fn flush_stop(&mut self)
        ensures
            final(self).streams@ == old(self).streams@,
            final(self).last_inactivity_check is None,
    {
        self.last_inactivity_check = None;
    }
}

/// The time and length of the gap that moves a late stream on: from where it was, if that lies in
/// the segment and is not negative, up to the current time.
pub fn late_gap(position: Option<u64>, ts: u64) -> (r: (u64, Option<u64>))
    ensures
        r.0 == match position {
            Some(p) => p,
            None => ts,
        },
        r.1 == if r.0 <= ts {
            Some((ts - r.0) as u64)
        } else {
            None
        },
{
    let timestamp: u64 = match position {
        Some(p) => p,
        None => ts,
    };
    (timestamp, ts.checked_sub(timestamp))
}

/// A packet goes to the same stream as any other packet of its kind and place before it.
pub proof fn law_stream_is_stable(demux: St2038AncDemux, i: int, j: int)
    requires
        demux.wf(),
        0 <= i < demux.streams@.len(),
        0 <= j < demux.streams@.len(),
        demux.streams@[i].id == demux.streams@[j].id,
    ensures
        i == j,
{
    if i < j {
        assert(demux.streams@[i].id != demux.streams@[j].id);
    } else if j < i {
        assert(demux.streams@[j].id != demux.streams@[i].id);
    }
}

} // verus!
