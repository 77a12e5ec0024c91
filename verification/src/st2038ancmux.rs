//! Merging of ancillary data streams into one.
use crate::clock::{FlowError, Framerate};
use crate::st2038anc_utils::parse_header_at;
use crate::text::same_bytes;
use vstd::prelude::*;

verus! {

/// How long a frame is taken to last where nothing is known of it, in nanoseconds.
pub const WORST_FRAME_TIME: u64 = 40_000_000;

/// What a buffer holds.
#[derive(Clone, Copy, Debug, PartialEq, Eq, Structural)]
pub enum Alignment {
    /// One packet.
    Packet,
    /// All packets of a line.
    Line,
}

/// Merges ancillary data.
#[derive(Clone, Copy, Debug, PartialEq, Eq, Structural)]
pub struct St2038AncMux {
    pub downstream_framerate: Option<Framerate>,
    pub alignment: Alignment,
}

/// The time that is collected for.
#[derive(Clone, Copy, Debug, PartialEq, Eq, Structural)]
pub struct Window {
    pub start: u64,
    /// Zero where no framerate is known.
    pub duration: u64,
    pub end: u64,
}

/// What stands at the head of an input.
#[derive(Clone, Copy, Debug, PartialEq, Eq, Structural)]
pub enum Head {
    /// No more data will come. Buffers may have been set aside before.
    Eos { queued: bool },
    /// There is no data yet.
    Empty,
    /// A buffer whose running time is not known.
    Untimed,
    /// A buffer with its running time.
    Buffer { running_time: u64 },
}

/// What is to be done with the head of an input.
#[derive(Clone, Copy, Debug, PartialEq, Eq, Structural)]
pub enum Action {
    /// It stays.
    Keep,
    /// It is thrown away.
    Discard,
    /// It is set aside for the output.
    Queue,
}

/// What came of a look at all inputs.
#[derive(Clone, Debug)]
pub struct Collected {
    /// What is to be done with each input.
    pub actions: Vec<Action>,
    /// Whether nothing more is to be expected for this time.
    pub all_done: bool,
    /// Whether all data has been put out.
    pub all_eos: bool,
    /// The time of the first buffer behind this time.
    pub min_next: Option<u64>,
}

/// A packet, the place that it takes in a frame, and where it came from.
#[derive(Clone, Copy, Debug, PartialEq, Eq, Structural)]
pub struct Placed {
    pub line: u16,
    pub offset: u16,
    pub offset_end: u16,
    /// What kind of data it holds.
    pub did: u8,
    pub sdid: u8,
    /// The input, and the buffer of that input.
    pub pad: usize,
    pub buffer: usize,
    /// The packet's bytes in that buffer.
    pub from: usize,
    pub to: usize,
}

/// A buffer that is put out.
#[derive(Clone, Copy, Debug, PartialEq, Eq)]
pub struct OutBuffer {
    /// The packets that it holds, by their places. The first one gives the metadata.
    pub first: usize,
    pub end: usize,
    /// The time and duration. Where there are none those of the first packet stay.
    pub timing: Option<(u64, u64)>,
    /// Whether this is the last buffer of the frame.
    pub marker: bool,
}

/// What is put out for a frame.
#[derive(Clone, Debug)]
pub enum Output {
    Buffers { packets: Vec<Placed>, buffers: Vec<OutBuffer> },
    Gap { start: u64, duration: u64 },
}

/// What is to be told to the others after the output format was settled.
#[derive(Clone, Copy, Debug, PartialEq, Eq, Structural)]
pub struct Negotiated {
    /// Whether the alignment has to be added to the format.
    pub add_alignment: bool,
    pub min_latency: u64,
    pub max_latency: Option<u64>,
}

/// The alignment that a name stands for.
pub open spec fn alignment_of(name: Option<Seq<u8>>) -> Option<Alignment> {
    match name {
        Some(n) => if n == crate::text::text("packet") {
            Some(Alignment::Packet)
        } else if n == crate::text::text("line") {
            Some(Alignment::Line)
        } else {
            None
        },
        None => None,
    }
}

/// Whether a buffer is for a later time.
pub open spec fn is_later(running_time: u64, window: Window) -> bool {
    running_time > window.end || (window.end > window.start && running_time == window.end)
}

/// What is to be done with the head of an input.
pub open spec fn action_for(head: Head, window: Window) -> Action {
    match head {
        Head::Eos { .. } => Action::Keep,
        Head::Empty => Action::Keep,
        Head::Untimed => Action::Discard,
        Head::Buffer { running_time } => if is_later(running_time, window) {
            Action::Keep
        } else {
            Action::Queue
        },
    }
}

/// Whether an input has nothing more for this time.
pub open spec fn is_done(head: Head, window: Window) -> bool {
    match head {
        Head::Eos { .. } => true,
        Head::Empty => false,
        Head::Untimed => false,
        Head::Buffer { running_time } => is_later(running_time, window),
    }
}

/// The time of a later buffer.
pub open spec fn later_time(head: Head, window: Window) -> Option<u64> {
    match head {
        Head::Buffer { running_time } => if is_later(running_time, window) {
            Some(running_time)
        } else {
            None
        },
        _ => None,
    }
}

/// The times of the later buffers begin with this one.
pub open spec fn is_first_later(r: Option<u64>, heads: Seq<Head>, window: Window) -> bool {
    match r {
        Some(t) => {
            &&& exists|i: int|
                0 <= i < heads.len() && #[trigger] later_time(heads[i], window) == Some(t)
            &&& forall|i: int|
                0 <= i < heads.len() ==> (#[trigger] later_time(heads[i], window) matches Some(u)
                    ==> t <= u)
        },
        None => forall|i: int|
            0 <= i < heads.len() ==> #[trigger] later_time(heads[i], window) is None,
    }
}

/// Whether two packets of a line take the same place.
pub open spec fn overlaps(a: Placed, b: Placed) -> bool {
    (b.offset <= a.offset && a.offset < b.offset_end) || (a.offset <= b.offset && b.offset
        < a.offset_end)
}

/// Whether a packet gives way to one of its line that was kept: to one that overlaps it, and, where
/// both are without data and begin in the same place, to one of the same kind from a later input.
pub open spec fn gives_way(p: Placed, kept: Placed) -> bool {
    overlaps(p, kept) || (p.offset == kept.offset && p.did == kept.did && p.sdid == kept.sdid
        && p.pad < kept.pad)
}

/// The place by which packets are put in order.
pub open spec fn key(p: Placed) -> (u16, u16) {
    (p.line, p.offset)
}

/// Whether the place of a packet is taken.
pub open spec fn is_taken(kept: Map<(u16, u16), Placed>, p: Placed) -> bool {
    exists|k: (u16, u16)| #[trigger]
        kept.contains_key(k) && k.0 == p.line && gives_way(p, kept[k])
}

/// The packets that are kept once another one came. It takes the place of a packet that begins in
/// the same place and does not hold it off.
pub open spec fn place(kept: Map<(u16, u16), Placed>, p: Placed) -> Map<(u16, u16), Placed> {
    if is_taken(kept, p) {
        kept
    } else {
        kept.insert(key(p), p)
    }
}

/// The packets that are kept of those that came, by their places.
pub open spec fn kept_of(packets: Seq<Placed>) -> Map<(u16, u16), Placed>
    decreases packets.len(),
{
    if packets.len() == 0 {
        Map::empty()
    } else {
        place(kept_of(packets.drop_last()), packets.last())
    }
}

/// The packet at `at`.
pub open spec fn placed_at(data: Seq<u8>, at: int, pad: int, buffer: int) -> Placed {
    let header = crate::st2038anc_utils::header_at(data, at)->0;
    Placed {
        line: header.line_number,
        offset: header.horizontal_offset,
        offset_end: (header.horizontal_offset + header.data_count) as u16,
        did: header.did,
        sdid: header.sdid,
        pad: pad as usize,
        buffer: buffer as usize,
        from: at as usize,
        to: (at + header.len) as usize,
    }
}

/// The packets from `at` on, up to stuffing or to what is no packet.
pub open spec fn packets_from(data: Seq<u8>, at: int, pad: int, buffer: int) -> Seq<Placed>
    decreases data.len() - at,
{
    match crate::st2038anc_utils::header_at(data, at) {
        Some(header) => if 0 < header.len {
            seq![placed_at(data, at, pad, buffer)] + packets_from(
                data,
                at + header.len,
                pad,
                buffer,
            )
        } else {
            Seq::empty()
        },
        None => Seq::empty(),
    }
}

/// The packets of the buffers before `n`, the latest buffer first.
pub open spec fn packets_of_pad(buffers: Seq<Vec<u8>>, n: int, pad: int) -> Seq<Placed>
    decreases n,
{
    if n <= 0 {
        Seq::empty()
    } else {
        packets_from(buffers[n - 1]@, 0, pad, n - 1) + packets_of_pad(buffers, n - 1, pad)
    }
}

/// The packets of the inputs before `n`, the latest input first.
pub open spec fn packets_of(pads: Seq<Vec<Vec<u8>>>, n: int) -> Seq<Placed>
    decreases n,
{
    if n <= 0 {
        Seq::empty()
    } else {
        packets_of_pad(pads[n - 1]@, pads[n - 1]@.len() as int, n - 1) + packets_of(pads, n - 1)
    }
}

/// Whether one place comes before another.
pub open spec fn before(a: (u16, u16), b: (u16, u16)) -> bool {
    a.0 < b.0 || (a.0 == b.0 && a.1 < b.1)
}

/// Whether a list holds the kept packets in the order of their places.
pub open spec fn lists(list: Seq<Placed>, kept: Map<(u16, u16), Placed>) -> bool {
    &&& forall|i: int, j: int|
        0 <= i < j < list.len() ==> before(key(#[trigger] list[i]), key(#[trigger] list[j]))
    &&& forall|i: int|
        0 <= i < list.len() ==> kept.contains_key(key(#[trigger] list[i])) && kept[key(list[i])]
            == list[i]
    &&& forall|k: (u16, u16)| #[trigger]
        kept.contains_key(k) ==> exists|i: int| 0 <= i < list.len() && key(#[trigger] list[i]) == k
}

/// Whether the buffers hold the packets up to `n` one after the other: each one packet, or all
/// packets of one line.
pub open spec fn grouped(
    buffers: Seq<OutBuffer>,
    packets: Seq<Placed>,
    n: int,
    alignment: Alignment,
) -> bool {
    &&& forall|i: int|
        0 <= i < buffers.len() ==> (#[trigger] buffers[i]).first < buffers[i].end
            <= packets.len()
    &&& buffers.len() > 0 ==> buffers[0].first == 0
    &&& forall|i: int, j: int|
        0 <= i && j == i + 1 && j < buffers.len() ==> (#[trigger] buffers[j]).first == (
        #[trigger] buffers[i]).end
    &&& n == if buffers.len() == 0 {
        0
    } else {
        buffers.last().end as int
    }
    &&& forall|i: int, j: int|
        0 <= i < buffers.len() && (#[trigger] buffers[i]).first <= j < buffers[i].end ==> (
        #[trigger] packets[j]).line == packets[buffers[i].first as int].line
    &&& match alignment {
        Alignment::Packet => forall|i: int|
            0 <= i < buffers.len() ==> (#[trigger] buffers[i]).end == buffers[i].first + 1,
        Alignment::Line => forall|i: int|
            0 <= i < buffers.len() && (#[trigger] buffers[i]).end < packets.len()
                ==> packets[buffers[i].end as int].line != packets[buffers[i].first as int].line,
    }
}

/// The time and duration that buffers get.
pub open spec fn timing_of(window: Window) -> Option<(u64, u64)> {
    if window.duration > 0 {
        Some((window.start, window.duration))
    } else {
        None
    }
}

fn has_to_give_way(p: &Placed, kept: &Placed) -> (r: bool)
    ensures
        r == gives_way(*p, *kept),
{
    (kept.offset <= p.offset && p.offset < kept.offset_end) || (p.offset <= kept.offset
        && kept.offset < p.offset_end) || (p.offset == kept.offset && p.did == kept.did && p.sdid
        == kept.sdid && p.pad < kept.pad)
}

/// Adds a packet to those that are kept, unless its place is taken.
fn add_packet(list: &mut Vec<Placed>, p: Placed, Ghost(kept): Ghost<Map<(u16, u16), Placed>>)
    requires
        lists(old(list)@, kept),
    ensures
        lists(final(list)@, place(kept, p)),
{
    let mut i: usize = 0;
    let mut at: usize = 0;
    while i < list.len()
        invariant
            lists(list@, kept),
            0 <= at <= i <= list@.len(),
            forall|j: int| 0 <= j < at ==> before(key(#[trigger] list@[j]), key(p)),
            forall|j: int| at <= j < i ==> !before(key(#[trigger] list@[j]), key(p)),
            forall|j: int|
                0 <= j < i && (#[trigger] list@[j]).line == p.line ==> !gives_way(p, list@[j]),
        decreases list@.len() - i,
    {
        let q: Placed = list[i];
        if q.line == p.line && has_to_give_way(&p, &q) {
            assert(kept.contains_key(key(q)));
            return;
        }
        if q.line < p.line || (q.line == p.line && q.offset < p.offset) {
            proof {
                if at < i {
                    assert(before(key(list@[at as int]), key(list@[i as int])));
                }
            }
            at = i + 1;
        }
        i += 1;
    }
    proof {
        assert forall|k: (u16, u16)| #[trigger] kept.contains_key(k) && k.0
            == p.line implies !gives_way(p, kept[k]) by {
            let j = choose|j: int| 0 <= j < list@.len() && key(#[trigger] list@[j]) == k;
            assert(kept[key(list@[j])] == list@[j]);
        }
    }
    let ghost was = list@;
    let ghost new = kept.insert(key(p), p);
    if at < list.len() && list[at].line == p.line && list[at].offset == p.offset {
        list.set(at, p);
        proof {
            assert forall|k: (u16, u16)| #[trigger] new.contains_key(k) implies exists|i: int|
                0 <= i < list@.len() && key(#[trigger] list@[i]) == k by {
                if k == key(p) {
                    assert(key(list@[at as int]) == k);
                } else {
                    assert(kept.contains_key(k));
                    let j = choose|j: int| 0 <= j < was.len() && key(#[trigger] was[j]) == k;
                    assert(key(list@[j]) == k);
                }
            }
            assert forall|i: int, j: int| 0 <= i < j < list@.len() implies before(
                key(#[trigger] list@[i]),
                key(#[trigger] list@[j]),
            ) by {
                assert(before(key(was[i]), key(was[j])));
            }
            assert forall|i: int| 0 <= i < list@.len() implies new.contains_key(
                key(#[trigger] list@[i]),
            ) && new[key(list@[i])] == list@[i] by {
                if i != at {
                    assert(list@[i] == was[i]);
                    assert(was[at as int] == was[at as int]);
                }
            }
        }
    } else {
        list.insert(at, p);
        proof {
            assert forall|k: (u16, u16)| #[trigger] new.contains_key(k) implies exists|i: int|
                0 <= i < list@.len() && key(#[trigger] list@[i]) == k by {
                if k == key(p) {
                    assert(key(list@[at as int]) == k);
                } else {
                    assert(kept.contains_key(k));
                    let j = choose|j: int| 0 <= j < was.len() && key(#[trigger] was[j]) == k;
                    if j < at {
                        assert(key(list@[j]) == k);
                    } else {
                        assert(key(list@[j + 1]) == k);
                    }
                }
            }
            assert forall|i: int|
                0 <= i < was.len() implies key(#[trigger] was[i]) != key(p) && (i < at <==> before(
                key(was[i]),
                key(p),
            )) by {
                if i > at {
                    assert(before(key(was[at as int]), key(was[i])));
                }
            }
            assert forall|i: int| 0 <= i < list@.len() implies new.contains_key(
                key(#[trigger] list@[i]),
            ) && new[key(list@[i])] == list@[i] by {
                if i < at {
                    assert(list@[i] == was[i]);
                } else if i > at {
                    assert(list@[i] == was[i - 1]);
                }
            }
            assert forall|i: int, j: int| 0 <= i < j < list@.len() implies before(
                key(#[trigger] list@[i]),
                key(#[trigger] list@[j]),
            ) by {
                let a = if i < at {
                    i
                } else {
                    i - 1
                };
                let b = if j < at {
                    j
                } else {
                    j - 1
                };
                if i != at && j != at {
                    assert(list@[i] == was[a] && list@[j] == was[b]);
                    assert(before(key(was[a]), key(was[b])));
                } else if i == at {
                    assert(list@[j] == was[b]);
                } else {
                    assert(list@[i] == was[a]);
                }
            }
        }
    }
}

proof fn lemma_kept_push(packets: Seq<Placed>, p: Placed)
    ensures
        kept_of(packets.push(p)) == place(kept_of(packets), p),
{
    assert(packets.push(p).drop_last() =~= packets);
}

/// Adds the packets of a buffer.
fn add_buffer(
    list: &mut Vec<Placed>,
    data: &Vec<u8>,
    pad: usize,
    buffer: usize,
    Ghost(packets): Ghost<Seq<Placed>>,
)
    requires
        lists(old(list)@, kept_of(packets)),
    ensures
        lists(
            final(list)@,
            kept_of(packets + packets_from(data@, 0, pad as int, buffer as int)),
        ),
{
    let ghost all = packets + packets_from(data@, 0, pad as int, buffer as int);
    let ghost mut seen = packets;
    let len: usize = data.len();
    let mut at: usize = 0;
    let mut more: bool = true;
    assert(seen + packets_from(data@, 0, pad as int, buffer as int) =~= all);
    while more
        invariant
            at <= data@.len(),
            len == data@.len(),
            more ==> seen + packets_from(data@, at as int, pad as int, buffer as int) == all,
            !more ==> seen == all,
            lists(list@, kept_of(seen)),
        decreases
                (if more {
                    1int
                } else {
                    0int
                }),
                data@.len() - at,
    {
        match parse_header_at(data.as_slice(), at) {
            Some(header) => {
                proof {
                    crate::st2038anc_utils::lemma_header_at(data@, at as int);
                }
                let offset_end: u16 = header.horizontal_offset + header.data_count as u16;
                let p: Placed = Placed {
                    line: header.line_number,
                    offset: header.horizontal_offset,
                    offset_end,
                    did: header.did,
                    sdid: header.sdid,
                    pad,
                    buffer,
                    from: at,
                    to: at + header.len,
                };
                add_packet(list, p, Ghost(kept_of(seen)));
                proof {
                    lemma_kept_push(seen, p);
                    let rest = packets_from(
                        data@,
                        at + header.len,
                        pad as int,
                        buffer as int,
                    );
                    assert(packets_from(data@, at as int, pad as int, buffer as int) =~= seq![p]
                        + rest);
                    assert(seen + (seq![p] + rest) =~= seen.push(p) + rest);
                    seen = seen.push(p);
                }
                at = at + header.len;
            },
            None => {
                assert(seen + Seq::<Placed>::empty() =~= seen);
                more = false;
            },
        }
    }
}

/// Finds the packets that are put out, in the order of their places. Where packets overlap, the
/// latest input wins, and its latest buffer: these are read first. Packets without data do not
/// overlap: of two that begin in the same place the latest input wins where they are of the same
/// kind, else the one that is read last.
pub fn merge(pads: &Vec<Vec<Vec<u8>>>) -> (r: Vec<Placed>)
    ensures
        lists(r@, kept_of(packets_of(pads@, pads@.len() as int))),
{
    let ghost all = packets_of(pads@, pads@.len() as int);
    let ghost mut seen = Seq::<Placed>::empty();
    let mut list: Vec<Placed> = Vec::new();
    let mut n: usize = pads.len();
    assert(seen + packets_of(pads@, n as int) =~= all);
    while n > 0
        invariant
            n <= pads@.len(),
            seen + packets_of(pads@, n as int) == all,
            lists(list@, kept_of(seen)),
        decreases n,
    {
        let pad: &Vec<Vec<u8>> = &pads[n - 1];
        let mut m: usize = pad.len();
        proof {
            assert(seen + (packets_of_pad(pad@, m as int, n - 1) + packets_of(pads@, n - 1))
                =~= seen + packets_of_pad(pad@, m as int, n - 1) + packets_of(pads@, n - 1));
        }
        while m > 0
            invariant
                0 < n <= pads@.len(),
                pad == &pads@[n - 1],
                m <= pad@.len(),
                seen + packets_of_pad(pad@, m as int, n - 1) + packets_of(pads@, n - 1) == all,
                lists(list@, kept_of(seen)),
            decreases m,
        {
            add_buffer(&mut list, &pad[m - 1], n - 1, m - 1, Ghost(seen));
            proof {
                let packets = packets_from(pad@[m - 1]@, 0, n - 1, m - 1);
                assert(seen + (packets + packets_of_pad(pad@, m - 1, n - 1)) =~= (seen + packets)
                    + packets_of_pad(pad@, m - 1, n - 1));
                seen = seen + packets;
            }
            m -= 1;
        }
        assert(seen + packets_of_pad(pad@, 0, n - 1) =~= seen);
        n -= 1;
    }
    assert(seen + packets_of(pads@, 0) =~= seen);
    list
}

/// Puts packets into buffers. Only the last one is marked.
pub fn group(packets: &Vec<Placed>, alignment: Alignment, window: Window) -> (r: Vec<OutBuffer>)
    ensures
        grouped(r@, packets@, packets@.len() as int, alignment),
        forall|i: int|
            0 <= i < r@.len() ==> (#[trigger] r@[i]).timing == timing_of(window) && r@[i].marker == (
            i == r@.len() - 1),
{
    let mut buffers: Vec<OutBuffer> = Vec::new();
    let timing: Option<(u64, u64)> = if window.duration > 0 {
        Some((window.start, window.duration))
    } else {
        None
    };
    let mut at: usize = 0;
    while at < packets.len()
        invariant
            at <= packets@.len(),
            timing == timing_of(window),
            grouped(buffers@, packets@, at as int, alignment),
            forall|i: int|
                0 <= i < buffers@.len() ==> (#[trigger] buffers@[i]).timing == timing_of(window)
                    && buffers@[i].marker == (buffers@[i].end == packets@.len()),
        decreases packets@.len() - at,
    {
        let mut end: usize = at + 1;
        if alignment == Alignment::Line {
            while end < packets.len() && packets[end].line == packets[at].line
                invariant
                    at < end <= packets@.len(),
                    forall|j: int|
                        at <= j < end ==> (#[trigger] packets@[j]).line == packets@[at as int].line,
                decreases packets@.len() - end,
            {
                end += 1;
            }
        }
        buffers.push(OutBuffer { first: at, end, timing, marker: end == packets.len() });
        at = end;
    }
    proof {
        assert forall|i: int| 0 <= i < buffers@.len() implies (#[trigger] buffers@[i]).marker == (i
            == buffers@.len() - 1) by {
            if i < buffers@.len() - 1 {
                assert(buffers@[i + 1].first == buffers@[i].end);
            }
        }
    }
    buffers
}

impl St2038AncMux {
    /// A mux for which nothing is settled.
    pub fn new() -> (r: St2038AncMux)
        ensures
            r.downstream_framerate is None,
            r.alignment == Alignment::Packet,
    {
        St2038AncMux { downstream_framerate: None, alignment: Alignment::Packet }
    }

    /// How long a frame lasts. Zero where that is not known.
    pub open spec fn duration(&self) -> int {
        match self.downstream_framerate {
            Some(f) => f.frame_time(),
            None => 0,
        }
    }

    /// Whether the framerate is one.
    pub open spec fn wf(&self) -> bool {
        self.downstream_framerate matches Some(f) ==> f.numer > 0
    }

    /// Where the next time begins.
    pub open spec fn start_of(position: Option<u64>, segment_start: u64) -> u64 {
        match position {
            Some(p) => if p < segment_start {
                segment_start
            } else {
                p
            },
            None => segment_start,
        }
    }

    /// The time that is to be put out next.
    pub fn window(&self, position: Option<u64>, segment_start: u64) -> (r: Window)
        requires
            self.wf(),
            Self::start_of(position, segment_start) + self.duration() < u64::MAX,
        ensures
            r.start == Self::start_of(position, segment_start),
            r.duration == self.duration(),
            r.end == r.start + r.duration,
    {
        let start: u64 = match position {
            Some(p) => if p < segment_start {
                segment_start
            } else {
                p
            },
            None => segment_start,
        };
        let duration: u64 = match self.downstream_framerate {
            Some(f) => f.frame_duration(),
            None => 0,
        };
        Window { start, duration, end: start + duration }
    }

    /// Settles the output format.
    pub fn negotiate(&mut self, framerate: Option<Framerate>, alignment: Option<&[u8]>) -> (r:
        Negotiated)
        requires
            framerate matches Some(f) ==> f.numer > 0,
        ensures
            final(self).wf(),
            final(self).downstream_framerate == framerate,
            final(self).alignment == match alignment_of(
                match alignment {
                    Some(n) => Some(n@),
                    None => None,
                },
            ) {
                Some(a) => a,
                None => Alignment::Packet,
            },
            r.add_alignment == (alignment_of(
                match alignment {
                    Some(n) => Some(n@),
                    None => None,
                },
            ) is None),
            match framerate {
                Some(f) => r.min_latency == f.frame_time() && r.max_latency == Some(r.min_latency),
                None => r.min_latency == WORST_FRAME_TIME && r.max_latency is None,
            },
    {
        let mut add_alignment: bool = false;
        self.alignment = Alignment::Packet;
        match alignment {
            Some(name) => {
                if same_bytes(name, "packet".as_bytes()) {
                } else if same_bytes(name, "line".as_bytes()) {
                    self.alignment = Alignment::Line;
                } else {
                    add_alignment = true;
                }
            },
            None => {
                add_alignment = true;
            },
        }
        self.downstream_framerate = framerate;
        match framerate {
            Some(f) => {
                let duration: u64 = f.frame_duration();
                Negotiated {
                    add_alignment,
                    min_latency: duration,
                    max_latency: Some(duration),
                }
            },
            None => Negotiated { add_alignment, min_latency: WORST_FRAME_TIME, max_latency: None },
        }
    }

    /// Looks at the heads of all inputs.
    pub fn collect(heads: &[Head], window: Window) -> (r: Collected)
        ensures
            r.actions@ == heads@.map_values(|head: Head| action_for(head, window)),
            r.all_done == (forall|i: int|
                0 <= i < heads@.len() ==> is_done(#[trigger] heads@[i], window)),
            r.all_eos == (forall|i: int|
                0 <= i < heads@.len() ==> #[trigger] heads@[i] == (Head::Eos { queued: false })),
            is_first_later(r.min_next, heads@, window),
    {
        let mut actions: Vec<Action> = Vec::new();
        let mut all_done: bool = true;
        let mut all_eos: bool = true;
        let mut min_next: Option<u64> = None;
        let mut i: usize = 0;
        while i < heads.len()
            invariant
                i <= heads@.len(),
                actions@ == heads@.take(i as int).map_values(
                    |head: Head| action_for(head, window),
                ),
                all_done == (forall|j: int|
                    0 <= j < i ==> is_done(#[trigger] heads@[j], window)),
                all_eos == (forall|j: int|
                    0 <= j < i ==> #[trigger] heads@[j] == (Head::Eos { queued: false })),
                is_first_later(min_next, heads@.take(i as int), window),
            decreases heads@.len() - i,
        {
            let ghost was = min_next;
            let ghost done = heads@.take(i as int);
            let ghost next = heads@.take(i + 1);
            assert(next =~= done.push(heads@[i as int]));
            match heads[i] {
                Head::Eos { queued } => {
                    if queued {
                        all_eos = false;
                    }
                    actions.push(Action::Keep);
                },
                Head::Empty => {
                    all_eos = false;
                    all_done = false;
                    actions.push(Action::Keep);
                },
                Head::Untimed => {
                    all_eos = false;
                    all_done = false;
                    actions.push(Action::Discard);
                },
                Head::Buffer { running_time } => {
                    all_eos = false;
                    if running_time > window.end || (window.end > window.start && running_time
                        == window.end) {
                        let is_first: bool = match min_next {
                            Some(t) => t > running_time,
                            None => true,
                        };
                        if is_first {
                            min_next = Some(running_time);
                        }
                        actions.push(Action::Keep);
                    } else {
                        all_done = false;
                        actions.push(Action::Queue);
                    }
                },
            }
            proof {
                assert(actions@ =~= next.map_values(|head: Head| action_for(head, window)));
                assert forall|j: int| 0 <= j < next.len() implies (#[trigger] later_time(
                    next[j],
                    window,
                ) matches Some(u) ==> min_next is Some && min_next->0 <= u) by {
                    if j < i {
                        assert(next[j] == done[j]);
                        assert(later_time(done[j], window) == later_time(next[j], window));
                    } else {
                        assert(next[j] == heads@[i as int]);
                    }
                }
                if min_next is Some {
                    if min_next == was {
                        let j = choose|j: int|
                            0 <= j < done.len() && #[trigger] later_time(done[j], window)
                                == min_next;
                        assert(next[j] == done[j]);
                        assert(later_time(next[j], window) == min_next);
                    } else {
                        assert(later_time(next[i as int], window) == min_next);
                    }
                }
                if min_next is None {
                    assert forall|j: int| 0 <= j < next.len() implies #[trigger] later_time(
                        next[j],
                        window,
                    ) is None by {}
                }
            }
            i += 1;
        }
        assert(heads@.take(i as int) =~= heads@);
        Collected { actions, all_done, all_eos, min_next }
    }

    /// Whether there is enough to put something out: on timeout, or once nothing more is to be
    /// expected for this time.
    pub fn ready(collected: &Collected, timeout: bool) -> (r: Result<(), FlowError>)
        ensures
            r == if !collected.all_done && !timeout {
                Err(FlowError::NeedData)
            } else if collected.all_eos {
                Err(FlowError::Eos)
            } else {
                Ok::<(), FlowError>(())
            },
    {
        if !collected.all_done && !timeout {
            return Err(FlowError::NeedData);
        }
        if collected.all_eos {
            return Err(FlowError::Eos);
        }
        Ok(())
    }

    /// Puts out what was set aside on all inputs, or a gap where that holds no packets.
    pub fn output(&self, pads: &Vec<Vec<Vec<u8>>>, window: Window, min_next: Option<u64>) -> (r:
        Output)
        requires
            min_next matches Some(t) ==> t >= window.start,
        ensures
            match r {
                Output::Buffers { packets, buffers } => {
                    &&& packets@.len() > 0
                    &&& lists(packets@, kept_of(packets_of(pads@, pads@.len() as int)))
                    &&& grouped(buffers@, packets@, packets@.len() as int, self.alignment)
                    &&& forall|i: int|
                        0 <= i < buffers@.len() ==> (#[trigger] buffers@[i]).timing == timing_of(
                            window,
                        ) && buffers@[i].marker == (i == buffers@.len() - 1)
                },
                Output::Gap { start, duration } => {
                    &&& kept_of(packets_of(pads@, pads@.len() as int)) == Map::<
                        (u16, u16),
                        Placed,
                    >::empty()
                    &&& start == window.start
                    &&& duration == match min_next {
                        Some(t) => if window.duration == 0 {
                            t - window.start
                        } else {
                            window.duration as int
                        },
                        None => window.duration as int,
                    }
                },
            },
    {
        let packets: Vec<Placed> = merge(pads);
        if packets.len() > 0 {
            let buffers: Vec<OutBuffer> = group(&packets, self.alignment, window);
            Output::Buffers { packets, buffers }
        } else {
            let ghost kept = kept_of(packets_of(pads@, pads@.len() as int));
            assert(kept =~= Map::<(u16, u16), Placed>::empty()) by {
                assert forall|k: (u16, u16)| !(#[trigger] kept.contains_key(k)) by {
                    if kept.contains_key(k) {
                        let i = choose|i: int|
                            0 <= i < packets@.len() && key(#[trigger] packets@[i]) == k;
                        assert(0 <= i < packets@.len());
                    }
                }
            }
            let mut duration: u64 = window.duration;
            if let Some(t) = min_next {
                if duration == 0 {
                    duration = t - window.start;
                }
            }
            Output::Gap { start: window.start, duration }
        }
    }

    /// Where the output goes on: at the next frame, or at the next buffer.
    pub fn next_position(window: Window, min_next: Option<u64>, position: Option<u64>) -> (r:
        Option<u64>)
        requires
            position matches Some(p) ==> p + WORST_FRAME_TIME < u64::MAX,
        ensures
            r == if window.duration > 0 {
                Some(window.end)
            } else {
                match (min_next, position) {
                    (Some(t), _) => Some(t),
                    (None, Some(p)) => Some((p + WORST_FRAME_TIME) as u64),
                    (None, None) => None,
                }
            },
    {
        if window.duration > 0 {
            Some(window.end)
        } else if let Some(t) = min_next {
            Some(t)
        } else {
            match position {
                Some(p) => Some(p + WORST_FRAME_TIME),
                None => None,
            }
        }
    }
}

proof fn lemma_kept_keys(packets: Seq<Placed>)
    ensures
        forall|k: (u16, u16)| #[trigger]
            kept_of(packets).contains_key(k) ==> key(kept_of(packets)[k]) == k,
    decreases packets.len(),
{
    if packets.len() > 0 {
        lemma_kept_keys(packets.drop_last());
        let was = kept_of(packets.drop_last());
        let p = packets.last();
        assert forall|k: (u16, u16)| #[trigger] kept_of(packets).contains_key(k) implies key(
            kept_of(packets)[k],
        ) == k by {
            if is_taken(was, p) || k != key(p) {
                assert(was.contains_key(k));
            }
        }
    }
}

/// No two packets of a line that are put out overlap.
pub proof fn law_no_overlap(packets: Seq<Placed>, a: (u16, u16), b: (u16, u16))
    requires
        kept_of(packets).contains_key(a),
        kept_of(packets).contains_key(b),
        a != b,
        a.0 == b.0,
    ensures
        !overlaps(kept_of(packets)[a], kept_of(packets)[b]),
    decreases packets.len(),
{
    if packets.len() > 0 {
        let was = kept_of(packets.drop_last());
        let p = packets.last();
        lemma_kept_keys(packets.drop_last());
        if is_taken(was, p) || (a != key(p) && b != key(p)) {
            law_no_overlap(packets.drop_last(), a, b);
        } else {
            if a == key(p) {
                assert(was.contains_key(b));
            } else {
                assert(was.contains_key(a));
            }
        }
    }
}

/// A packet with data that was kept stays, whatever comes later. One without data stays as long as
/// those that come later for its place give way to it.
pub proof fn law_first_wins(packets: Seq<Placed>, more: Seq<Placed>, k: (u16, u16))
    requires
        kept_of(packets).contains_key(k),
        kept_of(packets)[k].offset < kept_of(packets)[k].offset_end || (forall|i: int|
            0 <= i < more.len() && key(#[trigger] more[i]) == k ==> gives_way(
                more[i],
                kept_of(packets)[k],
            )),
    ensures
        kept_of(packets + more).contains_key(k),
        kept_of(packets + more)[k] == kept_of(packets)[k],
    decreases more.len(),
{
    if more.len() == 0 {
        assert(packets + more =~= packets);
    } else {
        assert forall|i: int|
            0 <= i < more.drop_last().len() implies #[trigger] more.drop_last()[i] == more[i] by {}
        law_first_wins(packets, more.drop_last(), k);
        let all = packets + more;
        assert(all.drop_last() =~= packets + more.drop_last());
        lemma_kept_keys(packets);
        let was = kept_of(all.drop_last());
        assert(all.last() == more[more.len() - 1]);
        if key(all.last()) == k {
            assert(was.contains_key(k) && gives_way(all.last(), was[k]));
            assert(is_taken(was, all.last()));
        }
    }
}

proof fn lemma_kept_came(packets: Seq<Placed>, k: (u16, u16))
    requires
        kept_of(packets).contains_key(k),
    ensures
        packets.contains(kept_of(packets)[k]),
    decreases packets.len(),
{
    if packets.len() > 0 {
        let was = kept_of(packets.drop_last());
        let last = packets.last();
        if is_taken(was, last) || k != key(last) {
            lemma_kept_came(packets.drop_last(), k);
            let i = choose|i: int|
                0 <= i < packets.drop_last().len() && packets.drop_last()[i] == was[k];
            assert(packets[i] == was[k]);
        } else {
            assert(packets[packets.len() - 1] == last);
        }
    }
}

/// Whether packets are of the inputs from `n` up to `m`.
spec fn is_from_inputs(packets: Seq<Placed>, n: int, m: int) -> bool {
    forall|i: int| 0 <= i < packets.len() ==> n <= (#[trigger] packets[i]).pad < m
}

proof fn lemma_joined_inputs(a: Seq<Placed>, b: Seq<Placed>, n: int, m: int)
    requires
        is_from_inputs(a, n, m),
        is_from_inputs(b, n, m),
    ensures
        is_from_inputs(a + b, n, m),
{
    assert forall|i: int| 0 <= i < (a + b).len() implies n <= (#[trigger] (a + b)[i]).pad < m by {
        if i < a.len() {
            assert((a + b)[i] == a[i]);
        } else {
            assert((a + b)[i] == b[i - a.len()]);
        }
    }
}

proof fn lemma_input_of_buffer(data: Seq<u8>, at: int, pad: int, buffer: int, n: int, m: int)
    requires
        0 <= n <= pad < m <= usize::MAX,
    ensures
        is_from_inputs(packets_from(data, at, pad, buffer), n, m),
    decreases data.len() - at,
{
    if let Some(header) = crate::st2038anc_utils::header_at(data, at) {
        if 0 < header.len {
            crate::st2038anc_utils::lemma_header_at(data, at);
            lemma_input_of_buffer(data, at + header.len, pad, buffer, n, m);
            lemma_joined_inputs(
                seq![placed_at(data, at, pad, buffer)],
                packets_from(data, at + header.len, pad, buffer),
                n,
                m,
            );
        }
    }
}

proof fn lemma_input_of_buffers(buffers: Seq<Vec<u8>>, len: int, pad: int, n: int, m: int)
    requires
        0 <= n <= pad < m <= usize::MAX,
    ensures
        is_from_inputs(packets_of_pad(buffers, len, pad), n, m),
    decreases len,
{
    if len > 0 {
        let last = packets_from(buffers[len - 1]@, 0, pad, len - 1);
        lemma_input_of_buffer(buffers[len - 1]@, 0, pad, len - 1, n, m);
        lemma_input_of_buffers(buffers, len - 1, pad, n, m);
        lemma_joined_inputs(last, packets_of_pad(buffers, len - 1, pad), n, m);
    }
}

proof fn lemma_inputs_between(pads: Seq<Vec<Vec<u8>>>, n: int, at: int, m: int)
    requires
        0 <= n,
        at <= m <= usize::MAX,
    ensures
        is_from_inputs(packets_between(pads, n, at), n, m),
    decreases at - n,
{
    if n < at {
        let last = packets_of_pad(pads[at - 1]@, pads[at - 1]@.len() as int, at - 1);
        lemma_input_of_buffers(pads[at - 1]@, pads[at - 1]@.len() as int, at - 1, n, m);
        lemma_inputs_between(pads, n, at - 1, m);
        lemma_joined_inputs(last, packets_between(pads, n, at - 1), n, m);
    }
}

/// The packets of the inputs from `n` up to `m`, the latest input first.
pub open spec fn packets_between(pads: Seq<Vec<Vec<u8>>>, n: int, m: int) -> Seq<Placed>
    decreases m - n,
{
    if m <= n {
        Seq::empty()
    } else {
        packets_of_pad(pads[m - 1]@, pads[m - 1]@.len() as int, m - 1) + packets_between(
            pads,
            n,
            m - 1,
        )
    }
}

proof fn lemma_packets_between(pads: Seq<Vec<Vec<u8>>>, n: int, m: int)
    requires
        0 <= n <= m,
    ensures
        packets_of(pads, m) == packets_between(pads, n, m) + packets_of(pads, n),
    decreases m - n,
{
    if n < m {
        lemma_packets_between(pads, n, m - 1);
        let last = packets_of_pad(pads[m - 1]@, pads[m - 1]@.len() as int, m - 1);
        assert(last + (packets_between(pads, n, m - 1) + packets_of(pads, n)) =~= last
            + packets_between(pads, n, m - 1) + packets_of(pads, n));
    } else {
        assert(packets_between(pads, n, m) + packets_of(pads, n) =~= packets_of(pads, n));
    }
}

/// Inputs that were made later come before those that were made earlier: a packet that is kept of
/// the later ones alone is kept of all, if it has data or if what the earlier ones have for its
/// place has data or is of the same kind.
pub proof fn law_later_inputs_win(pads: Seq<Vec<Vec<u8>>>, n: int, k: (u16, u16))
    requires
        0 <= n <= pads.len() <= usize::MAX,
        kept_of(packets_between(pads, n, pads.len() as int)).contains_key(k),
        ({
            let q = kept_of(packets_between(pads, n, pads.len() as int))[k];
            q.offset < q.offset_end || (forall|i: int|
                0 <= i < packets_of(pads, n).len() && key(#[trigger] packets_of(pads, n)[i]) == k
                    ==> ({
                    let p = packets_of(pads, n)[i];
                    p.offset < p.offset_end || (p.did == q.did && p.sdid == q.sdid)
                }))
        }),
    ensures
        ({
            let later = kept_of(packets_between(pads, n, pads.len() as int));
            let all = kept_of(packets_of(pads, pads.len() as int));
            all.contains_key(k) && all[k] == later[k]
        }),
{
    let later = packets_between(pads, n, pads.len() as int);
    let earlier = packets_of(pads, n);
    let q = kept_of(later)[k];
    lemma_packets_between(pads, n, pads.len() as int);
    lemma_kept_came(later, k);
    lemma_kept_keys(later);
    lemma_inputs_between(pads, n, pads.len() as int, pads.len() as int);
    lemma_packets_between(pads, 0, n);
    lemma_inputs_between(pads, 0, n, n);
    assert(packets_between(pads, 0, n) + packets_of(pads, 0) =~= packets_between(pads, 0, n));
    law_first_wins(later, earlier, k);
}

/// For each packet that came there is one in its place: one that begins there, or one that it gave
/// way to.
pub proof fn law_every_place_taken(packets: Seq<Placed>, i: int)
    requires
        0 <= i < packets.len(),
    ensures
        kept_of(packets).contains_key(key(packets[i])) || is_taken(kept_of(packets), packets[i]),
    decreases packets.len(),
{
    let p = packets[i];
    let was = kept_of(packets.drop_last());
    let last = packets.last();
    lemma_kept_keys(packets.drop_last());
    if i < packets.len() - 1 {
        law_every_place_taken(packets.drop_last(), i);
        if !was.contains_key(key(p)) {
            let k = choose|k: (u16, u16)| #[trigger]
                was.contains_key(k) && k.0 == p.line && gives_way(p, was[k]);
            if key(last) == k && !is_taken(was, last) {
                assert(!gives_way(last, was[k]));
                assert(overlaps(p, last));
            }
            assert(kept_of(packets).contains_key(k));
        }
    }
}

} // verus!
