//! What readers of caption files have in common: lines, positions, events and seeking.
use crate::clock::{FlowError, Framerate};
use crate::line_reader::LineReader;
use crate::parser_utils::TimeCode;
use vstd::prelude::*;

verus! {

/// How many bytes of a file are read at a time.
pub const BLOCK_SIZE: u64 = 4096;

/// The first line of bytes: up to a newline, or all that is left where nothing more comes.
pub open spec fn first_line(bytes: Seq<u8>, drain: bool) -> Option<Seq<u8>> {
    if crate::line_reader::has_newline(bytes) {
        Some(bytes.take(crate::line_reader::line_len(bytes)))
    } else if drain && bytes.len() > 0 {
        Some(bytes)
    } else {
        None
    }
}

/// A line is not empty, and the bytes begin with it.
pub proof fn lemma_first_line(bytes: Seq<u8>, drain: bool)
    ensures
        first_line(bytes, drain) matches Some(line) ==> 0 < line.len() <= bytes.len() && line
            == bytes.take(line.len() as int),
{
    if crate::line_reader::has_newline(bytes) {
        crate::line_reader::law_line_shape(bytes);
    } else {
        assert(bytes.take(bytes.len() as int) =~= bytes);
    }
}

/// Whether no chunk is empty.
pub open spec fn no_gaps(chunks: Seq<Seq<u8>>) -> bool {
    forall|i: int| 0 <= i < chunks.len() ==> (#[trigger] chunks[i]).len() > 0
}

proof fn lemma_no_gaps(chunks: Seq<Seq<u8>>, n: int)
    requires
        no_gaps(chunks),
        0 <= n <= crate::line_reader::flat(chunks).len(),
    ensures
        no_gaps(crate::line_reader::advance(chunks, n)),
        chunks.len() > 0 <==> crate::line_reader::flat(chunks).len() > 0,
    decreases chunks.len(),
{
    if chunks.len() > 0 {
        assert(chunks[0].len() > 0);
        let rest = chunks.drop_first();
        assert forall|i: int| 0 <= i < rest.len() implies (#[trigger] rest[i]).len() > 0 by {
            assert(rest[i] == chunks[i + 1]);
        }
        if n >= chunks[0].len() {
            lemma_no_gaps(rest, n - chunks[0].len());
        }
    }
}

/// The lines of a file that is read piece by piece.
#[derive(Debug)]
pub struct Lines {
    reader: LineReader,
}

impl Lines {
    /// The bytes that were not read yet.
    pub closed spec fn bytes(&self) -> Seq<u8> {
        crate::line_reader::flat(self.reader.chunks())
    }

    /// How many bytes are held.
    pub closed spec fn held(&self) -> nat {
        self.reader.held()
    }

    /// Whether the reader is in order.
    pub closed spec fn wf(&self) -> bool {
        &&& self.reader.wf()
        &&& no_gaps(self.reader.chunks())
    }

    /// Nothing came yet.
    pub fn new() -> (r: Self)
        ensures
            r.wf(),
            r.bytes() == Seq::<u8>::empty(),
            r.held() == 0,
    {
        Lines { reader: LineReader::new() }
    }

    /// Bytes came.
    pub fn push(&mut self, bytes: Vec<u8>)
        requires
            old(self).wf(),
            old(self).held() + bytes@.len() <= usize::MAX,
        ensures
            final(self).wf(),
            final(self).bytes() == old(self).bytes() + bytes@,
            final(self).held() == old(self).held() + bytes@.len(),
    {
        let ghost chunks = self.reader.chunks();
        let ghost more = bytes@;
        if bytes.len() == 0 {
            assert(self.bytes() + more =~= self.bytes());
            return;
        }
        self.reader.push(bytes);
        proof {
            lemma_flat_push(chunks, more);
        }
    }

    /// Forgets everything.
    pub fn clear(&mut self)
        ensures
            final(self).wf(),
            final(self).bytes() == Seq::<u8>::empty(),
            final(self).held() == 0,
    {
        self.reader.clear();
    }

    /// Takes the next line.
    pub fn take(&mut self, drain: bool) -> (r: Option<Vec<u8>>)
        requires
            old(self).wf(),
        ensures
            final(self).wf(),
            final(self).held() <= old(self).held(),
            match r {
                Some(line) => {
                    &&& first_line(old(self).bytes(), drain) == Some(line@)
                    &&& final(self).bytes() == old(self).bytes().skip(line@.len() as int)
                },
                None => {
                    &&& first_line(old(self).bytes(), drain) is None
                    &&& final(self).bytes() == old(self).bytes()
                },
            },
    {
        let ghost chunks = self.reader.chunks();
        let ghost bytes = crate::line_reader::flat(chunks);
        proof {
            lemma_no_gaps(chunks, 0);
            lemma_first_line(bytes, drain);
        }
        match self.reader.line_with_drain(drain) {
            Some(line) => {
                let ghost n = line@.len() as int;
                let mut copy: Vec<u8> = Vec::new();
                crate::text::push_bytes(&mut copy, line);
                proof {
                    assert(copy@ =~= line@);
                    lemma_no_gaps(chunks, n);
                    crate::line_reader::lemma_advance_flat(chunks, n);
                }
                Some(copy)
            },
            None => None,
        }
    }
}

proof fn lemma_flat_push(chunks: Seq<Seq<u8>>, more: Seq<u8>)
    ensures
        crate::line_reader::flat(chunks.push(more)) == crate::line_reader::flat(chunks) + more,
    decreases chunks.len(),
{
    let all = chunks.push(more);
    if chunks.len() == 0 {
        reveal_with_fuel(crate::line_reader::flat, 2);
        assert(all.drop_first() =~= Seq::<Seq<u8>>::empty());
        assert(crate::line_reader::flat(all) =~= more);
        assert(crate::line_reader::flat(chunks) + more =~= more);
    } else {
        lemma_flat_push(chunks.drop_first(), more);
        assert(all.drop_first() =~= chunks.drop_first().push(more));
        assert(crate::line_reader::flat(all) =~= crate::line_reader::flat(chunks) + more);
    }
}

/// A timecode that stands for a time, with frames that were added to it.
#[derive(Clone, Copy, Debug, PartialEq, Eq, Structural)]
pub struct ValidTimeCode {
    pub timecode: TimeCode,
    pub drop_frame: bool,
    pub framerate: Framerate,
    pub frames: u64,
    /// The time since midnight in nanoseconds.
    pub nsecs: u64,
}

/// The timecode that counts: the one that came, if it stands for a time, or the one before.
pub open spec fn counted(
    timecode: TimeCode,
    drop_frame: bool,
    framerate: Framerate,
    nsecs: Option<u64>,
    last: Option<ValidTimeCode>,
) -> Option<ValidTimeCode> {
    match nsecs {
        Some(n) => Some(ValidTimeCode { timecode, drop_frame, framerate, frames: 0, nsecs: n }),
        None => last,
    }
}

/// The timecode that counts.
pub fn count_timecode(
    timecode: TimeCode,
    drop_frame: bool,
    framerate: Framerate,
    nsecs: Option<u64>,
    last: &Option<ValidTimeCode>,
) -> (r: Result<ValidTimeCode, FlowError>)
    ensures
        match r {
            Ok(tc) => counted(timecode, drop_frame, framerate, nsecs, *last) == Some(tc),
            Err(e) => e == FlowError::Error && counted(
                timecode,
                drop_frame,
                framerate,
                nsecs,
                *last,
            ) is None,
        },
{
    match nsecs {
        Some(n) => Ok(ValidTimeCode { timecode, drop_frame, framerate, frames: 0, nsecs: n }),
        None => match last {
            Some(tc) => Ok(*tc),
            None => Err(FlowError::Error),
        },
    }
}

/// The next position: positions do not go back.
pub open spec fn moved_on(last: Option<u64>, nsecs: u64) -> u64 {
    match last {
        Some(l) => if nsecs >= l {
            nsecs
        } else {
            l
        },
        None => nsecs,
    }
}

/// The next position.
pub fn move_on(last: Option<u64>, nsecs: u64) -> (r: u64)
    ensures
        r == moved_on(last, nsecs),
{
    match last {
        Some(l) => if nsecs >= l {
            nsecs
        } else {
            l
        },
        None => nsecs,
    }
}

/// Positions do not go back, and do not run ahead of the timecodes.
pub proof fn law_position_never_goes_back(last: Option<u64>, nsecs: u64)
    ensures
        last matches Some(l) ==> moved_on(last, nsecs) >= l,
        moved_on(last, nsecs) >= nsecs,
        moved_on(last, nsecs) == nsecs || Some(moved_on(last, nsecs)) == last,
        moved_on(Some(moved_on(last, nsecs)), nsecs) == moved_on(last, nsecs),
{
}

/// How long a frame lasts in nanoseconds, rounded up.
pub open spec fn frame_len(framerate: Framerate) -> int {
    crate::clock::scaled_ceil(
        crate::clock::SECOND as int,
        framerate.denom as int,
        framerate.numer as int,
    )
}

/// How long a frame lasts, where that fits.
pub fn frame_duration(framerate: Framerate) -> (r: Option<u64>)
    requires
        framerate.numer > 0,
    ensures
        r == crate::clock::fits(frame_len(framerate)),
{
    crate::clock::mul_div_ceil(
        crate::clock::SECOND,
        framerate.denom as u64,
        framerate.numer as u64,
    )
}

/// A frame does not last longer than the whole of its quotient.
pub proof fn lemma_frame_len(framerate: Framerate)
    requires
        framerate.numer > 0,
    ensures
        0 <= frame_len(framerate) <= crate::clock::SECOND * framerate.denom + framerate.numer,
{
    let a = crate::clock::SECOND * framerate.denom + framerate.numer - 1;
    let n = framerate.numer as int;
    assert(0 <= a / n <= a) by (nonlinear_arith)
        requires
            a >= 0,
            n > 0,
    ;
}

/// How captions go out.
#[derive(Clone, Copy, Debug, PartialEq, Eq, Structural)]
pub enum CapsKind {
    /// Packets of ancillary data.
    St2038,
    /// Caption distribution packets.
    Cdp,
    /// Triples of a field and a pair.
    S334_1a,
    /// Pairs of the first field.
    Raw,
}

/// What goes out beside captions.
#[derive(Clone, Copy, Debug, PartialEq, Eq, Structural)]
pub enum Event {
    FlushStop { seqnum: Option<u32> },
    StreamStart,
    Caps { kind: CapsKind, framerate: Framerate },
    Segment { seqnum: Option<u32> },
    /// An event that waited, by its number.
    Deferred(u64),
    Eos { seqnum: Option<u32> },
}

/// How far a file that can be read anywhere was read.
#[derive(Clone, Copy, Debug, PartialEq, Eq, Structural)]
pub struct PullState {
    pub need_stream_start: bool,
    pub offset: u64,
    pub duration: Option<u64>,
}

/// Events that waited.
pub open spec fn deferred(pending: Seq<u64>) -> Seq<Event> {
    pending.map_values(|n: u64| Event::Deferred(n))
}

/// Adds the events that waited.
pub fn push_deferred(events: &mut Vec<Event>, pending: &Vec<u64>)
    ensures
        final(events)@ == old(events)@ + deferred(pending@),
{
    let mut i: usize = 0;
    assert(events@ + deferred(pending@.take(0)) =~= events@);
    while i < pending.len()
        invariant
            i <= pending@.len(),
            events@ == old(events)@ + deferred(pending@.take(i as int)),
        decreases pending@.len() - i,
    {
        events.push(Event::Deferred(pending[i]));
        i += 1;
        assert(events@ =~= old(events)@ + deferred(pending@.take(i as int)));
    }
    assert(pending@.take(i as int) =~= pending@);
}

/// What the bounds of a seek are counted from.
#[derive(Clone, Copy, Debug, PartialEq, Eq, Structural)]
pub enum SeekType {
    /// The bound stays.
    Keep,
    /// The beginning.
    Absolute,
    /// The end.
    End,
}

/// A seek, of which the times are known to be times.
#[derive(Clone, Copy, Debug, PartialEq, Eq, Structural)]
pub struct Seek {
    pub flush: bool,
    pub start_type: SeekType,
    pub start: Option<u64>,
    pub stop_type: SeekType,
    pub stop: Option<u64>,
    pub seqnum: u32,
}

/// Whether a seek is possible: only one that flushes, and counts from the beginning.
pub open spec fn is_possible(seek: Seek) -> bool {
    seek.flush && seek.start_type != SeekType::End && seek.stop_type != SeekType::End
}

/// Whether a seek is possible.
pub fn check_seek(seek: &Seek) -> (r: bool)
    ensures
        r == is_possible(*seek),
{
    seek.flush && seek.start_type != SeekType::End && seek.stop_type != SeekType::End
}

/// A bound of a seek, which lies in the file as far as its duration is known.
pub open spec fn bound(seek_type: SeekType, time: Option<u64>, duration: Option<u64>) -> Option<
    u64,
> {
    match (time, duration) {
        (Some(t), Some(d)) => if seek_type == SeekType::Absolute && d < t {
            Some(d)
        } else {
            Some(t)
        },
        _ => time,
    }
}

/// A bound of a seek.
pub fn clip_bound(seek_type: SeekType, time: Option<u64>, duration: Option<u64>) -> (r: Option<u64>)
    ensures
        r == bound(seek_type, time, duration),
{
    match (time, duration) {
        (Some(t), Some(d)) => if seek_type == SeekType::Absolute && d < t {
            Some(d)
        } else {
            Some(t)
        },
        _ => time,
    }
}

/// Where a file is looked at for the last captions, from its end on.
#[derive(Clone, Copy, Debug, PartialEq, Eq, Structural)]
pub struct DurationScan {
    pub offset: u64,
}

impl DurationScan {
    /// The next block before those that were read: where it begins and how long it is.
    pub fn next_block(&mut self) -> (r: (u64, u32))
        ensures
            r.1 == if old(self).offset < BLOCK_SIZE {
                old(self).offset as u32
            } else {
                BLOCK_SIZE as u32
            },
            r.0 == old(self).offset - r.1,
            final(self).offset == r.0,
    {
        let size: u64 = if self.offset < BLOCK_SIZE {
            self.offset
        } else {
            BLOCK_SIZE
        };
        self.offset = self.offset - size;
        (self.offset, size as u32)
    }

    /// Whether nothing more is to be read: a timecode was found, or there is nothing more.
    pub fn is_done(&self, found: bool) -> (r: bool)
        ensures
            r == (found || self.offset == 0),
    {
        found || self.offset == 0
    }
}

/// The blocks of a file, joined. They were read from the end on.
pub open spec fn joined(blocks: Seq<Seq<u8>>) -> Seq<u8>
    decreases blocks.len(),
{
    if blocks.len() == 0 {
        Seq::empty()
    } else {
        blocks.last() + joined(blocks.drop_last())
    }
}

/// The blocks as bytes.
pub open spec fn block_views(blocks: Seq<Vec<u8>>) -> Seq<Seq<u8>> {
    blocks.map_values(|b: Vec<u8>| b@)
}

/// Joins blocks that were read from the end on.
pub fn join_blocks(blocks: &Vec<Vec<u8>>) -> (r: Vec<u8>)
    ensures
        r@ == joined(block_views(blocks@)),
{
    let ghost views = block_views(blocks@);
    let mut bytes: Vec<u8> = Vec::new();
    let mut i: usize = blocks.len();
    assert(views.take(i as int) =~= views);
    assert(bytes@ + joined(views.take(i as int)) =~= joined(views));
    while i > 0
        invariant
            i <= blocks@.len(),
            views == block_views(blocks@),
            bytes@ + joined(views.take(i as int)) == joined(views),
        decreases i,
    {
        let ghost before = bytes@;
        i -= 1;
        crate::text::push_bytes(&mut bytes, blocks[i].as_slice());
        proof {
            let some = views.take(i + 1);
            assert(some.last() == blocks@[i as int]@);
            assert(some.drop_last() =~= views.take(i as int));
            assert(bytes@ + joined(views.take(i as int)) =~= before + joined(some));
        }
    }
    assert(bytes@ + joined(views.take(0)) =~= bytes@);
    bytes
}

} // verus!
