//! Turns timed text into fragments of WebVTT.
use crate::clock::{push_time, split_time, FlowError, Segment};
use crate::ttutils::Lines;
use fku::{find_top, ForceKeyUnitRequest};
use vstd::prelude::*;

pub mod fku;
pub mod laws;

verus! {

/// The end of what begins and lasts so, as far as it is known.
pub open spec fn end_of(pts: u64, duration: Option<u64>) -> int {
    match duration {
        Some(d) => pts + d,
        None => pts as int,
    }
}

/// The part of a time that lies in a segment.
pub open spec fn clamped(segment: Segment, pts: u64, duration: Option<u64>) -> Option<
    (u64, Option<u64>),
> {
    let end = end_of(pts, duration);
    let from = match segment.start {
        Some(start) => if pts < start {
            start
        } else {
            pts
        },
        None => pts,
    };
    let to = match segment.stop {
        Some(stop) => if end > stop {
            stop as int
        } else {
            end
        },
        None => end,
    };
    if segment.start is Some && end < segment.start->0 {
        None
    } else if segment.stop is Some && from > segment.stop->0 {
        None
    } else {
        Some(
            (
                from,
                match duration {
                    Some(_) => Some((to - from) as u64),
                    None => None,
                },
            ),
        )
    }
}

/// The part of a time that lies in a segment, if there is one.
pub fn clamp(segment: &Segment, pts: u64, duration: Option<u64>) -> (r: Option<(u64, Option<u64>)>)
    requires
        end_of(pts, duration) <= u64::MAX,
    ensures
        r == clamped(*segment, pts, duration),
{
    let end_pts: u64 = match duration {
        Some(d) => pts + d,
        None => pts,
    };
    let mut pts: u64 = pts;
    let mut duration: Option<u64> = duration;
    if let Some(start) = segment.start {
        if end_pts < start {
            return None;
        }
        if pts < start {
            duration = match duration {
                Some(d) => Some(d - (start - pts)),
                None => None,
            };
            pts = start;
        }
    }
    if let Some(stop) = segment.stop {
        if pts > stop {
            return None;
        }
        if end_pts > stop {
            duration = match duration {
                Some(d) => Some(d - (end_pts - stop)),
                None => None,
            };
        }
    }
    Some((pts, duration))
}

/// What is left of a time lies in the segment, and in that time. Nothing changes where the time
/// lies in the segment.
pub proof fn law_clamp_stays_inside(segment: Segment, pts: u64, duration: Option<u64>)
    requires
        end_of(pts, duration) <= u64::MAX,
    ensures
        clamped(segment, pts, duration) matches Some((p, d)) ==> {
            &&& pts <= p
            &&& end_of(p, d) <= end_of(pts, duration)
            &&& segment.start matches Some(start) ==> start <= p
            &&& segment.stop matches Some(stop) ==> end_of(p, d) <= stop
        },
        (segment.start is None || segment.start->0 <= pts) && (segment.stop is None || end_of(
            pts,
            duration,
        ) <= segment.stop->0) ==> clamped(segment, pts, duration) == Some((pts, duration)),
{
}

/// Lines with their times.
#[derive(Debug)]
pub struct TimestampedLines {
    pub lines: Lines,
    pub pts: u64,
    pub duration: u64,
    pub line_running_time: Option<u64>,
}

/// Lines with their times.
#[verifier::ext_equal]
pub struct CueView {
    pub lines: crate::ttutils::LinesView,
    pub pts: u64,
    pub duration: u64,
    pub line_running_time: Option<u64>,
}

impl View for TimestampedLines {
    type V = CueView;

    open spec fn view(&self) -> CueView {
        CueView {
            lines: self.lines@,
            pts: self.pts,
            duration: self.duration,
            line_running_time: self.line_running_time,
        }
    }
}

/// All cues.
pub open spec fn cue_views(cues: Seq<TimestampedLines>) -> Seq<CueView> {
    cues.map_values(|c: TimestampedLines| c@)
}

/// Data that goes out. What is not a header builds on one.
#[derive(Debug)]
pub struct VttBuffer {
    pub pts: u64,
    pub duration: Option<u64>,
    pub is_header: bool,
    pub data: String,
}

/// Data that goes out.
#[verifier::ext_equal]
pub struct VttBufferView {
    pub pts: u64,
    pub duration: Option<u64>,
    pub is_header: bool,
    pub data: Seq<char>,
}

impl View for VttBuffer {
    type V = VttBufferView;

    open spec fn view(&self) -> VttBufferView {
        VttBufferView {
            pts: self.pts,
            duration: self.duration,
            is_header: self.is_header,
            data: self.data@,
        }
    }
}

/// All buffers.
pub open spec fn buffer_views(buffers: Seq<VttBuffer>) -> Seq<VttBufferView> {
    buffers.map_values(|b: VttBuffer| b@)
}

/// A buffer that may be there.
pub open spec fn buffer_view(buffer: Option<VttBuffer>) -> Option<VttBufferView> {
    match buffer {
        Some(b) => Some(b@),
        None => None,
    }
}

/// The header of a fragment.
pub open spec fn header_at(timestamp: u64) -> VttBufferView {
    VttBufferView { pts: timestamp, duration: None, is_header: true, data: "WEBVTT\n\n"@ }
}

/// A cue as text.
pub open spec fn cue_text(timestamp: int, duration: int, text: Seq<char>) -> Seq<char> {
    (crate::clock::time_text(timestamp, '.') + " --> "@ + crate::clock::time_text(
        timestamp + duration,
        '.',
    ).push('\n') + text).push('\n')
}

/// A cue that goes out. One that does not last a millisecond is left out.
pub open spec fn cue_at(timestamp: u64, duration: u64, text: Seq<char>) -> Option<VttBufferView> {
    if crate::clock::millis(timestamp as int) == crate::clock::millis(timestamp + duration) {
        None
    } else {
        Some(
            VttBufferView {
                pts: timestamp,
                duration: Some(duration),
                is_header: false,
                data: cue_text(timestamp as int, duration as int, text),
            },
        )
    }
}

fn create_vtt_header(timestamp: u64) -> (r: VttBuffer)
    ensures
        r@ == header_at(timestamp),
{
    let mut data: String = String::new();
    data.push_str("WEBVTT\n\n");
    assert(data@ =~= "WEBVTT\n\n"@);
    VttBuffer { pts: timestamp, duration: None, is_header: true, data }
}

fn create_vtt_buffer(timestamp: u64, duration: u64, text: &str) -> (r: Option<VttBuffer>)
    requires
        timestamp + duration <= u64::MAX,
    ensures
        buffer_view(r) == cue_at(timestamp, duration, text@),
{
    let (h1, m1, s1, ms1) = split_time(timestamp);
    let (h2, m2, s2, ms2) = split_time(timestamp + duration);
    proof {
        crate::clock::lemma_time_parts(timestamp as int, timestamp + duration);
    }
    if h1 == h2 && m1 == m2 && s1 == s2 && ms1 == ms2 {
        return None;
    }
    let mut data: String = String::new();
    push_time(&mut data, timestamp, '.');
    data.push_str(" --> ");
    push_time(&mut data, timestamp + duration, '.');
    data.push('\n');
    data.push_str(text);
    data.push('\n');
    assert(data@ =~= cue_text(timestamp as int, duration as int, text@));
    Some(VttBuffer { pts: timestamp, duration: Some(duration), is_header: false, data })
}

/// The text of the first `n` pieces of a line.
pub open spec fn chunks_text(chunks: Seq<crate::ttutils::ChunkView>, n: int) -> Seq<char>
    decreases n,
{
    if n <= 0 {
        Seq::empty()
    } else {
        chunks_text(chunks, n - 1) + chunks[n - 1].text
    }
}

/// The text of the first `n` lines.
pub open spec fn lines_text(lines: Seq<crate::ttutils::LineView>, n: int) -> Seq<char>
    decreases n,
{
    if n <= 0 {
        Seq::empty()
    } else {
        let line = lines[n - 1];
        lines_text(lines, n - 1) + chunks_text(line.chunks, line.chunks.len() as int).push('\n')
    }
}

fn text_of(lines: &Lines) -> (r: String)
    ensures
        r@ == lines_text(lines@.lines, lines@.lines.len() as int),
{
    let mut text: String = String::new();
    let ghost all = lines@.lines;
    let mut i: usize = 0;
    assert(text@ =~= lines_text(all, 0));
    while i < lines.lines.len()
        invariant
            i <= lines.lines@.len(),
            all == lines@.lines,
            all.len() == lines.lines@.len(),
            text@ == lines_text(all, i as int),
        decreases lines.lines@.len() - i,
    {
        let line = &lines.lines[i];
        let ghost before = text@;
        let ghost chunks = crate::ttutils::chunk_views(line.chunks@);
        assert(all[i as int].chunks == chunks);
        let mut j: usize = 0;
        assert(text@ =~= before + chunks_text(chunks, 0));
        while j < line.chunks.len()
            invariant
                j <= line.chunks@.len(),
                chunks == crate::ttutils::chunk_views(line.chunks@),
                text@ == before + chunks_text(chunks, j as int),
            decreases line.chunks@.len() - j,
        {
            text.push_str(line.chunks[j].text.as_str());
            j += 1;
            assert(chunks[j - 1] == line.chunks@[j - 1]@);
            assert(text@ =~= before + chunks_text(chunks, j as int));
        }
        text.push('\n');
        i += 1;
        assert(text@ =~= lines_text(all, i as int));
    }
    text
}

/// What a cue becomes: nothing where it has no text, or does not last.
pub open spec fn cue_buffers(cue: CueView, duration: u64) -> Seq<VttBufferView> {
    let text = lines_text(cue.lines.lines, cue.lines.lines.len() as int);
    match cue_at(cue.pts, duration, text) {
        Some(b) => if text.len() > 0 {
            seq![b]
        } else {
            Seq::empty()
        },
        None => Seq::empty(),
    }
}

/// What the first `n` cues become, if `count` cues make a fragment that ends at `end`: each one
/// lasts until the next one begins, and the last one until the end.
pub open spec fn fragment(cues: Seq<CueView>, count: int, end: int, n: int) -> Seq<VttBufferView>
    decreases n,
{
    if n <= 0 {
        Seq::empty()
    } else {
        fragment(cues, count, end, n - 1) + cue_buffers(
            cues[n - 1],
            if n == count {
                (end - cues[n - 1].pts) as u64
            } else {
                (cues[n].pts - cues[n - 1].pts) as u64
            },
        )
    }
}

/// Whether a cue begins no later than the limit.
pub open spec fn is_due(time: Option<u64>, limit: Option<u64>) -> bool {
    match (time, limit) {
        (Some(t), Some(l)) => t <= l,
        _ => true,
    }
}

/// How many cues come before the first one that is not due.
pub open spec fn due_count(times: Seq<Option<u64>>, limit: Option<u64>) -> int
    decreases times.len(),
{
    if times.len() == 0 || !is_due(times[0], limit) {
        0
    } else {
        1 + due_count(times.drop_first(), limit)
    }
}

/// Where the times that a fragment is made of lie.
#[derive(Clone, Copy, Debug, PartialEq, Eq, Structural)]
pub struct FragmentEnd {
    /// The running time up to which everything is known, none where nothing comes any more.
    pub running_time: Option<u64>,
    /// The position in the segment that the request asks for, if it lies there.
    pub position: Option<u64>,
}

/// What is known of the text.
pub struct JsonToVtt {
    pub pending: Vec<TimestampedLines>,
    pub need_initial_header: bool,
    pub last_pts: Option<u64>,
    pub keyunit_requests: Vec<ForceKeyUnitRequest>,
    pub segment: Segment,
    /// How long text is shown at most.
    pub timeout: Option<u64>,
}

/// What is known of the text.
#[verifier::ext_equal]
pub struct VttView {
    pub pending: Seq<CueView>,
    pub need_initial_header: bool,
    pub last_pts: Option<u64>,
    pub requests: Seq<ForceKeyUnitRequest>,
    pub segment: Segment,
    pub timeout: Option<u64>,
}

impl VttView {
    /// The request that comes first, where it is due.
    pub open spec fn next_request(&self, running_time: Option<u64>) -> Option<
        ForceKeyUnitRequest,
    > {
        if self.requests.len() == 0 {
            None
        } else {
            let first = self.requests[fku::top(self.requests)];
            if running_time is None || first.running_time <= running_time->0 {
                Some(first)
            } else {
                None
            }
        }
    }

    /// How many cues go into a fragment.
    pub open spec fn count(&self, at: FragmentEnd, times: Seq<Option<u64>>) -> int {
        due_count(
            times,
            if at.running_time is None {
                None
            } else {
                Some(self.next_request(at.running_time)->0.running_time)
            },
        )
    }

    /// Where a fragment ends: at the position that is asked for, or with the segment. Where
    /// nothing comes any more, with the text.
    pub open spec fn end(&self, at: FragmentEnd) -> Option<u64> {
        if at.running_time is None {
            self.last_pts
        } else if at.position is Some {
            at.position
        } else {
            self.segment.stop
        }
    }

    /// Whether a cue was shown for too long to be shown in the next fragment.
    pub open spec fn is_timed_out(&self, cue: CueView, running_time: u64) -> bool {
        match (self.timeout, cue.line_running_time) {
            (Some(t), Some(l)) => running_time >= l + t,
            _ => false,
        }
    }

    /// Whether a cue goes on in the next fragment.
    pub open spec fn goes_on(&self, cue: CueView, at: FragmentEnd) -> bool {
        cue.line_running_time is Some && at.running_time is Some && !self.is_timed_out(
            cue,
            at.running_time->0,
        )
    }

    /// Whether the cues of a fragment are in order, it has an end, and no cue begins after that.
    pub open spec fn can_drain(&self, at: FragmentEnd, times: Seq<Option<u64>>) -> bool {
        let count = self.count(at, times);
        let last = self.pending[count - 1];
        &&& forall|i: int, j: int|
            0 <= i < count && j == i + 1 && j < self.pending.len() ==> (
            #[trigger] self.pending[i]).pts <= (#[trigger] self.pending[j]).pts
        &&& count > 0 ==> {
            &&& self.end(at) matches Some(end) && last.pts <= end
            &&& at.running_time is Some && last.line_running_time is Some && self.timeout is Some
                ==> last.line_running_time->0 + self.timeout->0 < u64::MAX
        }
    }

    /// The last cue of a fragment, as it goes on in the next one.
    pub open spec fn carried(&self, at: FragmentEnd, count: int) -> CueView {
        let last = self.pending[count - 1];
        CueView {
            pts: self.end(at)->0,
            duration: if count < self.pending.len() {
                (self.pending[count].pts - last.pts) as u64
            } else {
                last.duration
            },
            ..last
        }
    }

    /// A fragment goes out. The last text goes on in the next one.
    pub open spec fn drain(&self, at: FragmentEnd, times: Seq<Option<u64>>) -> (
        VttView,
        Seq<VttBufferView>,
    ) {
        let count = self.count(at, times);
        let end = self.end(at);
        let last = self.pending[count - 1];
        let rest = self.pending.skip(count);
        let pending = if count > 0 && self.goes_on(last, at) {
            seq![self.carried(at, count)] + rest
        } else {
            rest
        };
        let cues = fragment(self.pending, count, end->0 as int, count);
        (
            VttView {
                pending,
                requests: self.requests.remove(fku::top(self.requests)),
                ..*self
            },
            match at.position {
                Some(p) => cues.push(header_at(p)),
                None => cues,
            },
        )
    }

    /// The header that comes first, where it did not come yet.
    pub open spec fn initial_header(&self, pts: u64) -> (VttView, Option<VttBufferView>) {
        if self.need_initial_header {
            (VttView { need_initial_header: false, ..*self }, Some(header_at(pts)))
        } else {
            (*self, None)
        }
    }
}

impl View for JsonToVtt {
    type V = VttView;

    open spec fn view(&self) -> VttView {
        VttView {
            pending: cue_views(self.pending@),
            need_initial_header: self.need_initial_header,
            last_pts: self.last_pts,
            requests: self.keyunit_requests@,
            segment: self.segment,
            timeout: self.timeout,
        }
    }
}

/// A time in the segment, with the header that comes first.
#[derive(Debug)]
pub struct Accepted {
    pub pts: u64,
    pub duration: Option<u64>,
    pub header: Option<VttBuffer>,
}

proof fn lemma_due_count(times: Seq<Option<u64>>, limit: Option<u64>, n: int)
    requires
        0 <= n <= times.len(),
        forall|i: int| 0 <= i < n ==> is_due(#[trigger] times[i], limit),
        n < times.len() ==> !is_due(times[n], limit),
    ensures
        due_count(times, limit) == n,
    decreases times.len(),
{
    if n > 0 {
        assert(is_due(times[0], limit));
        let rest = times.drop_first();
        assert forall|i: int| 0 <= i < n - 1 implies is_due(#[trigger] rest[i], limit) by {
            assert(rest[i] == times[i + 1]);
        }
        lemma_due_count(rest, limit, n - 1);
    }
}

fn count_due(times: &Vec<Option<u64>>, limit: Option<u64>) -> (r: usize)
    ensures
        r == due_count(times@, limit),
        r <= times@.len(),
{
    let mut n: usize = 0;
    while n < times.len()
        invariant
            n <= times@.len(),
            forall|i: int| 0 <= i < n ==> is_due(#[trigger] times@[i], limit),
        decreases times@.len() - n,
    {
        let due: bool = match (times[n], limit) {
            (Some(t), Some(l)) => t <= l,
            _ => true,
        };
        if !due {
            proof {
                lemma_due_count(times@, limit, n as int);
            }
            return n;
        }
        n += 1;
    }
    proof {
        lemma_due_count(times@, limit, n as int);
    }
    n
}

impl JsonToVtt {
    /// Nothing is known yet.
    pub fn new(timeout: Option<u64>) -> (r: Self)
        ensures
            r@ == (VttView {
                pending: Seq::empty(),
                need_initial_header: true,
                last_pts: None,
                requests: Seq::empty(),
                segment: Segment { start: Some(0), stop: None },
                timeout,
            }),
    {
        let r = JsonToVtt {
            pending: Vec::new(),
            need_initial_header: true,
            last_pts: None,
            keyunit_requests: Vec::new(),
            segment: Segment { start: Some(0), stop: None },
            timeout,
        };
        assert(r@.pending =~= Seq::<CueView>::empty());
        assert(r@.requests =~= Seq::<ForceKeyUnitRequest>::empty());
        r
    }

    fn check_initial_header(&mut self, pts: u64) -> (r: Option<VttBuffer>)
        ensures
            (final(self)@, buffer_view(r)) == old(self)@.initial_header(pts),
    {
        if self.need_initial_header {
            self.need_initial_header = false;
            Some(create_vtt_header(pts))
        } else {
            None
        }
    }

    /// A request came.
    pub fn handle_fku(&mut self, fku: ForceKeyUnitRequest)
        ensures
            final(self)@ == (VttView {
                requests: old(self)@.requests.push(fku),
                ..old(self)@
            }),
    {
        self.keyunit_requests.push(fku);
    }

    /// The request to be answered next, if one is due.
    pub fn next_request(&self, running_time: Option<u64>) -> (r: Option<ForceKeyUnitRequest>)
        ensures
            r == self@.next_request(running_time),
    {
        if self.keyunit_requests.len() == 0 {
            return None;
        }
        let first: ForceKeyUnitRequest = self.keyunit_requests[find_top(&self.keyunit_requests)];
        match running_time {
            Some(t) => if first.running_time <= t {
                Some(first)
            } else {
                None
            },
            None => Some(first),
        }
    }

    /// When the cues that wait begin.
    pub fn pending_pts(&self) -> (r: Vec<u64>)
        ensures
            r@ == self@.pending.map_values(|c: CueView| c.pts),
    {
        let mut times: Vec<u64> = Vec::new();
        let mut i: usize = 0;
        while i < self.pending.len()
            invariant
                i <= self.pending@.len(),
                times@ == self@.pending.take(i as int).map_values(|c: CueView| c.pts),
            decreases self.pending@.len() - i,
        {
            times.push(self.pending[i].pts);
            i += 1;
            assert(times@ =~= self@.pending.take(i as int).map_values(|c: CueView| c.pts));
        }
        assert(self@.pending.take(i as int) =~= self@.pending);
        times
    }

    fn end(&self, at: FragmentEnd) -> (r: Option<u64>)
        ensures
            r == self@.end(at),
    {
        if at.running_time.is_none() {
            self.last_pts
        } else if at.position.is_some() {
            at.position
        } else {
            self.segment.stop
        }
    }

    fn can_drain(&self, at: FragmentEnd, count: usize, times: &Vec<Option<u64>>) -> (r: bool)
        requires
            count == self@.count(at, times@),
            count <= self.pending@.len(),
        ensures
            r == self@.can_drain(at, times@),
    {
        let ghost cues = self@.pending;
        let mut i: usize = 1;
        while i <= count && i < self.pending.len()
            invariant
                1 <= i,
                i <= count + 1,
                count <= self.pending@.len(),
                cues == self@.pending,
                count == self@.count(at, times@),
                forall|j: int, k: int|
                    0 <= j < i - 1 && k == j + 1 && k < cues.len() ==> (#[trigger] cues[j]).pts
                        <= (#[trigger] cues[k]).pts,
            decreases self.pending@.len() - i,
        {
            assert(cues[i - 1].pts == self.pending@[i - 1].pts);
            assert(cues[i as int].pts == self.pending@[i as int].pts);
            if self.pending[i - 1].pts > self.pending[i].pts {
                return false;
            }
            i += 1;
        }
        if count == 0 {
            return true;
        }
        let last = &self.pending[count - 1];
        assert(last@ == cues[count - 1]);
        let ends: bool = match self.end(at) {
            Some(end) => last.pts <= end,
            None => false,
        };
        if !ends {
            return false;
        }
        match (at.running_time, last.line_running_time, self.timeout) {
            (Some(_), Some(l), Some(t)) => match l.checked_add(t) {
                Some(sum) => sum < u64::MAX,
                None => false,
            },
            _ => true,
        }
    }

    fn goes_on(&self, cue: &TimestampedLines, at: FragmentEnd) -> (r: bool)
        requires
            at.running_time is Some && cue.line_running_time is Some && self.timeout is Some
                ==> cue.line_running_time->0 + self.timeout->0 < u64::MAX,
        ensures
            r == self@.goes_on(cue@, at),
    {
        match (cue.line_running_time, at.running_time) {
            (Some(line), Some(now)) => match self.timeout {
                Some(timeout) => now < line + timeout,
                None => true,
            },
            _ => false,
        }
    }

    /// Takes a cue, which becomes what lasts that long.
    fn push_cue(cue: &TimestampedLines, duration: u64, buffers: &mut Vec<VttBuffer>)
        requires
            cue.pts + duration <= u64::MAX,
        ensures
            buffer_views(final(buffers)@) == buffer_views(old(buffers)@) + cue_buffers(
                cue@,
                duration,
            ),
    {
        let text: String = text_of(&cue.lines);
        if text.as_str().unicode_len() > 0 {
            if let Some(buffer) = create_vtt_buffer(cue.pts, duration, text.as_str()) {
                buffers.push(buffer);
            }
        }
        assert(buffer_views(buffers@) =~= buffer_views(old(buffers)@) + cue_buffers(
            cue@,
            duration,
        ));
    }

    /// Takes the cues of a fragment. The last one is given back where it goes on.
    fn take_cues(&mut self, at: FragmentEnd, count: usize, times: &Vec<Option<u64>>) -> (r: (
        Vec<VttBuffer>,
        Option<TimestampedLines>,
    ))
        requires
            old(self)@.can_drain(at, times@),
            count == old(self)@.count(at, times@),
            count <= old(self)@.pending.len(),
        ensures
            final(self)@ == (VttView {
                pending: old(self)@.pending.skip(count as int),
                ..old(self)@
            }),
            buffer_views(r.0@) == fragment(
                old(self)@.pending,
                count as int,
                old(self)@.end(at)->0 as int,
                count as int,
            ),
            match r.1 {
                Some(c) => count > 0 && old(self)@.goes_on(old(self)@.pending[count - 1], at) && c@
                    == old(self)@.carried(at, count as int),
                None => count == 0 || !old(self)@.goes_on(old(self)@.pending[count - 1], at),
            },
    {
        let ghost was = self@;
        let end: Option<u64> = self.end(at);
        let mut buffers: Vec<VttBuffer> = Vec::new();
        let mut kept: Option<TimestampedLines> = None;
        let mut i: usize = 0;
        assert(buffer_views(buffers@) =~= fragment(was.pending, count as int, end->0 as int, 0));
        assert(self@.pending =~= was.pending.skip(0));
        while i < count
            invariant
                i <= count,
                count <= was.pending.len(),
                was.can_drain(at, times@),
                count == was.count(at, times@),
                end == was.end(at),
                count > 0 ==> end is Some,
                self@ == (VttView { pending: was.pending.skip(i as int), ..was }),
                buffer_views(buffers@) == fragment(
                    was.pending,
                    count as int,
                    end->0 as int,
                    i as int,
                ),
                match kept {
                    Some(c) => i == count && count > 0 && was.goes_on(
                        was.pending[count - 1],
                        at,
                    ) && c@ == was.carried(at, count as int),
                    None => i < count || count == 0 || !was.goes_on(was.pending[count - 1], at),
                },
            decreases count - i,
        {
            let ghost cues = self.pending@;
            assert(cue_views(cues) == was.pending.skip(i as int));
            assert(cues.len() == was.pending.len() - i);
            assert(cue_views(cues)[0] == was.pending[i as int]);
            let mut cue: TimestampedLines = self.pending.remove(0);
            assert(self@.pending =~= cue_views(cues).skip(1));
            assert(self@.pending =~= was.pending.skip(i + 1));
            if self.pending.len() > 0 {
                assert(self@.pending[0] == was.pending[i + 1]);
                assert(was.pending[i as int].pts <= was.pending[i + 1].pts);
                cue.duration = self.pending[0].pts - cue.pts;
            }
            if i + 1 == count {
                if let Some(end) = end {
                    JsonToVtt::push_cue(&cue, end - cue.pts, &mut buffers);
                    if self.goes_on(&cue, at) {
                        cue.pts = end;
                        kept = Some(cue);
                    }
                }
            } else {
                let duration: u64 = cue.duration;
                JsonToVtt::push_cue(&cue, duration, &mut buffers);
            }
            i += 1;
        }
        (buffers, kept)
    }

    /// Answers the request that comes first with a fragment, where one is due. The running times
    /// at which the cues that wait begin are given. There is no result where cues are not in
    /// order, or it cannot be said where the fragment ends.
    pub fn drain(&mut self, at: FragmentEnd, times: &Vec<Option<u64>>) -> (r: Option<Vec<VttBuffer>>)
        requires
            old(self)@.next_request(at.running_time) is Some,
            times@.len() == old(self)@.pending.len(),
        ensures
            match r {
                Some(buffers) => {
                    &&& old(self)@.can_drain(at, times@)
                    &&& (final(self)@, buffer_views(buffers@)) == old(self)@.drain(at, times@)
                },
                None => !old(self)@.can_drain(at, times@) && final(self)@ == old(self)@,
            },
    {
        let ghost was = self@;
        let first: usize = find_top(&self.keyunit_requests);
        let limit: Option<u64> = if at.running_time.is_none() {
            None
        } else {
            Some(self.keyunit_requests[first].running_time)
        };
        let count: usize = count_due(times, limit);
        if !self.can_drain(at, count, times) {
            return None;
        }
        let (mut buffers, kept) = self.take_cues(at, count, times);
        if let Some(cue) = kept {
            let ghost rest = self.pending@;
            self.pending.insert(0, cue);
            assert(self@.pending =~= seq![cue@] + cue_views(rest));
        }
        if let Some(pts) = at.position {
            let ghost before = buffers@;
            buffers.push(create_vtt_header(pts));
            assert(buffer_views(buffers@) =~= buffer_views(before).push(header_at(pts)));
        }
        let _ = self.keyunit_requests.remove(first);
        assert(self@ =~= was.drain(at, times@).0);
        Some(buffers)
    }

    /// Text came: it has to be timed. What lies in the segment is taken, with the header that
    /// comes first. Nothing else changes yet.
    pub fn handle_buffer(&mut self, pts: Option<u64>, duration: Option<u64>) -> (r: Result<
        Option<Accepted>,
        FlowError,
    >)
        requires
            pts is Some && duration is Some ==> end_of(pts->0, duration) <= u64::MAX,
        ensures
            match r {
                Err(e) => e == FlowError::Error && (pts is None || duration is None) && final(self)@ == old(self)@,
                Ok(None) => pts is Some && duration is Some && clamped(
                    old(self)@.segment,
                    pts->0,
                    duration,
                ) is None && final(self)@ == old(self)@,
                Ok(Some(a)) => {
                    &&& pts is Some && duration is Some
                    &&& clamped(old(self)@.segment, pts->0, duration) == Some((a.pts, a.duration))
                    &&& a.duration is Some
                    &&& (final(self)@, buffer_view(a.header)) == old(self)@.initial_header(a.pts)
                },
            },
    {
        let pts: u64 = match pts {
            Some(p) => p,
            None => return Err(FlowError::Error),
        };
        if duration.is_none() {
            return Err(FlowError::Error);
        }
        Ok(self.handle_gap(pts, duration))
    }

    /// Nothing comes for the given time. What lies in the segment is taken, with the header that
    /// comes first.
    pub fn handle_gap(&mut self, pts: u64, duration: Option<u64>) -> (r: Option<Accepted>)
        requires
            end_of(pts, duration) <= u64::MAX,
        ensures
            match r {
                None => clamped(old(self)@.segment, pts, duration) is None && final(self)@ == old(self)@,
                Some(a) => {
                    &&& clamped(old(self)@.segment, pts, duration) == Some((a.pts, a.duration))
                    &&& (final(self)@, buffer_view(a.header)) == old(self)@.initial_header(a.pts)
                },
            },
    {
        match clamp(&self.segment, pts, duration) {
            Some((pts, duration)) => {
                let header: Option<VttBuffer> = self.check_initial_header(pts);
                Some(Accepted { pts, duration, header })
            },
            None => None,
        }
    }

    /// The text of a buffer waits for a request.
    pub fn queue(
        &mut self,
        lines: Lines,
        pts: u64,
        duration: u64,
        line_running_time: Option<u64>,
    )
        ensures
            final(self)@ == (VttView {
                pending: old(self)@.pending.push(
                    CueView { lines: lines@, pts, duration, line_running_time },
                ),
                ..old(self)@
            }),
    {
        self.pending.push(TimestampedLines { lines, pts, duration, line_running_time });
        assert(self@.pending =~= old(self)@.pending.push(
            CueView { lines: lines@, pts, duration, line_running_time },
        ));
    }

    /// A buffer or a gap is done with, and all that is due went out.
    pub fn finish(&mut self, pts: u64, duration: Option<u64>)
        requires
            end_of(pts, duration) <= u64::MAX,
        ensures
            final(self)@ == (VttView {
                last_pts: Some(end_of(pts, duration) as u64),
                ..old(self)@
            }),
    {
        self.last_pts = Some(
            match duration {
                Some(d) => pts + d,
                None => pts,
            },
        );
    }
}

/// A fragment holds one cue at most for each text, and only in the order in which they came:
/// what comes of the first texts does not change with those that follow.
pub proof fn law_fragment_keeps_order(cues: Seq<CueView>, count: int, end: int, n: int, m: int)
    requires
        0 <= n <= m <= count <= cues.len(),
    ensures
        fragment(cues, count, end, n).is_prefix_of(fragment(cues, count, end, m)),
        fragment(cues, count, end, m).len() <= fragment(cues, count, end, n).len() + m - n,
    decreases m,
{
    if n < m {
        law_fragment_keeps_order(cues, count, end, n, m - 1);
    }
}

/// Cues stay in the order in which they came, and the one that goes on begins where the fragment
/// ended.
pub proof fn law_cue_goes_on(view: VttView, at: FragmentEnd, times: Seq<Option<u64>>)
    requires
        times.len() == view.pending.len(),
        view.next_request(at.running_time) is Some,
        view.can_drain(at, times),
    ensures
        ({
            let (after, _) = view.drain(at, times);
            let count = view.count(at, times);
            &&& 0 <= count <= view.pending.len()
            &&& after.pending.len() <= view.pending.len()
            &&& after.pending.skip(after.pending.len() - (view.pending.len() - count))
                == view.pending.skip(count)
            &&& after.pending.len() > view.pending.len() - count ==> {
                &&& after.pending[0].lines == view.pending[count - 1].lines
                &&& after.pending[0].line_running_time == view.pending[count - 1].line_running_time
                &&& Some(after.pending[0].pts) == view.end(at)
            }
        }),
{
    lemma_count(
        times,
        if at.running_time is None {
            None
        } else {
            Some(view.next_request(at.running_time)->0.running_time)
        },
    );
    let (after, _) = view.drain(at, times);
    let count = view.count(at, times);
    assert(after.pending.skip(after.pending.len() - (view.pending.len() - count))
        =~= view.pending.skip(count));
}

proof fn lemma_count(times: Seq<Option<u64>>, limit: Option<u64>)
    ensures
        0 <= due_count(times, limit) <= times.len(),
    decreases times.len(),
{
    if times.len() > 0 && is_due(times[0], limit) {
        lemma_count(times.drop_first(), limit);
    }
}

} // verus!
