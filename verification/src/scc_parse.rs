//! Reading of Scenarist (SCC) files.
use crate::caption_file::{
    check_seek, clip_bound, count_timecode, frame_duration, join_blocks, move_on, push_deferred,
    CapsKind, Event, Lines, PullState, Seek, ValidTimeCode, BLOCK_SIZE,
};
use crate::clock::{FlowError, Framerate, Segment};
use crate::parser_utils::TimeCode;
use parser::{SccLine, SccParser};
use vstd::prelude::*;

pub mod parser;

verus! {

/// The latest time that a timecode stands for.
pub const MAX_TIME: u64 = 0x7fff_ffff_ffff_ffff;

/// The framerate: 30 frames in a second, or a little less where frames are dropped.
pub open spec fn framerate_of(drop_frame: bool) -> Framerate {
    if drop_frame {
        Framerate { numer: 30000, denom: 1001 }
    } else {
        Framerate { numer: 30, denom: 1 }
    }
}

/// The framerate.
pub fn framerate_for(tc: &TimeCode) -> (r: Framerate)
    ensures
        r == framerate_of(tc.drop_frame),
{
    if tc.drop_frame {
        Framerate { numer: 30000, denom: 1001 }
    } else {
        Framerate { numer: 30, denom: 1 }
    }
}

/// Whether a timecode is one of those that are dropped: the first two of every minute, except
/// for every tenth one.
pub open spec fn is_dropped(tc: TimeCode) -> bool {
    tc.drop_frame && tc.seconds == 0 && tc.minutes % 10 != 0 && tc.frames <= 1
}

/// The timecode that is meant: files may hold timecodes that are dropped.
pub open spec fn corrected(tc: TimeCode) -> TimeCode {
    if is_dropped(tc) {
        TimeCode { frames: 2, ..tc }
    } else {
        tc
    }
}

/// The timecode that is meant.
pub fn correct_timecode(tc: TimeCode) -> (r: TimeCode)
    ensures
        r == corrected(tc),
{
    if tc.drop_frame && tc.seconds == 0 && tc.minutes % 10 != 0 && (tc.frames == 0 || tc.frames
        == 1) {
        TimeCode { frames: 2, ..tc }
    } else {
        tc
    }
}

/// The timecode that is meant is none that is dropped, and only those are changed.
pub proof fn law_corrected_is_kept(tc: TimeCode)
    ensures
        !is_dropped(corrected(tc)),
        corrected(corrected(tc)) == corrected(tc),
        !is_dropped(tc) ==> corrected(tc) == tc,
{
}

/// What is known of a file.
#[verifier::ext_equal]
pub struct SccView {
    /// The bytes that were not read yet.
    pub bytes: Seq<u8>,
    pub state: parser::State,
    pub need_segment: bool,
    pub pending: Seq<u64>,
    pub framerate: Option<Framerate>,
    pub last_position: Option<u64>,
    pub last_timecode: Option<ValidTimeCode>,
    pub segment: Segment,
    pub pull: Option<PullState>,
    pub seeking: bool,
    pub discont: bool,
    pub seqnum: Option<u32>,
    pub need_flush_stop: bool,
}

/// What is to be done next.
pub enum StepView {
    Caption(TimeCode, Seq<u8>),
    Done,
    Failed(FlowError),
}

/// What is to be done next.
#[derive(Debug)]
pub enum Step {
    /// Captions are to be handled.
    Caption { tc: TimeCode, data: Vec<u8> },
    /// Nothing, until more comes.
    Done,
    /// The file cannot be read further.
    Failed(FlowError),
}

impl View for Step {
    type V = StepView;

    open spec fn view(&self) -> StepView {
        match self {
            Step::Caption { tc, data } => StepView::Caption(*tc, data@),
            Step::Done => StepView::Done,
            Step::Failed(e) => StepView::Failed(*e),
        }
    }
}

/// A pair that goes out.
#[derive(Clone, Copy, Debug, PartialEq, Eq, Structural)]
pub struct PairBuffer {
    pub byte0: u8,
    pub byte1: u8,
    pub timecode: ValidTimeCode,
    pub pts: u64,
    pub duration: Option<u64>,
}

/// What goes out of a line.
#[derive(Debug)]
pub struct LineOutput {
    pub events: Vec<Event>,
    pub buffers: Vec<PairBuffer>,
    /// Whether the end of the segment was reached.
    pub send_eos: bool,
}

/// The pairs of a line that go out.
#[verifier::ext_equal]
pub struct Emitted {
    pub position: Option<u64>,
    pub buffers: Seq<PairBuffer>,
    /// How many frames were counted.
    pub frames: int,
    pub eos: bool,
}

/// The timecode some frames later.
pub open spec fn later(timecode: ValidTimeCode, n: int, times: Seq<u64>) -> ValidTimeCode {
    ValidTimeCode { frames: (timecode.frames + n) as u64, nsecs: times[n], ..timecode }
}

/// The first `n` pairs of a line, of which each one takes a frame. Those that end before the
/// segment begins are left out after a seek, and those behind the end of the segment too.
pub open spec fn emitted(
    data: Seq<u8>,
    timecode: ValidTimeCode,
    times: Seq<u64>,
    framerate: Framerate,
    segment: Segment,
    clip: bool,
    position: Option<u64>,
    n: int,
) -> Emitted
    decreases n,
{
    if n <= 0 {
        Emitted { position, buffers: Seq::empty(), frames: 0, eos: false }
    } else {
        let before = emitted(data, timecode, times, framerate, segment, clip, position, n - 1);
        if before.eos {
            before
        } else {
            let i = n - 1;
            let pts = crate::caption_file::moved_on(before.position, times[i]);
            let duration = crate::clock::fits(crate::caption_file::frame_len(framerate));
            let end = pts + duration->0;
            if clip && duration is Some && segment.start is Some && end < segment.start->0 {
                Emitted { position: Some(pts), frames: n, ..before }
            } else {
                Emitted {
                    position: Some(pts),
                    buffers: before.buffers.push(
                        PairBuffer {
                            byte0: data[2 * i],
                            byte1: data[2 * i + 1],
                            timecode: later(timecode, i, times),
                            pts,
                            duration,
                        },
                    ),
                    frames: n,
                    eos: duration is Some && segment.stop is Some && end >= segment.stop->0,
                }
            }
        }
    }
}

impl SccView {
    /// Reads a line, and says what is to be done then, if anything is.
    pub open spec fn step(&self, drain: bool) -> (SccView, Option<StepView>) {
        match crate::caption_file::first_line(self.bytes, drain) {
            None => (
                *self,
                Some(
                    if drain && self.pull is Some {
                        StepView::Failed(FlowError::Eos)
                    } else {
                        StepView::Done
                    },
                ),
            ),
            Some(line) => {
                let v = SccView { bytes: self.bytes.skip(line.len() as int), ..*self };
                match parser::line_in_state(v.state, line) {
                    None => (v, Some(StepView::Failed(FlowError::Error))),
                    Some(parsed) => (
                        SccView { state: parser::next_state(v.state), ..v },
                        match parsed {
                            parser::SccLineView::Caption(tc, data) => Some(
                                StepView::Caption(tc, data),
                            ),
                            _ => None,
                        },
                    ),
                }
            },
        }
    }

    /// Reads lines until something is to be done.
    pub open spec fn scan(&self, drain: bool) -> (SccView, StepView)
        decreases self.bytes.len(),
    {
        proof {
            crate::caption_file::lemma_first_line(self.bytes, drain);
        }
        match self.step(drain) {
            (v, Some(step)) => (v, step),
            (v, None) => v.scan(drain),
        }
    }

    /// What was read is forgotten, where that is due.
    pub open spec fn flush_stop_event(&self) -> (SccView, Seq<Event>) {
        if self.need_flush_stop {
            (
                SccView { need_flush_stop: false, ..*self },
                seq![Event::FlushStop { seqnum: self.seqnum }],
            )
        } else {
            (*self, Seq::empty())
        }
    }

    /// The stream begins, where that is due.
    pub open spec fn stream_start_event(&self) -> (SccView, Seq<Event>) {
        match self.pull {
            Some(pull) => if pull.need_stream_start {
                (
                    SccView {
                        pull: Some(PullState { need_stream_start: false, ..pull }),
                        ..*self
                    },
                    seq![Event::StreamStart],
                )
            } else {
                (*self, Seq::empty())
            },
            None => (*self, Seq::empty()),
        }
    }

    /// The format of what goes out, where the framerate is another one than before.
    pub open spec fn caps_event(&self, framerate: Option<Framerate>) -> (SccView, Seq<Event>) {
        match framerate {
            Some(f) => if self.framerate != Some(f) {
                (
                    SccView { framerate: Some(f), ..*self },
                    seq![Event::Caps { kind: CapsKind::Raw, framerate: f }],
                )
            } else {
                (*self, Seq::empty())
            },
            None => (*self, Seq::empty()),
        }
    }

    /// The segment, where that is due.
    pub open spec fn segment_event(&self) -> (SccView, Seq<Event>) {
        if self.need_segment {
            (
                SccView { need_segment: false, ..*self },
                seq![Event::Segment { seqnum: self.seqnum }],
            )
        } else {
            (*self, Seq::empty())
        }
    }

    /// The events that go out before captions.
    #[verifier::opaque]
    pub open spec fn events(&self, framerate: Option<Framerate>) -> (SccView, Seq<Event>) {
        let (v1, e1) = self.flush_stop_event();
        let (v2, e2) = v1.stream_start_event();
        let (v3, e3) = v2.caps_event(framerate);
        let (v4, e4) = v3.segment_event();
        (
            SccView { pending: Seq::empty(), ..v4 },
            e1 + e2 + e3 + e4 + crate::caption_file::deferred(v4.pending),
        )
    }

    /// Whether the position of a seek lies behind what is known to end at the given time.
    pub open spec fn still_seeking(&self, stop_time: u64) -> bool {
        self.seeking && !(self.segment.start is Some && stop_time > self.segment.start->0)
    }

    /// The pairs of a line that go out.
    pub open spec fn pairs(
        &self,
        tc: TimeCode,
        timecode: ValidTimeCode,
        data: Seq<u8>,
        times: Seq<u64>,
    ) -> Emitted {
        emitted(
            data,
            timecode,
            times,
            framerate_of(tc.drop_frame),
            self.segment,
            self.seeking,
            self.last_position,
            data.len() as int / 2,
        )
    }

    /// What is known once the pairs of a line went out, but for the events.
    pub open spec fn with_pairs(
        &self,
        tc: TimeCode,
        timecode: ValidTimeCode,
        data: Seq<u8>,
        times: Seq<u64>,
    ) -> SccView {
        let all = self.pairs(tc, timecode, data, times);
        SccView {
            seeking: false,
            discont: self.discont || self.seeking,
            need_flush_stop: self.need_flush_stop || self.seeking,
            last_position: all.position,
            last_timecode: Some(later(timecode, all.frames, times)),
            ..*self
        }
    }

    /// Everything that was read is forgotten.
    pub open spec fn flushed(&self) -> SccView {
        SccView {
            bytes: Seq::empty(),
            state: parser::State::Header,
            pull: match self.pull {
                Some(p) => Some(PullState { offset: 0, ..p }),
                None => None,
            },
            segment: Segment { start: Some(0), stop: None },
            need_segment: true,
            pending: Seq::empty(),
            last_position: None,
            last_timecode: None,
            ..*self
        }
    }
}

/// Reads a file.
#[derive(Debug)]
pub struct SccParse {
    pub lines: Lines,
    pub parser: SccParser,
    pub need_segment: bool,
    pub pending_events: Vec<u64>,
    pub framerate: Option<Framerate>,
    pub last_position: Option<u64>,
    pub last_timecode: Option<ValidTimeCode>,
    pub segment: Segment,
    pub pull: Option<PullState>,
    pub seeking: bool,
    pub discont: bool,
    pub seek_seqnum: Option<u32>,
    pub need_flush_stop: bool,
}

impl View for SccParse {
    type V = SccView;

    open spec fn view(&self) -> SccView {
        SccView {
            bytes: self.lines.bytes(),
            state: self.parser.state(),
            need_segment: self.need_segment,
            pending: self.pending_events@,
            framerate: self.framerate,
            last_position: self.last_position,
            last_timecode: self.last_timecode,
            segment: self.segment,
            pull: self.pull,
            seeking: self.seeking,
            discont: self.discont,
            seqnum: self.seek_seqnum,
            need_flush_stop: self.need_flush_stop,
        }
    }
}

/// Events change nothing but what they tell.
pub proof fn law_events_keep_the_rest(view: SccView, framerate: Option<Framerate>)
    ensures
        ({
            let (after, events) = view.events(framerate);
            &&& after == (SccView {
                need_flush_stop: false,
                pull: after.pull,
                framerate: after.framerate,
                need_segment: false,
                pending: Seq::empty(),
                ..view
            })
            &&& after.pull is Some <==> view.pull is Some
            &&& events.len() >= view.pending.len()
        }),
        // events do not go out twice
        view.events(framerate).0.events(framerate).1 == Seq::<Event>::empty(),
{
    reveal(SccView::events);
    let (after, _) = view.events(framerate);
    assert(after.events(framerate).1 =~= Seq::<Event>::empty());
}

impl SccParse {
    /// Whether lines can be read, and times are times.
    pub open spec fn wf(&self) -> bool {
        &&& self.lines.wf()
        &&& self.last_position matches Some(p) ==> p <= MAX_TIME
        &&& self.last_timecode matches Some(tc) ==> tc.nsecs <= MAX_TIME
    }

    /// Nothing came yet.
    pub fn new() -> (r: Self)
        ensures
            r.wf(),
            r@ == (SccView {
                bytes: Seq::empty(),
                state: parser::State::Header,
                need_segment: true,
                pending: Seq::empty(),
                framerate: None,
                last_position: None,
                last_timecode: None,
                segment: Segment { start: Some(0), stop: None },
                pull: None,
                seeking: false,
                discont: false,
                seqnum: None,
                need_flush_stop: false,
            }),
            r.lines.held() == 0,
    {
        let r = SccParse {
            lines: Lines::new(),
            parser: SccParser::new(),
            need_segment: true,
            pending_events: Vec::new(),
            framerate: None,
            last_position: None,
            last_timecode: None,
            segment: Segment { start: Some(0), stop: None },
            pull: None,
            seeking: false,
            discont: false,
            seek_seqnum: None,
            need_flush_stop: false,
        };
        assert(r@.pending =~= Seq::<u64>::empty());
        r
    }

    /// Bytes came.
    pub fn push(&mut self, bytes: Vec<u8>)
        requires
            old(self).wf(),
            old(self).lines.held() + bytes@.len() <= usize::MAX,
        ensures
            final(self).wf(),
            final(self)@ == (SccView { bytes: old(self)@.bytes + bytes@, ..old(self)@ }),
            final(self).lines.held() == old(self).lines.held() + bytes@.len(),
    {
        self.lines.push(bytes);
    }

    fn step(&mut self, drain: bool) -> (r: Option<Step>)
        requires
            old(self).wf(),
        ensures
            final(self).wf(),
            ({
                let (v, step) = old(self)@.step(drain);
                &&& final(self)@ == v
                &&& match r {
                    Some(s) => step == Some(s@),
                    None => step is None,
                }
            }),
            final(self).lines.held() <= old(self).lines.held(),
    {
        let line: Vec<u8> = match self.lines.take(drain) {
            Some(line) => line,
            None => {
                if drain && self.pull.is_some() {
                    return Some(Step::Failed(FlowError::Eos));
                }
                return Some(Step::Done);
            },
        };
        match self.parser.parse_line(line.as_slice()) {
            Ok(SccLine::Caption(tc, data)) => Some(Step::Caption { tc, data }),
            Ok(_) => None,
            Err(_) => Some(Step::Failed(FlowError::Error)),
        }
    }

    /// Reads lines until something is to be done.
    pub fn handle_buffer(&mut self, drain: bool) -> (r: Step)
        requires
            old(self).wf(),
        ensures
            final(self).wf(),
            (final(self)@, r@) == old(self)@.scan(drain),
            final(self).lines.held() <= old(self).lines.held(),
    {
        loop
            invariant
                self.wf(),
                self@.scan(drain) == old(self)@.scan(drain),
                self.lines.held() <= old(self).lines.held(),
            decreases self@.bytes.len(),
        {
            proof {
                crate::caption_file::lemma_first_line(self@.bytes, drain);
            }
            if let Some(step) = self.step(drain) {
                return step;
            }
        }
    }

    /// The timecode that counts for captions, of which the timecode stands for the given time, if
    /// it stands for one.
    pub fn handle_timecode(&self, tc: TimeCode, nsecs: Option<u64>) -> (r: Result<
        ValidTimeCode,
        FlowError,
    >)
        requires
            self.wf(),
            nsecs matches Some(n) ==> n <= MAX_TIME,
        ensures
            ({
                let found = crate::caption_file::counted(
                    corrected(tc),
                    tc.drop_frame,
                    framerate_of(tc.drop_frame),
                    nsecs,
                    self.last_timecode,
                );
                match r {
                    Ok(timecode) => found == Some(timecode) && timecode.nsecs <= MAX_TIME,
                    Err(e) => found is None && e == FlowError::Error,
                }
            }),
    {
        let framerate: Framerate = framerate_for(&tc);
        let drop_frame: bool = tc.drop_frame;
        count_timecode(correct_timecode(tc), drop_frame, framerate, nsecs, &self.last_timecode)
    }

    /// The pairs of a line that go out.
    fn emit(
        &self,
        timecode: ValidTimeCode,
        framerate: Framerate,
        data: &Vec<u8>,
        times: &Vec<u64>,
        clip: bool,
    ) -> (r: (Option<u64>, Vec<PairBuffer>, usize, bool))
        requires
            self.wf(),
            0 < framerate.numer <= 30000,
            framerate.denom <= 1001,
            times@.len() == data@.len() / 2 + 2,
            forall|i: int| 0 <= i < times@.len() ==> #[trigger] times@[i] <= MAX_TIME,
            timecode.frames + data@.len() <= u64::MAX,
        ensures
            ({
                let all = emitted(
                    data@,
                    timecode,
                    times@,
                    framerate,
                    self.segment,
                    clip,
                    self.last_position,
                    data@.len() as int / 2,
                );
                all == (Emitted {
                    position: r.0,
                    buffers: r.1@,
                    frames: r.2 as int,
                    eos: r.3,
                })
            }),
            r.2 <= data@.len() / 2,
            r.0 matches Some(p) ==> p <= MAX_TIME,
    {
        let n: usize = data.len() / 2;
        let mut position: Option<u64> = self.last_position;
        let mut buffers: Vec<PairBuffer> = Vec::new();
        let mut i: usize = 0;
        let mut eos: bool = false;
        let duration: Option<u64> = frame_duration(framerate);
        proof {
            crate::caption_file::lemma_frame_len(framerate);
        }
        assert(buffers@ =~= Seq::<PairBuffer>::empty());
        while i < n && !eos
            invariant
                n == data@.len() / 2,
                i <= n,
                0 < framerate.numer <= 30000,
                framerate.denom <= 1001,
                data@.len() <= usize::MAX,
                times@.len() == n + 2,
                forall|j: int| 0 <= j < times@.len() ==> #[trigger] times@[j] <= MAX_TIME,
                timecode.frames + data@.len() <= u64::MAX,
                position matches Some(p) ==> p <= MAX_TIME,
                duration == crate::clock::fits(crate::caption_file::frame_len(framerate)),
                duration matches Some(d) ==> d <= 2_000_000_000_000,
                emitted(
                    data@,
                    timecode,
                    times@,
                    framerate,
                    self.segment,
                    clip,
                    self.last_position,
                    i as int,
                ) == (Emitted { position, buffers: buffers@, frames: i as int, eos }),
            decreases n - i,
        {
            let pts: u64 = move_on(position, times[i]);
            position = Some(pts);
            let is_before: bool = clip && match (duration, self.segment.start) {
                (Some(d), Some(start)) => pts + d < start,
                _ => false,
            };
            if !is_before {
                eos = match (duration, self.segment.stop) {
                    (Some(d), Some(stop)) => pts + d >= stop,
                    _ => false,
                };
                let mut at: ValidTimeCode = timecode;
                at.frames = timecode.frames + i as u64;
                at.nsecs = times[i];
                buffers.push(
                    PairBuffer {
                        byte0: data[2 * i],
                        byte1: data[2 * i + 1],
                        timecode: at,
                        pts,
                        duration,
                    },
                );
            }
            i += 1;
        }
        proof {
            lemma_emitted_end(
                data@,
                timecode,
                times@,
                framerate,
                self.segment,
                clip,
                self.last_position,
                i as int,
                n as int,
            );
        }
        (position, buffers, i, eos)
    }

    /// Handles captions with the timecode that counts. The times of the frames from that timecode
    /// on are given, one for each pair and two more. While the position of a seek is looked for,
    /// nothing goes out of captions before it.
    pub fn handle_line(
        &mut self,
        tc: TimeCode,
        timecode: ValidTimeCode,
        data: Vec<u8>,
        times: &Vec<u64>,
    ) -> (r: Option<LineOutput>)
        requires
            old(self).wf(),
            timecode.nsecs <= MAX_TIME,
            times@.len() == data@.len() / 2 + 2,
            forall|i: int| 0 <= i < times@.len() ==> #[trigger] times@[i] <= MAX_TIME,
            timecode.frames + data@.len() <= u64::MAX,
        ensures
            final(self).wf(),
            ({
                let was = old(self)@;
                let stop_time = times@[data@.len() as int / 2 + 1];
                let all = was.pairs(tc, timecode, data@, times@);
                let (after, events) = was.with_pairs(tc, timecode, data@, times@).events(
                    Some(framerate_of(tc.drop_frame)),
                );
                match r {
                    None => was.still_seeking(stop_time) && final(self)@ == (SccView {
                        last_timecode: Some(timecode),
                        ..was
                    }),
                    Some(out) => {
                        &&& !was.still_seeking(stop_time)
                        &&& final(self)@ == after
                        &&& out.events@ == events
                        &&& out.buffers@ == all.buffers
                        &&& out.send_eos == all.eos
                    },
                }
            }),
            final(self).lines == old(self).lines,
    {
        let framerate: Framerate = framerate_for(&tc);
        let clip: bool = self.seeking;
        if self.seeking {
            let stop_time: u64 = times[data.len() / 2 + 1];
            if let Some(start) = self.segment.start {
                if stop_time > start {
                    self.seeking = false;
                    self.discont = true;
                    self.need_flush_stop = true;
                }
            }
            if self.seeking {
                self.last_timecode = Some(timecode);
                return None;
            }
        }
        let (position, buffers, frames, send_eos) = self.emit(
            timecode,
            framerate,
            &data,
            times,
            clip,
        );
        self.last_position = position;
        let mut last: ValidTimeCode = timecode;
        last.frames = timecode.frames + frames as u64;
        last.nsecs = times[frames];
        self.last_timecode = Some(last);
        assert(self@ =~= old(self)@.with_pairs(tc, timecode, data@, times@));
        let events: Vec<Event> = self.create_events(Some(framerate));
        Some(LineOutput { events, buffers, send_eos })
    }

    fn create_events(&mut self, framerate: Option<Framerate>) -> (r: Vec<Event>)
        requires
            old(self).wf(),
        ensures
            final(self).wf(),
            (final(self)@, r@) == old(self)@.events(framerate),
            final(self).lines == old(self).lines,
    {
        let mut events: Vec<Event> = Vec::new();
        self.push_flush_stop(&mut events);
        self.push_stream_start(&mut events);
        self.push_caps(framerate, &mut events);
        self.push_segment(&mut events);
        self.push_pending(&mut events);
        proof {
            reveal(SccView::events);
            let e1 = old(self)@.flush_stop_event().1;
            assert(Seq::<Event>::empty() + e1 =~= e1);
        }
        events
    }

    fn push_flush_stop(&mut self, events: &mut Vec<Event>)
        requires
            old(self).wf(),
        ensures
            final(self).wf(),
            ({
                let (v, e) = old(self)@.flush_stop_event();
                final(self)@ == v && final(events)@ == old(events)@ + e
            }),
            final(self).lines == old(self).lines,
    {
        if self.need_flush_stop {
            events.push(Event::FlushStop { seqnum: self.seek_seqnum });
            self.need_flush_stop = false;
        }
        assert(events@ =~= old(events)@ + old(self)@.flush_stop_event().1);
    }

    fn push_stream_start(&mut self, events: &mut Vec<Event>)
        requires
            old(self).wf(),
        ensures
            final(self).wf(),
            ({
                let (v, e) = old(self)@.stream_start_event();
                final(self)@ == v && final(events)@ == old(events)@ + e
            }),
            final(self).lines == old(self).lines,
    {
        if let Some(mut pull) = self.pull {
            if pull.need_stream_start {
                events.push(Event::StreamStart);
                pull.need_stream_start = false;
                self.pull = Some(pull);
            }
        }
        assert(events@ =~= old(events)@ + old(self)@.stream_start_event().1);
    }

    fn push_caps(&mut self, framerate: Option<Framerate>, events: &mut Vec<Event>)
        requires
            old(self).wf(),
        ensures
            final(self).wf(),
            ({
                let (v, e) = old(self)@.caps_event(framerate);
                final(self)@ == v && final(events)@ == old(events)@ + e
            }),
            final(self).lines == old(self).lines,
    {
        if let Some(f) = framerate {
            let is_same: bool = match self.framerate {
                Some(was) => was == f,
                None => false,
            };
            if !is_same {
                self.framerate = Some(f);
                events.push(Event::Caps { kind: CapsKind::Raw, framerate: f });
            }
        }
        assert(events@ =~= old(events)@ + old(self)@.caps_event(framerate).1);
    }

    fn push_segment(&mut self, events: &mut Vec<Event>)
        requires
            old(self).wf(),
        ensures
            final(self).wf(),
            ({
                let (v, e) = old(self)@.segment_event();
                final(self)@ == v && final(events)@ == old(events)@ + e
            }),
            final(self).lines == old(self).lines,
    {
        if self.need_segment {
            events.push(Event::Segment { seqnum: self.seek_seqnum });
            self.need_segment = false;
        }
        assert(events@ =~= old(events)@ + old(self)@.segment_event().1);
    }

    fn push_pending(&mut self, events: &mut Vec<Event>)
        requires
            old(self).wf(),
        ensures
            final(self).wf(),
            final(self)@ == (SccView { pending: Seq::empty(), ..old(self)@ }),
            final(events)@ == old(events)@ + crate::caption_file::deferred(old(self)@.pending),
            final(self).lines == old(self).lines,
    {
        push_deferred(events, &self.pending_events);
        self.pending_events = Vec::new();
        assert(self@.pending =~= Seq::<u64>::empty());
    }

    /// The events of the end.
    pub fn push_eos(&mut self) -> (r: Vec<Event>)
        requires
            old(self).wf(),
        ensures
            final(self).wf(),
            ({
                let was = SccView {
                    need_flush_stop: old(self)@.need_flush_stop || old(self)@.seeking,
                    ..old(self)@
                };
                let (v, events) = was.events(None);
                final(self)@ == v && r@ == events.push(Event::Eos { seqnum: was.seqnum })
            }),
            final(self).lines == old(self).lines,
    {
        if self.seeking {
            self.need_flush_stop = true;
        }
        let ghost was = self@;
        let mut events: Vec<Event> = self.create_events(None);
        proof {
            law_events_keep_the_rest(was, None);
        }
        events.push(Event::Eos { seqnum: self.seek_seqnum });
        events
    }

    /// Where the next block of the file begins, and whether its duration is to be looked for.
    pub fn next_block(&mut self) -> (r: (u64, bool))
        requires
            old(self).wf(),
            old(self).pull matches Some(p) && p.offset + BLOCK_SIZE <= u64::MAX,
        ensures
            final(self).wf(),
            r.0 == (old(self).pull->0).offset,
            r.1 == (old(self).framerate is None && (old(self).pull->0).duration is None),
            final(self)@ == (SccView {
                pull: Some(
                    PullState {
                        offset: ((old(self).pull->0).offset + BLOCK_SIZE) as u64,
                        ..old(self).pull->0
                    },
                ),
                ..old(self)@
            }),
            final(self).lines == old(self).lines,
    {
        match self.pull {
            Some(mut pull) => {
                let offset: u64 = pull.offset;
                let scan: bool = self.framerate.is_none() && pull.duration.is_none();
                pull.offset = offset + BLOCK_SIZE;
                self.pull = Some(pull);
                (offset, scan)
            },
            None => {
                assert(false);
                (0, false)
            },
        }
    }

    /// Forgets everything that was read.
    pub fn flush(&mut self)
        ensures
            final(self).wf(),
            final(self)@ == old(self)@.flushed(),
            final(self).lines.held() == 0,
    {
        self.lines.clear();
        self.parser.reset();
        if let Some(mut pull) = self.pull {
            pull.offset = 0;
            self.pull = Some(pull);
        }
        self.segment = Segment { start: Some(0), stop: None };
        self.need_segment = true;
        self.pending_events = Vec::new();
        self.last_position = None;
        self.last_timecode = None;
        assert(self@ =~= old(self)@.flushed());
    }

    /// Begins to look for another position, where that is possible. Says the bounds of the
    /// segment to be played.
    pub fn perform_seek(&mut self, seek: &Seek) -> (r: Option<(Option<u64>, Option<u64>)>)
        requires
            old(self).wf(),
        ensures
            final(self).wf(),
            match r {
                None => (old(self).pull is None || !crate::caption_file::is_possible(*seek))
                    && final(self)@ == old(self)@ && final(self).lines == old(self).lines,
                Some(bounds) => {
                    &&& old(self).pull is Some && crate::caption_file::is_possible(*seek)
                    &&& bounds.0 == crate::caption_file::bound(
                        seek.start_type,
                        seek.start,
                        (old(self).pull->0).duration,
                    )
                    &&& bounds.1 == crate::caption_file::bound(
                        seek.stop_type,
                        seek.stop,
                        (old(self).pull->0).duration,
                    )
                    &&& final(self)@ == (SccView {
                        seeking: true,
                        seqnum: Some(seek.seqnum),
                        ..old(self)@.flushed()
                    })
                    &&& final(self).lines.held() == 0
                },
            },
    {
        let duration: Option<u64> = match self.pull {
            Some(pull) => pull.duration,
            None => return None,
        };
        if !check_seek(seek) {
            return None;
        }
        let start: Option<u64> = clip_bound(seek.start_type, seek.start, duration);
        let stop: Option<u64> = clip_bound(seek.stop_type, seek.stop, duration);
        self.seeking = true;
        self.seek_seqnum = Some(seek.seqnum);
        self.flush();
        Some((start, stop))
    }
}

proof fn lemma_emitted_end(
    data: Seq<u8>,
    timecode: ValidTimeCode,
    times: Seq<u64>,
    framerate: Framerate,
    segment: Segment,
    clip: bool,
    position: Option<u64>,
    n: int,
    m: int,
)
    requires
        0 <= n <= m,
        n == m || emitted(data, timecode, times, framerate, segment, clip, position, n).eos,
    ensures
        emitted(data, timecode, times, framerate, segment, clip, position, m) == emitted(
            data,
            timecode,
            times,
            framerate,
            segment,
            clip,
            position,
            n,
        ),
    decreases m,
{
    if n < m {
        lemma_emitted_end(
            data,
            timecode,
            times,
            framerate,
            segment,
            clip,
            position,
            n,
            m - 1,
        );
    }
}

/// Captions with the frames that they take: one for each pair, and one more.
#[derive(Clone, Copy, Debug, PartialEq, Eq, Structural)]
pub struct CaptionSpan {
    pub tc: TimeCode,
    pub frames: usize,
}

/// The captions in bytes, line by line. What is no caption is passed over.
pub open spec fn caption_spans(state: parser::State, bytes: Seq<u8>) -> Seq<CaptionSpan>
    decreases bytes.len(),
{
    proof {
        crate::caption_file::lemma_first_line(bytes, true);
    }
    match crate::caption_file::first_line(bytes, true) {
        None => Seq::empty(),
        Some(line) => {
            let rest = bytes.skip(line.len() as int);
            match parser::line_in_state(state, line) {
                Some(parser::SccLineView::Caption(tc, data)) => seq![
                    CaptionSpan {
                        tc: corrected(tc),
                        frames: (data.len() as int / 2 + 1) as usize,
                    },
                ] + caption_spans(parser::next_state(state), rest),
                Some(_) => caption_spans(parser::next_state(state), rest),
                None => caption_spans(state, rest),
            }
        },
    }
}

/// Looks for captions in the blocks at the end of a file, which were read from its end on.
pub fn scan_captions(blocks: &Vec<Vec<u8>>) -> (r: Vec<CaptionSpan>)
    ensures
        r@ == caption_spans(
            parser::State::CaptionOrEmpty,
            crate::caption_file::joined(crate::caption_file::block_views(blocks@)),
        ),
{
    let mut found: Vec<CaptionSpan> = Vec::new();
    let bytes: Vec<u8> = join_blocks(blocks);
    let ghost all = bytes@;
    let ghost state = parser::State::CaptionOrEmpty;
    let mut lines: Lines = Lines::new();
    assert(bytes.len() == all.len());
    lines.push(bytes);
    let mut parser: SccParser = SccParser::new_scan_captions();
    let mut more: bool = true;
    assert(lines.bytes() =~= all);
    assert(found@ + caption_spans(state, all) =~= caption_spans(state, all));
    while more
        invariant
            lines.wf(),
            parser.state() == state,
            state == parser::State::CaptionOrEmpty,
            found@ + caption_spans(state, lines.bytes()) == caption_spans(state, all),
            !more ==> found@ == caption_spans(state, all),
        decreases
                (if more {
                    1int
                } else {
                    0int
                }),
                lines.bytes().len(),
    {
        let ghost before = lines.bytes();
        let ghost was = found@;
        proof {
            crate::caption_file::lemma_first_line(before, true);
        }
        match lines.take(true) {
            Some(line) => {
                if let Ok(SccLine::Caption(tc, data)) = parser.parse_line(line.as_slice()) {
                    let span: CaptionSpan = CaptionSpan {
                        tc: correct_timecode(tc),
                        frames: data.len() / 2 + 1,
                    };
                    found.push(span);
                    assert(was + (seq![span] + caption_spans(state, lines.bytes())) =~= found@
                        + caption_spans(state, lines.bytes()));
                }
            },
            None => {
                more = false;
                assert(found@ + Seq::<CaptionSpan>::empty() =~= found@);
            },
        }
    }
    found
}

/// Pairs go out in the order of their times, and no more than one for each frame.
pub proof fn law_pairs_in_order(
    data: Seq<u8>,
    timecode: ValidTimeCode,
    times: Seq<u64>,
    framerate: Framerate,
    segment: Segment,
    clip: bool,
    position: Option<u64>,
    n: int,
)
    requires
        0 <= n,
    ensures
        ({
            let all = emitted(data, timecode, times, framerate, segment, clip, position, n);
            &&& all.buffers.len() <= all.frames <= n
            &&& forall|i: int, j: int|
                0 <= i < j < all.buffers.len() ==> (#[trigger] all.buffers[i]).pts <= (
                #[trigger] all.buffers[j]).pts
            &&& forall|i: int|
                0 <= i < all.buffers.len() ==> all.position is Some && (
                #[trigger] all.buffers[i]).pts <= all.position->0
            &&& position is Some ==> all.position is Some && position->0 <= all.position->0
        }),
    decreases n,
{
    if n > 0 {
        law_pairs_in_order(
            data,
            timecode,
            times,
            framerate,
            segment,
            clip,
            position,
            n - 1,
        );
    }
}

} // verus!
