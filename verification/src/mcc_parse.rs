//! Reading of MacCaption (MCC) files.
use crate::caption_file::{
    check_seek, clip_bound, count_timecode, frame_duration, join_blocks, move_on, push_deferred,
    CapsKind, Event, Lines, PullState, Seek, ValidTimeCode, BLOCK_SIZE,
};
use crate::clock::{FlowError, Framerate, Segment};
use crate::parser_utils::TimeCode;
use crate::st2038anc_utils::convert_to_st2038_buffer;
use parser::{MccLine, MccParser};
use vstd::prelude::*;

pub mod parser;

verus! {

/// What captions are.
#[derive(Clone, Copy, Debug, PartialEq, Eq, Structural)]
pub enum Format {
    Cea708Cdp,
    Cea608,
}

/// Whether packets with these identifiers are captions.
pub open spec fn is_captions(did: u8, sdid: u8) -> bool {
    did == 0x61 && (sdid == 0x01 || sdid == 0x02)
}

/// What the captions of packets with these identifiers are.
pub open spec fn format_of(sdid: u8) -> Format {
    if sdid == 0x01 {
        Format::Cea708Cdp
    } else {
        Format::Cea608
    }
}

/// How captions go out.
pub open spec fn caps_of(format: Format) -> CapsKind {
    match format {
        Format::Cea708Cdp => CapsKind::Cdp,
        Format::Cea608 => CapsKind::S334_1a,
    }
}

fn get_closedcaption_caps(did: u8, sdid: u8) -> (r: (Format, CapsKind))
    requires
        is_captions(did, sdid),
    ensures
        r.0 == format_of(sdid),
        r.1 == caps_of(format_of(sdid)),
{
    if sdid == 0x01 {
        (Format::Cea708Cdp, CapsKind::Cdp)
    } else {
        (Format::Cea608, CapsKind::S334_1a)
    }
}

/// The framerate of a timecode rate. Where frames are dropped it is a little lower.
pub open spec fn framerate_of(rate: (u8, bool)) -> Framerate {
    if rate.1 {
        Framerate { numer: (rate.0 * 1000) as u32, denom: 1001 }
    } else {
        Framerate { numer: rate.0 as u32, denom: 1 }
    }
}

/// The latest time that a timecode stands for.
pub const MAX_TIME: u64 = 0x7fff_ffff_ffff_ffff;

/// What is known of a file.
#[verifier::ext_equal]
pub struct MccView {
    /// The bytes that were not read yet.
    pub bytes: Seq<u8>,
    pub state: parser::State,
    pub format: Option<Format>,
    pub need_caps: bool,
    pub need_segment: bool,
    pub pending: Seq<u64>,
    pub last_position: Option<u64>,
    pub last_timecode: Option<ValidTimeCode>,
    pub rate: Option<(u8, bool)>,
    pub segment: Segment,
    pub pull: Option<PullState>,
    pub seeking: bool,
    pub discont: bool,
    pub seqnum: Option<u32>,
    /// The line that was read last, and whether it is to be read again.
    pub raw: Seq<u8>,
    pub replay: bool,
    pub need_flush_stop: bool,
    pub as_st2038: bool,
}

/// What is to be done next.
pub enum StepView {
    Caption(TimeCode, Seq<u8>),
    Skipped(TimeCode),
    Done,
    Failed(FlowError),
}

/// What is to be done next.
#[derive(Debug)]
pub enum Step {
    /// Captions are to be handled.
    Caption { tc: TimeCode, data: Vec<u8> },
    /// Captions are passed over while the position of a seek is looked for.
    Skipped { tc: TimeCode },
    /// Nothing, until more comes.
    Done,
    /// The file cannot be read further.
    Failed(FlowError),
}

impl View for Step {
    type V = StepView;

    open spec fn view(&self) -> StepView {
        match self {
            Step::Caption { tc, data } => StepView::Caption(*tc, data@),
            Step::Skipped { tc } => StepView::Skipped(*tc),
            Step::Done => StepView::Done,
            Step::Failed(e) => StepView::Failed(*e),
        }
    }
}

/// Whether a packet is whole, and holds something that goes out.
pub open spec fn is_wanted(data: Seq<u8>, as_st2038: bool) -> bool {
    &&& data.len() >= 3
    &&& as_st2038 || is_captions(data[0], data[1])
    &&& data.len() >= 3 + data[2]
}

impl MccView {
    /// The next line, and what is known then. A line that is to be read again comes first.
    pub open spec fn next_line(&self, drain: bool) -> Option<MccView> {
        if self.replay {
            Some(MccView { replay: false, ..*self })
        } else {
            match crate::caption_file::first_line(self.bytes, drain) {
                Some(line) => Some(
                    MccView {
                        bytes: self.bytes.skip(line.len() as int),
                        raw: line,
                        ..*self
                    },
                ),
                None => None,
            }
        }
    }

    /// Reads a line, and says what is to be done then, if anything is. Where the timecode rate is
    /// looked for, it has to come before captions.
    pub open spec fn step(&self, drain: bool, scan_tc_rate: bool) -> (MccView, Option<StepView>) {
        match self.next_line(drain) {
            None => (
                *self,
                Some(
                    if scan_tc_rate {
                        StepView::Failed(FlowError::Error)
                    } else if drain && self.pull is Some {
                        StepView::Failed(FlowError::Eos)
                    } else {
                        StepView::Done
                    },
                ),
            ),
            Some(v) => match parser::line_in_state(v.state, v.raw, !v.seeking) {
                None => (v, Some(StepView::Failed(FlowError::Error))),
                Some(line) => {
                    let next = MccView { state: parser::next_state(v.state, line), ..v };
                    match line {
                        parser::MccLineView::Caption(tc, data) => (
                            next,
                            if scan_tc_rate {
                                Some(StepView::Failed(FlowError::Error))
                            } else if data is None {
                                Some(StepView::Skipped(tc))
                            } else if is_wanted(data->0, self.as_st2038) {
                                Some(StepView::Caption(tc, data->0))
                            } else {
                                None
                            },
                        ),
                        parser::MccLineView::TimeCodeRate(rate, df) => (
                            MccView { rate: Some((rate, df)), ..next },
                            if scan_tc_rate {
                                Some(StepView::Done)
                            } else {
                                None
                            },
                        ),
                        _ => (next, None),
                    }
                },
            },
        }
    }

    /// Reads lines until something is to be done.
    pub open spec fn scan(&self, drain: bool, scan_tc_rate: bool) -> (MccView, StepView)
        decreases
                self.bytes.len(),
                (if self.replay {
                    1int
                } else {
                    0int
                }),
    {
        proof {
            lemma_step(*self, drain, scan_tc_rate);
        }
        match self.step(drain, scan_tc_rate) {
            (v, Some(step)) => (v, step),
            (v, None) => v.scan(drain, scan_tc_rate),
        }
    }

    /// What was read is forgotten, where that is due.
    pub open spec fn flush_stop_event(&self) -> (MccView, Seq<Event>) {
        if self.need_flush_stop {
            (
                MccView { need_flush_stop: false, ..*self },
                seq![Event::FlushStop { seqnum: self.seqnum }],
            )
        } else {
            (*self, Seq::empty())
        }
    }

    /// The stream begins, where that is due.
    pub open spec fn stream_start_event(&self) -> (MccView, Seq<Event>) {
        match self.pull {
            Some(pull) => if pull.need_stream_start {
                (
                    MccView {
                        pull: Some(PullState { need_stream_start: false, ..pull }),
                        ..*self
                    },
                    seq![Event::StreamStart],
                )
            } else {
                (*self, Seq::empty())
            },
            None => (*self, Seq::empty()),
        }
    }

    /// The format of what goes out, where it is another one than before.
    pub open spec fn caps_event(&self, ids: Option<(u8, u8)>, framerate: Framerate) -> (
        MccView,
        Seq<Event>,
    ) {
        if self.as_st2038 {
            if self.need_caps {
                (
                    MccView { need_caps: false, ..*self },
                    seq![Event::Caps { kind: CapsKind::St2038, framerate }],
                )
            } else {
                (*self, Seq::empty())
            }
        } else {
            match ids {
                Some((_, sdid)) => if self.format != Some(format_of(sdid)) {
                    (
                        MccView { format: Some(format_of(sdid)), ..*self },
                        seq![Event::Caps { kind: caps_of(format_of(sdid)), framerate }],
                    )
                } else {
                    (*self, Seq::empty())
                },
                None => (*self, Seq::empty()),
            }
        }
    }

    /// The segment, where that is due.
    pub open spec fn segment_event(&self) -> (MccView, Seq<Event>) {
        if self.need_segment {
            (
                MccView { need_segment: false, ..*self },
                seq![Event::Segment { seqnum: self.seqnum }],
            )
        } else {
            (*self, Seq::empty())
        }
    }

    /// The events that go out before captions.
    #[verifier::opaque]
    pub open spec fn events(&self, ids: Option<(u8, u8)>, framerate: Framerate) -> (
        MccView,
        Seq<Event>,
    ) {
        let (v1, e1) = self.flush_stop_event();
        let (v2, e2) = v1.stream_start_event();
        let (v3, e3) = v2.caps_event(ids, framerate);
        let (v4, e4) = v3.segment_event();
        (
            MccView { pending: Seq::empty(), ..v4 },
            e1 + e2 + e3 + e4 + crate::caption_file::deferred(v4.pending),
        )
    }

    /// The timecode that counts for captions.
    pub open spec fn timecode(&self, tc: TimeCode, nsecs: Option<u64>) -> Option<ValidTimeCode> {
        let rate = self.rate->0;
        crate::caption_file::counted(
            tc,
            rate.1,
            framerate_of(rate),
            nsecs,
            self.last_timecode,
        )
    }

    /// Everything that was read is forgotten.
    pub open spec fn flushed(&self) -> MccView {
        MccView {
            bytes: Seq::empty(),
            state: parser::State::Header,
            pull: match self.pull {
                Some(p) => Some(PullState { offset: 0, ..p }),
                None => None,
            },
            segment: Segment { start: Some(0), stop: None },
            need_segment: true,
            pending: Seq::empty(),
            last_position: None,
            last_timecode: None,
            rate: None,
            raw: Seq::empty(),
            ..*self
        }
    }
}

/// Captions that go out.
#[derive(Debug)]
pub struct CaptionBuffer {
    pub data: Vec<u8>,
    pub timecode: ValidTimeCode,
    pub pts: u64,
    pub duration: Option<u64>,
    pub discont: bool,
}

/// What goes out of a line.
#[derive(Debug)]
pub struct LineOutput {
    pub events: Vec<Event>,
    pub buffer: CaptionBuffer,
    /// Whether the end of the segment was reached.
    pub send_eos: bool,
}

fn is_packet_wanted(data: &Vec<u8>, as_st2038: bool) -> (r: bool)
    ensures
        r == is_wanted(data@, as_st2038),
{
    if data.len() < 3 {
        return false;
    }
    if !as_st2038 && !(data[0] == 0x61 && (data[1] == 0x01 || data[1] == 0x02)) {
        return false;
    }
    data.len() >= 3 + data[2] as usize
}

/// Whether data is what goes out of a packet: its payload, or a packet of ancillary data.
pub open spec fn is_output(out: Seq<u8>, data: Seq<u8>, as_st2038: bool) -> bool {
    let payload = data.subrange(3, 3 + data[2]);
    if as_st2038 {
        crate::bits::bits_of(out) == crate::st2038anc_utils::packet(
            false,
            0xff,
            0xff,
            data[0],
            data[1],
            payload,
        )
    } else {
        out == payload
    }
}

/// Whether a segment ends before what begins and lasts so does.
pub open spec fn ends_after(pts: u64, duration: Option<u64>, stop: Option<u64>) -> bool {
    stop is Some && duration is Some && stop->0 < pts + duration->0
}

/// Reads a file.
#[derive(Debug)]
pub struct MccParse {
    pub lines: Lines,
    pub parser: MccParser,
    pub format: Option<Format>,
    pub need_caps: bool,
    pub need_segment: bool,
    pub pending_events: Vec<u64>,
    pub last_position: Option<u64>,
    pub last_timecode: Option<ValidTimeCode>,
    pub timecode_rate: Option<(u8, bool)>,
    pub segment: Segment,
    pub pull: Option<PullState>,
    pub seeking: bool,
    pub discont: bool,
    pub seek_seqnum: Option<u32>,
    pub last_raw_line: Vec<u8>,
    pub replay_last_line: bool,
    pub need_flush_stop: bool,
    /// Whether packets of ancillary data go out instead of captions.
    pub handle_as_st2038: bool,
}

impl View for MccParse {
    type V = MccView;

    open spec fn view(&self) -> MccView {
        MccView {
            bytes: self.lines.bytes(),
            state: self.parser.state(),
            format: self.format,
            need_caps: self.need_caps,
            need_segment: self.need_segment,
            pending: self.pending_events@,
            last_position: self.last_position,
            last_timecode: self.last_timecode,
            rate: self.timecode_rate,
            segment: self.segment,
            pull: self.pull,
            seeking: self.seeking,
            discont: self.discont,
            seqnum: self.seek_seqnum,
            raw: self.last_raw_line@,
            replay: self.replay_last_line,
            need_flush_stop: self.need_flush_stop,
            as_st2038: self.handle_as_st2038,
        }
    }
}

/// Reading a line leaves less to read.
pub proof fn lemma_step(view: MccView, drain: bool, scan_tc_rate: bool)
    ensures
        ({
            let (next, step) = view.step(drain, scan_tc_rate);
            step is None ==> if view.replay {
                next.bytes == view.bytes && !next.replay
            } else {
                next.bytes.len() < view.bytes.len()
            }
        }),
        view.step(drain, scan_tc_rate).0.as_st2038 == view.as_st2038,
{
    crate::caption_file::lemma_first_line(view.bytes, drain);
}

/// Events change nothing but what they tell.
pub proof fn law_events_keep_the_rest(view: MccView, ids: Option<(u8, u8)>, framerate: Framerate)
    ensures
        ({
            let (after, events) = view.events(ids, framerate);
            &&& after == (MccView {
                need_flush_stop: false,
                pull: after.pull,
                need_caps: after.need_caps,
                format: after.format,
                need_segment: false,
                pending: Seq::empty(),
                ..view
            })
            &&& after.pull is Some <==> view.pull is Some
            &&& events.len() >= view.pending.len()
        }),
        // events do not go out twice
        view.events(ids, framerate).0.events(ids, framerate).1 == Seq::<Event>::empty(),
{
    reveal(MccView::events);
    let (after, _) = view.events(ids, framerate);
    assert(after.events(ids, framerate).1 =~= Seq::<Event>::empty());
}

proof fn lemma_rate(state: parser::State, s: Seq<u8>, parse_payload: bool)
    ensures
        parser::line_in_state(state, s, parse_payload) matches Some(
            parser::MccLineView::TimeCodeRate(rate, _),
        ) ==> rate > 0,
{
    reveal(parser::line_in_state);
}

impl MccParse {
    /// Whether lines can be read, there is a rate where one is known, and times are times.
    pub open spec fn wf(&self) -> bool {
        &&& self.lines.wf()
        &&& self.timecode_rate matches Some(rate) ==> rate.0 > 0
        &&& self.last_position matches Some(p) ==> p <= MAX_TIME
        &&& self.last_timecode matches Some(tc) ==> tc.nsecs <= MAX_TIME
    }

    /// Nothing came yet.
    pub fn new(handle_as_st2038: bool) -> (r: Self)
        ensures
            r.wf(),
            r@ == (MccView {
                bytes: Seq::empty(),
                state: parser::State::Header,
                format: None,
                need_caps: true,
                need_segment: true,
                pending: Seq::empty(),
                last_position: None,
                last_timecode: None,
                rate: None,
                segment: Segment { start: Some(0), stop: None },
                pull: None,
                seeking: false,
                discont: false,
                seqnum: None,
                raw: Seq::empty(),
                replay: false,
                need_flush_stop: false,
                as_st2038: handle_as_st2038,
            }),
            r.lines.held() == 0,
    {
        let r = MccParse {
            lines: Lines::new(),
            parser: MccParser::new(),
            format: None,
            need_caps: true,
            need_segment: true,
            pending_events: Vec::new(),
            last_position: None,
            last_timecode: None,
            timecode_rate: None,
            segment: Segment { start: Some(0), stop: None },
            pull: None,
            seeking: false,
            discont: false,
            seek_seqnum: None,
            last_raw_line: Vec::new(),
            replay_last_line: false,
            need_flush_stop: false,
            handle_as_st2038,
        };
        assert(r@.pending =~= Seq::<u64>::empty());
        assert(r@.raw =~= Seq::<u8>::empty());
        r
    }

    /// Bytes came.
    pub fn push(&mut self, bytes: Vec<u8>)
        requires
            old(self).wf(),
            old(self).lines.held() + bytes@.len() <= usize::MAX,
        ensures
            final(self).wf(),
            final(self)@ == (MccView { bytes: old(self)@.bytes + bytes@, ..old(self)@ }),
            final(self).lines.held() == old(self).lines.held() + bytes@.len(),
    {
        self.lines.push(bytes);
    }

    /// Takes the next line. Says whether there was one.
    fn take_line(&mut self, drain: bool) -> (r: bool)
        requires
            old(self).wf(),
        ensures
            final(self).wf(),
            match old(self)@.next_line(drain) {
                Some(v) => r && final(self)@ == v,
                None => !r && final(self)@ == old(self)@,
            },
            final(self).lines.held() <= old(self).lines.held(),
    {
        if self.replay_last_line {
            self.replay_last_line = false;
            return true;
        }
        match self.lines.take(drain) {
            Some(line) => {
                self.last_raw_line = line;
                true
            },
            None => false,
        }
    }

    /// Reads a line, and says what is to be done then, if anything is.
    fn step(&mut self, drain: bool, scan_tc_rate: bool) -> (r: Option<Step>)
        requires
            old(self).wf(),
        ensures
            final(self).wf(),
            ({
                let (v, step) = old(self)@.step(drain, scan_tc_rate);
                &&& final(self)@ == v
                &&& match r {
                    Some(s) => step == Some(s@),
                    None => step is None,
                }
            }),
            final(self).lines.held() <= old(self).lines.held(),
    {
        if !self.take_line(drain) {
            if scan_tc_rate {
                return Some(Step::Failed(FlowError::Error));
            }
            if drain && self.pull.is_some() {
                return Some(Step::Failed(FlowError::Eos));
            }
            return Some(Step::Done);
        }
        let parse_payload: bool = !self.seeking;
        proof {
            lemma_rate(self@.state, self@.raw, parse_payload);
        }
        let line: MccLine = match self.parser.parse_line(
            self.last_raw_line.as_slice(),
            parse_payload,
        ) {
            Ok(line) => line,
            Err(_) => return Some(Step::Failed(FlowError::Error)),
        };
        match line {
            MccLine::Caption(tc, data) => {
                if scan_tc_rate {
                    return Some(Step::Failed(FlowError::Error));
                }
                match data {
                    Some(data) => {
                        if is_packet_wanted(&data, self.handle_as_st2038) {
                            return Some(Step::Caption { tc, data });
                        }
                    },
                    None => return Some(Step::Skipped { tc }),
                }
            },
            MccLine::TimeCodeRate(rate, df) => {
                self.timecode_rate = Some((rate, df));
                if scan_tc_rate {
                    return Some(Step::Done);
                }
            },
            _ => {},
        }
        None
    }

    /// Reads lines until something is to be done.
    pub fn handle_buffer(&mut self, drain: bool, scan_tc_rate: bool) -> (r: Step)
        requires
            old(self).wf(),
        ensures
            final(self).wf(),
            (final(self)@, r@) == old(self)@.scan(drain, scan_tc_rate),
            r matches Step::Caption { tc, data } ==> is_wanted(data@, old(self)@.as_st2038),
            final(self)@.as_st2038 == old(self)@.as_st2038,
            final(self).lines.held() <= old(self).lines.held(),
    {
        loop
            invariant
                self.wf(),
                self@.scan(drain, scan_tc_rate) == old(self)@.scan(drain, scan_tc_rate),
                self@.as_st2038 == old(self)@.as_st2038,
                self.lines.held() <= old(self).lines.held(),
            decreases
                    self@.bytes.len(),
                    (if self@.replay {
                        1int
                    } else {
                        0int
                    }),
        {
            proof {
                lemma_step(self@, drain, scan_tc_rate);
            }
            if let Some(step) = self.step(drain, scan_tc_rate) {
                return step;
            }
        }
    }

    /// The framerate, and whether frames are dropped.
    pub fn parse_timecode_rate(&self) -> (r: Result<(Framerate, bool), FlowError>)
        ensures
            match r {
                Ok((framerate, drop_frame)) => self.timecode_rate matches Some(rate)
                    && framerate == framerate_of(rate) && drop_frame == rate.1,
                Err(e) => e == FlowError::Error && self.timecode_rate is None,
            },
    {
        match self.timecode_rate {
            Some((rate, drop_frame)) => if drop_frame {
                Ok((Framerate { numer: rate as u32 * 1000, denom: 1001 }, true))
            } else {
                Ok((Framerate { numer: rate as u32, denom: 1 }, false))
            },
            None => Err(FlowError::Error),
        }
    }

    fn create_events(&mut self, ids: Option<(u8, u8)>, framerate: Framerate) -> (r: Vec<Event>)
        requires
            old(self).wf(),
            ids is Some && !old(self)@.as_st2038 ==> is_captions((ids->0).0, (ids->0).1),
        ensures
            final(self).wf(),
            (final(self)@, r@) == old(self)@.events(ids, framerate),
            final(self).lines == old(self).lines,
    {
        let mut events: Vec<Event> = Vec::new();
        self.push_flush_stop(&mut events);
        self.push_stream_start(&mut events);
        self.push_caps(ids, framerate, &mut events);
        self.push_segment(&mut events);
        self.push_pending(&mut events);
        proof {
            reveal(MccView::events);
            let e1 = old(self)@.flush_stop_event().1;
            assert(Seq::<Event>::empty() + e1 =~= e1);
        }
        events
    }

    fn push_flush_stop(&mut self, events: &mut Vec<Event>)
        requires
            old(self).wf(),
        ensures
            final(self).wf(),
            ({
                let (v, e) = old(self)@.flush_stop_event();
                final(self)@ == v && final(events)@ == old(events)@ + e
            }),
            final(self).lines == old(self).lines,
    {
        if self.need_flush_stop {
            events.push(Event::FlushStop { seqnum: self.seek_seqnum });
            self.need_flush_stop = false;
        }
        assert(events@ =~= old(events)@ + old(self)@.flush_stop_event().1);
    }

    fn push_segment(&mut self, events: &mut Vec<Event>)
        requires
            old(self).wf(),
        ensures
            final(self).wf(),
            ({
                let (v, e) = old(self)@.segment_event();
                final(self)@ == v && final(events)@ == old(events)@ + e
            }),
            final(self).lines == old(self).lines,
    {
        if self.need_segment {
            events.push(Event::Segment { seqnum: self.seek_seqnum });
            self.need_segment = false;
        }
        assert(events@ =~= old(events)@ + old(self)@.segment_event().1);
    }

    fn push_pending(&mut self, events: &mut Vec<Event>)
        requires
            old(self).wf(),
        ensures
            final(self).wf(),
            final(self)@ == (MccView { pending: Seq::empty(), ..old(self)@ }),
            final(events)@ == old(events)@ + crate::caption_file::deferred(old(self)@.pending),
            final(self).lines == old(self).lines,
    {
        push_deferred(events, &self.pending_events);
        self.pending_events = Vec::new();
        assert(self@.pending =~= Seq::<u64>::empty());
    }

    fn push_stream_start(&mut self, events: &mut Vec<Event>)
        requires
            old(self).wf(),
        ensures
            final(self).wf(),
            ({
                let (v, e) = old(self)@.stream_start_event();
                final(self)@ == v && final(events)@ == old(events)@ + e
            }),
            final(self).lines == old(self).lines,
    {
        if let Some(mut pull) = self.pull {
            if pull.need_stream_start {
                events.push(Event::StreamStart);
                pull.need_stream_start = false;
                self.pull = Some(pull);
            }
        }
        assert(events@ =~= old(events)@ + old(self)@.stream_start_event().1);
    }

    fn push_caps(
        &mut self,
        ids: Option<(u8, u8)>,
        framerate: Framerate,
        events: &mut Vec<Event>,
    )
        requires
            old(self).wf(),
            ids is Some && !old(self)@.as_st2038 ==> is_captions((ids->0).0, (ids->0).1),
        ensures
            final(self).wf(),
            ({
                let (v, e) = old(self)@.caps_event(ids, framerate);
                final(self)@ == v && final(events)@ == old(events)@ + e
            }),
            final(self).lines == old(self).lines,
    {
        if self.handle_as_st2038 {
            if self.need_caps {
                self.need_caps = false;
                events.push(Event::Caps { kind: CapsKind::St2038, framerate });
            }
        } else if let Some((did, sdid)) = ids {
            let (format, kind) = get_closedcaption_caps(did, sdid);
            let is_same: bool = match self.format {
                Some(f) => f == format,
                None => false,
            };
            if !is_same {
                self.format = Some(format);
                events.push(Event::Caps { kind, framerate });
            }
        }
        assert(events@ =~= old(events)@ + old(self)@.caps_event(ids, framerate).1);
    }

    /// Handles captions, of which the timecode stands for the given time, if it stands for one.
    pub fn handle_line(&mut self, tc: TimeCode, data: Vec<u8>, nsecs: Option<u64>) -> (r: Result<
        LineOutput,
        FlowError,
    >)
        requires
            old(self).wf(),
            is_wanted(data@, old(self)@.as_st2038),
            nsecs matches Some(n) ==> n <= MAX_TIME,
        ensures
            final(self).wf(),
            ({
                let was = old(self)@;
                let framerate = framerate_of(was.rate->0);
                let (v, events) = was.events(Some((data@[0], data@[1])), framerate);
                let timecode = was.timecode(tc, nsecs);
                match r {
                    Err(e) => {
                        &&& e == FlowError::Error
                        &&& was.rate is None || timecode is None
                        &&& final(self)@ == if was.rate is None {
                            was
                        } else {
                            v
                        }
                    },
                    Ok(out) => {
                        let pts = crate::caption_file::moved_on(
                            was.last_position,
                            (timecode->0).nsecs,
                        );
                        let duration = crate::clock::fits(
                            crate::caption_file::frame_len(framerate),
                        );
                        &&& was.rate is Some && timecode is Some
                        &&& final(self)@ == (MccView {
                            last_position: Some(pts),
                            last_timecode: timecode,
                            discont: false,
                            ..v
                        })
                        &&& out.events@ == events
                        &&& is_output(out.buffer.data@, data@, was.as_st2038)
                        &&& Some(out.buffer.timecode) == timecode
                        &&& out.buffer.pts == pts
                        &&& out.buffer.duration == duration
                        &&& out.buffer.discont == was.discont
                        &&& out.send_eos == ends_after(pts, duration, was.segment.stop)
                    },
                }
            }),
            final(self).lines == old(self).lines,
    {
        let (framerate, drop_frame) = match self.parse_timecode_rate() {
            Ok(rate) => rate,
            Err(e) => return Err(e),
        };
        let did: u8 = data[0];
        let sdid: u8 = data[1];
        let events: Vec<Event> = self.create_events(Some((did, sdid)), framerate);
        proof {
            law_events_keep_the_rest(old(self)@, Some((did, sdid)), framerate);
        }
        let timecode: ValidTimeCode = match count_timecode(
            tc,
            drop_frame,
            framerate,
            nsecs,
            &self.last_timecode,
        ) {
            Ok(timecode) => timecode,
            Err(e) => return Err(e),
        };
        let end: usize = 3 + data[2] as usize;
        let payload: &[u8] = vstd::slice::slice_subrange(data.as_slice(), 3, end);
        let out: Vec<u8> = if self.handle_as_st2038 {
            match convert_to_st2038_buffer(false, 0xff, 0xff, did, sdid, payload) {
                Ok(out) => out,
                Err(_) => {
                    assert(false);
                    return Err(FlowError::Error);
                },
            }
        } else {
            let mut out: Vec<u8> = Vec::new();
            crate::text::push_bytes(&mut out, payload);
            assert(out@ =~= payload@);
            out
        };
        let pts: u64 = move_on(self.last_position, timecode.nsecs);
        self.last_position = Some(pts);
        let discont: bool = self.discont;
        self.discont = false;
        let duration: Option<u64> = frame_duration(framerate);
        proof {
            crate::caption_file::lemma_frame_len(framerate);
        }
        self.last_timecode = Some(timecode);
        let send_eos: bool = match (self.segment.stop, duration) {
            (Some(stop), Some(d)) => stop < pts + d,
            _ => false,
        };
        Ok(
            LineOutput {
                events,
                buffer: CaptionBuffer { data: out, timecode, pts, duration, discont },
                send_eos,
            },
        )
    }

    /// Passes over captions that come before the position of a seek. Those that do not are read
    /// again.
    pub fn handle_skipped_line(&mut self, tc: TimeCode, nsecs: Option<u64>) -> (r: Result<
        (),
        FlowError,
    >)
        requires
            old(self).wf(),
            nsecs matches Some(n) ==> n <= MAX_TIME,
        ensures
            final(self).wf(),
            ({
                let was = old(self)@;
                let timecode = was.timecode(tc, nsecs);
                let found = was.segment.start is Some && (timecode->0).nsecs
                    >= was.segment.start->0;
                match r {
                    Err(e) => e == FlowError::Error && (was.rate is None || timecode is None)
                        && final(self)@ == was,
                    Ok(_) => {
                        &&& was.rate is Some && timecode is Some
                        &&& final(self)@ == (MccView {
                            last_timecode: timecode,
                            seeking: was.seeking && !found,
                            discont: was.discont || found,
                            replay: was.replay || found,
                            need_flush_stop: was.need_flush_stop || found,
                            ..was
                        })
                    },
                }
            }),
            final(self).lines == old(self).lines,
    {
        let (framerate, drop_frame) = match self.parse_timecode_rate() {
            Ok(rate) => rate,
            Err(e) => return Err(e),
        };
        let timecode: ValidTimeCode = match count_timecode(
            tc,
            drop_frame,
            framerate,
            nsecs,
            &self.last_timecode,
        ) {
            Ok(timecode) => timecode,
            Err(e) => return Err(e),
        };
        self.last_timecode = Some(timecode);
        if let Some(start) = self.segment.start {
            if timecode.nsecs >= start {
                self.seeking = false;
                self.discont = true;
                self.replay_last_line = true;
                self.need_flush_stop = true;
            }
        }
        Ok(())
    }

    /// The events of the end, where a timecode rate is known.
    pub fn push_eos(&mut self) -> (r: Result<Vec<Event>, FlowError>)
        requires
            old(self).wf(),
        ensures
            final(self).wf(),
            ({
                let was = MccView {
                    need_flush_stop: old(self)@.need_flush_stop || old(self)@.seeking,
                    ..old(self)@
                };
                let (v, events) = was.events(None, framerate_of(was.rate->0));
                match r {
                    Ok(out) => was.rate is Some && final(self)@ == v && out@ == events.push(
                        Event::Eos { seqnum: was.seqnum },
                    ),
                    Err(e) => was.rate is None && e == FlowError::Error && final(self)@ == was,
                }
            }),
            final(self).lines == old(self).lines,
    {
        if self.seeking {
            self.need_flush_stop = true;
        }
        match self.parse_timecode_rate() {
            Ok((framerate, _)) => {
                let ghost was = self@;
                let mut events: Vec<Event> = self.create_events(None, framerate);
                proof {
                    law_events_keep_the_rest(was, None, framerate);
                }
                events.push(Event::Eos { seqnum: self.seek_seqnum });
                Ok(events)
            },
            Err(e) => Err(e),
        }
    }

    /// Where the next block of the file begins, and whether the timecode rate is still looked
    /// for.
    pub fn next_block(&mut self) -> (r: (u64, bool))
        requires
            old(self).wf(),
            old(self).pull matches Some(p) && p.offset + BLOCK_SIZE <= u64::MAX,
        ensures
            final(self).wf(),
            r.0 == (old(self).pull->0).offset,
            r.1 == (old(self).timecode_rate is None && (old(self).pull->0).duration is None),
            final(self)@ == (MccView {
                pull: Some(
                    PullState {
                        offset: ((old(self).pull->0).offset + BLOCK_SIZE) as u64,
                        ..old(self).pull->0
                    },
                ),
                ..old(self)@
            }),
            final(self).lines == old(self).lines,
    {
        match self.pull {
            Some(mut pull) => {
                let offset: u64 = pull.offset;
                let scan: bool = self.timecode_rate.is_none() && pull.duration.is_none();
                pull.offset = offset + BLOCK_SIZE;
                self.pull = Some(pull);
                (offset, scan)
            },
            None => {
                assert(false);
                (0, false)
            },
        }
    }

    /// Forgets everything that was read.
    pub fn flush(&mut self)
        ensures
            final(self).wf(),
            final(self)@ == old(self)@.flushed(),
            final(self).lines.held() == 0,
    {
        self.lines.clear();
        self.parser.reset();
        if let Some(mut pull) = self.pull {
            pull.offset = 0;
            self.pull = Some(pull);
        }
        self.segment = Segment { start: Some(0), stop: None };
        self.need_segment = true;
        self.pending_events = Vec::new();
        self.last_position = None;
        self.last_timecode = None;
        self.timecode_rate = None;
        self.last_raw_line = Vec::new();
        assert(self@ =~= old(self)@.flushed());
    }

    /// Begins to look for another position, where that is possible. Says the bounds of the
    /// segment to be played.
    pub fn perform_seek(&mut self, seek: &Seek) -> (r: Option<(Option<u64>, Option<u64>)>)
        requires
            old(self).wf(),
        ensures
            final(self).wf(),
            match r {
                None => (old(self).pull is None || !crate::caption_file::is_possible(*seek))
                    && final(self)@ == old(self)@ && final(self).lines == old(self).lines,
                Some(bounds) => {
                    &&& old(self).pull is Some && crate::caption_file::is_possible(*seek)
                    &&& bounds.0 == crate::caption_file::bound(
                        seek.start_type,
                        seek.start,
                        (old(self).pull->0).duration,
                    )
                    &&& bounds.1 == crate::caption_file::bound(
                        seek.stop_type,
                        seek.stop,
                        (old(self).pull->0).duration,
                    )
                    &&& final(self)@ == (MccView {
                        seeking: true,
                        seqnum: Some(seek.seqnum),
                        ..old(self)@.flushed()
                    })
                    &&& final(self).lines.held() == 0
                },
            },
    {
        let duration: Option<u64> = match self.pull {
            Some(pull) => pull.duration,
            None => return None,
        };
        if !check_seek(seek) {
            return None;
        }
        let start: Option<u64> = clip_bound(seek.start_type, seek.start, duration);
        let stop: Option<u64> = clip_bound(seek.stop_type, seek.stop, duration);
        self.seeking = true;
        self.seek_seqnum = Some(seek.seqnum);
        self.flush();
        Some((start, stop))
    }
}

/// The timecodes of the captions in bytes, line by line. What is no caption is passed over.
pub open spec fn caption_timecodes(bytes: Seq<u8>) -> Seq<TimeCode>
    decreases bytes.len(),
{
    proof {
        crate::caption_file::lemma_first_line(bytes, true);
    }
    match crate::caption_file::first_line(bytes, true) {
        None => Seq::empty(),
        Some(line) => {
            let rest = caption_timecodes(bytes.skip(line.len() as int));
            match parser::caption_line(line, false) {
                Some((tc, _)) => seq![tc] + rest,
                None => rest,
            }
        },
    }
}

/// Where captions are expected, a line is one or it is refused.
proof fn lemma_in_captions(line: Seq<u8>)
    ensures
        parser::line_in_state(parser::State::Captions, line, false) == match parser::caption_line(
            line,
            false,
        ) {
            Some((tc, payload)) => Some(parser::MccLineView::Caption(tc, payload)),
            None => None,
        },
{
    reveal(parser::line_in_state);
}

/// Looks for the timecodes of captions in the blocks at the end of a file, which were read from
/// its end on.
pub fn scan_timecodes(blocks: &Vec<Vec<u8>>) -> (r: Vec<TimeCode>)
    ensures
        r@ == caption_timecodes(
            crate::caption_file::joined(crate::caption_file::block_views(blocks@)),
        ),
{
    let mut found: Vec<TimeCode> = Vec::new();
    let bytes: Vec<u8> = join_blocks(blocks);
    let ghost all = bytes@;
    let mut lines: Lines = Lines::new();
    assert(bytes.len() == all.len());
    lines.push(bytes);
    let mut parser: MccParser = MccParser::new_scan_captions();
    let mut more: bool = true;
    assert(lines.bytes() =~= all);
    assert(found@ + caption_timecodes(all) =~= caption_timecodes(all));
    while more
        invariant
            lines.wf(),
            parser.state() == parser::State::Captions,
            found@ + caption_timecodes(lines.bytes()) == caption_timecodes(all),
            !more ==> found@ == caption_timecodes(all),
        decreases
                (if more {
                    1int
                } else {
                    0int
                }),
                lines.bytes().len(),
    {
        let ghost before = lines.bytes();
        let ghost was = found@;
        proof {
            crate::caption_file::lemma_first_line(before, true);
        }
        match lines.take(true) {
            Some(line) => {
                proof {
                    lemma_in_captions(line@);
                }
                if let Ok(MccLine::Caption(tc, _)) = parser.parse_line(line.as_slice(), false) {
                    found.push(tc);
                    assert(was + (seq![tc] + caption_timecodes(lines.bytes())) =~= found@
                        + caption_timecodes(lines.bytes()));
                }
            },
            None => {
                more = false;
                assert(found@ + Seq::<TimeCode>::empty() =~= found@);
            },
        }
    }
    found
}

/// Every line is read once, unless it is to be read again: what was read last and what is left
/// is what there was.
pub proof fn law_line_and_rest(view: MccView, drain: bool)
    requires
        !view.replay,
    ensures
        view.next_line(drain) matches Some(next) ==> next.raw + next.bytes == view.bytes
            && next.raw.len() > 0,
{
    crate::caption_file::lemma_first_line(view.bytes, drain);
    if let Some(next) = view.next_line(drain) {
        assert(next.raw + next.bytes =~= view.bytes);
    }
}

} // verus!
