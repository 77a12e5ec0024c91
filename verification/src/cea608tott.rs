//! Turns captions of line 21 into subtitles.
use crate::cea608::{decode, new_decoder, CaptionCode, Cea608Mode, CaptionCommand};
use crate::cea608utils::Cea608Frame;
use crate::clock::{push_time, FlowError};
use crate::text::{push_dec_chars, same_bytes};
use vstd::prelude::*;

pub mod laws;

verus! {

/// A format of subtitles.
#[derive(Clone, Copy, Debug, PartialEq, Eq, Structural)]
pub enum Format {
    Srt,
    Vtt,
    Raw,
}

impl Format {
    /// The name of the format.
    pub open spec fn named(&self) -> Seq<u8> {
        match self {
            Format::Vtt => crate::text::text("application/x-subtitle-vtt"),
            Format::Srt => crate::text::text("application/x-subtitle"),
            Format::Raw => crate::text::text("text/x-raw"),
        }
    }

    /// The format with the given name.
    pub fn from_caps(name: &[u8]) -> (r: Option<Format>)
        ensures
            r == if name@ == Format::Vtt.named() {
                Some(Format::Vtt)
            } else if name@ == Format::Srt.named() {
                Some(Format::Srt)
            } else if name@ == Format::Raw.named() {
                Some(Format::Raw)
            } else {
                None
            },
    {
        if same_bytes(name, "application/x-subtitle-vtt".as_bytes()) {
            Some(Format::Vtt)
        } else if same_bytes(name, "application/x-subtitle".as_bytes()) {
            Some(Format::Srt)
        } else if same_bytes(name, "text/x-raw".as_bytes()) {
            Some(Format::Raw)
        } else {
            None
        }
    }
}

/// Text with the time at which it is shown.
#[derive(Debug)]
pub struct Cue {
    pub timestamp: u64,
    pub text: String,
}

/// Text with the time at which it is shown.
#[verifier::ext_equal]
pub struct CueView {
    pub timestamp: u64,
    pub text: Seq<char>,
}

impl View for Cue {
    type V = CueView;

    open spec fn view(&self) -> CueView {
        CueView { timestamp: self.timestamp, text: self.text@ }
    }
}

/// A cue that may be there.
pub open spec fn cue_view(cue: Option<Cue>) -> Option<CueView> {
    match cue {
        Some(c) => Some(c@),
        None => None,
    }
}

/// Data that goes out.
#[derive(Debug)]
pub struct TextBuffer {
    pub pts: u64,
    pub duration: Option<u64>,
    pub data: String,
}

/// Data that goes out.
#[verifier::ext_equal]
pub struct TextBufferView {
    pub pts: u64,
    pub duration: Option<u64>,
    pub data: Seq<char>,
}

impl View for TextBuffer {
    type V = TextBufferView;

    open spec fn view(&self) -> TextBufferView {
        TextBufferView { pts: self.pts, duration: self.duration, data: self.data@ }
    }
}

/// A cue as it goes out, after a header where one is due.
#[derive(Debug)]
pub struct Output {
    pub header: Option<TextBuffer>,
    pub buffer: TextBuffer,
}

/// A cue as it goes out, after a header where one is due.
#[verifier::ext_equal]
pub struct OutputView {
    pub header: Option<TextBufferView>,
    pub buffer: TextBufferView,
}

impl View for Output {
    type V = OutputView;

    open spec fn view(&self) -> OutputView {
        OutputView {
            header: match self.header {
                Some(h) => Some(h@),
                None => None,
            },
            buffer: self.buffer@,
        }
    }
}

/// What goes out, if anything does.
pub open spec fn output_view(output: Option<Output>) -> Option<OutputView> {
    match output {
        Some(o) => Some(o@),
        None => None,
    }
}

/// What is to be done with a buffer.
#[derive(Debug)]
pub enum Action {
    /// Nothing.
    Pass,
    /// A cue goes out.
    Output(Output),
    /// Lines would have to roll off the top of the screen.
    Unrollable,
}

/// The end of a line.
pub open spec fn line_end() -> Seq<char> {
    seq!['\r', '\n']
}

/// From when until when a cue is shown.
pub open spec fn range_text(timestamp: int, duration: int, point: char) -> Seq<char> {
    crate::clock::time_text(timestamp, point) + " --> "@ + crate::clock::time_text(
        timestamp + duration,
        point,
    ) + line_end()
}

/// What comes first.
pub open spec fn vtt_header() -> Seq<char> {
    "WEBVTT"@ + line_end() + line_end()
}

/// A cue in the given format.
pub open spec fn cue_text(
    format: Format,
    timestamp: int,
    duration: int,
    index: u64,
    text: Seq<char>,
) -> Seq<char> {
    match format {
        Format::Vtt => range_text(timestamp, duration, '.') + text + line_end() + line_end(),
        Format::Srt => crate::text::chars(crate::text::dec_padded(index as nat, 0)) + line_end()
            + range_text(timestamp, duration, ',') + text + line_end() + line_end(),
        Format::Raw => text,
    }
}

fn push_line_end(out: &mut String)
    ensures
        final(out)@ == old(out)@ + line_end(),
{
    out.push('\r');
    out.push('\n');
    assert(out@ =~= old(out)@ + line_end());
}

fn push_range(out: &mut String, timestamp: u64, duration: u64, point: char)
    requires
        timestamp + duration <= u64::MAX,
    ensures
        final(out)@ == old(out)@ + range_text(timestamp as int, duration as int, point),
{
    push_time(out, timestamp, point);
    out.push_str(" --> ");
    push_time(out, timestamp + duration, point);
    push_line_end(out);
    assert(out@ =~= old(out)@ + range_text(timestamp as int, duration as int, point));
}

fn create_vtt_header(timestamp: u64) -> (r: TextBuffer)
    ensures
        r@ == (TextBufferView { pts: timestamp, duration: None, data: vtt_header() }),
{
    let mut data: String = String::new();
    data.push_str("WEBVTT");
    push_line_end(&mut data);
    push_line_end(&mut data);
    assert(data@ =~= vtt_header());
    TextBuffer { pts: timestamp, duration: None, data }
}

fn create_vtt_buffer(timestamp: u64, duration: u64, text: &str) -> (r: String)
    requires
        timestamp + duration <= u64::MAX,
    ensures
        r@ == cue_text(Format::Vtt, timestamp as int, duration as int, 0, text@),
{
    let mut data: String = String::new();
    push_range(&mut data, timestamp, duration, '.');
    data.push_str(text);
    push_line_end(&mut data);
    push_line_end(&mut data);
    assert(data@ =~= cue_text(Format::Vtt, timestamp as int, duration as int, 0, text@));
    data
}

fn create_srt_buffer(timestamp: u64, duration: u64, index: u64, text: &str) -> (r: String)
    requires
        timestamp + duration <= u64::MAX,
    ensures
        r@ == cue_text(Format::Srt, timestamp as int, duration as int, index, text@),
{
    let mut data: String = String::new();
    push_dec_chars(&mut data, index, 0);
    push_line_end(&mut data);
    push_range(&mut data, timestamp, duration, ',');
    data.push_str(text);
    push_line_end(&mut data);
    push_line_end(&mut data);
    assert(data@ =~= cue_text(Format::Srt, timestamp as int, duration as int, index, text@));
    data
}

/// What is known of the captions.
pub struct Cea608ToTt {
    pub format: Option<Format>,
    pub wrote_header: bool,
    pub state: cea608_types::Cea608State,
    pub frame: Cea608Frame,
    /// The text that is shown, which goes out once its end is known.
    pub previous_text: Option<Cue>,
    pub index: u64,
}

/// What is known of the captions.
#[verifier::ext_equal]
pub struct TtView {
    pub format: Option<Format>,
    pub wrote_header: bool,
    pub frame: crate::cea608utils::FrameView,
    pub previous: Option<CueView>,
    pub index: u64,
}

/// Whether what is shown goes out once the command was carried out. While a line is written it
/// does not, unless it is painted.
pub open spec fn is_complete(command: CaptionCommand, mode: Option<Cea608Mode>) -> bool {
    ||| mode == Some(Cea608Mode::PaintOn)
    ||| command is EraseDisplay
    ||| command is Backspace
    ||| command is EndOfCaption
    ||| command is DeleteToEndOfRow
    ||| command is CarriageReturn
}

impl TtView {
    /// A cue goes out, which ends that long after its beginning.
    pub open spec fn emit(&self, format: Format, cue: CueView, duration: int) -> (
        TtView,
        OutputView,
    ) {
        (
            TtView { wrote_header: true, index: (self.index + 1) as u64, ..*self },
            OutputView {
                header: if !self.wrote_header && format == Format::Vtt {
                    Some(
                        TextBufferView {
                            pts: cue.timestamp,
                            duration: None,
                            data: vtt_header(),
                        },
                    )
                } else {
                    None
                },
                buffer: TextBufferView {
                    pts: cue.timestamp,
                    duration: Some(duration as u64),
                    data: cue_text(
                        format,
                        cue.timestamp as int,
                        duration,
                        self.index,
                        cue.text,
                    ),
                },
            },
        )
    }

    /// The text that is shown.
    pub open spec fn text(&self) -> Seq<char> {
        crate::cea608utils::lines_text(self.frame.display, self.frame.display.len() as int)
    }

    /// What goes out once other text is shown: the text until then.
    pub open spec fn replace(&self, format: Format, pts: u64, next: Option<CueView>) -> (
        TtView,
        Option<OutputView>,
    ) {
        let v = TtView { previous: next, ..*self };
        match self.previous {
            Some(cue) => {
                let (after, out) = v.emit(
                    format,
                    cue,
                    if pts >= cue.timestamp {
                        pts - cue.timestamp
                    } else {
                        0
                    },
                );
                (after, Some(out))
            },
            None => (v, None),
        }
    }

    /// Carries out a code that comes at the given time.
    pub open spec fn handle(&self, format: Format, code: CaptionCode, pts: u64) -> (
        TtView,
        Option<OutputView>,
    ) {
        let tuned = self.frame.tuned(code);
        let v = TtView { frame: self.frame.push_code(code), ..*self };
        if tuned.channel == Some(code.channel) && tuned.is_changed_by(code.command) {
            if v.text().len() == 0 {
                v.replace(format, pts, None)
            } else if is_complete(code.command, v.frame.mode) {
                v.replace(format, pts, Some(CueView { timestamp: pts, text: v.text() }))
            } else {
                (v, None)
            }
        } else {
            (v, None)
        }
    }

    /// The end: the text that is shown goes out.
    pub open spec fn eos(&self, format: Format) -> (TtView, Option<OutputView>) {
        let v = TtView { previous: None, ..*self };
        match self.previous {
            Some(cue) => {
                let (after, out) = v.emit(format, cue, 0);
                (after, Some(out))
            },
            None => (v, None),
        }
    }
}

impl View for Cea608ToTt {
    type V = TtView;

    open spec fn view(&self) -> TtView {
        TtView {
            format: self.format,
            wrote_header: self.wrote_header,
            frame: self.frame@,
            previous: cue_view(self.previous_text),
            index: self.index,
        }
    }
}

impl Cea608ToTt {
    /// Whether the screen is one, and text only waits where a format was agreed on.
    pub open spec fn wf(&self) -> bool {
        &&& self.frame@.wf()
        &&& self.previous_text is Some ==> self.format is Some
    }

    /// Nothing is known yet.
    pub fn new() -> (r: Self)
        ensures
            r.wf(),
            r.format is None,
            !r.wrote_header,
            r.previous_text is None,
            r.index == 1,
            r.frame@ == crate::cea608utils::empty_frame(),
            crate::cea608::decoder_view(r.state) == crate::cea608::empty_decoder(),
    {
        Cea608ToTt {
            format: None,
            wrote_header: false,
            state: new_decoder(),
            frame: Cea608Frame::new(),
            previous_text: None,
            index: 1,
        }
    }

    /// Agrees on a format, unless there was one before. Says whether there is one.
    pub fn negotiate(&mut self, name: &[u8]) -> (r: bool)
        requires
            old(self).wf(),
        ensures
            final(self).wf(),
            r == (final(self).format is Some),
            final(self)@ == (TtView { format: final(self).format, ..old(self)@ }),
            final(self).state == old(self).state,
            old(self).format is Some ==> final(self).format == old(self).format,
            old(self).format is None ==> match final(self).format {
                Some(f) => name@ == f.named(),
                None => name@ != Format::Vtt.named() && name@ != Format::Srt.named() && name@
                    != Format::Raw.named(),
            },
    {
        if self.format.is_none() {
            self.format = Format::from_caps(name);
        }
        self.format.is_some()
    }

    fn emit(&mut self, format: Format, cue: Cue, duration: u64) -> (r: Output)
        requires
            old(self).wf(),
            cue.timestamp + duration <= u64::MAX,
            old(self).index < u64::MAX,
        ensures
            final(self).wf(),
            (final(self)@, r@) == old(self)@.emit(format, cue@, duration as int),
            final(self).state == old(self).state,
    {
        let header: Option<TextBuffer> = if !self.wrote_header {
            match format {
                Format::Vtt => Some(create_vtt_header(cue.timestamp)),
                Format::Srt | Format::Raw => None,
            }
        } else {
            None
        };
        self.wrote_header = true;
        let timestamp: u64 = cue.timestamp;
        let data: String = match format {
            Format::Vtt => create_vtt_buffer(timestamp, duration, cue.text.as_str()),
            Format::Srt => create_srt_buffer(
                timestamp,
                duration,
                self.index,
                cue.text.as_str(),
            ),
            Format::Raw => cue.text,
        };
        self.index += 1;
        Output { header, buffer: TextBuffer { pts: timestamp, duration: Some(duration), data } }
    }

    fn replace(&mut self, format: Format, pts: u64, next: Option<Cue>) -> (r: Option<Output>)
        requires
            old(self).wf(),
            old(self).format is Some,
            old(self).index < u64::MAX,
        ensures
            final(self).wf(),
            (final(self)@, output_view(r)) == old(self)@.replace(format, pts, cue_view(next)),
            final(self).state == old(self).state,
    {
        let mut previous: Option<Cue> = next;
        std::mem::swap(&mut previous, &mut self.previous_text);
        match previous {
            Some(cue) => {
                let duration: u64 = if pts >= cue.timestamp {
                    pts - cue.timestamp
                } else {
                    0
                };
                Some(self.emit(format, cue, duration))
            },
            None => None,
        }
    }

    /// Carries out a code that comes at the given time. A cue may go out.
    pub fn handle_code(&mut self, format: Format, code: CaptionCode, pts: u64) -> (r: Option<Output>)
        requires
            old(self).wf(),
            old(self).format is Some,
            old(self).index < u64::MAX,
            crate::cea608::is_command(code.command),
            old(self).frame@.takes(code),
        ensures
            final(self).wf(),
            (final(self)@, output_view(r)) == old(self)@.handle(format, code, pts),
            final(self).state == old(self).state,
    {
        if !self.frame.push_code(code) {
            return None;
        }
        let text: String = self.frame.get_text();
        if text.as_str().unicode_len() == 0 {
            return self.replace(format, pts, None);
        }
        let is_paint_on: bool = match self.frame.mode() {
            Some(mode) => mode == Cea608Mode::PaintOn,
            None => false,
        };
        let is_complete: bool = match code.command {
            CaptionCommand::EraseDisplay
            | CaptionCommand::Backspace
            | CaptionCommand::EndOfCaption
            | CaptionCommand::DeleteToEndOfRow
            | CaptionCommand::CarriageReturn => true,
            _ => false,
        };
        if is_paint_on || is_complete {
            self.replace(format, pts, Some(Cue { timestamp: pts, text }))
        } else {
            None
        }
    }

    /// What is to be done with a buffer: it has to be timed. Only its first two bytes count.
    pub fn sink_chain(&mut self, pts: Option<u64>, data: &[u8]) -> (r: Result<Action, FlowError>)
        requires
            old(self).wf(),
            old(self).index < u64::MAX,
        ensures
            final(self).wf(),
            ({
                let view = crate::cea608::decoder_view(old(self).state);
                let is_pair = data@.len() >= 2 && crate::cea608::odd_parity(data@[0])
                    && crate::cea608::odd_parity(data@[1]);
                let code = crate::cea608::decoded(view, data@[0], data@[1]);
                let was = old(self)@;
                let (after, out) = if is_pair && code is Some {
                    was.handle(was.format->0, code->0, pts->0)
                } else {
                    (was, None)
                };
                match r {
                    Err(FlowError::NotNegotiated) => was.format is None && final(self)@ == was
                        && final(self).state == old(self).state,
                    Err(e) => was.format is Some && pts is None && e == FlowError::Error
                        && final(self)@ == was && final(self).state == old(self).state,
                    Ok(action) => {
                        &&& was.format is Some && pts is Some
                        &&& match action {
                            Action::Pass => out is None && final(self)@ == after,
                            Action::Output(o) => out == Some(o@) && final(self)@ == after,
                            Action::Unrollable => is_pair && code is Some && final(self)@ == was,
                        }
                        &&& action is Unrollable <==> is_pair && code is Some && !was.frame.takes(
                            code->0,
                        )
                        &&& crate::cea608::decoder_view(final(self).state) == if is_pair {
                            crate::cea608::after_pair(view, data@[0], data@[1])
                        } else {
                            view
                        }
                    },
                }
            }),
    {
        let format: Format = match self.format {
            Some(f) => f,
            None => return Err(FlowError::NotNegotiated),
        };
        let pts: u64 = match pts {
            Some(p) => p,
            None => return Err(FlowError::Error),
        };
        if data.len() < 2 {
            return Ok(Action::Pass);
        }
        match decode(&mut self.state, data[0], data[1]) {
            Ok(Some(code)) => {
                if !self.frame.takes(&code) {
                    return Ok(Action::Unrollable);
                }
                match self.handle_code(format, code, pts) {
                    Some(output) => Ok(Action::Output(output)),
                    None => Ok(Action::Pass),
                }
            },
            _ => Ok(Action::Pass),
        }
    }

    /// Forgets what is shown.
    pub fn flush_stop(&mut self)
        ensures
            final(self).wf(),
            final(self)@ == (TtView {
                frame: crate::cea608utils::empty_frame(),
                previous: None,
                ..old(self)@
            }),
            crate::cea608::decoder_view(final(self).state) == crate::cea608::empty_decoder(),
    {
        self.frame = Cea608Frame::new();
        self.state = new_decoder();
        self.previous_text = None;
    }

    /// The end: the text that is shown goes out, if there is some.
    pub fn eos(&mut self) -> (r: Option<Output>)
        requires
            old(self).wf(),
            old(self).index < u64::MAX,
        ensures
            final(self).wf(),
            (final(self)@, output_view(r)) == old(self)@.eos(old(self)@.format->0),
            final(self).state == old(self).state,
    {
        match (self.previous_text.take(), self.format) {
            (Some(cue), Some(format)) => Some(self.emit(format, cue, 0)),
            _ => None,
        }
    }
}

/// A cue ends when other text is shown: where times do not go back, the end of the cue that goes
/// out is the time of the code that made it go out, and what is shown then is the next cue.
pub proof fn law_cues_follow_each_other(view: TtView, format: Format, code: CaptionCode, pts: u64)
    requires
        view.previous matches Some(cue) && cue.timestamp <= pts,
    ensures
        ({
            let (after, out) = view.handle(format, code, pts);
            &&& out matches Some(o) ==> {
                &&& o.buffer.pts == (view.previous->0).timestamp
                &&& o.buffer.pts + o.buffer.duration->0 == pts
                &&& after.previous matches Some(next) ==> next.timestamp == pts && next.text
                    == after.text()
            }
            &&& out is None ==> after.previous == view.previous
        }),
{
}

/// The header comes once, before the first cue, and cues are counted.
pub proof fn law_one_header(view: TtView, format: Format, code: CaptionCode, pts: u64)
    requires
        view.index < u64::MAX,
    ensures
        ({
            let (after, out) = view.handle(format, code, pts);
            &&& out matches Some(o) ==> {
                &&& o.header is Some <==> format == Format::Vtt && !view.wrote_header
                &&& after.wrote_header
                &&& after.index == view.index + 1
            }
            &&& out is None ==> after.wrote_header == view.wrote_header && after.index
                == view.index
        }),
{
}

} // verus!
