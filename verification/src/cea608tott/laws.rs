//! What holds of cues as a whole.
use super::{CueView, Format, OutputView, TtView};
use crate::cea608::{CaptionCode, CaptionCommand, Cea608Mode};
use vstd::prelude::*;

verus! {

/// Whether a code is for the captions that are followed.
pub open spec fn is_followed(view: TtView, code: CaptionCode) -> bool {
    view.frame.channel is None || view.frame.channel == Some(code.channel)
}

/// Whether a code ends what was shown before it: it erases it, shows what was prepared, rolls lines
/// up, takes text away, or comes while text is painted.
pub open spec fn ends_what_is_shown(view: TtView, command: CaptionCommand) -> bool {
    match command {
        CaptionCommand::EraseDisplay => true,
        CaptionCommand::EndOfCaption => true,
        CaptionCommand::CarriageReturn => view.frame.mode == Some(Cea608Mode::RollUp2)
            || view.frame.mode == Some(Cea608Mode::RollUp3) || view.frame.mode == Some(
            Cea608Mode::RollUp4,
        ),
        CaptionCommand::Backspace => view.frame.mode is Some && view.frame.column > 0,
        CaptionCommand::Text(text) => view.frame.mode == Some(Cea608Mode::PaintOn) && (
        text.char1 is Some || text.char2 is Some),
        _ => false,
    }
}

/// Once a code came that ends what was shown, the cue that waits is the text that is on screen then,
/// from the time of the code on. Nothing waits where there is no text. The cue that waited goes out,
/// and ends at that time.
pub proof fn law_shown_text_waits(view: TtView, format: Format, code: CaptionCode, pts: u64)
    requires
        view.index < u64::MAX,
        is_followed(view, code),
        ends_what_is_shown(view, code.command),
        view.previous matches Some(cue) ==> cue.timestamp <= pts,
    ensures
        ({
            let (after, out) = view.handle(format, code, pts);
            let text = crate::cea608utils::lines_text(
                after.frame.display,
                after.frame.display.len() as int,
            );
            &&& after.frame == view.frame.push_code(code)
            &&& text.len() > 0 ==> after.previous == Some(CueView { timestamp: pts, text })
            &&& text.len() == 0 ==> after.previous is None
            &&& match (view.previous, out) {
                (Some(cue), Some(o)) => {
                    &&& o.buffer.pts == cue.timestamp
                    &&& o.buffer.duration == Some((pts - cue.timestamp) as u64)
                    &&& is_written(o.buffer.data, format, cue.text)
                },
                (None, None) => true,
                _ => false,
            }
        }),
{
    let (after, out) = view.handle(format, code, pts);
    if let (Some(cue), Some(o)) = (view.previous, out) {
        lemma_is_written(format, cue.timestamp as int, pts - cue.timestamp, view.index, cue.text);
    }
}

/// Whether text stands in the data of a cue. Raw data is the text alone.
pub open spec fn is_written(data: Seq<char>, format: Format, text: Seq<char>) -> bool {
    &&& format == Format::Raw ==> data == text
    &&& format != Format::Raw ==> exists|n: int|
        0 <= n && n + text.len() <= data.len() && #[trigger] data.subrange(n, n + text.len())
            == text && data.skip(n + text.len()) == seq!['\r', '\n', '\r', '\n']
}

proof fn lemma_is_written(
    format: Format,
    timestamp: int,
    duration: int,
    index: u64,
    text: Seq<char>,
)
    ensures
        is_written(super::cue_text(format, timestamp, duration, index, text), format, text),
{
    let data = super::cue_text(format, timestamp, duration, index, text);
    let n = data.len() - text.len() - 4;
    if format != Format::Raw {
        assert(data.subrange(n, n + text.len()) =~= text);
        assert(data.skip(n + text.len()) =~= seq!['\r', '\n', '\r', '\n']);
    }
}

/// While text is prepared, or written to a line that rolls up later, nothing goes out and the cue
/// that waits stays, as long as there is text on screen.
pub proof fn law_line_is_not_cut_up(view: TtView, format: Format, code: CaptionCode, pts: u64)
    requires
        is_followed(view, code),
        view.frame.mode is Some,
        view.frame.mode != Some(Cea608Mode::PaintOn),
        code.command is Text || code.command is MidRowChange || code.command is Preamble
            || code.command is TabOffset || code.command is EraseNonDisplay,
        ({
            let display = view.frame.push_code(code).display;
            crate::cea608utils::lines_text(display, display.len() as int).len() > 0
        }),
    ensures
        ({
            let (after, out) = view.handle(format, code, pts);
            &&& out is None
            &&& after.previous == view.previous
            &&& after.frame == view.frame.push_code(code)
        }),
{
}

/// The cue goes out in its format: SubRip data begins with the number of the cue, and both timed
/// formats name the times at which the text begins and ends before the text.
pub proof fn law_cue_names_its_times(
    timestamp: int,
    duration: int,
    index: u64,
    text: Seq<char>,
)
    ensures
        ({
            let from = crate::clock::time_text(timestamp, '.');
            let to = crate::clock::time_text(timestamp + duration, '.');
            let vtt = super::cue_text(Format::Vtt, timestamp, duration, index, text);
            &&& vtt.take(from.len() as int) == from
            &&& vtt.subrange(
                from.len() as int,
                (from + " --> "@).len() as int,
            ) == " --> "@
            &&& vtt.subrange(
                (from + " --> "@).len() as int,
                (from + " --> "@ + to).len() as int,
            ) == to
            &&& vtt.skip((from + " --> "@ + to).len() as int) == seq!['\r', '\n'] + text + seq![
                '\r',
                '\n',
                '\r',
                '\n',
            ]
        }),
        ({
            let number = crate::text::chars(crate::text::dec_padded(index as nat, 0));
            let from = crate::clock::time_text(timestamp, ',');
            let to = crate::clock::time_text(timestamp + duration, ',');
            let srt = super::cue_text(Format::Srt, timestamp, duration, index, text);
            &&& srt == number + seq!['\r', '\n'] + from + " --> "@ + to + seq!['\r', '\n'] + text
                + seq!['\r', '\n', '\r', '\n']
            &&& crate::text::decimal(
                crate::text::dec_padded(index as nat, 0),
                0,
                crate::text::dec_padded(index as nat, 0).len() as int,
            ) == index
        }),
        super::cue_text(Format::Raw, timestamp, duration, index, text) == text,
{
    let from = crate::clock::time_text(timestamp, '.');
    let to = crate::clock::time_text(timestamp + duration, '.');
    let arrow = " --> "@;
    let vtt = super::cue_text(Format::Vtt, timestamp, duration, index, text);
    let tail = seq!['\r', '\n'] + text + seq!['\r', '\n', '\r', '\n'];
    assert(vtt =~= from + arrow + to + tail);
    assert(vtt.take(from.len() as int) =~= from);
    assert(vtt.subrange(from.len() as int, (from + arrow).len() as int) =~= arrow);
    assert(vtt.subrange((from + arrow).len() as int, (from + arrow + to).len() as int) =~= to);
    assert(vtt.skip((from + arrow + to).len() as int) =~= tail);
    let number = crate::text::chars(crate::text::dec_padded(index as nat, 0));
    let from2 = crate::clock::time_text(timestamp, ',');
    let to2 = crate::clock::time_text(timestamp + duration, ',');
    assert(super::cue_text(Format::Srt, timestamp, duration, index, text) =~= number + seq![
        '\r',
        '\n',
    ] + from2 + arrow + to2 + seq!['\r', '\n'] + text + seq!['\r', '\n', '\r', '\n']);
    crate::text::law_padded_digits_write_the_number(index as nat, 0);
}

/// What waits at the end goes out, and nothing waits any more.
pub proof fn law_nothing_is_left_at_the_end(view: TtView, format: Format)
    requires
        view.index < u64::MAX,
    ensures
        ({
            let (after, out) = view.eos(format);
            &&& after.previous is None
            &&& match (view.previous, out) {
                (Some(cue), Some(o)) => o.buffer.pts == cue.timestamp && is_written(
                    o.buffer.data,
                    format,
                    cue.text,
                ) && (o.header is Some <==> format == Format::Vtt && !view.wrote_header),
                (None, None) => true,
                _ => false,
            }
        }),
{
    if let Some(cue) = view.previous {
        lemma_is_written(format, cue.timestamp as int, 0, view.index, cue.text);
    }
}

/// What is for another channel changes nothing, and gives out nothing.
pub proof fn law_other_channel_is_ignored(
    view: TtView,
    format: Format,
    code: CaptionCode,
    pts: u64,
)
    requires
        view.frame.channel is Some,
        view.frame.channel != Some(code.channel),
    ensures
        view.handle(format, code, pts) == (view, None::<OutputView>),
{
}

} // verus!
