//! What the codes that are written do to the windows of the service.
use super::{ChannelView, PenView};
use crate::cea608::{
    CaptionCommand, Cea608Mode, PreambleAddressCode, PreambleType, Text,
};
use crate::cea708::{DefineWindowArgs, ServiceCommand, SetPenLocationArgs};
use crate::cea708utils::laws::{are_distinct, names};
use crate::cea708utils::window::{ServiceStateView, WindowView};
use cea708_types::tables::Code;
use vstd::prelude::*;

verus! {

/// Whether the windows of a service are those of a channel: window 0 and window 1 at most, of which
/// the one that the channel takes to be on screen is shown and the other one is not.
pub open spec fn mirrors(channel: ChannelView, windows: ServiceStateView) -> bool {
    &&& are_distinct(windows)
    &&& (channel.pen.active == 1 && channel.pen.hidden == 2) || (channel.pen.active == 2
        && channel.pen.hidden == 1)
    &&& channel.state.base_row <= 15
    &&& forall|i: int|
        0 <= i < windows.windows.len() ==> {
            &&& (#[trigger] windows.windows[i]).define.window_id < 2
            &&& windows.windows[i].visible <==> names(
                channel.pen.active,
                windows.windows[i].define.window_id,
            )
        }
}

/// The windows once codes were carried out.
pub open spec fn carried_out(windows: ServiceStateView, codes: Seq<Code>) -> Option<
    ServiceStateView,
> {
    crate::cea708utils::run_codes(windows, codes, codes.len() as int)
}

/// Whether codes are written for a command.
pub open spec fn are_for(codes: Seq<Code>, channel: ChannelView, command: CaptionCommand) -> bool {
    crate::cea708utils::bytes_of(codes) == channel.handle(command).1
}

/// Whether the code of a character reads back as that character.
pub open spec fn reads_back(c: char) -> bool {
    forall|code: Code|
        crate::cea708utils::char_bytes(c).len() > 0 && #[trigger] crate::dtvcc::code_bytes(code)
            == crate::cea708utils::char_bytes(c)[0] ==> crate::cea708utils::command_for(code)
            == ServiceCommand::Char(c)
}

/// Whether the characters of a command read back.
pub open spec fn text_reads_back(command: CaptionCommand) -> bool {
    match command {
        CaptionCommand::Text(text) => {
            &&& text.char1 matches Some(c) ==> reads_back(c)
            &&& text.char2 matches Some(c) ==> reads_back(c)
        },
        CaptionCommand::MidRowChange(_) => reads_back(' '),
        _ => true,
    }
}

proof fn lemma_bits()
    ensures
        names(1, 0),
        !names(1, 1),
        !names(2, 0),
        names(2, 1),
        names(3, 0),
        names(3, 1),
        !names(254, 0),
        names(254, 1),
        names(253, 0),
        !names(253, 1),
{
    assert((1u8 >> 0u8) & 1 == 1 && (1u8 >> 1u8) & 1 != 1 && (2u8 >> 0u8) & 1 != 1 && (2u8 >> 1u8)
        & 1 == 1 && (3u8 >> 0u8) & 1 == 1 && (3u8 >> 1u8) & 1 == 1) by (bit_vector);
    assert((254u8 >> 0u8) & 1 != 1 && (254u8 >> 1u8) & 1 == 1 && (253u8 >> 0u8) & 1 == 1 && (253u8
        >> 1u8) & 1 != 1) by (bit_vector);
}

proof fn lemma_says(codes: Seq<Code>, out: Seq<Seq<u8>>, i: int)
    requires
        crate::cea708utils::bytes_of(codes) == out,
        0 <= i < out.len(),
    ensures
        codes.len() == out.len(),
        crate::dtvcc::code_bytes(codes[i]) == out[i],
        !(crate::cea708::command_of(out[i], None) is Other)
            ==> crate::cea708utils::command_for(codes[i]) == crate::cea708::command_of(
            out[i],
            None,
        ),
{
    assert(crate::cea708utils::bytes_of(codes)[i] == crate::dtvcc::code_bytes(codes[i]));
}

proof fn lemma_run_on(windows: ServiceStateView, codes: Seq<Code>, n: int, m: int)
    requires
        0 <= n <= m <= codes.len(),
    ensures
        crate::cea708utils::run_codes(windows, codes, m) == match crate::cea708utils::run_codes(
            windows,
            codes,
            n,
        ) {
            Some(s) => crate::cea708utils::run_codes(s, codes.skip(n), m - n),
            None => None,
        },
    decreases m - n,
{
    if n < m {
        lemma_run_on(windows, codes, n, m - 1);
        assert(codes.skip(n)[m - n - 1] == codes[m - 1]);
    }
}

proof fn lemma_same_codes(windows: ServiceStateView, a: Seq<Code>, b: Seq<Code>, n: int)
    requires
        0 <= n <= a.len(),
        n <= b.len(),
        forall|i: int| 0 <= i < n ==> #[trigger] a[i] == b[i],
    ensures
        crate::cea708utils::run_codes(windows, a, n) == crate::cea708utils::run_codes(
            windows,
            b,
            n,
        ),
    decreases n,
{
    if n > 0 {
        lemma_same_codes(windows, a, b, n - 1);
        assert(a[n - 1] == b[n - 1]);
    }
}

/// Codes behind others are carried out on the windows that those leave.
proof fn lemma_in_parts(
    windows: ServiceStateView,
    codes: Seq<Code>,
    a: Seq<Seq<u8>>,
    b: Seq<Seq<u8>>,
)
    requires
        crate::cea708utils::bytes_of(codes) == a + b,
    ensures
        crate::cea708utils::bytes_of(codes.take(a.len() as int)) == a,
        crate::cea708utils::bytes_of(codes.skip(a.len() as int)) == b,
        carried_out(windows, codes) == match carried_out(windows, codes.take(a.len() as int)) {
            Some(s) => carried_out(s, codes.skip(a.len() as int)),
            None => None,
        },
{
    let n = a.len() as int;
    assert(crate::cea708utils::bytes_of(codes).len() == codes.len());
    assert forall|i: int| 0 <= i < codes.len() implies crate::dtvcc::code_bytes(#[trigger] codes[i])
        == (a + b)[i] by {
        assert(crate::cea708utils::bytes_of(codes)[i] == crate::dtvcc::code_bytes(codes[i]));
    }
    assert(crate::cea708utils::bytes_of(codes.take(n)) =~= a);
    assert(crate::cea708utils::bytes_of(codes.skip(n)) =~= b) by {
        assert forall|i: int| 0 <= i < b.len() implies crate::cea708utils::bytes_of(
            codes.skip(n),
        )[i] == b[i] by {
            assert(codes.skip(n)[i] == codes[n + i]);
        }
    }
    lemma_run_on(windows, codes, n, codes.len() as int);
    lemma_same_codes(windows, codes, codes.take(n), n);
}

/// Whether a command is for one window alone.
spec fn is_inner(command: ServiceCommand) -> bool {
    command is Char || command is Backspace || command is CarriageReturn || command is SetPenColor
        || command is SetPenAttributes || command is SetPenLocation || command is EndOfText
}

spec fn says_inner(b: Seq<u8>) -> bool {
    forall|code: Code| #[trigger]
        crate::dtvcc::code_bytes(code) == b ==> is_inner(crate::cea708utils::command_for(code))
}

spec fn all_inner(out: Seq<Seq<u8>>) -> bool {
    forall|i: int| 0 <= i < out.len() ==> says_inner(#[trigger] out[i])
}

proof fn lemma_all_inner(a: Seq<Seq<u8>>, b: Seq<Seq<u8>>)
    requires
        all_inner(a),
        all_inner(b),
    ensures
        all_inner(a + b),
{
    assert forall|i: int| 0 <= i < (a + b).len() implies says_inner(#[trigger] (a + b)[i]) by {
        if i < a.len() {
            assert((a + b)[i] == a[i]);
        } else {
            assert((a + b)[i] == b[i - a.len()]);
        }
    }
}

/// Whether windows are the same but for what they hold.
pub open spec fn same_windows(a: ServiceStateView, b: ServiceStateView) -> bool {
    &&& a.current == b.current
    &&& a.windows.len() == b.windows.len()
    &&& forall|i: int|
        0 <= i < b.windows.len() ==> {
            &&& (#[trigger] b.windows[i]).define == a.windows[i].define
            &&& b.windows[i].visible == a.windows[i].visible
        }
}

proof fn lemma_inner_run(state: ServiceStateView, command: ServiceCommand)
    requires
        is_inner(command),
    ensures
        same_windows(state, state.run(command)),
        crate::cea708utils::can_run(state, command),
{
    crate::cea708utils::window::lemma_window_index(state.windows, state.current);
    let i = state.index();
    if i < state.windows.len() && !(command is EndOfText) {
        let w = state.windows[i];
        assert(state.on_current(command).define == w.define);
        assert(state.on_current(command).visible == w.visible);
    }
}

proof fn lemma_inner_codes(
    windows: ServiceStateView,
    codes: Seq<Code>,
    out: Seq<Seq<u8>>,
    n: int,
)
    requires
        crate::cea708utils::bytes_of(codes) == out,
        all_inner(out),
        0 <= n <= codes.len(),
    ensures
        crate::cea708utils::run_codes(windows, codes, n) matches Some(s) && same_windows(
            windows,
            s,
        ),
    decreases n,
{
    if n > 0 {
        lemma_inner_codes(windows, codes, out, n - 1);
        lemma_says(codes, out, n - 1);
        assert(says_inner(out[n - 1]));
        let s = crate::cea708utils::run_codes(windows, codes, n - 1)->0;
        let command = crate::cea708utils::command_for(codes[n - 1]);
        lemma_inner_run(s, command);
        let t = s.run(command);
        assert forall|i: int| 0 <= i < t.windows.len() implies (
        #[trigger] t.windows[i]).define == windows.windows[i].define && t.windows[i].visible
            == windows.windows[i].visible by {
            assert(s.windows[i].define == windows.windows[i].define);
        }
    }
}

proof fn lemma_still_mirrors(
    channel: ChannelView,
    after: ChannelView,
    a: ServiceStateView,
    b: ServiceStateView,
)
    requires
        mirrors(channel, a),
        same_windows(a, b),
        after.pen.active == channel.pen.active,
        after.pen.hidden == channel.pen.hidden,
        after.state.base_row <= 15,
    ensures
        mirrors(after, b),
{
    assert forall|i: int, j: int| 0 <= i < j < b.windows.len() implies (
    #[trigger] b.windows[i]).define.window_id != (#[trigger] b.windows[j]).define.window_id by {
        assert(a.windows[i].define.window_id != a.windows[j].define.window_id);
    }
    assert forall|i: int| 0 <= i < b.windows.len() implies (
    #[trigger] b.windows[i]).define.window_id < 2 && (b.windows[i].visible <==> names(
        after.pen.active,
        b.windows[i].define.window_id,
    )) by {
        assert(a.windows[i].define.window_id < 2);
    }
}

proof fn lemma_numbered(channel: ChannelView, windows: ServiceStateView)
    requires
        mirrors(channel, windows),
    ensures
        crate::cea708utils::laws::are_numbered(windows),
{
    assert forall|i: int| 0 <= i < windows.windows.len() implies (
    #[trigger] windows.windows[i]).define.window_id < 8 by {
        assert(windows.windows[i].define.window_id < 2);
    }
}

/// The windows once a command was carried out.
#[verifier::opaque]
spec fn ran(windows: ServiceStateView, command: ServiceCommand) -> ServiceStateView {
    windows.run(command)
}

proof fn lemma_reads(
    windows: ServiceStateView,
    codes: Seq<Code>,
    b: Seq<u8>,
    command: ServiceCommand,
)
    requires
        crate::cea708utils::bytes_of(codes) == seq![b],
        crate::cea708::command_of(b, None) == command,
        !(command is Other),
        !(command is FormFeed),
    ensures
        carried_out(windows, codes) == Some(ran(windows, command)),
{
    reveal(ran);
    lemma_says(codes, seq![b], 0);
    lemma_run_first(windows, codes);
}

proof fn lemma_run_first(windows: ServiceStateView, codes: Seq<Code>)
    requires
        codes.len() == 1,
        crate::cea708utils::can_run(windows, crate::cea708utils::command_for(codes[0])),
    ensures
        carried_out(windows, codes) == Some(
            windows.run(crate::cea708utils::command_for(codes[0])),
        ),
{
    reveal_with_fuel(crate::cea708utils::run_codes, 2);
}

proof fn lemma_end_of_text(windows: ServiceStateView)
    ensures
        ran(windows, ServiceCommand::EndOfText) == windows,
        crate::cea708::command_of(seq![0x03u8], None) == ServiceCommand::EndOfText,
{
    reveal(ran);
}

/// The windows once the code that ends the text came behind others.
proof fn lemma_ended(
    windows: ServiceStateView,
    codes: Seq<Code>,
    out: Seq<Seq<u8>>,
    needed: bool,
)
    requires
        crate::cea708utils::bytes_of(codes) == out + super::code_if(needed, seq![0x03u8]),
    ensures
        crate::cea708utils::bytes_of(codes.take(out.len() as int)) == out,
        carried_out(windows, codes) == carried_out(windows, codes.take(out.len() as int)),
{
    let end = super::code_if(needed, seq![0x03u8]);
    lemma_in_parts(windows, codes, out, end);
    let rest = codes.skip(out.len() as int);
    if let Some(s) = carried_out(windows, codes.take(out.len() as int)) {
        lemma_only_end(s, rest, needed);
    }
}

proof fn lemma_only_end(windows: ServiceStateView, codes: Seq<Code>, needed: bool)
    requires
        crate::cea708utils::bytes_of(codes) == super::code_if(needed, seq![0x03u8]),
    ensures
        carried_out(windows, codes) == Some(windows),
{
    if needed {
        lemma_end_of_text(windows);
        lemma_reads(windows, codes, seq![0x03u8], ServiceCommand::EndOfText);
    } else {
        assert(codes.len() == crate::cea708utils::bytes_of(codes).len());
    }
}

/// What clearing windows does to one of them.
proof fn lemma_clear(channel: ChannelView, windows: ServiceStateView, bits: u8)
    requires
        mirrors(channel, windows),
    ensures
        ({
            let after = ran(windows, ServiceCommand::ClearWindows(bits));
            &&& after.windows.len() == windows.windows.len()
            &&& after.current == windows.current
            &&& forall|i: int|
                0 <= i < after.windows.len() ==> {
                    let w = windows.windows[i];
                    &&& (#[trigger] after.windows[i]).visible == w.visible
                    &&& after.windows[i].define == w.define
                    &&& names(bits, w.define.window_id) ==> after.windows[i].lines.len() == 0
                    &&& !names(bits, w.define.window_id) ==> after.windows[i] == w
                }
        }),
{
    reveal(ran);
    lemma_numbered(channel, windows);
    let after = windows.run(ServiceCommand::ClearWindows(bits));
    assert forall|i: int| 0 <= i < after.windows.len() implies {
        let w = windows.windows[i];
        &&& (#[trigger] after.windows[i]).visible == w.visible
        &&& after.windows[i].define == w.define
        &&& names(bits, w.define.window_id) ==> after.windows[i].lines.len() == 0
        &&& !names(bits, w.define.window_id) ==> after.windows[i] == w
    } by {
        crate::cea708utils::laws::law_windows_are_cleared(windows, bits, i);
    }
}

/// The code that clears windows is read as it was written.
proof fn lemma_clear_code(windows: ServiceStateView, codes: Seq<Code>, bits: u8, needed: bool)
    requires
        crate::cea708utils::bytes_of(codes) == seq![seq![0x88u8, bits]] + super::code_if(
            needed,
            seq![0x03u8],
        ),
    ensures
        carried_out(windows, codes) == Some(ran(windows, ServiceCommand::ClearWindows(bits))),
{
    let b = seq![0x88u8, bits];
    lemma_ended(windows, codes, seq![b], needed);
    assert(crate::cea708::command_of(b, None) == ServiceCommand::ClearWindows(bits));
    lemma_reads(windows, codes.take(1), b, ServiceCommand::ClearWindows(bits));
}

/// Erasing what is displayed takes away the text of each window that is shown. The windows that are
/// not shown keep all that was prepared in them, and no window comes or goes.
pub proof fn law_erased_display_is_empty(
    channel: ChannelView,
    windows: ServiceStateView,
    codes: Seq<Code>,
)
    requires
        mirrors(channel, windows),
        are_for(codes, channel, CaptionCommand::EraseDisplay),
    ensures
        carried_out(windows, codes) matches Some(after) && {
            &&& after.windows.len() == windows.windows.len()
            &&& after.current == windows.current
            &&& forall|i: int|
                0 <= i < after.windows.len() ==> {
                    &&& (#[trigger] after.windows[i]).visible == windows.windows[i].visible
                    &&& after.windows[i].define == windows.windows[i].define
                    &&& after.windows[i].visible ==> after.windows[i].lines.len() == 0
                    &&& !after.windows[i].visible ==> after.windows[i] == windows.windows[i]
                }
        },
        channel.handle(CaptionCommand::EraseDisplay).0 == channel,
{
    lemma_clear_code(windows, codes, channel.pen.active, channel.shows_at_once());
    lemma_clear(channel, windows, channel.pen.active);
    let after = ran(windows, ServiceCommand::ClearWindows(channel.pen.active));
    assert forall|i: int| 0 <= i < after.windows.len() implies {
        &&& (#[trigger] after.windows[i]).visible == windows.windows[i].visible
        &&& after.windows[i].define == windows.windows[i].define
        &&& after.windows[i].visible ==> after.windows[i].lines.len() == 0
        &&& !after.windows[i].visible ==> after.windows[i] == windows.windows[i]
    } by {
        assert(windows.windows[i].define.window_id < 2);
    }
}

/// Erasing what is not displayed takes away the text of each window that is not shown. The windows
/// that are shown stay as they are, and no window comes or goes.
pub proof fn law_erased_memory_is_empty(
    channel: ChannelView,
    windows: ServiceStateView,
    codes: Seq<Code>,
)
    requires
        mirrors(channel, windows),
        are_for(codes, channel, CaptionCommand::EraseNonDisplay),
    ensures
        carried_out(windows, codes) matches Some(after) && {
            &&& after.windows.len() == windows.windows.len()
            &&& after.current == windows.current
            &&& forall|i: int|
                0 <= i < after.windows.len() ==> {
                    &&& (#[trigger] after.windows[i]).visible == windows.windows[i].visible
                    &&& after.windows[i].define == windows.windows[i].define
                    &&& !after.windows[i].visible ==> after.windows[i].lines.len() == 0
                    &&& after.windows[i].visible ==> after.windows[i] == windows.windows[i]
                }
        },
        channel.handle(CaptionCommand::EraseNonDisplay).0 == channel,
{
    lemma_clear_code(windows, codes, channel.pen.hidden, channel.shows_at_once());
    lemma_clear(channel, windows, channel.pen.hidden);
    lemma_bits();
    let after = ran(windows, ServiceCommand::ClearWindows(channel.pen.hidden));
    assert forall|i: int| 0 <= i < after.windows.len() implies {
        &&& (#[trigger] after.windows[i]).visible == windows.windows[i].visible
        &&& after.windows[i].define == windows.windows[i].define
        &&& !after.windows[i].visible ==> after.windows[i].lines.len() == 0
        &&& after.windows[i].visible ==> after.windows[i] == windows.windows[i]
    } by {
        assert(windows.windows[i].define.window_id < 2);
    }
}

/// What toggling both windows does to one of them.
proof fn lemma_toggle(channel: ChannelView, windows: ServiceStateView)
    requires
        mirrors(channel, windows),
    ensures
        ({
            let after = ran(windows, ServiceCommand::ToggleWindows(3));
            &&& after.windows.len() == windows.windows.len()
            &&& forall|i: int|
                0 <= i < after.windows.len() ==> {
                    &&& (#[trigger] after.windows[i]).visible == !windows.windows[i].visible
                    &&& after.windows[i].lines == windows.windows[i].lines
                    &&& after.windows[i].define == windows.windows[i].define
                }
        }),
{
    reveal(ran);
    lemma_numbered(channel, windows);
    lemma_bits();
    let after = windows.run(ServiceCommand::ToggleWindows(3));
    assert forall|i: int| 0 <= i < after.windows.len() implies {
        &&& (#[trigger] after.windows[i]).visible == !windows.windows[i].visible
        &&& after.windows[i].lines == windows.windows[i].lines
        &&& after.windows[i].define == windows.windows[i].define
    } by {
        crate::cea708utils::laws::law_windows_are_shown_and_hidden(windows, 3, i);
        assert(windows.windows[i].define.window_id < 2);
    }
}

/// The code that toggles windows is read as it was written.
proof fn lemma_toggle_code(windows: ServiceStateView, codes: Seq<Code>, needed: bool)
    requires
        crate::cea708utils::bytes_of(codes) == seq![seq![0x8bu8, 3u8], seq![0x03u8]]
            + super::code_if(needed, seq![0x03u8]),
    ensures
        carried_out(windows, codes) == Some(ran(windows, ServiceCommand::ToggleWindows(3))),
{
    let b = seq![0x8bu8, 3u8];
    let out = seq![b, seq![0x03u8]];
    lemma_ended(windows, codes, out, needed);
    assert(out =~= seq![b] + super::code_if(true, seq![0x03u8]));
    let first = codes.take(2);
    lemma_ended(windows, first, seq![b], true);
    assert(crate::cea708::command_of(b, None) == ServiceCommand::ToggleWindows(3));
    lemma_reads(windows, first.take(1), b, ServiceCommand::ToggleWindows(3));
}

/// The end of a caption shows each window that was not shown, with all that was prepared in it, and
/// hides each one that was. The channel takes the windows to be so from then on.
pub proof fn law_end_of_caption_shows_what_was_prepared(
    channel: ChannelView,
    windows: ServiceStateView,
    codes: Seq<Code>,
)
    requires
        mirrors(channel, windows),
        are_for(codes, channel, CaptionCommand::EndOfCaption),
    ensures
        carried_out(windows, codes) matches Some(after) && {
            &&& mirrors(channel.handle(CaptionCommand::EndOfCaption).0, after)
            &&& after.windows.len() == windows.windows.len()
            &&& forall|i: int|
                0 <= i < after.windows.len() ==> {
                    &&& (#[trigger] after.windows[i]).visible == !windows.windows[i].visible
                    &&& after.windows[i].lines == windows.windows[i].lines
                    &&& after.windows[i].define == windows.windows[i].define
                }
        },
{
    lemma_toggle_code(windows, codes, channel.shows_at_once());
    lemma_toggle(channel, windows);
    lemma_bits();
    let after = ran(windows, ServiceCommand::ToggleWindows(3));
    assert forall|i: int, j: int| 0 <= i < j < after.windows.len() implies (
    #[trigger] after.windows[i]).define.window_id != (
    #[trigger] after.windows[j]).define.window_id by {
        assert(windows.windows[i].define.window_id != windows.windows[j].define.window_id);
    }
    assert forall|i: int| 0 <= i < after.windows.len() implies (
    #[trigger] after.windows[i]).define.window_id < 2 && (after.windows[i].visible <==> names(
        channel.pen.hidden,
        after.windows[i].define.window_id,
    )) by {
        assert(windows.windows[i].define.window_id < 2);
    }
}

proof fn lemma_char_is_inner(c: Option<char>)
    requires
        c matches Some(c) ==> reads_back(c),
    ensures
        c matches Some(c) ==> all_inner(crate::cea708utils::char_bytes(c)),
{
    if let Some(c) = c {
        let out = crate::cea708utils::char_bytes(c);
        assert forall|i: int| 0 <= i < out.len() implies says_inner(#[trigger] out[i]) by {
            assert(i == 0);
        }
    }
}

proof fn lemma_control_is_inner(b: Seq<u8>, needed: bool)
    requires
        is_inner(crate::cea708::command_of(b, None)),
    ensures
        all_inner(super::code_if(needed, b)),
        all_inner(seq![b]),
{
    assert(says_inner(b)) by {
        assert forall|code: Code| #[trigger] crate::dtvcc::code_bytes(code) == b implies is_inner(
            crate::cea708utils::command_for(code),
        ) by {}
    }
}

proof fn lemma_small_codes()
    ensures
        forall|needed: bool| all_inner(#[trigger] super::code_if(needed, seq![0x08u8])),
        forall|needed: bool| all_inner(#[trigger] super::code_if(needed, seq![0x0du8])),
        forall|needed: bool| all_inner(#[trigger] super::code_if(needed, seq![0x03u8])),
{
    lemma_control_is_inner(seq![0x08u8], true);
    lemma_control_is_inner(seq![0x0du8], true);
    lemma_control_is_inner(seq![0x03u8], true);
    assert(super::code_if(true, seq![0x08u8]) =~= seq![seq![0x08u8]]);
    assert(super::code_if(true, seq![0x0du8]) =~= seq![seq![0x0du8]]);
    assert(super::code_if(true, seq![0x03u8]) =~= seq![seq![0x03u8]]);
    assert forall|needed: bool| all_inner(#[trigger] super::code_if(needed, seq![0x08u8])) by {
        if !needed {
            assert(super::code_if(needed, seq![0x08u8]).len() == 0);
        }
    }
    assert forall|needed: bool| all_inner(#[trigger] super::code_if(needed, seq![0x0du8])) by {
        if !needed {
            assert(super::code_if(needed, seq![0x0du8]).len() == 0);
        }
    }
    assert forall|needed: bool| all_inner(#[trigger] super::code_if(needed, seq![0x03u8])) by {
        if !needed {
            assert(super::code_if(needed, seq![0x03u8]).len() == 0);
        }
    }
}

proof fn lemma_put_char(pen: PenView, c: Option<char>)
    requires
        c matches Some(c) ==> reads_back(c),
    ensures
        all_inner(pen.put_char(c).1),
        pen.put_char(c).0.active == pen.active,
        pen.put_char(c).0.hidden == pen.hidden,
{
    lemma_small_codes();
    lemma_char_is_inner(c);
    if let Some(c) = c {
        lemma_all_inner(
            super::code_if(pen.location.column >= super::COLUMN_END, seq![0x08u8]),
            crate::cea708utils::char_bytes(c),
        );
    }
}

proof fn lemma_text(pen: PenView, text: Text)
    requires
        text.char1 matches Some(c) ==> reads_back(c),
        text.char2 matches Some(c) ==> reads_back(c),
    ensures
        all_inner(pen.text(text).1),
        pen.text(text).0.active == pen.active,
        pen.text(text).0.hidden == pen.hidden,
{
    let (pen1, out1) = pen.put_char(text.char1);
    lemma_small_codes();
    lemma_put_char(pen, text.char1);
    lemma_put_char(pen1, text.char2);
    let back = super::code_if(text.needs_backspace, seq![0x08u8]);
    lemma_all_inner(back, out1);
    lemma_all_inner(back + out1, pen1.put_char(text.char2).1);
}

proof fn lemma_pen(pen: PenView, location: SetPenLocationArgs, color: crate::cea608::Color)
    ensures
        all_inner(pen.move_to(location).1),
        forall|i: bool, u: bool| all_inner((#[trigger] pen.change(i, u)).1),
        all_inner(pen.dye(color).1),
{
    assert(is_inner(crate::cea708::command_of(crate::cea708::pen_location_bytes(location), None)));
    lemma_control_is_inner(
        crate::cea708::pen_location_bytes(location),
        pen.location != location,
    );
    assert forall|i: bool, u: bool| all_inner((#[trigger] pen.change(i, u)).1) by {
        let attributes = pen.change(i, u).0.attributes;
        let b = crate::cea708::pen_attributes_bytes(attributes);
        assert(is_inner(crate::cea708::command_of(b, None)));
        lemma_control_is_inner(b, pen.attributes != attributes);
    }
    let dyed = pen.dye(color).0.color;
    assert(is_inner(crate::cea708::command_of(crate::cea708::pen_color_bytes(dyed), None)));
    lemma_control_is_inner(crate::cea708::pen_color_bytes(dyed), pen.color != dyed);
}

proof fn lemma_preamble(pen: PenView, preamble: PreambleAddressCode)
    ensures
        all_inner(pen.preamble(preamble).1),
        pen.preamble(preamble).0.active == pen.active,
        pen.preamble(preamble).0.hidden == pen.hidden,
{
    let location = SetPenLocationArgs { row: preamble.row, column: preamble.at_column() };
    let (pen1, out1) = pen.move_to(location);
    let (pen2, out2) = pen1.change(preamble.code is WhiteItalics, preamble.underline);
    let out3 = pen2.dye(preamble.in_color()).1;
    lemma_pen(pen, location, preamble.in_color());
    lemma_pen(pen1, location, preamble.in_color());
    lemma_pen(pen2, location, preamble.in_color());
    lemma_all_inner(out1, out2);
    lemma_all_inner(out1 + out2, out3);
}

proof fn lemma_midrow(pen: PenView, midrow: crate::cea608::MidRow)
    requires
        reads_back(' '),
    ensures
        all_inner(pen.midrow(midrow).1),
        pen.midrow(midrow).0.active == pen.active,
        pen.midrow(midrow).0.hidden == pen.hidden,
{
    let location = pen.location;
    let (pen1, out1) = match midrow.color {
        Some(color) => pen.dye(color),
        None => (pen, Seq::empty()),
    };
    let out2 = pen1.change(midrow.color is None, midrow.underline).1;
    if let Some(color) = midrow.color {
        lemma_pen(pen, location, color);
    }
    lemma_pen(pen1, location, crate::cea608::Color::White);
    lemma_char_is_inner(Some(' '));
    lemma_all_inner(crate::cea708utils::char_bytes(' '), out1);
    lemma_all_inner(crate::cea708utils::char_bytes(' ') + out1, out2);
}

/// Whether a command makes window 0 the one that is shown.
pub open spec fn begins_in_window_zero(channel: ChannelView, command: CaptionCommand) -> bool {
    match command {
        CaptionCommand::NewMode(mode) => mode.rolls_up(),
        CaptionCommand::Preamble(preamble) => channel.rolls_up() && channel.state.base_row
            != preamble.row,
        _ => false,
    }
}

/// Whether a service has a window.
pub open spec fn has_number(windows: ServiceStateView, id: u8) -> bool {
    exists|i: int|
        0 <= i < windows.windows.len() && (#[trigger] windows.windows[i]).define.window_id == id
}

proof fn lemma_inner_command(
    channel: ChannelView,
    windows: ServiceStateView,
    codes: Seq<Code>,
    command: CaptionCommand,
)
    requires
        mirrors(channel, windows),
        are_for(codes, channel, command),
        all_inner(channel.run(command).1),
        channel.run(command).0.pen.active == channel.pen.active,
        channel.run(command).0.pen.hidden == channel.pen.hidden,
        channel.run(command).0.state.base_row <= 15,
    ensures
        carried_out(windows, codes) matches Some(after) && same_windows(windows, after) && mirrors(
            channel.handle(command).0,
            after,
        ),
{
    let (after, out) = channel.run(command);
    lemma_small_codes();
    let end = super::code_if(after.shows_at_once(), seq![0x03u8]);
    lemma_all_inner(out, end);
    lemma_inner_codes(windows, codes, out + end, codes.len() as int);
    lemma_still_mirrors(channel, after, windows, carried_out(windows, codes)->0);
}

proof fn lemma_deleted(windows: Seq<WindowView>, bits: u8)
    requires
        forall|i: int| 0 <= i < windows.len() ==> (#[trigger] windows[i]).define.window_id < 8,
        forall|i: int, j: int|
            0 <= i < j < windows.len() ==> (#[trigger] windows[i]).define.window_id != (
            #[trigger] windows[j]).define.window_id,
    ensures
        ({
            let kept = windows.filter(|w: WindowView| !names(bits, w.define.window_id));
            &&& forall|k: int|
                0 <= k < kept.len() ==> windows.contains(#[trigger] kept[k]) && !names(
                    bits,
                    kept[k].define.window_id,
                )
            &&& forall|i: int, j: int|
                0 <= i < j < kept.len() ==> (#[trigger] kept[i]).define.window_id != (
                #[trigger] kept[j]).define.window_id
            &&& forall|i: int|
                0 <= i < windows.len() && !names(bits, (#[trigger] windows[i]).define.window_id)
                    ==> kept.contains(windows[i])
        }),
    decreases windows.len(),
{
    reveal(Seq::filter);
    let pred = |w: WindowView| !names(bits, w.define.window_id);
    let kept = windows.filter(pred);
    if windows.len() > 0 {
        let rest = windows.drop_last();
        let last = windows.last();
        let before = rest.filter(pred);
        lemma_deleted(rest, bits);
        assert forall|k: int| 0 <= k < kept.len() implies windows.contains(#[trigger] kept[k])
            && !names(bits, kept[k].define.window_id) by {
            if k < before.len() {
                assert(kept[k] == before[k]);
                let m = choose|m: int| 0 <= m < rest.len() && rest[m] == before[k];
                assert(windows[m] == kept[k]);
            } else {
                assert(windows[windows.len() - 1] == kept[k]);
            }
        }
        assert forall|i: int, j: int| 0 <= i < j < kept.len() implies (
        #[trigger] kept[i]).define.window_id != (#[trigger] kept[j]).define.window_id by {
            assert(kept[i] == before[i]);
            if j < before.len() {
                assert(kept[j] == before[j]);
            } else {
                let m = choose|m: int| 0 <= m < rest.len() && rest[m] == before[i];
                assert(windows[m] == kept[i]);
                assert(windows[windows.len() - 1] == kept[j]);
            }
        }
        assert forall|i: int|
            0 <= i < windows.len() && !names(bits, (#[trigger] windows[i]).define.window_id) implies
            kept.contains(windows[i]) by {
            if i < rest.len() {
                assert(rest[i] == windows[i]);
                let m = choose|m: int| 0 <= m < before.len() && before[m] == rest[i];
                assert(kept[m] == windows[i]);
            } else {
                assert(kept[kept.len() - 1] == last);
            }
        }
    }
}

proof fn lemma_delete_keeps(channel: ChannelView, windows: ServiceStateView, bits: u8)
    requires
        mirrors(channel, windows),
    ensures
        ({
            let after = ran(windows, ServiceCommand::DeleteWindows(bits));
            &&& mirrors(channel, after)
            &&& forall|i: int|
                0 <= i < after.windows.len() ==> !names(
                    bits,
                    (#[trigger] after.windows[i]).define.window_id,
                ) && windows.windows.contains(after.windows[i])
            &&& forall|i: int|
                0 <= i < windows.windows.len() && !names(
                    bits,
                    (#[trigger] windows.windows[i]).define.window_id,
                ) ==> after.windows.contains(windows.windows[i])
        }),
{
    reveal(ran);
    lemma_numbered(channel, windows);
    crate::cea708utils::laws::law_windows_are_deleted(windows, bits);
    lemma_deleted(windows.windows, bits);
    let after = windows.run(ServiceCommand::DeleteWindows(bits));
    assert forall|i: int| 0 <= i < after.windows.len() implies (
    #[trigger] after.windows[i]).define.window_id < 2 && (after.windows[i].visible <==> names(
        channel.pen.active,
        after.windows[i].define.window_id,
    )) by {
        let m = choose|m: int|
            0 <= m < windows.windows.len() && windows.windows[m] == after.windows[i];
        assert(windows.windows[m].define.window_id < 2);
    }
}

proof fn lemma_define_keeps(
    channel: ChannelView,
    windows: ServiceStateView,
    args: DefineWindowArgs,
)
    requires
        mirrors(channel, windows),
        crate::cea708::is_window(args),
        args.window_id < 2,
        !has_number(windows, args.window_id) ==> args.visible == names(channel.pen.active, args.window_id),
    ensures
        ({
            let after = ran(windows, ServiceCommand::DefineWindow(args));
            &&& mirrors(channel, after)
            &&& after.current == args.window_id
            &&& has_number(after, args.window_id)
            &&& !has_number(windows, args.window_id) ==> after.windows.len()
                == windows.windows.len() + 1 && after.windows.last().lines.len() == 0
                && after.windows.last().visible == args.visible && after.windows.last().define
                == args
            &&& forall|j: int|
                0 <= j < windows.windows.len() && (#[trigger] windows.windows[j]).define.window_id
                    != args.window_id ==> after.windows[j] == windows.windows[j] && j
                    < after.windows.len()
        }),
{
    reveal(ran);
    lemma_numbered(channel, windows);
    let after = windows.run(ServiceCommand::DefineWindow(args));
    let i = if has_number(windows, args.window_id) {
        choose|i: int|
            0 <= i < windows.windows.len() && (#[trigger] windows.windows[i]).define.window_id
                == args.window_id
    } else {
        windows.windows.len() as int
    };
    crate::cea708utils::laws::law_window_is_defined(windows, args, i);
    assert(after.windows[i].define == args);
    assert forall|j: int| 0 <= j < after.windows.len() implies (
    #[trigger] after.windows[j]).define.window_id < 2 && (after.windows[j].visible <==> names(
        channel.pen.active,
        after.windows[j].define.window_id,
    )) by {
        if j != i {
            assert(after.windows[j] == windows.windows[j]);
            assert(windows.windows[j].define.window_id < 2);
        } else if i < windows.windows.len() {
            assert(windows.windows[i].define.window_id < 2);
        }
    }
}

proof fn lemma_window_reads(args: DefineWindowArgs)
    requires
        crate::cea708::is_window(args),
    ensures
        crate::cea708::command_of(crate::cea708::define_window_bytes(args), None)
            == ServiceCommand::DefineWindow(args),
{
    crate::cea708::law_window_round_trip(args);
}

proof fn lemma_anchor(count: u8, base_row: u8)
    requires
        count <= 4,
        base_row <= 15,
    ensures
        crate::cea708utils::anchor_for(count, base_row) < 128,
{
    let base = if count > base_row {
        count as int
    } else {
        base_row as int
    };
    assert(0 <= base * 100 / 14 < 128);
}

/// The codes for the windows of lines that roll up are read as they were written.
proof fn lemma_rollup_codes(
    windows: ServiceStateView,
    codes: Seq<Code>,
    count: u8,
    base_row: u8,
    args: DefineWindowArgs,
)
    requires
        2 <= count <= 4,
        base_row <= 15,
        crate::cea708utils::bytes_of(codes) == crate::cea708utils::rollup_bytes(count, base_row),
        args == crate::cea708utils::caption_window(
            0,
            crate::cea708utils::anchor_for(count, base_row),
            (count - 1) as u8,
            true,
        ),
    ensures
        crate::cea708::is_window(args),
        ({
            let s1 = ran(windows, ServiceCommand::DeleteWindows(254));
            let s2 = ran(s1, ServiceCommand::DefineWindow(args));
            carried_out(windows, codes) matches Some(s) && same_windows(s2, s)
        }),
{
    let last = (count - 1) as u8;
    lemma_anchor(count, base_row);
    let x = seq![0x8cu8, 254u8];
    let y = crate::cea708::define_window_bytes(args);
    let z = crate::cea708::pen_location_bytes(SetPenLocationArgs { row: last, column: 0 });
    assert(crate::cea708utils::rollup_bytes(count, base_row) =~= seq![x] + (seq![y] + seq![z]));
    lemma_in_parts(windows, codes, seq![x], seq![y] + seq![z]);
    lemma_reads(windows, codes.take(1), x, ServiceCommand::DeleteWindows(254));
    let s1 = ran(windows, ServiceCommand::DeleteWindows(254));
    let rest = codes.skip(1);
    lemma_in_parts(s1, rest, seq![y], seq![z]);
    lemma_window_reads(args);
    lemma_reads(s1, rest.take(1), y, ServiceCommand::DefineWindow(args));
    let s2 = ran(s1, ServiceCommand::DefineWindow(args));
    lemma_location_is_inner(SetPenLocationArgs { row: last, column: 0 });
    lemma_inner_codes(s2, rest.skip(1), seq![z], rest.skip(1).len() as int);
}

proof fn lemma_location_is_inner(location: SetPenLocationArgs)
    ensures
        all_inner(seq![crate::cea708::pen_location_bytes(location)]),
{
    let z = crate::cea708::pen_location_bytes(location);
    assert(is_inner(crate::cea708::command_of(z, None)));
    lemma_control_is_inner(z, true);
}

proof fn lemma_only_zero(channel: ChannelView, only: ChannelView, windows: ServiceStateView)
    requires
        mirrors(channel, windows),
        channel.pen.active == 1 || !has_number(windows, 0),
        only.pen.active == 1,
        only.pen.hidden == 2,
        only.state.base_row <= 15,
    ensures
        mirrors(only, ran(windows, ServiceCommand::DeleteWindows(254))),
{
    lemma_bits();
    lemma_delete_keeps(channel, windows, 254);
    let s1 = ran(windows, ServiceCommand::DeleteWindows(254));
    assert forall|i: int| 0 <= i < s1.windows.len() implies (
    #[trigger] s1.windows[i]).define.window_id < 2 && (s1.windows[i].visible <==> names(
        1,
        s1.windows[i].define.window_id,
    )) by {
        assert(!names(254, s1.windows[i].define.window_id));
        if channel.pen.active == 2 {
            let m = choose|m: int|
                0 <= m < windows.windows.len() && windows.windows[m] == s1.windows[i];
            assert(windows.windows[m].define.window_id != 0);
        }
    }
}

/// The windows once those for lines that roll up were defined.
proof fn lemma_rollup_windows(
    channel: ChannelView,
    windows: ServiceStateView,
    codes: Seq<Code>,
    count: u8,
    base_row: u8,
    after: ChannelView,
)
    requires
        mirrors(channel, windows),
        2 <= count <= 4,
        base_row <= 15,
        crate::cea708utils::bytes_of(codes) == crate::cea708utils::rollup_bytes(count, base_row),
        channel.pen.active == 1 || !has_number(windows, 0),
        after.pen.active == 1,
        after.pen.hidden == 2,
        after.state.base_row <= 15,
    ensures
        carried_out(windows, codes) matches Some(s) && mirrors(after, s) && s.current == 0
            && has_number(s, 0),
{
    let args = crate::cea708utils::caption_window(
        0,
        crate::cea708utils::anchor_for(count, base_row),
        (count - 1) as u8,
        true,
    );
    lemma_rollup_codes(windows, codes, count, base_row, args);
    lemma_bits();
    lemma_only_zero(channel, after, windows);
    let s1 = ran(windows, ServiceCommand::DeleteWindows(254));
    lemma_define_keeps(after, s1, args);
    let s2 = ran(s1, ServiceCommand::DefineWindow(args));
    let s3 = carried_out(windows, codes)->0;
    lemma_still_mirrors(after, after, s2, s3);
    let k = choose|k: int|
        0 <= k < s2.windows.len() && (#[trigger] s2.windows[k]).define.window_id == 0;
    assert(s3.windows[k].define.window_id == 0);
}

/// Pop-on captions are written to a window that is not shown: it is there, without text, and text
/// goes to it. What is shown stays as it is.
pub proof fn law_popon_prepares_a_hidden_window(
    channel: ChannelView,
    windows: ServiceStateView,
    codes: Seq<Code>,
)
    requires
        mirrors(channel, windows),
        are_for(codes, channel, CaptionCommand::NewMode(Cea608Mode::PopOn)),
    ensures
        carried_out(windows, codes) matches Some(after) && {
            &&& mirrors(channel.handle(CaptionCommand::NewMode(Cea608Mode::PopOn)).0, after)
            &&& exists|i: int|
                0 <= i < after.windows.len() && (#[trigger] after.windows[i]).define.window_id
                    == after.current && !after.windows[i].visible && after.windows[i].lines.len()
                    == 0
            &&& forall|i: int|
                0 <= i < windows.windows.len() && (#[trigger] windows.windows[i]).visible
                    ==> after.windows.contains(windows.windows[i])
        },
{
    let command = CaptionCommand::NewMode(Cea608Mode::PopOn);
    let others = (255 - channel.pen.active) as u8;
    let id = crate::cea708utils::number_of(channel.pen.hidden);
    let args = crate::cea708utils::caption_window(id, 100, 14, false);
    lemma_bits();
    lemma_popon_codes(channel, windows, codes, args);
    let s1 = ran(windows, ServiceCommand::DeleteWindows(others));
    lemma_delete_keeps(channel, windows, others);
    if has_number(s1, id) {
        let i = choose|i: int|
            0 <= i < s1.windows.len() && (#[trigger] s1.windows[i]).define.window_id == id;
        assert(!names(others, s1.windows[i].define.window_id));
    }
    lemma_define_keeps(channel, s1, args);
    let s2 = ran(s1, ServiceCommand::DefineWindow(args));
    assert(s2.windows[s2.windows.len() - 1].define.window_id == s2.current);
    lemma_still_mirrors(channel, channel.handle(command).0, s2, s2);
    assert forall|i: int|
        0 <= i < windows.windows.len() && (#[trigger] windows.windows[i]).visible implies
        s2.windows.contains(windows.windows[i]) by {
        assert(windows.windows[i].define.window_id < 2);
        assert(s1.windows.contains(windows.windows[i]));
        let m = choose|m: int|
            0 <= m < s1.windows.len() && s1.windows[m] == windows.windows[i];
        assert(s1.windows[m].define.window_id != id);
        assert(s2.windows[m] == s1.windows[m]);
    }
}

proof fn lemma_popon_codes(
    channel: ChannelView,
    windows: ServiceStateView,
    codes: Seq<Code>,
    args: DefineWindowArgs,
)
    requires
        mirrors(channel, windows),
        are_for(codes, channel, CaptionCommand::NewMode(Cea608Mode::PopOn)),
        args == crate::cea708utils::caption_window(
            crate::cea708utils::number_of(channel.pen.hidden),
            100,
            14,
            false,
        ),
    ensures
        ({
            let others = (255 - channel.pen.active) as u8;
            let s1 = ran(windows, ServiceCommand::DeleteWindows(others));
            carried_out(windows, codes) == Some(ran(s1, ServiceCommand::DefineWindow(args)))
        }),
        crate::cea708::is_window(args),
{
    let command = CaptionCommand::NewMode(Cea608Mode::PopOn);
    let others = (255 - channel.pen.active) as u8;
    let x = seq![0x8cu8, others];
    let y = crate::cea708::define_window_bytes(args);
    let out = channel.run(command).1;
    assert(out =~= seq![x] + seq![y]);
    lemma_ended(windows, codes, out, channel.run(command).0.shows_at_once());
    let first = codes.take(2);
    lemma_in_parts(windows, first, seq![x], seq![y]);
    lemma_reads(windows, first.take(1), x, ServiceCommand::DeleteWindows(others));
    let s1 = ran(windows, ServiceCommand::DeleteWindows(others));
    lemma_window_reads(args);
    lemma_reads(s1, first.skip(1), y, ServiceCommand::DefineWindow(args));
}

/// Painted captions are written to the window that is shown.
pub proof fn law_paint_on_writes_on_screen(
    channel: ChannelView,
    windows: ServiceStateView,
    codes: Seq<Code>,
)
    requires
        mirrors(channel, windows),
        are_for(codes, channel, CaptionCommand::NewMode(Cea608Mode::PaintOn)),
    ensures
        carried_out(windows, codes) matches Some(after) && {
            &&& mirrors(channel.handle(CaptionCommand::NewMode(Cea608Mode::PaintOn)).0, after)
            &&& exists|i: int|
                0 <= i < after.windows.len() && (#[trigger] after.windows[i]).define.window_id
                    == after.current && after.windows[i].visible
        },
{
    let command = CaptionCommand::NewMode(Cea608Mode::PaintOn);
    let id = crate::cea708utils::number_of(channel.pen.active);
    let args = crate::cea708utils::caption_window(id, 100, 14, true);
    lemma_bits();
    lemma_paint_on_codes(channel, windows, codes, args);
    lemma_define_keeps(channel, windows, args);
    let s = ran(windows, ServiceCommand::DefineWindow(args));
    lemma_still_mirrors(channel, channel.handle(command).0, s, s);
    let k = choose|k: int|
        0 <= k < s.windows.len() && (#[trigger] s.windows[k]).define.window_id == id;
    assert(s.windows[k].define.window_id == s.current);
}

proof fn lemma_paint_on_codes(
    channel: ChannelView,
    windows: ServiceStateView,
    codes: Seq<Code>,
    args: DefineWindowArgs,
)
    requires
        are_for(codes, channel, CaptionCommand::NewMode(Cea608Mode::PaintOn)),
        args == crate::cea708utils::caption_window(
            crate::cea708utils::number_of(channel.pen.active),
            100,
            14,
            true,
        ),
    ensures
        carried_out(windows, codes) == Some(ran(windows, ServiceCommand::DefineWindow(args))),
        crate::cea708::is_window(args),
{
    let y = crate::cea708::define_window_bytes(args);
    lemma_paint_on_out(channel, y);
    lemma_ended(windows, codes, seq![y], true);
    lemma_window_reads(args);
    lemma_reads(windows, codes.take(1), y, ServiceCommand::DefineWindow(args));
}

proof fn lemma_paint_on_out(channel: ChannelView, y: Seq<u8>)
    requires
        y == crate::cea708::define_window_bytes(
            crate::cea708utils::caption_window(
                crate::cea708utils::number_of(channel.pen.active),
                100,
                14,
                true,
            ),
        ),
    ensures
        channel.handle(CaptionCommand::NewMode(Cea608Mode::PaintOn)).1 == seq![y]
            + super::code_if(true, seq![0x03u8]),
{
    assert(channel.handle(CaptionCommand::NewMode(Cea608Mode::PaintOn)).1 =~= seq![y]
        + super::code_if(true, seq![0x03u8]));
}

proof fn lemma_cleared(channel: ChannelView, windows: ServiceStateView, bits: u8)
    requires
        mirrors(channel, windows),
    ensures
        same_windows(windows, ran(windows, ServiceCommand::ClearWindows(bits))),
        mirrors(channel, ran(windows, ServiceCommand::ClearWindows(bits))),
{
    lemma_clear(channel, windows, bits);
    let s = ran(windows, ServiceCommand::ClearWindows(bits));
    lemma_still_mirrors(channel, channel, windows, s);
}

/// Where lines roll up they are written to window 0, which is shown.
pub proof fn law_rolling_lines_are_on_screen(
    channel: ChannelView,
    windows: ServiceStateView,
    mode: Cea608Mode,
    codes: Seq<Code>,
)
    requires
        mirrors(channel, windows),
        mode.rolls_up(),
        channel.pen.active == 1 || !has_number(windows, 0),
        are_for(codes, channel, CaptionCommand::NewMode(mode)),
    ensures
        carried_out(windows, codes) matches Some(after) && {
            &&& mirrors(channel.handle(CaptionCommand::NewMode(mode)).0, after)
            &&& after.current == 0
            &&& exists|i: int|
                0 <= i < after.windows.len() && (#[trigger] after.windows[i]).define.window_id == 0
                    && after.windows[i].visible
        },
{
    let next = channel.handle(CaptionCommand::NewMode(mode)).0;
    let begins = channel.state.mode is Some && !channel.rolls_up();
    let shrinks = shrunk(channel, mode);
    let front = old_lines(channel, begins, shrinks);
    let count = mode.rows() as u8;
    let tail = crate::cea708utils::rollup_bytes(count, next.state.base_row);
    lemma_rollup_out(channel, mode);
    lemma_ended(windows, codes, front + tail, true);
    let first = codes.take((front + tail).len() as int);
    lemma_in_parts(windows, first, front, tail);
    lemma_old_lines(channel, windows, first.take(front.len() as int), begins, shrinks);
    let s2 = carried_out(windows, first.take(front.len() as int))->0;
    lemma_rollup_windows(
        channel,
        s2,
        first.skip(front.len() as int),
        count,
        next.state.base_row,
        next,
    );
    lemma_zero_is_shown(next, carried_out(windows, codes)->0);
}

proof fn lemma_zero_is_shown(channel: ChannelView, windows: ServiceStateView)
    requires
        mirrors(channel, windows),
        channel.pen.active == 1,
        has_number(windows, 0),
    ensures
        exists|i: int|
            0 <= i < windows.windows.len() && (#[trigger] windows.windows[i]).define.window_id == 0
                && windows.windows[i].visible,
{
    lemma_bits();
    let k = choose|k: int|
        0 <= k < windows.windows.len() && (#[trigger] windows.windows[k]).define.window_id == 0;
    assert(windows.windows[k].visible);
}

/// By how many rows less lines roll up in a mode.
spec fn shrunk(channel: ChannelView, mode: Cea608Mode) -> int {
    if channel.rolls_up() && (channel.state.mode->0).rows() > mode.rows() {
        (channel.state.mode->0).rows() - mode.rows()
    } else {
        0
    }
}

proof fn lemma_rollup_out(channel: ChannelView, mode: Cea608Mode)
    requires
        mode.rolls_up(),
        channel.state.base_row <= 15,
    ensures
        ({
            let (next, out) = channel.handle(CaptionCommand::NewMode(mode));
            let begins = channel.state.mode is Some && !channel.rolls_up();
            &&& out == old_lines(channel, begins, shrunk(channel, mode))
                + crate::cea708utils::rollup_bytes(mode.rows() as u8, next.state.base_row)
                + super::code_if(true, seq![0x03u8])
            &&& next.pen.active == 1
            &&& next.pen.hidden == 2
            &&& next.state.base_row <= 15
        }),
{
}

/// The codes for the lines that were there before lines roll up.
spec fn old_lines(channel: ChannelView, begins: bool, shrinks: int) -> Seq<Seq<u8>> {
    (if begins {
        seq![seq![0x88u8, channel.pen.hidden], seq![0x88u8, channel.pen.active]]
    } else {
        Seq::empty()
    }) + super::times(shrinks, seq![0x0du8])
}

proof fn lemma_old_lines(
    channel: ChannelView,
    windows: ServiceStateView,
    codes: Seq<Code>,
    begins: bool,
    shrinks: int,
)
    requires
        mirrors(channel, windows),
        crate::cea708utils::bytes_of(codes) == old_lines(channel, begins, shrinks),
        shrinks >= 0,
    ensures
        carried_out(windows, codes) matches Some(s) && mirrors(channel, s) && (has_number(s, 0)
            ==> has_number(windows, 0)),
{
    let cleared = if begins {
        seq![seq![0x88u8, channel.pen.hidden], seq![0x88u8, channel.pen.active]]
    } else {
        Seq::empty()
    };
    let line_ends = super::times(shrinks, seq![0x0du8]);
    lemma_in_parts(windows, codes, cleared, line_ends);
    let c = codes.take(cleared.len() as int);
    let r = codes.skip(cleared.len() as int);
    if begins {
        lemma_both_cleared(channel, windows, c);
    } else {
        assert(c.len() == crate::cea708utils::bytes_of(c).len());
    }
    let s1 = carried_out(windows, c)->0;
    assert(same_windows(windows, s1));
    lemma_line_ends(shrinks);
    lemma_inner_codes(s1, r, line_ends, r.len() as int);
    let s2 = carried_out(s1, r)->0;
    lemma_still_mirrors(channel, channel, windows, s1);
    lemma_still_mirrors(channel, channel, s1, s2);
    lemma_same_numbers(windows, s1);
    lemma_same_numbers(s1, s2);
}

proof fn lemma_line_ends(n: int)
    ensures
        all_inner(super::times(n, seq![0x0du8])),
{
    lemma_control_is_inner(seq![0x0du8], true);
    assert(seq![seq![0x0du8]][0] == seq![0x0du8]);
    assert(says_inner(seq![0x0du8]));
}

proof fn lemma_same_numbers(a: ServiceStateView, b: ServiceStateView)
    requires
        same_windows(a, b),
    ensures
        has_number(b, 0) ==> has_number(a, 0),
{
    if has_number(b, 0) {
        let k = choose|k: int|
            0 <= k < b.windows.len() && (#[trigger] b.windows[k]).define.window_id == 0;
        assert(a.windows[k].define.window_id == 0);
    }
}

proof fn lemma_both_cleared(channel: ChannelView, windows: ServiceStateView, codes: Seq<Code>)
    requires
        mirrors(channel, windows),
        crate::cea708utils::bytes_of(codes) == seq![
            seq![0x88u8, channel.pen.hidden],
            seq![0x88u8, channel.pen.active],
        ],
    ensures
        carried_out(windows, codes) matches Some(s) && same_windows(windows, s),
{
    let x = seq![0x88u8, channel.pen.hidden];
    let y = seq![0x88u8, channel.pen.active];
    assert(crate::cea708utils::bytes_of(codes) =~= seq![x] + seq![y]);
    lemma_in_parts(windows, codes, seq![x], seq![y]);
    let cx = ServiceCommand::ClearWindows(channel.pen.hidden);
    let cy = ServiceCommand::ClearWindows(channel.pen.active);
    lemma_reads(windows, codes.take(1), x, cx);
    lemma_cleared(channel, windows, channel.pen.hidden);
    let s = ran(windows, cx);
    lemma_reads(s, codes.skip(1), y, cy);
    lemma_cleared(channel, s, channel.pen.active);
    let t = ran(s, cy);
    assert forall|i: int| 0 <= i < t.windows.len() implies (#[trigger] t.windows[i]).define
        == windows.windows[i].define && t.windows[i].visible == windows.windows[i].visible by {
        assert(s.windows[i].define == windows.windows[i].define);
    }
}

proof fn lemma_moved_preamble(
    channel: ChannelView,
    windows: ServiceStateView,
    preamble: PreambleAddressCode,
    codes: Seq<Code>,
)
    requires
        mirrors(channel, windows),
        crate::cea608::is_preamble(preamble),
        channel.rolls_up(),
        channel.state.base_row != preamble.row,
        channel.pen.active == 1 || !has_number(windows, 0),
        are_for(codes, channel, CaptionCommand::Preamble(preamble)),
    ensures
        carried_out(windows, codes) matches Some(after) && mirrors(
            channel.handle(CaptionCommand::Preamble(preamble)).0,
            after,
        ),
{
    let command = CaptionCommand::Preamble(preamble);
    let (next, out) = channel.run(command);
    lemma_ended(windows, codes, out, next.shows_at_once());
    let first = codes.take(out.len() as int);
    let count = (channel.state.mode->0).rows() as u8;
    let last = (count - 1) as u8;
    let pen1 = channel.pen.first_window();
    let pen2 = PenView { location: SetPenLocationArgs { row: last, ..pen1.location }, ..pen1 };
    let moved = PreambleAddressCode { row: last, ..preamble };
    let front = crate::cea708utils::rollup_bytes(count, preamble.row);
    let tail = pen2.preamble(moved).1;
    assert(out == front + tail);
    lemma_preamble(pen2, moved);
    lemma_in_parts(windows, first, front, tail);
    lemma_rollup_windows(
        channel,
        windows,
        first.take(front.len() as int),
        count,
        preamble.row,
        next,
    );
    let s = carried_out(windows, first.take(front.len() as int))->0;
    let rest = first.skip(front.len() as int);
    lemma_inner_codes(s, rest, tail, rest.len() as int);
    lemma_still_mirrors(next, next, s, carried_out(s, rest)->0);
}

/// Whatever command comes, the windows of the service stay those of the channel: the one that the
/// channel takes to be on screen is shown, the other one is not. Only where window 0 is to be shown
/// and is there but hidden it stays so.
pub proof fn law_windows_follow_the_channel(
    channel: ChannelView,
    windows: ServiceStateView,
    command: CaptionCommand,
    codes: Seq<Code>,
)
    requires
        mirrors(channel, windows),
        crate::cea608::is_command(command),
        channel.takes(command),
        text_reads_back(command),
        begins_in_window_zero(channel, command) ==> channel.pen.active == 1 || !has_number(windows, 0),
        are_for(codes, channel, command),
    ensures
        carried_out(windows, codes) matches Some(after) && mirrors(
            channel.handle(command).0,
            after,
        ),
{
    match command {
        CaptionCommand::NewMode(mode) => {
            if mode.rolls_up() {
                law_rolling_lines_are_on_screen(channel, windows, mode, codes);
            } else if mode == Cea608Mode::PopOn {
                law_popon_prepares_a_hidden_window(channel, windows, codes);
            } else {
                law_paint_on_writes_on_screen(channel, windows, codes);
            }
        },
        CaptionCommand::Text(text) => {
            lemma_text(channel.pen, text);
            lemma_inner_command(channel, windows, codes, command);
        },
        CaptionCommand::EndOfCaption => {
            law_end_of_caption_shows_what_was_prepared(channel, windows, codes);
        },
        CaptionCommand::Preamble(preamble) => {
            if channel.rolls_up() && channel.state.base_row != preamble.row {
                lemma_moved_preamble(channel, windows, preamble, codes);
            } else if channel.rolls_up() {
                let last = ((channel.state.mode->0).rows() - 1) as u8;
                let pen2 = PenView {
                    location: SetPenLocationArgs { row: last, ..channel.pen.location },
                    ..channel.pen
                };
                let moved = PreambleAddressCode { row: last, ..preamble };
                lemma_preamble(pen2, moved);
                assert(channel.run(command).1 =~= pen2.preamble(moved).1);
                lemma_inner_command(channel, windows, codes, command);
            } else {
                lemma_preamble(channel.pen, preamble);
                lemma_inner_command(channel, windows, codes, command);
            }
        },
        CaptionCommand::MidRowChange(midrow) => {
            lemma_midrow(channel.pen, midrow);
            lemma_inner_command(channel, windows, codes, command);
        },
        CaptionCommand::Backspace => {
            lemma_control_is_inner(seq![0x08u8], true);
            lemma_inner_command(channel, windows, codes, command);
        },
        CaptionCommand::CarriageReturn => {
            lemma_small_codes();
            lemma_inner_command(channel, windows, codes, command);
        },
        CaptionCommand::EraseDisplay => {
            law_erased_display_is_empty(channel, windows, codes);
            lemma_still_mirrors(channel, channel, windows, carried_out(windows, codes)->0);
        },
        CaptionCommand::EraseNonDisplay => {
            law_erased_memory_is_empty(channel, windows, codes);
            lemma_still_mirrors(channel, channel, windows, carried_out(windows, codes)->0);
        },
        CaptionCommand::TabOffset(n) => {
            lemma_inner_command(channel, windows, codes, command);
        },
        CaptionCommand::DeleteToEndOfRow => {
            lemma_inner_command(channel, windows, codes, command);
        },
    }
}

/// A channel of which nothing is known has the windows of a new service: none.
pub proof fn law_new_channel_has_no_windows(layout: crate::cea708utils::window::Dimensions)
    ensures
        mirrors(super::new_channel(), ServiceStateView::empty(layout)),
{
}

/// Whether the pen of a channel is where the pen of the window with the given place is, and writes
/// as that one does. Text goes to that window.
pub open spec fn in_step(channel: ChannelView, windows: ServiceStateView, i: int) -> bool {
    let w = windows.windows[i];
    &&& are_distinct(windows)
    &&& crate::cea708utils::laws::are_numbered(windows)
    &&& 0 <= i < windows.windows.len()
    &&& w.define.window_id == windows.current
    &&& w.pen_location == channel.pen.location
    &&& w.pen_attrs == channel.pen.attributes
    &&& w.pen_color == channel.pen.color
    &&& crate::cea708::is_pen(channel.pen.attributes)
}

proof fn lemma_set_pen(
    channel: ChannelView,
    windows: ServiceStateView,
    i: int,
    codes: Seq<Code>,
    needed: bool,
    b: Seq<u8>,
    command: ServiceCommand,
    next: ChannelView,
)
    requires
        in_step(channel, windows, i),
        crate::cea708utils::bytes_of(codes) == super::code_if(needed, b),
        crate::cea708::command_of(b, None) == command,
        match command {
            ServiceCommand::SetPenLocation(l) => next.pen == (PenView { location: l, ..channel.pen }),
            ServiceCommand::SetPenAttributes(a) => next.pen == (PenView {
                attributes: a,
                ..channel.pen
            }) && crate::cea708::is_pen(a),
            ServiceCommand::SetPenColor(c) => next.pen == (PenView { color: c, ..channel.pen }),
            _ => false,
        },
        !needed ==> next.pen == channel.pen,
    ensures
        carried_out(windows, codes) matches Some(after) && in_step(next, after, i)
            && same_windows(windows, after) && same_text(windows, after),
{
    if needed {
        assert(super::code_if(needed, b) =~= seq![b]);
        lemma_reads(windows, codes, b, command);
        reveal(ran);
        let after = windows.run(command);
        lemma_inner_run(windows, command);
        crate::cea708utils::laws::law_current_window_is_written_to(windows, command, i, i);
        assert forall|j: int| 0 <= j < after.windows.len() implies (
        #[trigger] after.windows[j]).lines == windows.windows[j].lines by {
            crate::cea708utils::laws::law_current_window_is_written_to(windows, command, i, j);
        }
        lemma_still_distinct(windows, after);
    } else {
        assert(codes.len() == crate::cea708utils::bytes_of(codes).len());
    }
}

/// Whether no text changed.
pub open spec fn same_text(a: ServiceStateView, b: ServiceStateView) -> bool {
    &&& a.windows.len() == b.windows.len()
    &&& forall|i: int|
        0 <= i < b.windows.len() ==> (#[trigger] b.windows[i]).lines == a.windows[i].lines
}

proof fn lemma_still_distinct(a: ServiceStateView, b: ServiceStateView)
    requires
        are_distinct(a),
        crate::cea708utils::laws::are_numbered(a),
        same_windows(a, b),
    ensures
        are_distinct(b),
        crate::cea708utils::laws::are_numbered(b),
{
    assert forall|i: int, j: int| 0 <= i < j < b.windows.len() implies (
    #[trigger] b.windows[i]).define.window_id != (#[trigger] b.windows[j]).define.window_id by {
        assert(a.windows[i].define.window_id != a.windows[j].define.window_id);
    }
    assert forall|i: int| 0 <= i < b.windows.len() implies (
    #[trigger] b.windows[i]).define.window_id < 8 by {
        assert(a.windows[i].define.window_id < 8);
    }
}

/// The look of text after a preamble or a mid-row code.
proof fn lemma_change_look(
    channel: ChannelView,
    windows: ServiceStateView,
    i: int,
    codes: Seq<Code>,
    italics: bool,
    underline: bool,
)
    requires
        in_step(channel, windows, i),
        crate::cea708utils::bytes_of(codes) == channel.pen.change(italics, underline).1,
    ensures
        carried_out(windows, codes) matches Some(after) && in_step(
            ChannelView { pen: channel.pen.change(italics, underline).0, ..channel },
            after,
            i,
        ) && same_windows(windows, after) && same_text(windows, after),
{
    let next = ChannelView { pen: channel.pen.change(italics, underline).0, ..channel };
    let a = next.pen.attributes;
    crate::cea708::law_pen_attributes_round_trip(a);
    lemma_set_pen(
        channel,
        windows,
        i,
        codes,
        channel.pen.attributes != a,
        crate::cea708::pen_attributes_bytes(a),
        ServiceCommand::SetPenAttributes(a),
        next,
    );
}

proof fn lemma_dye(
    channel: ChannelView,
    windows: ServiceStateView,
    i: int,
    codes: Seq<Code>,
    color: crate::cea608::Color,
)
    requires
        in_step(channel, windows, i),
        crate::cea708utils::bytes_of(codes) == channel.pen.dye(color).1,
    ensures
        carried_out(windows, codes) matches Some(after) && in_step(
            ChannelView { pen: channel.pen.dye(color).0, ..channel },
            after,
            i,
        ) && same_windows(windows, after) && same_text(windows, after),
{
    let next = ChannelView { pen: channel.pen.dye(color).0, ..channel };
    let c = next.pen.color;
    crate::cea708::law_pen_color_round_trip(c);
    lemma_set_pen(
        channel,
        windows,
        i,
        codes,
        channel.pen.color != c,
        crate::cea708::pen_color_bytes(c),
        ServiceCommand::SetPenColor(c),
        next,
    );
}

/// A preamble moves the pen of the window that text goes to to its row and column, and from then on
/// text is in italics, underlined and in the color that it says. No text changes.
#[verifier::spinoff_prover]
pub proof fn law_preamble_moves_the_pen(
    channel: ChannelView,
    windows: ServiceStateView,
    i: int,
    preamble: PreambleAddressCode,
    codes: Seq<Code>,
)
    requires
        in_step(channel, windows, i),
        !channel.rolls_up(),
        crate::cea608::is_preamble(preamble),
        are_for(codes, channel, CaptionCommand::Preamble(preamble)),
    ensures
        carried_out(windows, codes) matches Some(after) && {
            let w = after.windows[i];
            &&& in_step(channel.handle(CaptionCommand::Preamble(preamble)).0, after, i)
            &&& same_windows(windows, after)
            &&& same_text(windows, after)
            &&& w.pen_location.row == preamble.row
            &&& preamble.code matches PreambleType::Indent(n) ==> w.pen_location.column == n
            &&& !(preamble.code is Indent) ==> w.pen_location.column == 0
            &&& w.pen_attrs.italics == (preamble.code is WhiteItalics)
            &&& w.pen_attrs.underline == preamble.underline
            &&& w.pen_color.foreground_color == crate::cea708utils::foreground_color(
                match preamble.code {
                    PreambleType::Color(c) => c,
                    _ => crate::cea608::Color::White,
                },
            )
        },
{
    let command = CaptionCommand::Preamble(preamble);
    let (next, out) = channel.run(command);
    lemma_ended(windows, codes, out, next.shows_at_once());
    let first = codes.take(out.len() as int);
    let location = SetPenLocationArgs { row: preamble.row, column: preamble.at_column() };
    let (pen1, out1) = channel.pen.move_to(location);
    let (pen2, out2) = pen1.change(preamble.code is WhiteItalics, preamble.underline);
    let (pen3, out3) = pen2.dye(preamble.in_color());
    let c1 = ChannelView { pen: pen1, ..channel };
    let c2 = ChannelView { pen: pen2, ..channel };
    assert(out == out1 + out2 + out3);
    lemma_in_parts(windows, first, out1 + out2, out3);
    let front = first.take((out1 + out2).len() as int);
    let back = first.skip((out1 + out2).len() as int);
    lemma_in_parts(windows, front, out1, out2);
    crate::cea708::law_pen_location_round_trip(location);
    lemma_set_pen(
        channel,
        windows,
        i,
        front.take(out1.len() as int),
        channel.pen.location != location,
        crate::cea708::pen_location_bytes(location),
        ServiceCommand::SetPenLocation(location),
        c1,
    );
    let s1 = carried_out(windows, front.take(out1.len() as int))->0;
    lemma_change_look(
        c1,
        s1,
        i,
        front.skip(out1.len() as int),
        preamble.code is WhiteItalics,
        preamble.underline,
    );
    let s2 = carried_out(s1, front.skip(out1.len() as int))->0;
    lemma_dye(c2, s2, i, back, preamble.in_color());
    let s3 = carried_out(s2, back)->0;
    lemma_same_twice(windows, s1, s2);
    lemma_same_twice(windows, s2, s3);
}

proof fn lemma_same_twice(a: ServiceStateView, b: ServiceStateView, c: ServiceStateView)
    requires
        same_windows(a, b),
        same_text(a, b),
        same_windows(b, c),
        same_text(b, c),
    ensures
        same_windows(a, c),
        same_text(a, c),
{
    assert forall|i: int| 0 <= i < c.windows.len() implies (#[trigger] c.windows[i]).define
        == a.windows[i].define && c.windows[i].visible == a.windows[i].visible
        && c.windows[i].lines == a.windows[i].lines by {
        assert(b.windows[i].define == a.windows[i].define);
        assert(b.windows[i].lines == a.windows[i].lines);
    }
}

/// A character that comes before the last column stands in the window that text goes to, where the
/// pen was. All other text stays, and the pens stay in step.
pub proof fn law_text_reaches_the_window(
    channel: ChannelView,
    windows: ServiceStateView,
    i: int,
    c: char,
    codes: Seq<Code>,
)
    requires
        in_step(channel, windows, i),
        windows.wf(),
        channel.pen.location.column < 32,
        reads_back(c),
        crate::cea708utils::char_bytes(c).len() > 0,
        crate::cea708utils::laws::are_rows(windows.windows[i].lines),
        windows.windows[i].attrs.print_direction is LeftToRight,
        channel.pen.location.row <= windows.windows[i].define.row_count,
        channel.pen.location.column <= windows.windows[i].define.column_count,
        are_for(
            codes,
            channel,
            CaptionCommand::Text(
                Text { needs_backspace: false, char1: Some(c), char2: None },
            ),
        ),
    ensures
        carried_out(windows, codes) matches Some(after) && {
            let row = channel.pen.location.row as int;
            let column = channel.pen.location.column as int;
            let text = CaptionCommand::Text(
                Text { needs_backspace: false, char1: Some(c), char2: None },
            );
            &&& same_windows(windows, after)
            &&& in_step(channel.handle(text).0, after, i)
            &&& crate::cea708utils::laws::has_char(after.windows[i].lines, row, column, c)
            &&& after.windows[i].pen_location.column == column + 1
            &&& after.windows[i].pen_location.row == row
            &&& forall|r: int, n: int, d: char|
                0 <= n && (r != row || n != column)
                    ==> #[trigger] crate::cea708utils::laws::has_char(
                    after.windows[i].lines,
                    r,
                    n,
                    d,
                ) == crate::cea708utils::laws::has_char(windows.windows[i].lines, r, n, d)
            &&& forall|j: int|
                0 <= j < after.windows.len() && j != i ==> #[trigger] after.windows[j]
                    == windows.windows[j]
        },
{
    let text = Text { needs_backspace: false, char1: Some(c), char2: None };
    let command = CaptionCommand::Text(text);
    let (next, out) = channel.run(command);
    let b = crate::cea708utils::char_bytes(c)[0];
    assert(out =~= seq![b]);
    lemma_ended(windows, codes, out, next.shows_at_once());
    let first = codes.take(1);
    lemma_says(first, seq![b], 0);
    let said = ServiceCommand::Char(c);
    assert(crate::cea708utils::command_for(first[0]) == said);
    reveal_with_fuel(crate::cea708utils::run_codes, 2);
    let after = windows.run(said);
    assert(carried_out(windows, codes) == Some(after));
    lemma_inner_run(windows, said);
    lemma_still_distinct(windows, after);
    crate::cea708utils::laws::law_character_is_written(windows, c, i);
    crate::cea708utils::laws::law_current_window_is_written_to(windows, said, i, i);
    lemma_char_keeps_pen(windows, i, c);
    assert forall|j: int| 0 <= j < after.windows.len() && j != i implies #[trigger] after.windows[j]
        == windows.windows[j] by {
        crate::cea708utils::laws::law_current_window_is_written_to(windows, said, i, j);
    }
}

proof fn lemma_char_keeps_pen(windows: ServiceStateView, i: int, c: char)
    requires
        are_distinct(windows),
        0 <= i < windows.windows.len(),
        windows.windows[i].define.window_id == windows.current,
    ensures
        windows.run(ServiceCommand::Char(c)).windows[i].pen_attrs == windows.windows[i].pen_attrs,
        windows.run(ServiceCommand::Char(c)).windows[i].pen_color == windows.windows[i].pen_color,
{
    crate::cea708utils::window::lemma_window_index(windows.windows, windows.current);
}

/// Where lines roll up, a carriage return moves the text of the window that text goes to up by one
/// row, and its pen to the first column.
pub proof fn law_carriage_return_rolls_the_window(
    channel: ChannelView,
    windows: ServiceStateView,
    i: int,
    codes: Seq<Code>,
    row: int,
    column: int,
    c: char,
)
    requires
        are_distinct(windows),
        windows.wf(),
        0 <= i < windows.windows.len(),
        windows.windows[i].define.window_id == windows.current,
        channel.rolls_up(),
        crate::cea708utils::laws::are_rows(windows.windows[i].lines),
        windows.windows[i].attrs.print_direction is LeftToRight,
        windows.windows[i].attrs.scroll_direction is BottomToTop,
        windows.windows[i].pen_location.row >= windows.windows[i].define.row_count,
        forall|k: int|
            0 <= k < windows.windows[i].lines.len() ==> 0 <= (
            #[trigger] windows.windows[i].lines[k]).no <= windows.windows[i].define.row_count + 1,
        0 <= column,
        0 <= row,
        are_for(codes, channel, CaptionCommand::CarriageReturn),
    ensures
        carried_out(windows, codes) matches Some(after) && {
            &&& crate::cea708utils::laws::has_char(after.windows[i].lines, row, column, c)
                == crate::cea708utils::laws::has_char(
                windows.windows[i].lines,
                row + 1,
                column,
                c,
            )
            &&& after.windows[i].pen_location.column == 0
            &&& same_windows(windows, after)
        },
{
    let command = CaptionCommand::CarriageReturn;
    let (next, out) = channel.run(command);
    assert(out =~= seq![seq![0x0du8]]);
    lemma_ended(windows, codes, out, next.shows_at_once());
    lemma_reads(windows, codes.take(1), seq![0x0du8], ServiceCommand::CarriageReturn);
    reveal(ran);
    lemma_inner_run(windows, ServiceCommand::CarriageReturn);
    crate::cea708utils::laws::law_lines_roll_up(windows, i, row, column, c);
}

/// What is not for lines that roll up ends no line.
pub proof fn law_only_rolling_lines_end(channel: ChannelView)
    requires
        !channel.rolls_up(),
    ensures
        channel.run(CaptionCommand::CarriageReturn) == (channel, Seq::<Seq<u8>>::empty()),
{
}

/// The four caption streams go to the first four services: those of the first channels to the first
/// two, in the order of the fields, and those of the second channels to the other two.
pub proof fn law_each_stream_has_its_service(field1: bool, channel: crate::cea608::Channel)
    ensures
        super::service_index(field1, channel) == (if channel is One {
            0int
        } else {
            2
        }) + (if field1 {
            0int
        } else {
            1
        }),
{
}

} // verus!
