//! Turns captions of line 21 into captions of digital television.
use crate::cea608::{
    decode, new_decoder, CaptionCode, Cea608Mode, Channel, CaptionCommand, Field, MidRow,
    PreambleAddressCode, Text,
};
use crate::cea608utils::TextStyle;
use crate::cea708::{SetPenAttributesArgs, SetPenColorArgs, SetPenLocationArgs};
use crate::cea708utils::{
    cea608_color_to_foreground_color, textstyle_to_pen_color, Cea708ServiceWriter,
};
use crate::clock::{FlowError, Framerate};
use crate::dtvcc::{
    free_space_of_packet, new_packet, new_writer, push_all_cea608, push_packet, push_service,
    write_frame, Cea608Pair,
};
use crate::text::same_bytes;
use cea708_types::tables::Code;
use cea708_types::DTVCCPacket;
use vstd::prelude::*;

pub mod laws;

verus! {

/// How captions of line 21 come.
#[derive(Clone, Copy, Debug, PartialEq, Eq, Structural)]
pub enum Cea608Format {
    S334_1A,
    RawField0,
    RawField1,
}

/// How many services there are: one for each field and channel.
pub const SERVICES: usize = 4;

/// The column behind the last one.
pub const COLUMN_END: u8 = 32;

/// What is known of a channel.
#[derive(Clone, Copy, Debug, PartialEq, Eq, Structural)]
pub struct Cea608ServiceState {
    pub mode: Option<Cea608Mode>,
    pub base_row: u8,
}

/// Where the pen of a service is, how it writes, and to which windows.
pub struct PenView {
    pub active: u8,
    pub hidden: u8,
    pub location: SetPenLocationArgs,
    pub color: SetPenColorArgs,
    pub attributes: SetPenAttributesArgs,
}

/// The pen for white text on black.
pub open spec fn white() -> SetPenColorArgs {
    SetPenColorArgs {
        foreground_color: crate::cea708utils::foreground_color(crate::cea608::Color::White),
        foreground_opacity: crate::cea708::Opacity::Solid,
        background_color: crate::cea708utils::black(),
        background_opacity: crate::cea708::Opacity::Solid,
        edge_color: crate::cea708utils::black(),
    }
}

/// A standard pen.
pub open spec fn standard() -> SetPenAttributesArgs {
    SetPenAttributesArgs {
        pen_size: 1,
        font_style: 0,
        text_tag: 0,
        offset: 1,
        italics: false,
        underline: false,
        edge_type: 0,
    }
}

/// A code if it is needed.
pub open spec fn code_if(needed: bool, code: Seq<u8>) -> Seq<Seq<u8>> {
    if needed {
        seq![code]
    } else {
        Seq::empty()
    }
}

impl PenView {
    /// The column after the next character.
    pub open spec fn next_column(&self) -> u8 {
        if self.location.column < COLUMN_END {
            (self.location.column + 1) as u8
        } else {
            COLUMN_END
        }
    }

    /// Writes a character. In the last column it replaces the one that is there.
    pub open spec fn put_char(&self, c: Option<char>) -> (PenView, Seq<Seq<u8>>) {
        match c {
            Some(c) => (
                PenView {
                    location: SetPenLocationArgs { column: self.next_column(), ..self.location },
                    ..*self
                },
                code_if(self.location.column >= COLUMN_END, seq![0x08u8])
                    + crate::cea708utils::char_bytes(c),
            ),
            None => (*self, Seq::empty()),
        }
    }

    /// Writes text.
    pub open spec fn text(&self, text: Text) -> (PenView, Seq<Seq<u8>>) {
        let (pen1, out1) = self.put_char(text.char1);
        let (pen2, out2) = pen1.put_char(text.char2);
        (pen2, code_if(text.needs_backspace, seq![0x08u8]) + out1 + out2)
    }

    /// Moves the pen.
    pub open spec fn move_to(&self, location: SetPenLocationArgs) -> (PenView, Seq<Seq<u8>>) {
        (
            PenView { location, ..*self },
            code_if(self.location != location, crate::cea708::pen_location_bytes(location)),
        )
    }

    /// Changes whether the pen writes in italics, and underlines.
    pub open spec fn change(&self, italics: bool, underline: bool) -> (PenView, Seq<Seq<u8>>) {
        let attributes = SetPenAttributesArgs { italics, underline, ..self.attributes };
        (
            PenView { attributes, ..*self },
            code_if(
                self.attributes != attributes,
                crate::cea708::pen_attributes_bytes(attributes),
            ),
        )
    }

    /// Changes the color of the pen.
    pub open spec fn dye(&self, color: crate::cea608::Color) -> (PenView, Seq<Seq<u8>>) {
        let dyed = SetPenColorArgs {
            foreground_color: crate::cea708utils::foreground_color(color),
            ..self.color
        };
        (
            PenView { color: dyed, ..*self },
            code_if(self.color != dyed, crate::cea708::pen_color_bytes(dyed)),
        )
    }

    /// A preamble: moves the pen and changes how it writes.
    pub open spec fn preamble(&self, preamble: PreambleAddressCode) -> (PenView, Seq<Seq<u8>>) {
        let (pen1, out1) = self.move_to(
            SetPenLocationArgs { row: preamble.row, column: preamble.at_column() },
        );
        let (pen2, out2) = pen1.change(preamble.code is WhiteItalics, preamble.underline);
        let (pen3, out3) = pen2.dye(preamble.in_color());
        (pen3, out1 + out2 + out3)
    }

    /// A mid-row code: a space, and a change of how the pen writes.
    pub open spec fn midrow(&self, midrow: MidRow) -> (PenView, Seq<Seq<u8>>) {
        let (pen1, out1) = match midrow.color {
            Some(color) => self.dye(color),
            None => (*self, Seq::empty()),
        };
        let (pen2, out2) = pen1.change(midrow.color is None, midrow.underline);
        (pen2, crate::cea708utils::char_bytes(' ') + out1 + out2)
    }

    /// Defines the windows of a mode. The pen is a new one then.
    pub open spec fn new_mode(&self, mode: Cea608Mode, base_row: u8) -> (PenView, Seq<Seq<u8>>) {
        let pen = PenView {
            location: SetPenLocationArgs {
                row: if mode.rolls_up() {
                    (mode.rows() - 1) as u8
                } else {
                    0
                },
                column: 0,
            },
            color: white(),
            attributes: SetPenAttributesArgs {
                italics: false,
                underline: false,
                ..self.attributes
            },
            ..*self
        };
        match mode {
            Cea608Mode::PopOn => (
                pen,
                crate::cea708utils::popon_bytes(self.active, self.hidden),
            ),
            Cea608Mode::PaintOn => (pen, crate::cea708utils::paint_on_bytes(self.active)),
            _ => (pen.first_window(), crate::cea708utils::rollup_bytes(mode.rows() as u8, base_row)),
        }
    }

    /// The pen once window 0 is shown.
    pub open spec fn first_window(&self) -> PenView {
        PenView {
            active: crate::cea708utils::WINDOW_ZERO,
            hidden: crate::cea708utils::WINDOW_ONE,
            ..*self
        }
    }
}

/// A channel and its service.
pub struct ChannelView {
    pub state: Cea608ServiceState,
    pub pen: PenView,
}

/// The same code some times.
pub open spec fn times(n: int, code: Seq<u8>) -> Seq<Seq<u8>> {
    Seq::new(n as nat, |i: int| code)
}

impl ChannelView {
    /// Whether lines roll up.
    pub open spec fn rolls_up(&self) -> bool {
        self.state.mode is Some && (self.state.mode->0).rolls_up()
    }

    /// Whether text is shown as it is written.
    pub open spec fn shows_at_once(&self) -> bool {
        self.state.mode is Some && self.state.mode != Some(Cea608Mode::PopOn)
    }

    /// Chooses a mode. What is shown is cleared where lines begin to roll up, and moved up where
    /// less of them do.
    pub open spec fn new_mode(&self, mode: Cea608Mode) -> (ChannelView, Seq<Seq<u8>>) {
        let begins = self.state.mode is Some && !self.rolls_up() && mode.rolls_up();
        let cleared = if begins {
            seq![seq![0x88u8, self.pen.hidden], seq![0x88u8, self.pen.active]]
        } else {
            Seq::empty()
        };
        let shrinks = if self.rolls_up() && mode.rolls_up() && (self.state.mode->0).rows()
            > mode.rows() {
            (self.state.mode->0).rows() - mode.rows()
        } else {
            0
        };
        let state = Cea608ServiceState {
            mode: Some(mode),
            base_row: if begins {
                15
            } else {
                self.state.base_row
            },
        };
        let (pen, out) = self.pen.new_mode(
            mode,
            if mode.rolls_up() {
                state.base_row
            } else {
                0
            },
        );
        (ChannelView { state, pen }, cleared + times(shrinks, seq![0x0du8]) + out)
    }

    /// A preamble. Where lines roll up it is their last row that is meant.
    pub open spec fn preamble(&self, preamble: PreambleAddressCode) -> (
        ChannelView,
        Seq<Seq<u8>>,
    ) {
        if self.rolls_up() {
            let count = (self.state.mode->0).rows() as u8;
            let last = (count - 1) as u8;
            let is_moved = self.state.base_row != preamble.row;
            let pen1 = if is_moved {
                self.pen.first_window()
            } else {
                self.pen
            };
            let pen2 = PenView {
                location: SetPenLocationArgs { row: last, ..pen1.location },
                ..pen1
            };
            let (pen3, out) = pen2.preamble(PreambleAddressCode { row: last, ..preamble });
            (
                ChannelView {
                    state: Cea608ServiceState { base_row: preamble.row, ..self.state },
                    pen: pen3,
                },
                (if is_moved {
                    crate::cea708utils::rollup_bytes(count, preamble.row)
                } else {
                    Seq::empty()
                }) + out,
            )
        } else {
            let (pen, out) = self.pen.preamble(preamble);
            (ChannelView { pen, ..*self }, out)
        }
    }

    /// The channel with the pen in another column.
    pub open spec fn at_column(&self, column: u8) -> ChannelView {
        ChannelView {
            pen: PenView {
                location: SetPenLocationArgs { column, ..self.pen.location },
                ..self.pen
            },
            ..*self
        }
    }

    /// Whether a command can be carried out: nothing stands before the first column.
    pub open spec fn takes(&self, command: CaptionCommand) -> bool {
        command is Backspace ==> self.pen.location.column > 0
    }

    /// What a command becomes.
    pub open spec fn run(&self, command: CaptionCommand) -> (ChannelView, Seq<Seq<u8>>) {
        match command {
            CaptionCommand::NewMode(mode) => self.new_mode(mode),
            CaptionCommand::Text(text) => {
                let (pen, out) = self.pen.text(text);
                (ChannelView { pen, ..*self }, out)
            },
            CaptionCommand::EndOfCaption => (
                ChannelView {
                    pen: PenView {
                        active: self.pen.hidden,
                        hidden: self.pen.active,
                        ..self.pen
                    },
                    ..*self
                },
                seq![seq![0x8bu8, 3u8], seq![0x03u8]],
            ),
            CaptionCommand::Preamble(preamble) => self.preamble(preamble),
            CaptionCommand::MidRowChange(midrow) => {
                let (pen, out) = self.pen.midrow(midrow);
                (ChannelView { pen, ..*self }, out)
            },
            CaptionCommand::Backspace => (
                self.at_column((self.pen.location.column - 1) as u8),
                seq![seq![0x08u8]],
            ),
            CaptionCommand::CarriageReturn => (*self, code_if(self.rolls_up(), seq![0x0du8])),
            CaptionCommand::EraseDisplay => (*self, seq![seq![0x88u8, self.pen.active]]),
            CaptionCommand::EraseNonDisplay => (*self, seq![seq![0x88u8, self.pen.hidden]]),
            CaptionCommand::TabOffset(n) => (
                self.at_column(
                    if self.pen.location.column + n < COLUMN_END {
                        (self.pen.location.column + n) as u8
                    } else {
                        COLUMN_END
                    },
                ),
                Seq::empty(),
            ),
            CaptionCommand::DeleteToEndOfRow => (*self, Seq::empty()),
        }
    }

    /// What a command becomes, with the end of the text where it is shown at once.
    pub open spec fn handle(&self, command: CaptionCommand) -> (ChannelView, Seq<Seq<u8>>) {
        let (after, out) = self.run(command);
        (after, out + code_if(after.shows_at_once(), seq![0x03u8]))
    }
}

/// A service and its pen.
pub struct Cea708ServiceState {
    pub writer: Cea708ServiceWriter,
    pub pen_location: SetPenLocationArgs,
    pub pen_color: SetPenColorArgs,
    pub pen_attributes: SetPenAttributesArgs,
}

impl Cea708ServiceState {
    /// Whether the writer is one, and the pen is on screen.
    pub open spec fn wf(&self) -> bool {
        &&& self.writer.wf()
        &&& self.pen_location.column <= COLUMN_END
    }

    /// The pen.
    pub open spec fn pen(&self) -> PenView {
        PenView {
            active: self.writer.active_window,
            hidden: self.writer.hidden_window,
            location: self.pen_location,
            color: self.pen_color,
            attributes: self.pen_attributes,
        }
    }

    /// Whether codes came behind those of the other, and the pen is the given one.
    pub open spec fn wrote(&self, other: Self, step: (PenView, Seq<Seq<u8>>)) -> bool {
        &&& self.wf()
        &&& self.writer.service_no == other.writer.service_no
        &&& self.pen() == step.0
        &&& self.writer.follows(other.writer, step.1)
    }

    /// A service without codes.
    pub fn new(service_no: u8) -> (r: Self)
        requires
            service_no < 64,
        ensures
            r.wf(),
            r.writer.codes@.len() == 0,
            r.writer.service_no == service_no,
            r.pen() == new_pen(),
    {
        Cea708ServiceState {
            writer: Cea708ServiceWriter::new(service_no),
            pen_location: SetPenLocationArgs { row: 0, column: 0 },
            pen_color: textstyle_to_pen_color(TextStyle::White),
            pen_attributes: SetPenAttributesArgs {
                pen_size: 1,
                font_style: 0,
                text_tag: 0,
                offset: 1,
                italics: false,
                underline: false,
                edge_type: 0,
            },
        }
    }

    fn backspace_if(&mut self, needed: bool)
        requires
            old(self).wf(),
        ensures
            final(self).wrote(*old(self), (old(self).pen(), code_if(needed, seq![0x08u8]))),
    {
        if needed {
            self.writer.backspace();
        }
        proof {
            lemma_wrote_nothing(*old(self));
        }
    }

    fn put_char(&mut self, c: Option<char>)
        requires
            old(self).wf(),
        ensures
            final(self).wrote(*old(self), old(self).pen().put_char(c)),
    {
        proof {
            lemma_wrote_nothing(*old(self));
        }
        if let Some(c) = c {
            self.backspace_if(self.pen_location.column >= COLUMN_END);
            let ghost mid = *self;
            self.writer.write_char(c);
            self.pen_location.column = if self.pen_location.column < COLUMN_END {
                self.pen_location.column + 1
            } else {
                COLUMN_END
            };
            proof {
                crate::cea708utils::lemma_follows(
                    old(self).writer,
                    mid.writer,
                    self.writer,
                    code_if(old(self).pen_location.column >= COLUMN_END, seq![0x08u8]),
                    crate::cea708utils::char_bytes(c),
                );
            }
        }
    }

    fn handle_text(&mut self, text: Text)
        requires
            old(self).wf(),
        ensures
            final(self).wrote(*old(self), old(self).pen().text(text)),
    {
        self.backspace_if(text.needs_backspace);
        let ghost mid = *self;
        self.put_char(text.char1);
        let ghost mid2 = *self;
        self.put_char(text.char2);
        proof {
            let x = code_if(text.needs_backspace, seq![0x08u8]);
            let (pen1, y) = old(self).pen().put_char(text.char1);
            let z = pen1.put_char(text.char2).1;
            crate::cea708utils::lemma_follows(old(self).writer, mid.writer, mid2.writer, x, y);
            crate::cea708utils::lemma_follows(
                old(self).writer,
                mid2.writer,
                self.writer,
                x + y,
                z,
            );
        }
    }

    fn move_to(&mut self, row: u8, column: u8)
        requires
            old(self).wf(),
            column <= COLUMN_END,
        ensures
            final(self).wrote(
                *old(self),
                old(self).pen().move_to(SetPenLocationArgs { row, column }),
            ),
    {
        let location: SetPenLocationArgs = SetPenLocationArgs { row, column };
        proof {
            lemma_wrote_nothing(*old(self));
        }
        if self.pen_location.row != row || self.pen_location.column != column {
            self.pen_location = location;
            self.writer.set_pen_location(location);
        }
    }

    fn change(&mut self, italics: bool, underline: bool)
        requires
            old(self).wf(),
        ensures
            final(self).wrote(*old(self), old(self).pen().change(italics, underline)),
    {
        proof {
            lemma_wrote_nothing(*old(self));
        }
        if self.pen_attributes.italics != italics || self.pen_attributes.underline != underline {
            self.pen_attributes.italics = italics;
            self.pen_attributes.underline = underline;
            self.writer.set_pen_attributes(self.pen_attributes);
        }
    }

    fn dye(&mut self, color: crate::cea608::Color)
        requires
            old(self).wf(),
        ensures
            final(self).wrote(*old(self), old(self).pen().dye(color)),
    {
        proof {
            lemma_wrote_nothing(*old(self));
        }
        let foreground: crate::cea708::Color = cea608_color_to_foreground_color(color);
        if self.pen_color.foreground_color != foreground {
            self.pen_color.foreground_color = foreground;
            self.writer.set_pen_color(self.pen_color);
        }
    }

    fn handle_preamble(&mut self, preamble: PreambleAddressCode)
        requires
            old(self).wf(),
            crate::cea608::is_preamble(preamble),
        ensures
            final(self).wrote(*old(self), old(self).pen().preamble(preamble)),
    {
        self.move_to(preamble.row, preamble.column());
        let ghost mid = *self;
        self.change(preamble.italics(), preamble.underline);
        let ghost mid2 = *self;
        self.dye(preamble.color());
        proof {
            let (pen1, x) = old(self).pen().move_to(
                SetPenLocationArgs { row: preamble.row, column: preamble.at_column() },
            );
            let (pen2, y) = pen1.change(preamble.code is WhiteItalics, preamble.underline);
            let z = pen2.dye(preamble.in_color()).1;
            crate::cea708utils::lemma_follows(old(self).writer, mid.writer, mid2.writer, x, y);
            crate::cea708utils::lemma_follows(
                old(self).writer,
                mid2.writer,
                self.writer,
                x + y,
                z,
            );
        }
    }

    fn handle_midrowchange(&mut self, midrow: MidRow)
        requires
            old(self).wf(),
        ensures
            final(self).wrote(*old(self), old(self).pen().midrow(midrow)),
    {
        self.writer.write_char(' ');
        let ghost mid = *self;
        proof {
            lemma_wrote_nothing(mid);
        }
        if let Some(color) = midrow.color {
            self.dye(color);
        }
        let ghost mid2 = *self;
        self.change(midrow.italics(), midrow.underline);
        proof {
            let x = crate::cea708utils::char_bytes(' ');
            let (pen1, y) = match midrow.color {
                Some(color) => old(self).pen().dye(color),
                None => (old(self).pen(), Seq::empty()),
            };
            let z = pen1.change(midrow.color is None, midrow.underline).1;
            crate::cea708utils::lemma_follows(old(self).writer, mid.writer, mid2.writer, x, y);
            crate::cea708utils::lemma_follows(
                old(self).writer,
                mid2.writer,
                self.writer,
                x + y,
                z,
            );
        }
    }

    fn new_mode(&mut self, mode: Cea608Mode, base_row: u8)
        requires
            old(self).wf(),
        ensures
            final(self).wrote(*old(self), old(self).pen().new_mode(mode, base_row)),
    {
        let mut row: u8 = 0;
        match mode {
            Cea608Mode::PopOn => self.writer.popon_preamble(),
            Cea608Mode::PaintOn => self.writer.paint_on_preamble(),
            Cea608Mode::RollUp2 => {
                self.writer.rollup_preamble(2, base_row);
                row = 1;
            },
            Cea608Mode::RollUp3 => {
                self.writer.rollup_preamble(3, base_row);
                row = 2;
            },
            Cea608Mode::RollUp4 => {
                self.writer.rollup_preamble(4, base_row);
                row = 3;
            },
        }
        // the windows are new ones, so that nothing is left of the pen
        self.pen_location.row = row;
        self.pen_location.column = 0;
        self.pen_color = textstyle_to_pen_color(TextStyle::White);
        self.pen_attributes.underline = false;
        self.pen_attributes.italics = false;
    }

    fn carriage_return(&mut self)
        requires
            old(self).wf(),
        ensures
            final(self).wrote(*old(self), (old(self).pen(), seq![seq![0x0du8]])),
    {
        self.writer.carriage_return();
    }

    fn carriage_returns(&mut self, n: u8)
        requires
            old(self).wf(),
        ensures
            final(self).wrote(*old(self), (old(self).pen(), times(n as int, seq![0x0du8]))),
    {
        let mut i: u8 = 0;
        proof {
            lemma_wrote_nothing(*old(self));
            assert(times(0, seq![0x0du8]) =~= Seq::<Seq<u8>>::empty());
        }
        while i < n
            invariant
                i <= n,
                self.wrote(*old(self), (old(self).pen(), times(i as int, seq![0x0du8]))),
            decreases n - i,
        {
            let ghost before = *self;
            self.carriage_return();
            proof {
                crate::cea708utils::lemma_follows(
                    old(self).writer,
                    before.writer,
                    self.writer,
                    times(i as int, seq![0x0du8]),
                    seq![seq![0x0du8]],
                );
                assert(times(i as int, seq![0x0du8]) + seq![seq![0x0du8]] =~= times(
                    i + 1,
                    seq![0x0du8],
                ));
            }
            i += 1;
        }
    }
}

/// The pen of a new service.
pub open spec fn new_pen() -> PenView {
    PenView {
        active: crate::cea708utils::WINDOW_ZERO,
        hidden: crate::cea708utils::WINDOW_ONE,
        location: SetPenLocationArgs { row: 0, column: 0 },
        color: white(),
        attributes: standard(),
    }
}

proof fn lemma_wrote_nothing(state: Cea708ServiceState)
    requires
        state.wf(),
    ensures
        state.writer.follows(state.writer, Seq::empty()),
{
    assert(state.writer.codes@.take(state.writer.codes@.len() as int) =~= state.writer.codes@);
    assert(crate::cea708utils::bytes_of(state.writer.codes@) + Seq::<Seq<u8>>::empty()
        =~= crate::cea708utils::bytes_of(state.writer.codes@));
}

/// A channel together with its service.
pub struct ServiceChannel {
    pub state: Cea608ServiceState,
    pub service: Cea708ServiceState,
}

impl ServiceChannel {
    /// The channel and the pen.
    pub open spec fn channel(&self) -> ChannelView {
        ChannelView { state: self.state, pen: self.service.pen() }
    }

    /// Whether codes came behind those of the other, and the channel is the given one.
    pub open spec fn wrote(&self, other: Self, step: (ChannelView, Seq<Seq<u8>>)) -> bool {
        &&& self.service.wf()
        &&& self.service.writer.service_no == other.service.writer.service_no
        &&& self.channel() == step.0
        &&& self.service.writer.follows(other.service.writer, step.1)
    }

    fn new(service_no: u8) -> (r: Self)
        requires
            service_no < 64,
        ensures
            r.service.wf(),
            r.service.writer.codes@.len() == 0,
            r.service.writer.service_no == service_no,
            r.channel() == new_channel(),
    {
        ServiceChannel {
            state: Cea608ServiceState { mode: None, base_row: 14 },
            service: Cea708ServiceState::new(service_no),
        }
    }

    fn new_mode(&mut self, mode: Cea608Mode)
        requires
            old(self).service.wf(),
        ensures
            final(self).wrote(*old(self), old(self).channel().new_mode(mode)),
    {
        let ghost was = self.channel();
        let was_rolling: Option<u8> = match self.state.mode {
            Some(m) => m.rollup_rows(),
            None => None,
        };
        let rolls: Option<u8> = mode.rollup_rows();
        proof {
            lemma_wrote_nothing(self.service);
        }
        let ghost mut cleared = Seq::<Seq<u8>>::empty();
        if self.state.mode.is_some() && was_rolling.is_none() && rolls.is_some() {
            self.service.writer.clear_hidden_window();
            let ghost mid = self.service;
            self.service.writer.clear_current_window();
            proof {
                let x = seq![seq![0x88u8, was.pen.hidden]];
                let y = seq![seq![0x88u8, was.pen.active]];
                crate::cea708utils::lemma_follows(
                    old(self).service.writer,
                    mid.writer,
                    self.service.writer,
                    x,
                    y,
                );
                cleared = x + y;
                assert(cleared =~= seq![
                    seq![0x88u8, was.pen.hidden],
                    seq![0x88u8, was.pen.active],
                ]);
            }
            self.state.base_row = 15;
        }
        let ghost mid1 = self.service;
        let shrinks: u8 = match (was_rolling, rolls) {
            (Some(before), Some(after)) => if before > after {
                before - after
            } else {
                0
            },
            _ => 0,
        };
        self.service.carriage_returns(shrinks);
        let ghost mid2 = self.service;
        self.state.mode = Some(mode);
        let base_row: u8 = if rolls.is_some() {
            self.state.base_row
        } else {
            0
        };
        self.service.new_mode(mode, base_row);
        proof {
            let y = times(shrinks as int, seq![0x0du8]);
            let z = mid2.pen().new_mode(mode, base_row).1;
            crate::cea708utils::lemma_follows(
                old(self).service.writer,
                mid1.writer,
                mid2.writer,
                cleared,
                y,
            );
            crate::cea708utils::lemma_follows(
                old(self).service.writer,
                mid2.writer,
                self.service.writer,
                cleared + y,
                z,
            );
        }
    }

    fn handle_preamble(&mut self, preamble: PreambleAddressCode)
        requires
            old(self).service.wf(),
            crate::cea608::is_preamble(preamble),
        ensures
            final(self).wrote(*old(self), old(self).channel().preamble(preamble)),
    {
        let rolls: Option<u8> = match self.state.mode {
            Some(m) => m.rollup_rows(),
            None => None,
        };
        match rolls {
            Some(count) => {
                let old_base_row: u8 = self.state.base_row;
                self.state.base_row = preamble.row;
                proof {
                    lemma_wrote_nothing(self.service);
                }
                if old_base_row != preamble.row {
                    self.service.writer.rollup_preamble(count, preamble.row);
                }
                self.service.pen_location.row = count - 1;
                let ghost mid = self.service;
                let moved: PreambleAddressCode = PreambleAddressCode {
                    row: count - 1,
                    ..preamble
                };
                self.service.handle_preamble(moved);
                proof {
                    crate::cea708utils::lemma_follows(
                        old(self).service.writer,
                        mid.writer,
                        self.service.writer,
                        if old_base_row != preamble.row {
                            crate::cea708utils::rollup_bytes(count, preamble.row)
                        } else {
                            Seq::empty()
                        },
                        mid.pen().preamble(moved).1,
                    );
                }
            },
            None => self.service.handle_preamble(preamble),
        }
    }

    fn run(&mut self, command: CaptionCommand)
        requires
            old(self).service.wf(),
            crate::cea608::is_command(command),
            old(self).channel().takes(command),
        ensures
            final(self).wrote(*old(self), old(self).channel().run(command)),
    {
        proof {
            lemma_wrote_nothing(self.service);
        }
        match command {
            CaptionCommand::NewMode(mode) => self.new_mode(mode),
            CaptionCommand::Text(text) => self.service.handle_text(text),
            CaptionCommand::EndOfCaption => {
                self.service.writer.end_of_caption();
                let ghost mid = self.service;
                self.service.writer.etx();
                proof {
                    let x = seq![seq![0x8bu8, 3u8]];
                    let y = seq![seq![0x03u8]];
                    crate::cea708utils::lemma_follows(
                        old(self).service.writer,
                        mid.writer,
                        self.service.writer,
                        x,
                        y,
                    );
                    assert(x + y =~= seq![seq![0x8bu8, 3u8], seq![0x03u8]]);
                }
            },
            CaptionCommand::Preamble(preamble) => self.handle_preamble(preamble),
            CaptionCommand::MidRowChange(midrow) => self.service.handle_midrowchange(midrow),
            CaptionCommand::Backspace => {
                self.service.pen_location.column = self.service.pen_location.column - 1;
                self.service.writer.backspace();
            },
            CaptionCommand::CarriageReturn => {
                if let Some(mode) = self.state.mode {
                    if mode.is_rollup() {
                        self.service.carriage_return();
                    }
                }
            },
            CaptionCommand::EraseDisplay => self.service.writer.clear_current_window(),
            CaptionCommand::EraseNonDisplay => self.service.writer.clear_hidden_window(),
            CaptionCommand::TabOffset(count) => {
                let column: u16 = self.service.pen_location.column as u16 + count as u16;
                self.service.pen_location.column = if column < COLUMN_END as u16 {
                    column as u8
                } else {
                    COLUMN_END
                };
            },
            CaptionCommand::DeleteToEndOfRow => {},
        }
    }

    /// Carries out a command.
    pub fn handle(&mut self, command: CaptionCommand)
        requires
            old(self).service.wf(),
            crate::cea608::is_command(command),
            old(self).channel().takes(command),
        ensures
            final(self).wrote(*old(self), old(self).channel().handle(command)),
    {
        self.run(command);
        let ghost mid = *self;
        proof {
            lemma_wrote_nothing(mid.service);
        }
        if let Some(mode) = self.state.mode {
            if mode != Cea608Mode::PopOn {
                self.service.writer.etx();
            }
        }
        proof {
            crate::cea708utils::lemma_follows(
                old(self).service.writer,
                mid.service.writer,
                self.service.writer,
                old(self).channel().run(command).1,
                code_if(mid.channel().shows_at_once(), seq![0x03u8]),
            );
        }
    }
}

/// A channel of which nothing is known.
pub open spec fn new_channel() -> ChannelView {
    ChannelView { state: Cea608ServiceState { mode: None, base_row: 14 }, pen: new_pen() }
}

/// The channels and their pens.
pub open spec fn channel_views(channels: Seq<ServiceChannel>) -> Seq<ChannelView> {
    channels.map_values(|c: ServiceChannel| c.channel())
}

/// What the decoders of the two fields know.
pub open spec fn decoder_views(trackers: Seq<cea608_types::Cea608State>) -> Seq<
    crate::cea608::DecoderView,
> {
    trackers.map_values(|t: cea608_types::Cea608State| crate::cea608::decoder_view(t))
}

/// The service for a field and a channel.
pub open spec fn service_index(field1: bool, channel: Channel) -> int {
    match (field1, channel) {
        (true, Channel::One) => 0,
        (true, Channel::Two) => 2,
        (false, Channel::One) => 1,
        (false, Channel::Two) => 3,
    }
}

/// What the decoders and the channels are, and the codes that each service has to write.
#[verifier::ext_equal]
pub struct Written {
    pub decoders: Seq<crate::cea608::DecoderView>,
    pub channels: Seq<ChannelView>,
    pub out: Seq<Seq<Seq<u8>>>,
}

/// No codes for any service.
pub open spec fn nothing() -> Seq<Seq<Seq<u8>>> {
    Seq::new(SERVICES as nat, |i: int| Seq::empty())
}

impl Written {
    /// The place of a field.
    pub open spec fn place(pair: Cea608Pair) -> int {
        if pair.field1 {
            0
        } else {
            1
        }
    }

    /// What a pair of bytes says.
    pub open spec fn code(&self, pair: Cea608Pair) -> Option<CaptionCode> {
        if crate::cea608::odd_parity(pair.byte0) && crate::cea608::odd_parity(pair.byte1) {
            crate::cea608::decoded(self.decoders[Self::place(pair)], pair.byte0, pair.byte1)
        } else {
            None
        }
    }

    /// The decoders once a pair of bytes came.
    pub open spec fn decoders_after(&self, pair: Cea608Pair) -> Seq<crate::cea608::DecoderView> {
        if crate::cea608::odd_parity(pair.byte0) && crate::cea608::odd_parity(pair.byte1) {
            let at = Self::place(pair);
            self.decoders.update(
                at,
                crate::cea608::after_pair(self.decoders[at], pair.byte0, pair.byte1),
            )
        } else {
            self.decoders
        }
    }

    /// What becomes of a pair of bytes, unless what it says cannot be carried out.
    pub open spec fn step(&self, pair: Cea608Pair) -> Option<Written> {
        let decoders = self.decoders_after(pair);
        match self.code(pair) {
            None => Some(Written { decoders, ..*self }),
            Some(code) => {
                let at = service_index(pair.field1, code.channel);
                if self.channels[at].takes(code.command) {
                    let (channel, out) = self.channels[at].handle(code.command);
                    Some(
                        Written {
                            decoders,
                            channels: self.channels.update(at, channel),
                            out: self.out.update(at, self.out[at] + out),
                        },
                    )
                } else {
                    None
                }
            },
        }
    }

    /// What becomes of the first `n` pairs.
    pub open spec fn steps(&self, pairs: Seq<Cea608Pair>, n: int) -> Option<Written>
        decreases n,
    {
        if n <= 0 {
            Some(*self)
        } else {
            match self.steps(pairs, n - 1) {
                Some(w) => w.step(pairs[n - 1]),
                None => None,
            }
        }
    }
}

/// The pairs of triples: the highest bit of the first byte tells the field.
pub open spec fn triple_pairs(data: Seq<u8>) -> Seq<Cea608Pair> {
    Seq::new(
        (data.len() / 3) as nat,
        |i: int|
            Cea608Pair {
                field1: data[3 * i] >= 0x80,
                byte0: data[3 * i + 1],
                byte1: data[3 * i + 2],
            },
    )
}

/// The pairs of a field.
pub open spec fn field_pairs(data: Seq<u8>, field1: bool) -> Seq<Cea608Pair> {
    Seq::new(
        (data.len() / 2) as nat,
        |i: int| Cea608Pair { field1, byte0: data[2 * i], byte1: data[2 * i + 1] },
    )
}

/// The pairs of the data in a format.
pub open spec fn pairs_in(format: Cea608Format, data: Seq<u8>) -> Seq<Cea608Pair> {
    match format {
        Cea608Format::S334_1A => triple_pairs(data),
        Cea608Format::RawField0 => field_pairs(data, true),
        Cea608Format::RawField1 => field_pairs(data, false),
    }
}

pub(crate) fn read_triples(data: &[u8]) -> (r: Vec<Cea608Pair>)
    ensures
        r@ == triple_pairs(data@),
{
    let mut pairs: Vec<Cea608Pair> = Vec::new();
    let n: usize = data.len() / 3;
    let mut i: usize = 0;
    while i < n
        invariant
            n == data@.len() / 3,
            data@.len() <= usize::MAX,
            i <= n,
            pairs@ == triple_pairs(data@).take(i as int),
        decreases n - i,
    {
        pairs.push(
            Cea608Pair {
                field1: data[3 * i] >= 0x80,
                byte0: data[3 * i + 1],
                byte1: data[3 * i + 2],
            },
        );
        i += 1;
        assert(pairs@ =~= triple_pairs(data@).take(i as int));
    }
    assert(pairs@ =~= triple_pairs(data@));
    pairs
}

pub(crate) fn read_pairs(data: &[u8], field1: bool) -> (r: Vec<Cea608Pair>)
    ensures
        r@ == field_pairs(data@, field1),
{
    let mut pairs: Vec<Cea608Pair> = Vec::new();
    let n: usize = data.len() / 2;
    let mut i: usize = 0;
    while i < n
        invariant
            n == data@.len() / 2,
            data@.len() <= usize::MAX,
            i <= n,
            pairs@ == field_pairs(data@, field1).take(i as int),
        decreases n - i,
    {
        pairs.push(Cea608Pair { field1, byte0: data[2 * i], byte1: data[2 * i + 1] });
        i += 1;
        assert(pairs@ =~= field_pairs(data@, field1).take(i as int));
    }
    assert(pairs@ =~= field_pairs(data@, field1));
    pairs
}

/// What is left of the codes of a service, and the service blocks of the packet.
#[verifier::ext_equal]
pub struct Filled {
    pub codes: Seq<Code>,
    pub services: Seq<crate::dtvcc::ServiceView>,
}

/// How many bytes are left in a packet.
pub open spec fn free_space(services: Seq<crate::dtvcc::ServiceView>) -> int {
    crate::dtvcc::MAX_PACKET_LEN - crate::dtvcc::packet_len(services)
}

/// The packet with a service block, where there is room for it.
pub open spec fn with_service(
    services: Seq<crate::dtvcc::ServiceView>,
    service: crate::dtvcc::ServiceView,
) -> Seq<crate::dtvcc::ServiceView> {
    if crate::dtvcc::service_len(service) <= free_space(services) {
        services.push(service)
    } else {
        services
    }
}

/// Takes service blocks as long as codes fit.
pub open spec fn filled(
    codes: Seq<Code>,
    number: u8,
    services: Seq<crate::dtvcc::ServiceView>,
) -> Filled
    decreases codes.len(),
{
    let n = crate::cea708utils::taken(Seq::empty(), codes, number, free_space(services)) as int;
    if n <= 0 {
        Filled { codes, services }
    } else {
        proof {
            crate::cea708utils::lemma_taken(
                Seq::empty(),
                codes,
                number,
                free_space(services),
            );
        }
        filled(
            codes.skip(n),
            number,
            with_service(
                services,
                crate::dtvcc::ServiceView { number, codes: codes.take(n) },
            ),
        )
    }
}

/// The service blocks of the first `n` services.
pub open spec fn packed(codes: Seq<Seq<Code>>, n: int) -> Seq<crate::dtvcc::ServiceView>
    decreases n,
{
    if n <= 0 {
        Seq::empty()
    } else {
        filled(codes[n - 1], n as u8, packed(codes, n - 1)).services
    }
}

/// What is left of the codes of a service.
pub open spec fn left_over(codes: Seq<Seq<Code>>, i: int) -> Seq<Code> {
    filled(codes[i], (i + 1) as u8, packed(codes, i)).codes
}

/// The codes of the services.
pub open spec fn codes_of(channels: Seq<ServiceChannel>) -> Seq<Seq<Code>> {
    channels.map_values(|c: ServiceChannel| c.service.writer.codes@)
}

proof fn lemma_taken_len(have: Seq<Code>, more: Seq<Code>, number: u8, available: int)
    requires
        crate::dtvcc::codes_len(have) <= crate::dtvcc::MAX_SERVICE_LEN,
    ensures
        crate::dtvcc::codes_len(
            have + more.take(crate::cea708utils::taken(have, more, number, available) as int),
        ) <= crate::dtvcc::MAX_SERVICE_LEN,
    decreases more.len(),
{
    crate::cea708utils::lemma_taken(have, more, number, available);
    let n = crate::cea708utils::taken(have, more, number, available) as int;
    if n == 0 {
        assert(have + more.take(n) =~= have);
    } else {
        let with = have.push(more[0]);
        assert(with.drop_last() =~= have);
        lemma_taken_len(with, more.drop_first(), number, available);
        assert(have + more.take(n) =~= with + more.drop_first().take(n - 1));
    }
}

/// What is to be done with a buffer.
#[derive(Debug)]
pub enum Action {
    /// Nothing.
    Pass,
    /// Captions go out.
    Buffer { data: Vec<u8>, pts: u64, duration: Option<u64> },
    /// It is told that nothing comes for this time.
    Gap { pts: u64, duration: Option<u64> },
    /// The data is no whole number of triples, or a character is to be taken back where there is
    /// none.
    Unsupported,
}

/// What is known of the captions.
pub struct Cea608ToCea708 {
    pub trackers: Vec<cea608_types::Cea608State>,
    pub format: Cea608Format,
    pub channels: Vec<ServiceChannel>,
    pub packet_counter: u8,
    pub writer: cea708_types::CCDataWriter,
    pub framerate: Framerate,
}

impl Cea608ToCea708 {
    /// Whether there is a decoder for each field, and a service for each channel.
    pub open spec fn wf(&self) -> bool {
        &&& self.trackers@.len() == 2
        &&& self.channels@.len() == SERVICES
        &&& self.packet_counter < 4
        &&& forall|i: int|
            0 <= i < SERVICES ==> (#[trigger] self.channels@[i]).service.wf()
                && self.channels@[i].service.writer.service_no == i + 1
    }

    /// The decoders and the channels, with nothing to write.
    pub open spec fn start(&self) -> Written {
        Written {
            decoders: decoder_views(self.trackers@),
            channels: channel_views(self.channels@),
            out: nothing(),
        }
    }

    /// Whether captions came in between, and nothing went out.
    pub open spec fn wrote(&self, other: Self, w: Written) -> bool {
        &&& self.wf()
        &&& decoder_views(self.trackers@) == w.decoders
        &&& channel_views(self.channels@) == w.channels
        &&& w.out.len() == SERVICES
        &&& forall|i: int|
            0 <= i < SERVICES ==> (#[trigger] self.channels@[i]).service.writer.follows(
                other.channels@[i].service.writer,
                w.out[i],
            )
        &&& self.same_output(other)
    }

    /// Whether what concerns the output is the same.
    pub open spec fn same_output(&self, other: Self) -> bool {
        &&& self.format == other.format
        &&& self.packet_counter == other.packet_counter
        &&& self.writer == other.writer
        &&& self.framerate == other.framerate
    }

    /// Nothing is known yet.
    pub fn new() -> (r: Self)
        ensures
            r.wf(),
            r.format == Cea608Format::RawField0,
            r.is_new(),
    {
        let mut trackers: Vec<cea608_types::Cea608State> = Vec::new();
        trackers.push(new_decoder());
        trackers.push(new_decoder());
        let mut channels: Vec<ServiceChannel> = Vec::new();
        channels.push(ServiceChannel::new(1));
        channels.push(ServiceChannel::new(2));
        channels.push(ServiceChannel::new(3));
        channels.push(ServiceChannel::new(4));
        Cea608ToCea708 {
            trackers,
            format: Cea608Format::RawField0,
            channels,
            packet_counter: 0,
            writer: new_writer(),
            framerate: Framerate { numer: 30, denom: 1 },
        }
    }

    /// Whether nothing but the format is known.
    pub open spec fn is_new(&self) -> bool {
        &&& forall|i: int|
            0 <= i < 2 ==> crate::cea608::decoder_view(#[trigger] self.trackers@[i])
                == crate::cea608::empty_decoder()
        &&& forall|i: int|
            0 <= i < SERVICES ==> (#[trigger] self.channels@[i]).channel() == new_channel()
                && self.channels@[i].service.writer.codes@.len() == 0
        &&& self.packet_counter == 0
        &&& crate::dtvcc::writer_view(self.writer) == crate::dtvcc::empty_writer()
        &&& self.framerate == (Framerate { numer: 30, denom: 1 })
    }

    /// Forgets everything but the format.
    pub fn flush_stop(&mut self)
        ensures
            final(self).wf(),
            final(self).format == old(self).format,
            final(self).is_new(),
    {
        let format: Cea608Format = self.format;
        *self = Cea608ToCea708::new();
        self.format = format;
    }

    /// The format with the given name and field.
    pub open spec fn format_of(
        format: Option<Seq<u8>>,
        field: crate::cea708mux::Field,
    ) -> Option<Cea608Format> {
        if format == Some(crate::text::text("raw")) {
            match field {
                crate::cea708mux::Field::Missing => Some(Cea608Format::RawField0),
                crate::cea708mux::Field::Number(n) => if n == 0 {
                    Some(Cea608Format::RawField0)
                } else if n == 1 {
                    Some(Cea608Format::RawField1)
                } else {
                    None
                },
                crate::cea708mux::Field::NoNumber => None,
            }
        } else if format == Some(crate::text::text("s334-1a")) {
            Some(Cea608Format::S334_1A)
        } else {
            None
        }
    }

    /// Agrees on a format and a framerate, unless the format is not known.
    pub fn set_caps(
        &mut self,
        format: Option<&[u8]>,
        field: crate::cea708mux::Field,
        framerate: Option<Framerate>,
    ) -> (r: bool)
        requires
            old(self).wf(),
        ensures
            final(self).wf(),
            ({
                let found = Self::format_of(
                    match format {
                        Some(f) => Some(f@),
                        None => None,
                    },
                    field,
                );
                &&& r == (found is Some)
                &&& final(self).format == if r {
                    found->0
                } else {
                    old(self).format
                }
            }),
            final(self).framerate == if r {
                match framerate {
                    Some(f) => f,
                    None => Framerate { numer: 30, denom: 1 },
                }
            } else {
                old(self).framerate
            },
            final(self).trackers == old(self).trackers,
            final(self).channels == old(self).channels,
            final(self).packet_counter == old(self).packet_counter,
            final(self).writer == old(self).writer,
    {
        let format: &[u8] = match format {
            Some(f) => f,
            None => return false,
        };
        let found: Cea608Format = if same_bytes(format, "raw".as_bytes()) {
            match field {
                crate::cea708mux::Field::Missing => Cea608Format::RawField0,
                crate::cea708mux::Field::Number(n) => if n == 0 {
                    Cea608Format::RawField0
                } else if n == 1 {
                    Cea608Format::RawField1
                } else {
                    return false;
                },
                crate::cea708mux::Field::NoNumber => return false,
            }
        } else if same_bytes(format, "s334-1a".as_bytes()) {
            Cea608Format::S334_1A
        } else {
            return false;
        };
        self.format = found;
        self.framerate = match framerate {
            Some(f) => f,
            None => Framerate { numer: 30, denom: 1 },
        };
        true
    }

    /// Carries out a code of the given field, unless it cannot be carried out.
    pub fn handle_code(&mut self, field1: bool, code: CaptionCode) -> (r: bool)
        requires
            old(self).wf(),
            crate::cea608::is_command(code.command),
        ensures
            final(self).wf(),
            ({
                let at = service_index(field1, code.channel);
                let was = old(self).channels@[at];
                &&& r == was.channel().takes(code.command)
                &&& r ==> final(self).channels@[at].wrote(was, was.channel().handle(code.command))
                &&& !r ==> final(self).channels@[at] == was
                &&& forall|i: int|
                    0 <= i < SERVICES && i != at ==> #[trigger] final(self).channels@[i] == old(
                        self,
                    ).channels@[i]
            }),
            final(self).trackers == old(self).trackers,
            final(self).format == old(self).format,
            final(self).packet_counter == old(self).packet_counter,
            final(self).writer == old(self).writer,
            final(self).framerate == old(self).framerate,
    {
        let at: usize = match (field1, code.channel) {
            (true, Channel::One) => 0,
            (true, Channel::Two) => 2,
            (false, Channel::One) => 1,
            (false, Channel::Two) => 3,
        };
        if matches!(code.command, CaptionCommand::Backspace)
            && self.channels[at].service.pen_location.column == 0 {
            return false;
        }
        self.channels[at].handle(code.command);
        true
    }

    /// Reads a pair of bytes, unless what it says cannot be carried out.
    pub fn handle_cc_data(&mut self, pair: Cea608Pair) -> (r: bool)
        requires
            old(self).wf(),
        ensures
            final(self).wf(),
            match old(self).start().step(pair) {
                Some(w) => r && final(self).wrote(*old(self), w),
                None => !r && final(self).channels@ == old(self).channels@ && decoder_views(
                    final(self).trackers@,
                ) == old(self).start().decoders_after(pair) && final(self).same_output(*old(self)),
            },
    {
        let ghost start = self.start();
        proof {
            lemma_no_codes(*self);
        }
        let at: usize = if pair.field1 {
            0
        } else {
            1
        };
        let ghost trackers = self.trackers@;
        assert(start.decoders[at as int] == crate::cea608::decoder_view(trackers[at as int]));
        let decoded = decode(&mut self.trackers[at], pair.byte0, pair.byte1);
        assert(decoder_views(self.trackers@) =~= start.decoders_after(pair));
        match decoded {
            Ok(Some(code)) => {
                let ghost index = service_index(pair.field1, code.channel);
                let ghost was = self.channels@;
                assert(start.channels[index] == was[index].channel());
                let r: bool = self.handle_code(pair.field1, code);
                proof {
                    if r {
                        let w = start.step(pair)->0;
                        assert(channel_views(self.channels@) =~= w.channels);
                        let out = was[index].channel().handle(code.command).1;
                        assert(Seq::<Seq<u8>>::empty() + out =~= out);
                    } else {
                        assert(self.channels@ =~= was);
                    }
                }
                r
            },
            _ => true,
        }
    }

    /// Reads pairs of bytes, unless what one of them says cannot be carried out.
    pub fn handle_pairs(&mut self, pairs: &Vec<Cea608Pair>) -> (r: bool)
        requires
            old(self).wf(),
        ensures
            final(self).wf(),
            match old(self).start().steps(pairs@, pairs@.len() as int) {
                Some(w) => r && final(self).wrote(*old(self), w),
                None => !r && final(self).same_output(*old(self)),
            },
    {
        let ghost start = self.start();
        let mut i: usize = 0;
        proof {
            lemma_no_codes(*self);
        }
        while i < pairs.len()
            invariant
                i <= pairs@.len(),
                start == old(self).start(),
                old(self).wf(),
                self.wf(),
                start.steps(pairs@, i as int) matches Some(w) && self.wrote(*old(self), w),
            decreases pairs@.len() - i,
        {
            let ghost before = *self;
            let ghost w = start.steps(pairs@, i as int)->0;
            if !self.handle_cc_data(pairs[i]) {
                proof {
                    lemma_steps_fail(start, pairs@, i + 1, pairs@.len() as int);
                }
                return false;
            }
            proof {
                lemma_wrote(*old(self), before, *self, w, pairs@[i as int]);
            }
            i += 1;
        }
        true
    }

    /// The codes that wait go out in a packet, as far as they fit, together with the pairs that
    /// came.
    pub fn take_buffer(&mut self, pairs: &Vec<Cea608Pair>) -> (r: Option<Vec<u8>>)
        requires
            old(self).wf(),
            crate::dtvcc::is_framerate(old(self).framerate.numer, old(self).framerate.denom),
        ensures
            final(self).took(
                *old(self),
                pairs@,
                match r {
                    Some(data) => Some(data@),
                    None => None,
                },
            ),
    {
        let ghost was = self.channels@;
        let ghost codes = codes_of(was);
        let mut packet: DTVCCPacket = new_packet(self.packet_counter);
        assert(crate::dtvcc::packet_view(packet).services =~= packed(codes, 0));
        self.packet_counter = (self.packet_counter + 1) % 4;
        let mut i: usize = 0;
        while i < SERVICES
            invariant
                i <= SERVICES,
                self.wf(),
                self.trackers == old(self).trackers,
                self.format == old(self).format,
                self.writer == old(self).writer,
                self.framerate == old(self).framerate,
                self.packet_counter == (old(self).packet_counter + 1) % 4,
                was == old(self).channels@,
                was.len() == SERVICES,
                codes == codes_of(was),
                crate::dtvcc::packet_view(packet).sequence_no == old(self).packet_counter,
                crate::dtvcc::packet_view(packet).services == packed(codes, i as int),
                crate::dtvcc::packet_len(packed(codes, i as int)) <= crate::dtvcc::MAX_PACKET_LEN,
                forall|j: int|
                    0 <= j < SERVICES ==> (#[trigger] self.channels@[j]).channel()
                        == was[j].channel(),
                forall|j: int|
                    0 <= j < i ==> (#[trigger] self.channels@[j]).service.writer.codes@
                        == left_over(codes, j),
                forall|j: int| i <= j < SERVICES ==> #[trigger] self.channels@[j] == was[j],
            decreases SERVICES - i,
        {
            assert(codes[i as int] == self.channels@[i as int].service.writer.codes@);
            self.channels[i].fill(&mut packet);
            i += 1;
        }
        proof {
            assert(channel_views(self.channels@) =~= channel_views(was));
        }
        push_packet(&mut self.writer, packet);
        push_all_cea608(&mut self.writer, pairs);
        let mut data: Vec<u8> = write_frame(
            &mut self.writer,
            self.framerate.numer,
            self.framerate.denom,
        );
        if data.len() > 2 {
            Some(data.split_off(2))
        } else {
            None
        }
    }

    /// Whether the codes that waited went out, together with pairs, in data that is the given one.
    pub open spec fn took(&self, other: Self, pairs: Seq<Cea608Pair>, data: Option<Seq<u8>>) -> bool {
        let was = crate::dtvcc::writer_view(other.writer);
        let codes = codes_of(other.channels@);
        let view = crate::dtvcc::with_pairs(
            crate::dtvcc::WriterView {
                packets: was.packets.push(
                    crate::dtvcc::PacketView {
                        sequence_no: other.packet_counter,
                        services: packed(codes, SERVICES as int),
                    },
                ),
                ..was
            },
            pairs,
        );
        let numer = other.framerate.numer;
        let denom = other.framerate.denom;
        let bytes = crate::dtvcc::frame_bytes(view, numer, denom);
        &&& self.wf()
        &&& data == if bytes.len() > 2 {
            Some(bytes.skip(2))
        } else {
            None
        }
        &&& crate::dtvcc::writer_view(self.writer) == crate::dtvcc::after_frame(view, numer, denom)
        &&& self.packet_counter == (other.packet_counter + 1) % 4
        &&& channel_views(self.channels@) == channel_views(other.channels@)
        &&& forall|i: int|
            0 <= i < SERVICES ==> (#[trigger] self.channels@[i]).service.writer.codes@
                == left_over(codes, i)
        &&& self.trackers == other.trackers
        &&& self.format == other.format
        &&& self.framerate == other.framerate
    }

    /// How many bytes data in the format needs at least.
    pub open spec fn min_len(&self) -> int {
        if self.format == Cea608Format::S334_1A {
            3
        } else {
            2
        }
    }

    /// Whether the data can be turned into captions.
    pub open spec fn is_supported(&self, data: Seq<u8>) -> bool {
        let pairs = pairs_in(self.format, data);
        &&& self.format == Cea608Format::S334_1A ==> data.len() % 3 == 0
        &&& self.start().steps(pairs, pairs.len() as int) is Some
    }

    /// What is to be done with a buffer: it has to be timed. All pairs are read, and what the
    /// services have to write goes out.
    pub fn sink_chain(&mut self, pts: Option<u64>, duration: Option<u64>, data: &[u8]) -> (r: Result<
        Action,
        FlowError,
    >)
        requires
            old(self).wf(),
            crate::dtvcc::is_framerate(old(self).framerate.numer, old(self).framerate.denom),
        ensures
            final(self).wf(),
            match r {
                Err(e) => e == FlowError::Error && pts is None && *final(self) == *old(self),
                Ok(Action::Pass) => pts is Some && data@.len() < old(self).min_len()
                    && *final(self) == *old(self),
                Ok(Action::Unsupported) => pts is Some && data@.len() >= old(self).min_len()
                    && !old(self).is_supported(data@) && final(self).same_output(*old(self)),
                Ok(Action::Buffer { data: out, pts: p, duration: d }) => {
                    &&& Some(p) == pts && d == duration
                    &&& data@.len() >= old(self).min_len() && old(self).is_supported(data@)
                    &&& final(self).converted(*old(self), data@, Some(out@))
                },
                Ok(Action::Gap { pts: p, duration: d }) => {
                    &&& Some(p) == pts && d == duration
                    &&& data@.len() >= old(self).min_len() && old(self).is_supported(data@)
                    &&& final(self).converted(*old(self), data@, None)
                },
            },
    {
        let pts: u64 = match pts {
            Some(p) => p,
            None => return Err(FlowError::Error),
        };
        let pairs: Vec<Cea608Pair> = match self.format {
            Cea608Format::S334_1A => {
                if data.len() < 3 {
                    return Ok(Action::Pass);
                }
                if data.len() % 3 != 0 {
                    return Ok(Action::Unsupported);
                }
                read_triples(data)
            },
            Cea608Format::RawField0 => {
                if data.len() < 2 {
                    return Ok(Action::Pass);
                }
                read_pairs(data, true)
            },
            Cea608Format::RawField1 => {
                if data.len() < 2 {
                    return Ok(Action::Pass);
                }
                read_pairs(data, false)
            },
        };
        if !self.handle_pairs(&pairs) {
            return Ok(Action::Unsupported);
        }
        let ghost mid = *self;
        assert(mid.wrote(
            *old(self),
            old(self).start().steps(pairs@, pairs@.len() as int)->0,
        ));
        match self.take_buffer(&pairs) {
            Some(data) => Ok(Action::Buffer { data, pts, duration }),
            None => Ok(Action::Gap { pts, duration }),
        }
    }

    /// Whether all pairs were read, and what the services had to write went out.
    pub open spec fn converted(&self, other: Self, data: Seq<u8>, out: Option<Seq<u8>>) -> bool {
        let pairs = pairs_in(other.format, data);
        let w = other.start().steps(pairs, pairs.len() as int)->0;
        exists|mid: Cea608ToCea708| #[trigger] mid.wrote(other, w) && self.took(mid, pairs, out)
    }
}

impl ServiceChannel {
    /// Moves codes to a packet, as long as they fit.
    fn fill(&mut self, packet: &mut DTVCCPacket)
        requires
            old(self).service.wf(),
            1 <= old(self).service.writer.service_no <= SERVICES,
            crate::dtvcc::packet_len(crate::dtvcc::packet_view(*old(packet)).services)
                <= crate::dtvcc::MAX_PACKET_LEN,
        ensures
            final(self).service.wf(),
            final(self).channel() == old(self).channel(),
            final(self).service.writer.service_no == old(self).service.writer.service_no,
            ({
                let all = filled(
                    old(self).service.writer.codes@,
                    old(self).service.writer.service_no,
                    crate::dtvcc::packet_view(*old(packet)).services,
                );
                &&& final(self).service.writer.codes@ == all.codes
                &&& crate::dtvcc::packet_view(*final(packet)).services == all.services
            }),
            crate::dtvcc::packet_view(*final(packet)).sequence_no == crate::dtvcc::packet_view(
                *old(packet),
            ).sequence_no,
            crate::dtvcc::packet_len(crate::dtvcc::packet_view(*final(packet)).services)
                <= crate::dtvcc::MAX_PACKET_LEN,
    {
        let ghost number = self.service.writer.service_no;
        let ghost all = filled(
            self.service.writer.codes@,
            number,
            crate::dtvcc::packet_view(*packet).services,
        );
        let mut more: bool = true;
        while more
            invariant
                1 <= number <= SERVICES,
                self.service.wf(),
                self.service.writer.service_no == number,
                self.channel() == old(self).channel(),
                crate::dtvcc::packet_view(*packet).sequence_no == crate::dtvcc::packet_view(
                    *old(packet),
                ).sequence_no,
                crate::dtvcc::packet_len(crate::dtvcc::packet_view(*packet).services)
                    <= crate::dtvcc::MAX_PACKET_LEN,
                all == filled(
                    self.service.writer.codes@,
                    number,
                    crate::dtvcc::packet_view(*packet).services,
                ),
                !more ==> all == (Filled {
                    codes: self.service.writer.codes@,
                    services: crate::dtvcc::packet_view(*packet).services,
                }),
            decreases
                    (if more {
                        1int
                    } else {
                        0int
                    }),
                    self.service.writer.codes@.len(),
        {
            let free: usize = free_space_of_packet(packet);
            let ghost codes = self.service.writer.codes@;
            let ghost services = crate::dtvcc::packet_view(*packet).services;
            proof {
                crate::cea708utils::lemma_taken(Seq::empty(), codes, number, free as int);
                lemma_taken_len(Seq::empty(), codes, number, free as int);
            }
            match self.service.writer.take_service(free) {
                Some(service) => {
                    let ghost view = crate::dtvcc::service_view(service);
                    proof {
                        assert(Seq::<Code>::empty() + view.codes =~= view.codes);
                        assert(services.push(view).drop_last() =~= services);
                    }
                    let _ = push_service(packet, service);
                },
                None => {
                    more = false;
                },
            }
        }
    }
}

proof fn lemma_no_codes(state: Cea608ToCea708)
    requires
        state.wf(),
    ensures
        state.wrote(state, state.start()),
{
    assert forall|i: int| 0 <= i < SERVICES implies (
    #[trigger] state.channels@[i]).service.writer.follows(
        state.channels@[i].service.writer,
        nothing()[i],
    ) by {
        lemma_wrote_nothing(state.channels@[i].service);
    }
}

proof fn lemma_wrote(
    a: Cea608ToCea708,
    b: Cea608ToCea708,
    c: Cea608ToCea708,
    w: Written,
    pair: Cea608Pair,
)
    requires
        a.wf(),
        b.wrote(a, w),
        b.start().step(pair) matches Some(next) && c.wrote(b, next),
    ensures
        w.step(pair) matches Some(next) && c.wrote(a, next),
{
    let start = b.start();
    assert(start.decoders == w.decoders && start.channels == w.channels);
    let next = w.step(pair)->0;
    let own = start.step(pair)->0;
    assert forall|i: int| 0 <= i < SERVICES implies (
    #[trigger] c.channels@[i]).service.writer.follows(
        a.channels@[i].service.writer,
        next.out[i],
    ) by {
        assert(b.channels@[i].service.writer.follows(a.channels@[i].service.writer, w.out[i]));
        crate::cea708utils::lemma_follows(
            a.channels@[i].service.writer,
            b.channels@[i].service.writer,
            c.channels@[i].service.writer,
            w.out[i],
            own.out[i],
        );
        assert(w.out[i] + own.out[i] =~= next.out[i]);
    }
}

proof fn lemma_steps_fail(w: Written, pairs: Seq<Cea608Pair>, n: int, m: int)
    requires
        n <= m,
        w.steps(pairs, n) is None,
    ensures
        w.steps(pairs, m) is None,
    decreases m,
{
    if n < m {
        lemma_steps_fail(w, pairs, n, m - 1);
    }
}

/// A preamble that comes again changes nothing, and needs no codes.
pub proof fn law_repeated_preamble(channel: ChannelView, preamble: PreambleAddressCode)
    requires
        crate::cea608::is_preamble(preamble),
    ensures
        ({
            let once = channel.run(CaptionCommand::Preamble(preamble)).0;
            let (twice, out) = once.run(CaptionCommand::Preamble(preamble));
            twice == once && out.len() == 0
        }),
{
}

/// A field has services of its own: pairs of the other field leave them as they are.
pub proof fn law_fields_are_independent(w: Written, pair: Cea608Pair, channel: Channel)
    requires
        w.channels.len() == SERVICES,
        w.out.len() == SERVICES,
    ensures
        w.step(pair) matches Some(next) ==> {
            let other = service_index(!pair.field1, channel);
            &&& next.channels[other] == w.channels[other]
            &&& next.out[other] == w.out[other]
        },
{
}

/// Codes leave in the order in which they came: what is left is the end of what there was, and
/// service blocks come behind those that the packet had.
pub proof fn law_codes_leave_in_order(
    codes: Seq<Code>,
    number: u8,
    services: Seq<crate::dtvcc::ServiceView>,
)
    ensures
        ({
            let all = filled(codes, number, services);
            &&& services.is_prefix_of(all.services)
            &&& all.codes.len() <= codes.len()
            &&& all.codes == codes.skip(codes.len() - all.codes.len())
        }),
    decreases codes.len(),
{
    let free = free_space(services);
    let n = crate::cea708utils::taken(Seq::empty(), codes, number, free) as int;
    crate::cea708utils::lemma_taken(Seq::empty(), codes, number, free);
    if n > 0 {
        let view = crate::dtvcc::ServiceView { number, codes: codes.take(n) };
        law_codes_leave_in_order(codes.skip(n), number, with_service(services, view));
        let all = filled(codes, number, services);
        assert(all.codes =~= codes.skip(codes.len() - all.codes.len()));
    } else {
        assert(codes.skip(0) =~= codes);
    }
}

} // verus!
