//! Writing and showing of CEA-708 services.
use crate::cea608::{Channel, Field, Id, InvalidParity};
use crate::cea608utils::{Cea608Renderer, Rectangle, TextStyle};
use crate::cea708::{
    Anchor, Color, ColorValue, DefineWindowArgs, Opacity, ServiceCommand, SetPenAttributesArgs,
    SetPenColorArgs, SetPenLocationArgs,
};
use crate::cea708utils::window::{Dimensions, ServiceState, ServiceStateView};
use crate::dtvcc::{
    can_write, char_of_code, clone_code, code_of_char, codes_of_service, free_space_of_service,
    len_of_code, len_of_service, new_service, parse_codes, push_code, write_code, ServiceView,
};
use cea708_types::tables::Code;
use cea708_types::Service;
use vstd::prelude::*;

pub mod laws;
pub mod window;

verus! {

/// How captions come on screen.
#[derive(Clone, Copy, Debug, PartialEq, Eq, PartialOrd, Ord, Hash, Structural)]
pub enum Cea708Mode {
    PopOn,
    PaintOn,
    RollUp,
}

/// All or nothing of a basic color.
pub open spec fn full_if(b: bool) -> ColorValue {
    if b {
        ColorValue::Full
    } else {
        ColorValue::Zero
    }
}

/// A CEA-608 color as a mixture of red, green and blue.
pub open spec fn foreground_color(color: crate::cea608::Color) -> Color {
    Color {
        r: full_if(color is Red || color is Yellow || color is Magenta || color is White),
        g: full_if(color is Green || color is Cyan || color is Yellow || color is White),
        b: full_if(color is Blue || color is Cyan || color is Magenta || color is White),
    }
}

/// The CEA-608 color of a style.
pub open spec fn color_of_style(style: TextStyle) -> crate::cea608::Color {
    match style {
        TextStyle::Red => crate::cea608::Color::Red,
        TextStyle::Blue => crate::cea608::Color::Blue,
        TextStyle::Cyan => crate::cea608::Color::Cyan,
        TextStyle::White => crate::cea608::Color::White,
        TextStyle::Green => crate::cea608::Color::Green,
        TextStyle::Yellow => crate::cea608::Color::Yellow,
        TextStyle::Magenta => crate::cea608::Color::Magenta,
        TextStyle::ItalicWhite => crate::cea608::Color::White,
    }
}

/// The color of text in a style.
pub fn textstyle_foreground_color(style: TextStyle) -> (r: Color)
    ensures
        r == foreground_color(color_of_style(style)),
{
    let color: crate::cea608::Color = match style {
        TextStyle::Red => crate::cea608::Color::Red,
        TextStyle::Blue => crate::cea608::Color::Blue,
        TextStyle::Cyan => crate::cea608::Color::Cyan,
        TextStyle::White => crate::cea608::Color::White,
        TextStyle::Green => crate::cea608::Color::Green,
        TextStyle::Yellow => crate::cea608::Color::Yellow,
        TextStyle::Magenta => crate::cea608::Color::Magenta,
        TextStyle::ItalicWhite => crate::cea608::Color::White,
    };
    cea608_color_to_foreground_color(color)
}

/// The mixture of a CEA-608 color.
pub fn cea608_color_to_foreground_color(color: crate::cea608::Color) -> (r: Color)
    ensures
        r == foreground_color(color),
{
    match color {
        crate::cea608::Color::Red => Color {
            r: ColorValue::Full,
            g: ColorValue::Zero,
            b: ColorValue::Zero,
        },
        crate::cea608::Color::Green => Color {
            r: ColorValue::Zero,
            g: ColorValue::Full,
            b: ColorValue::Zero,
        },
        crate::cea608::Color::Blue => Color {
            r: ColorValue::Zero,
            g: ColorValue::Zero,
            b: ColorValue::Full,
        },
        crate::cea608::Color::Cyan => Color {
            r: ColorValue::Zero,
            g: ColorValue::Full,
            b: ColorValue::Full,
        },
        crate::cea608::Color::Yellow => Color {
            r: ColorValue::Full,
            g: ColorValue::Full,
            b: ColorValue::Zero,
        },
        crate::cea608::Color::Magenta => Color {
            r: ColorValue::Full,
            g: ColorValue::Zero,
            b: ColorValue::Full,
        },
        crate::cea608::Color::White => Color {
            r: ColorValue::Full,
            g: ColorValue::Full,
            b: ColorValue::Full,
        },
    }
}

/// Black.
pub open spec fn black() -> Color {
    Color { r: ColorValue::Zero, g: ColorValue::Zero, b: ColorValue::Zero }
}

/// The pen for a style: its color on black.
pub fn textstyle_to_pen_color(style: TextStyle) -> (r: SetPenColorArgs)
    ensures
        r == (SetPenColorArgs {
            foreground_color: foreground_color(color_of_style(style)),
            foreground_opacity: Opacity::Solid,
            background_color: black(),
            background_opacity: Opacity::Solid,
            edge_color: black(),
        }),
{
    let black: Color = Color { r: ColorValue::Zero, g: ColorValue::Zero, b: ColorValue::Zero };
    SetPenColorArgs {
        foreground_color: textstyle_foreground_color(style),
        foreground_opacity: Opacity::Solid,
        background_color: black,
        background_opacity: Opacity::Solid,
        edge_color: black,
    }
}

/// The bit of window 0.
pub const WINDOW_ZERO: u8 = 1;

/// The bit of window 1.
pub const WINDOW_ONE: u8 = 2;

/// Writes the codes of a service.
pub struct Cea708ServiceWriter {
    pub codes: Vec<Code>,
    pub service_no: u8,
    /// The window that is shown, and the one that is prepared.
    pub active_window: u8,
    pub hidden_window: u8,
}

/// The bytes of each code.
pub open spec fn bytes_of(codes: Seq<Code>) -> Seq<Seq<u8>> {
    codes.map_values(|code: Code| crate::dtvcc::code_bytes(code))
}

/// The window that captions are written to: at the bottom, 32 columns wide.
pub open spec fn caption_window(
    window_id: u8,
    anchor_vertical: u8,
    row_count: u8,
    visible: bool,
) -> DefineWindowArgs {
    DefineWindowArgs {
        window_id,
        priority: 0,
        anchor_point: Anchor::BottomMiddle,
        relative_positioning: true,
        anchor_vertical,
        anchor_horizontal: 50,
        row_count,
        column_count: 31,
        row_lock: true,
        column_lock: true,
        visible,
        window_style_id: 2,
        pen_style_id: 1,
    }
}

/// The number of a window that is named by its bit.
pub open spec fn number_of(window: u8) -> u8 {
    if window == WINDOW_ZERO {
        0
    } else {
        1
    }
}

/// How far down a window stands whose last row is the given one, in parts of a hundred.
pub open spec fn anchor_for(rollup_count: u8, base_row: u8) -> u8 {
    let base = if rollup_count > base_row {
        rollup_count
    } else {
        base_row
    };
    (base as int * 100 / 14 % 256) as u8
}

/// The codes that delete all windows but the one that is shown, and define the other one.
pub open spec fn popon_bytes(active: u8, hidden: u8) -> Seq<Seq<u8>> {
    seq![
        seq![0x8cu8, (255 - active) as u8],
        crate::cea708::define_window_bytes(caption_window(number_of(hidden), 100, 14, false)),
    ]
}

/// The code that defines the window that is shown.
pub open spec fn paint_on_bytes(active: u8) -> Seq<Seq<u8>> {
    seq![crate::cea708::define_window_bytes(caption_window(number_of(active), 100, 14, true))]
}

/// The codes that delete all windows but window 0, define that one with the rows that roll up, and
/// move the pen to the last row.
pub open spec fn rollup_bytes(rollup_count: u8, base_row: u8) -> Seq<Seq<u8>> {
    let last = (rollup_count - 1) as u8;
    seq![
        seq![0x8cu8, 254u8],
        crate::cea708::define_window_bytes(
            caption_window(0, anchor_for(rollup_count, base_row), last, true),
        ),
        crate::cea708::pen_location_bytes(SetPenLocationArgs { row: last, column: 0 }),
    ]
}

/// The code of a character, if there is one.
pub open spec fn char_bytes(c: char) -> Seq<Seq<u8>> {
    match crate::dtvcc::char_code(c) {
        Some(code) => seq![crate::dtvcc::code_bytes(code)],
        None => Seq::empty(),
    }
}

/// How many codes go into the next service block, behind those that it has: as many as fit in the
/// block, and in the bytes that are left for it.
pub open spec fn taken(have: Seq<Code>, more: Seq<Code>, number: u8, available: int) -> nat
    decreases more.len(),
{
    if more.len() == 0 || number == 0 {
        0
    } else if crate::dtvcc::code_len(more[0]) + crate::dtvcc::codes_len(have)
        > crate::dtvcc::MAX_SERVICE_LEN {
        0
    } else if crate::dtvcc::service_len(ServiceView { number, codes: have })
        + crate::dtvcc::code_len(more[0]) > available {
        0
    } else {
        1 + taken(have.push(more[0]), more.drop_first(), number, available)
    }
}

/// No more codes are taken than there are.
pub proof fn lemma_taken(have: Seq<Code>, more: Seq<Code>, number: u8, available: int)
    ensures
        taken(have, more, number, available) <= more.len(),
    decreases more.len(),
{
    if more.len() > 0 {
        lemma_taken(have.push(more[0]), more.drop_first(), number, available);
    }
}

impl Cea708ServiceWriter {
    /// One of two windows is shown, and the other one prepared. There are bytes for each code.
    pub open spec fn wf(&self) -> bool {
        &&& self.service_no < 64
        &&& crate::dtvcc::all_have_bytes(self.codes@)
        &&& (self.active_window == WINDOW_ZERO && self.hidden_window == WINDOW_ONE) || (
        self.active_window == WINDOW_ONE && self.hidden_window == WINDOW_ZERO)
    }

    /// Whether nothing but the codes differs.
    pub open spec fn same_windows(&self, other: Self) -> bool {
        &&& self.service_no == other.service_no
        &&& self.active_window == other.active_window
        &&& self.hidden_window == other.hidden_window
    }

    /// Whether codes with the given bytes came behind those of the other.
    pub open spec fn follows(&self, other: Self, bytes: Seq<Seq<u8>>) -> bool {
        &&& self.codes@.len() == other.codes@.len() + bytes.len()
        &&& self.codes@.take(other.codes@.len() as int) == other.codes@
        &&& bytes_of(self.codes@) == bytes_of(other.codes@) + bytes
    }

    /// A writer without codes.
    pub fn new(service_no: u8) -> (r: Self)
        requires
            service_no < 64,
        ensures
            r.wf(),
            r.codes@.len() == 0,
            r.service_no == service_no,
            r.active_window == WINDOW_ZERO,
            r.hidden_window == WINDOW_ONE,
    {
        Cea708ServiceWriter {
            codes: Vec::new(),
            service_no,
            active_window: WINDOW_ZERO,
            hidden_window: WINDOW_ONE,
        }
    }

    /// Takes the next service block, of which no more than the given number of bytes is left in the
    /// packet. There is none where not even one code fits.
    pub fn take_service(&mut self, available_bytes: usize) -> (r: Option<Service>)
        requires
            old(self).wf(),
        ensures
            final(self).wf(),
            final(self).same_windows(*old(self)),
            ({
                let n = taken(
                    Seq::empty(),
                    old(self).codes@,
                    old(self).service_no,
                    available_bytes as int,
                ) as int;
                &&& r is None <==> n == 0
                &&& r matches Some(service) ==> crate::dtvcc::service_view(service) == (ServiceView {
                    number: old(self).service_no,
                    codes: old(self).codes@.take(n),
                })
                &&& final(self).codes@ == old(self).codes@.skip(n)
            }),
    {
        let ghost all = self.codes@;
        let ghost none = Seq::<Code>::empty();
        if self.codes.len() == 0 {
            assert(all.skip(0) =~= all);
            return None;
        }
        let mut service: Service = new_service(self.service_no);
        let mut i: usize = 0;
        let mut more: bool = true;
        proof {
            lemma_taken(none, all, self.service_no, available_bytes as int);
            assert(all.skip(0) =~= all);
            assert(all.take(0) =~= none);
        }
        while more
            invariant
                self.codes@ == all,
                crate::dtvcc::all_have_bytes(all),
                self.service_no < 64,
                i <= all.len(),
                crate::dtvcc::service_view(service) == (ServiceView {
                    number: self.service_no,
                    codes: all.take(i as int),
                }),
                taken(none, all, self.service_no, available_bytes as int) == i + if more {
                    taken(
                        all.take(i as int),
                        all.skip(i as int),
                        self.service_no,
                        available_bytes as int,
                    )
                } else {
                    0
                },
            decreases
                    (if more {
                        1int
                    } else {
                        0int
                    }),
                    all.len() - i,
        {
            if i >= self.codes.len() {
                more = false;
            } else {
                let code: &Code = &self.codes[i];
                assert(crate::dtvcc::has_bytes(all[i as int]));
                let len: usize = len_of_code(code);
                assert(all.skip(i as int)[0] == *code);
                let free: usize = free_space_of_service(&service);
                let used: usize = len_of_service(&service);
                if len > free || used + len > available_bytes || !push_code(&mut service, code) {
                    more = false;
                } else {
                    proof {
                        assert(all.skip(i as int).drop_first() =~= all.skip(i + 1));
                        assert(all.take(i as int).push(*code) =~= all.take(i + 1));
                    }
                    i += 1;
                }
            }
        }
        let rest: Vec<Code> = self.codes.split_off(i);
        self.codes = rest;
        assert(self.codes@ =~= all.skip(i as int));
        proof {
            assert forall|k: int|
                0 <= k < self.codes@.len() implies #[trigger] crate::dtvcc::has_bytes(
                self.codes@[k],
            ) by {
                assert(crate::dtvcc::has_bytes(all[i + k]));
            }
        }
        if i == 0 {
            return None;
        }
        Some(service)
    }

    /// Adds a control code.
    fn push_control(&mut self, bytes: Vec<u8>)
        requires
            crate::dtvcc::is_control(bytes@),
            crate::dtvcc::all_have_bytes(old(self).codes@),
        ensures
            crate::dtvcc::all_have_bytes(final(self).codes@),
            final(self).same_windows(*old(self)),
            final(self).follows(*old(self), seq![bytes@]),
    {
        let ghost before = self.codes@;
        if let Some(mut codes) = parse_codes(bytes.as_slice()) {
            if let Some(code) = codes.pop() {
                self.codes.push(code);
            }
        }
        assert(self.codes@.take(before.len() as int) =~= before);
        assert(bytes_of(self.codes@) =~= bytes_of(before) + seq![bytes@]);
    }

    fn push_windows(&mut self, code: u8, windows: u8)
        requires
            0x88 <= code <= 0x8c,
            crate::dtvcc::all_have_bytes(old(self).codes@),
        ensures
            crate::dtvcc::all_have_bytes(final(self).codes@),
            final(self).same_windows(*old(self)),
            final(self).follows(*old(self), seq![seq![code, windows]]),
    {
        let mut bytes: Vec<u8> = Vec::new();
        bytes.push(code);
        bytes.push(windows);
        assert(bytes@ =~= seq![code, windows]);
        self.push_control(bytes);
    }

    fn window_number(window: u8) -> (r: u8)
        ensures
            r == number_of(window),
    {
        if window == WINDOW_ZERO {
            0
        } else {
            1
        }
    }

    fn caption_window(window_id: u8, anchor_vertical: u8, row_count: u8, visible: bool) -> (r:
        DefineWindowArgs)
        ensures
            r == caption_window(window_id, anchor_vertical, row_count, visible),
    {
        DefineWindowArgs {
            window_id,
            priority: 0,
            anchor_point: Anchor::BottomMiddle,
            relative_positioning: true,
            anchor_vertical,
            anchor_horizontal: 50,
            row_count,
            column_count: 31,
            row_lock: true,
            column_lock: true,
            visible,
            window_style_id: 2,
            pen_style_id: 1,
        }
    }

    /// Deletes all windows but the one that is shown, and defines the one that is prepared.
    pub fn popon_preamble(&mut self)
        requires
            old(self).wf(),
        ensures
            final(self).wf(),
            final(self).same_windows(*old(self)),
            final(self).follows(
                *old(self),
                popon_bytes(old(self).active_window, old(self).hidden_window),
            ),
    {
        let window: u8 = Self::window_number(self.hidden_window);
        let args: DefineWindowArgs = Self::caption_window(window, 100, 14, false);
        self.push_windows(0x8c, 255 - self.active_window);
        let ghost mid = *self;
        self.push_control(args.to_bytes());
        proof {
            let x = seq![0x8cu8, (255 - old(self).active_window) as u8];
            let y = crate::cea708::define_window_bytes(args);
            lemma_follows(*old(self), mid, *self, seq![x], seq![y]);
            assert(seq![x] + seq![y] =~= popon_bytes(
                old(self).active_window,
                old(self).hidden_window,
            ));
        }
    }

    /// Clears the window that is shown.
    pub fn clear_current_window(&mut self)
        requires
            old(self).wf(),
        ensures
            final(self).wf(),
            final(self).same_windows(*old(self)),
            final(self).follows(*old(self), seq![seq![0x88u8, old(self).active_window]]),
    {
        self.push_windows(0x88, self.active_window);
    }

    /// Clears the window that is prepared.
    pub fn clear_hidden_window(&mut self)
        requires
            old(self).wf(),
        ensures
            final(self).wf(),
            final(self).same_windows(*old(self)),
            final(self).follows(*old(self), seq![seq![0x88u8, old(self).hidden_window]]),
    {
        self.push_windows(0x88, self.hidden_window);
    }

    /// Shows the window that was prepared in place of the one that was shown.
    pub fn end_of_caption(&mut self)
        requires
            old(self).wf(),
        ensures
            final(self).wf(),
            final(self).service_no == old(self).service_no,
            final(self).active_window == old(self).hidden_window,
            final(self).hidden_window == old(self).active_window,
            final(self).follows(*old(self), seq![seq![0x8bu8, 3u8]]),
    {
        self.push_windows(0x8b, self.active_window + self.hidden_window);
        let active: u8 = self.active_window;
        self.active_window = self.hidden_window;
        self.hidden_window = active;
    }

    /// Defines the window that is shown.
    pub fn paint_on_preamble(&mut self)
        requires
            old(self).wf(),
        ensures
            final(self).wf(),
            final(self).same_windows(*old(self)),
            final(self).follows(*old(self), paint_on_bytes(old(self).active_window)),
    {
        let window: u8 = Self::window_number(self.active_window);
        let args: DefineWindowArgs = Self::caption_window(window, 100, 14, true);
        self.push_control(args.to_bytes());
    }

    /// Defines window 0 with the rows that roll up, deletes all others, and moves the pen to the
    /// last row.
    pub fn rollup_preamble(&mut self, rollup_count: u8, base_row: u8)
        requires
            old(self).wf(),
            rollup_count > 0,
        ensures
            final(self).wf(),
            final(self).service_no == old(self).service_no,
            final(self).active_window == WINDOW_ZERO,
            final(self).hidden_window == WINDOW_ONE,
            final(self).follows(*old(self), rollup_bytes(rollup_count, base_row)),
    {
        let base_row: u8 = if rollup_count > base_row {
            rollup_count
        } else {
            base_row
        };
        let anchor_vertical: u8 = (base_row as u32 * 100 / 14 % 256) as u8;
        self.push_windows(0x8c, 254);
        let ghost mid = *self;
        let args: DefineWindowArgs = Self::caption_window(
            0,
            anchor_vertical,
            rollup_count - 1,
            true,
        );
        self.push_control(args.to_bytes());
        let ghost mid2 = *self;
        let location: SetPenLocationArgs = SetPenLocationArgs { row: rollup_count - 1, column: 0 };
        self.push_control(location.to_bytes());
        proof {
            let x = seq![0x8cu8, 254u8];
            let y = crate::cea708::define_window_bytes(args);
            let z = crate::cea708::pen_location_bytes(location);
            lemma_follows(*old(self), mid, mid2, seq![x], seq![y]);
            lemma_follows(*old(self), mid2, *self, seq![x] + seq![y], seq![z]);
            assert(seq![x] + seq![y] + seq![z] =~= rollup_bytes(rollup_count, base_row));
        }
        self.active_window = WINDOW_ZERO;
        self.hidden_window = WINDOW_ONE;
    }

    /// Writes a character, if there is a code for it.
    pub fn write_char(&mut self, c: char)
        requires
            old(self).wf(),
        ensures
            final(self).wf(),
            final(self).same_windows(*old(self)),
            final(self).codes@ == match crate::dtvcc::char_code(c) {
                Some(code) => old(self).codes@.push(code),
                None => old(self).codes@,
            },
            final(self).follows(*old(self), char_bytes(c)),
    {
        if let Some(code) = code_of_char(c) {
            self.codes.push(code);
        }
        assert(self.codes@.take(old(self).codes@.len() as int) =~= old(self).codes@);
        assert(bytes_of(self.codes@) =~= bytes_of(old(self).codes@) + char_bytes(c));
    }

    /// Adds codes.
    pub fn push_codes(&mut self, codes: &[Code])
        requires
            old(self).wf(),
            crate::dtvcc::all_have_bytes(codes@),
        ensures
            final(self).wf(),
            final(self).same_windows(*old(self)),
            final(self).codes@ == old(self).codes@ + codes@,
    {
        let mut i: usize = 0;
        assert(self.codes@ + codes@.take(0) =~= self.codes@);
        while i < codes.len()
            invariant
                i <= codes@.len(),
                crate::dtvcc::all_have_bytes(codes@),
                self.wf(),
                self.same_windows(*old(self)),
                self.codes@ == old(self).codes@ + codes@.take(i as int),
            decreases codes@.len() - i,
        {
            assert(crate::dtvcc::has_bytes(codes@[i as int]));
            self.codes.push(clone_code(&codes[i]));
            i += 1;
            assert(self.codes@ =~= old(self).codes@ + codes@.take(i as int));
        }
        assert(codes@.take(i as int) =~= codes@);
    }

    /// Adds codes, unless one of them cannot be written.
    pub fn try_push_codes(&mut self, codes: &[Code]) -> (r: bool)
        requires
            old(self).wf(),
        ensures
            final(self).wf(),
            final(self).same_windows(*old(self)),
            r == crate::dtvcc::all_have_bytes(codes@),
            final(self).codes@ == if r {
                old(self).codes@ + codes@
            } else {
                old(self).codes@
            },
    {
        let mut i: usize = 0;
        while i < codes.len()
            invariant
                i <= codes@.len(),
                *self == *old(self),
                self.wf(),
                forall|k: int| 0 <= k < i ==> #[trigger] crate::dtvcc::has_bytes(codes@[k]),
            decreases codes@.len() - i,
        {
            if !can_write(&codes[i]) {
                return false;
            }
            i += 1;
        }
        self.push_codes(codes);
        true
    }

    /// Ends a piece of text.
    pub fn etx(&mut self)
        requires
            old(self).wf(),
        ensures
            final(self).wf(),
            final(self).same_windows(*old(self)),
            final(self).follows(*old(self), seq![seq![0x03u8]]),
    {
        let mut bytes: Vec<u8> = Vec::new();
        bytes.push(0x03);
        assert(bytes@ =~= seq![0x03u8]);
        self.push_control(bytes);
    }

    /// Takes a character back.
    pub fn backspace(&mut self)
        requires
            old(self).wf(),
        ensures
            final(self).wf(),
            final(self).same_windows(*old(self)),
            final(self).follows(*old(self), seq![seq![0x08u8]]),
    {
        let mut bytes: Vec<u8> = Vec::new();
        bytes.push(0x08);
        assert(bytes@ =~= seq![0x08u8]);
        self.push_control(bytes);
    }

    /// Ends a line.
    pub fn carriage_return(&mut self)
        requires
            old(self).wf(),
        ensures
            final(self).wf(),
            final(self).same_windows(*old(self)),
            final(self).follows(*old(self), seq![seq![0x0du8]]),
    {
        let mut bytes: Vec<u8> = Vec::new();
        bytes.push(0x0d);
        assert(bytes@ =~= seq![0x0du8]);
        self.push_control(bytes);
    }

    /// Changes how characters look.
    pub fn set_pen_attributes(&mut self, args: SetPenAttributesArgs)
        requires
            old(self).wf(),
        ensures
            final(self).wf(),
            final(self).same_windows(*old(self)),
            final(self).follows(*old(self), seq![crate::cea708::pen_attributes_bytes(args)]),
    {
        self.push_control(args.to_bytes());
    }

    /// Moves the pen.
    pub fn set_pen_location(&mut self, args: SetPenLocationArgs)
        requires
            old(self).wf(),
        ensures
            final(self).wf(),
            final(self).same_windows(*old(self)),
            final(self).follows(*old(self), seq![crate::cea708::pen_location_bytes(args)]),
    {
        self.push_control(args.to_bytes());
    }

    /// Changes the colors of characters.
    pub fn set_pen_color(&mut self, args: SetPenColorArgs)
        requires
            old(self).wf(),
        ensures
            final(self).wf(),
            final(self).same_windows(*old(self)),
            final(self).follows(*old(self), seq![crate::cea708::pen_color_bytes(args)]),
    {
        self.push_control(args.to_bytes());
    }
}

/// What comes behind what comes behind.
pub proof fn lemma_follows(
    a: Cea708ServiceWriter,
    b: Cea708ServiceWriter,
    c: Cea708ServiceWriter,
    x: Seq<Seq<u8>>,
    y: Seq<Seq<u8>>,
)
    requires
        b.follows(a, x),
        c.follows(b, y),
    ensures
        c.follows(a, x + y),
{
    assert(b.codes@ == c.codes@.take(b.codes@.len() as int));
    assert(c.codes@.take(a.codes@.len() as int) =~= b.codes@.take(a.codes@.len() as int));
    assert(bytes_of(c.codes@) =~= bytes_of(a.codes@) + (x + y));
}

/// Taking service blocks loses no code: what is taken and what is left is what there was.
pub proof fn law_taken_and_left(codes: Seq<Code>, number: u8, available: int)
    ensures
        ({
            let n = taken(Seq::empty(), codes, number, available) as int;
            codes.take(n) + codes.skip(n) == codes
        }),
{
    lemma_taken(Seq::empty(), codes, number, available);
    let n = taken(Seq::empty(), codes, number, available) as int;
    assert(codes.take(n) + codes.skip(n) =~= codes);
}

/// The captions that are shown.
#[derive(Clone, Copy, Debug, PartialEq, Eq, Structural)]
pub enum ServiceOrChannel {
    Service(u8),
    Cea608Channel(Id),
}

/// Shows the captions of a service, or of a CEA-608 channel.
pub struct Cea708Renderer {
    pub selected: Option<ServiceOrChannel>,
    pub cea608: Cea608Renderer,
    pub service: Option<ServiceState>,
    pub video: Dimensions,
    /// The size that 32 by 15 characters take in the largest font that fits in the video.
    pub max_layout: Dimensions,
    /// The same without a video.
    pub no_video_layout: Dimensions,
    /// What was composed last.
    pub composition: Option<Vec<Rectangle>>,
}

/// Where the captions come from that are to be composed.
#[derive(Clone, Copy, Debug, PartialEq, Eq, Structural)]
pub enum Source {
    /// There are none.
    Nothing,
    /// The windows of the service.
    Windows,
    /// The CEA-608 screen.
    Cea608,
}

/// What a code says.
pub open spec fn command_for(code: Code) -> ServiceCommand {
    crate::cea708::command_of(crate::dtvcc::code_bytes(code), crate::dtvcc::code_char(code))
}

/// Whether a command can be carried out: a form feed needs a window to clear.
pub open spec fn can_run(state: ServiceStateView, command: ServiceCommand) -> bool {
    command is FormFeed ==> state.current < 8
}

/// The windows once the first `n` codes were carried out, if they can be.
pub open spec fn run_codes(state: ServiceStateView, codes: Seq<Code>, n: int) -> Option<
    ServiceStateView,
>
    decreases n,
{
    if n <= 0 {
        Some(state)
    } else {
        match run_codes(state, codes, n - 1) {
            Some(s) => if can_run(s, command_for(codes[n - 1])) {
                Some(s.run(command_for(codes[n - 1])))
            } else {
                None
            },
            None => None,
        }
    }
}

proof fn lemma_command_of(b: Seq<u8>, character: Option<char>)
    ensures
        window::is_command(crate::cea708::command_of(b, character)),
{
    let c = crate::cea708::command_of(b, character);
    if let ServiceCommand::DefineWindow(args) = c {
        assert(b[4] / 16 < 16);
        assert(crate::cea708::is_window(args));
    }
}

proof fn lemma_run_codes_none(state: ServiceStateView, codes: Seq<Code>, n: int, m: int)
    requires
        n <= m,
        run_codes(state, codes, n) is None,
    ensures
        run_codes(state, codes, m) is None,
    decreases m - n,
{
    if n < m {
        lemma_run_codes_none(state, codes, n, m - 1);
    }
}

impl Cea708Renderer {
    /// Whether the parts of the renderer are in order.
    pub open spec fn wf(&self) -> bool {
        &&& self.cea608.wf()
        &&& self.service matches Some(s) ==> s@.wf()
        &&& self.cea608.video_width == self.video.w
        &&& self.cea608.video_height == self.video.h
        &&& self.video.w <= i32::MAX
        &&& self.video.h <= i32::MAX
        &&& self.max_layout.w <= i32::MAX
        &&& self.max_layout.h <= i32::MAX
        &&& self.no_video_layout.w <= i32::MAX
        &&& self.no_video_layout.h <= i32::MAX
    }

    /// Whether neither the video nor the layout differ.
    pub open spec fn same_video(&self, other: Self) -> bool {
        &&& self.video == other.video
        &&& self.max_layout == other.max_layout
        &&& self.no_video_layout == other.no_video_layout
    }

    /// The windows of the service, or none in this video.
    pub open spec fn windows(&self) -> ServiceStateView {
        match self.service {
            Some(s) => s@,
            None => ServiceStateView {
                video: self.video,
                max_layout: self.max_layout,
                ..ServiceStateView::empty(self.no_video_layout)
            },
        }
    }

    /// Whether the renderer has seen nothing, neither captions nor a video.
    pub open spec fn is_new(&self, no_video_layout: Dimensions) -> bool {
        &&& self.selected is None
        &&& self.service is None
        &&& self.composition is None
        &&& self.video == window::no_size()
        &&& self.max_layout == no_video_layout
        &&& self.no_video_layout == no_video_layout
        &&& self.cea608.is_new()
        &&& self.cea608.black_background
    }

    /// A renderer that has seen nothing. The layout size is that of 32 by 15 characters without a
    /// video.
    pub fn new(no_video_layout: Dimensions) -> (r: Self)
        requires
            no_video_layout.w <= i32::MAX,
            no_video_layout.h <= i32::MAX,
        ensures
            r.wf(),
            r.is_new(no_video_layout),
    {
        let mut cea608: Cea608Renderer = Cea608Renderer::new();
        cea608.set_black_background(true);
        Cea708Renderer {
            selected: None,
            cea608,
            service: None,
            video: Dimensions { w: 0, h: 0 },
            max_layout: no_video_layout,
            no_video_layout,
            composition: None,
        }
    }

    /// Whether a video of the given size, and with the given size of 32 by 15 characters in it,
    /// leads to the given state.
    pub open spec fn resized(&self, after: Self, video: Dimensions, max_layout: Dimensions) -> bool {
        &&& after.selected == self.selected
        &&& after.no_video_layout == self.no_video_layout
        &&& after.video == video
        &&& if video == self.video {
            &&& after.max_layout == self.max_layout
            &&& after.service == self.service
            &&& after.cea608 == self.cea608
            &&& after.composition == self.composition
        } else {
            &&& after.max_layout == max_layout
            &&& after.service is Some <==> self.service is Some
            &&& after.service matches Some(s) ==> s@ == (ServiceStateView {
                windows: (self.service->0)@.windows.map_values(
                    |w: window::WindowView| w.sized(video, max_layout),
                ),
                video,
                max_layout,
                ..(self.service->0)@
            })
            &&& after.cea608.video_width == video.w
            &&& after.cea608.video_height == video.h
            &&& after.cea608.left_alignment == crate::cea608utils::half(video.w - max_layout.w)
                + video.w as int / 10
            &&& after.cea608.rectangle is None
            &&& after.cea608.frame == self.cea608.frame
            &&& after.cea608.state == self.cea608.state
            &&& after.cea608.black_background == self.cea608.black_background
            &&& after.composition is None
        }
    }

    /// Takes the size of the video, and the size that 32 by 15 characters take in the largest font
    /// that fits in it.
    pub fn set_video_size(&mut self, video: Dimensions, max_layout: Dimensions)
        requires
            old(self).wf(),
            video.w <= i32::MAX,
            video.h <= i32::MAX,
            max_layout.w <= i32::MAX,
            max_layout.h <= i32::MAX,
        ensures
            final(self).wf(),
            old(self).resized(*final(self), video, max_layout),
    {
        if video == self.video {
            return;
        }
        self.video = video;
        self.max_layout = max_layout;
        self.cea608.set_video_size(video.w, video.h, max_layout.w as i32);
        if let Some(mut service) = self.service.take() {
            service.set_video_size(video, max_layout);
            self.service = Some(service);
        }
        self.composition = None;
    }

    /// The channel of the CEA-608 screen once other captions are chosen. A service leaves it as it
    /// was.
    pub open spec fn channel_for(&self, service_channel: Option<ServiceOrChannel>) -> Option<
        Channel,
    > {
        if self.selected == service_channel {
            self.cea608.frame@.channel
        } else {
            match service_channel {
                Some(ServiceOrChannel::Cea608Channel(id)) => Some(id.in_channel()),
                Some(ServiceOrChannel::Service(_)) => self.cea608.frame@.channel,
                None => Some(Channel::One),
            }
        }
    }

    /// Whether choosing captions leads to the given state. A CEA-608 screen of another channel is
    /// rendered anew.
    pub open spec fn switched(&self, after: Self, service_channel: Option<ServiceOrChannel>) -> bool {
        let channel = self.channel_for(service_channel);
        &&& after.selected == service_channel
        &&& after.service == self.service
        &&& after.same_video(*self)
        &&& after.composition == self.composition
        &&& after.cea608.state == self.cea608.state
        &&& after.cea608.same_video(self.cea608)
        &&& after.cea608.frame@ == match channel {
            Some(c) => self.cea608.frame@.set_channel(c),
            None => self.cea608.frame@,
        }
        &&& after.cea608.rectangle == if channel == self.cea608.frame@.channel {
            self.cea608.rectangle
        } else {
            None
        }
    }

    /// Chooses the captions that are shown.
    pub fn set_service_channel(&mut self, service_channel: Option<ServiceOrChannel>)
        requires
            old(self).wf(),
        ensures
            final(self).wf(),
            old(self).switched(*final(self), service_channel),
    {
        let is_same: bool = match (self.selected, service_channel) {
            (None, None) => true,
            (Some(a), Some(b)) => a == b,
            _ => false,
        };
        if !is_same {
            self.selected = service_channel;
            match service_channel {
                Some(ServiceOrChannel::Cea608Channel(id)) => self.cea608.set_channel(id.channel()),
                Some(ServiceOrChannel::Service(_)) => {},
                None => self.cea608.set_channel(Channel::One),
            }
        }
    }

    /// Carries out the codes of a service block. Says whether that was possible: it ends at a form
    /// feed that has no window to clear.
    pub fn push_service(&mut self, service: &Service) -> (r: bool)
        requires
            old(self).wf(),
        ensures
            final(self).wf(),
            final(self).selected == old(self).selected,
            final(self).same_video(*old(self)),
            final(self).cea608 == old(self).cea608,
            final(self).composition == old(self).composition,
            ({
                let codes = crate::dtvcc::service_view(*service).codes;
                let ran = run_codes(old(self).windows(), codes, codes.len() as int);
                &&& r == (ran is Some)
                &&& r ==> final(self).windows() == ran->0
                &&& codes.len() == 0 ==> final(self).service == old(self).service
                &&& codes.len() > 0 ==> final(self).service is Some
            }),
    {
        let codes: &[Code] = codes_of_service(service);
        if codes.len() == 0 {
            return true;
        }
        let mut state: ServiceState = match self.service.take() {
            Some(s) => s,
            None => {
                let mut s: ServiceState = ServiceState::new(self.no_video_layout);
                s.set_video_size(self.video, self.max_layout);
                s
            },
        };
        let ghost start = state@;
        assert(start =~= old(self).windows());
        let mut i: usize = 0;
        let mut possible: bool = true;
        while possible && i < codes.len()
            invariant
                i <= codes@.len(),
                crate::dtvcc::all_have_bytes(codes@),
                state@.wf(),
                possible ==> run_codes(start, codes@, i as int) == Some(state@),
                !possible ==> run_codes(start, codes@, i as int) is None,
            decreases codes@.len() - i,
        {
            assert(crate::dtvcc::has_bytes(codes@[i as int]));
            let bytes: Vec<u8> = write_code(&codes[i]);
            let command: ServiceCommand = ServiceCommand::decode(
                bytes.as_slice(),
                char_of_code(&codes[i]),
            );
            proof {
                lemma_command_of(bytes@, crate::dtvcc::code_char(codes@[i as int]));
            }
            if matches!(command, ServiceCommand::FormFeed) && state.current_window >= 8 {
                possible = false;
            } else {
                state.handle_code(&command);
            }
            i += 1;
        }
        proof {
            if !possible {
                lemma_run_codes_none(start, codes@, i as int, codes@.len() as int);
            }
        }
        self.service = Some(state);
        possible
    }

    /// Carries out a pair of CEA-608 bytes, if it is for the field that is shown. The first channel
    /// that is heard of is chosen where none was. There is no result where a carriage return cannot
    /// be carried out.
    pub fn push_cea608(&mut self, field: Field, pair: [u8; 2]) -> (r: Option<
        Result<bool, InvalidParity>,
    >)
        requires
            old(self).wf(),
        ensures
            final(self).wf(),
            final(self).service == old(self).service,
            final(self).same_video(*old(self)),
            ({
                let for_us = match old(self).selected {
                    Some(ServiceOrChannel::Cea608Channel(id)) => id.in_field() == field,
                    Some(ServiceOrChannel::Service(_)) => false,
                    None => true,
                };
                let was = old(self).cea608;
                let code = was.code_for(pair@);
                let is_pair = crate::cea608::odd_parity(pair@[0]) && crate::cea608::odd_parity(
                    pair@[1],
                );
                if !for_us {
                    &&& r == Some(Ok::<bool, InvalidParity>(false))
                    &&& final(self).cea608 == was
                    &&& final(self).selected == old(self).selected
                    &&& final(self).composition == old(self).composition
                } else {
                    &&& match r {
                        Some(Err(_)) => !is_pair,
                        Some(Ok(changed)) => is_pair && (code is None || was.frame@.takes(
                            code->0,
                        )) && changed == (code matches Some(c) && was.frame@.tuned(c).channel
                            == Some(c.channel) && was.frame@.tuned(c).is_changed_by(c.command)),
                        None => is_pair && code is Some && !was.frame@.takes(code->0),
                    }
                    &&& crate::cea608::decoder_view(final(self).cea608.state) == if is_pair {
                        crate::cea608::after_pair(
                            crate::cea608::decoder_view(was.state),
                            pair@[0],
                            pair@[1],
                        )
                    } else {
                        crate::cea608::decoder_view(was.state)
                    }
                    &&& final(self).cea608.frame@ == if r is Some && r->0 is Ok && code is Some {
                        was.frame@.push_code(code->0)
                    } else {
                        was.frame@
                    }
                    &&& final(self).selected == if old(self).selected is None && r is Some
                        && r->0 is Ok && final(self).cea608.frame@.channel is Some {
                        Some(
                            ServiceOrChannel::Cea608Channel(
                                stream_id(field, final(self).cea608.frame@.channel->0),
                            ),
                        )
                    } else {
                        old(self).selected
                    }
                    &&& final(self).composition == if r == Some(
                        Ok::<bool, InvalidParity>(true),
                    ) {
                        None
                    } else {
                        old(self).composition
                    }
                    &&& final(self).cea608.rectangle == if r == Some(
                        Ok::<bool, InvalidParity>(true),
                    ) {
                        None
                    } else {
                        was.rectangle
                    }
                    &&& final(self).cea608.same_video(was)
                }
            }),
    {
        match self.selected {
            Some(ServiceOrChannel::Cea608Channel(id)) => {
                if id.field() != field {
                    // not for the chosen field
                    return Some(Ok(false));
                }
            },
            Some(ServiceOrChannel::Service(_)) => {
                // not for the chosen service
                return Some(Ok(false));
            },
            None => {},
        }
        let ret: Option<Result<bool, InvalidParity>> = self.cea608.push_pair(pair);
        if let Some(Ok(changed)) = ret {
            if self.selected.is_none() {
                if let Some(channel) = self.cea608.channel() {
                    self.selected = Some(
                        ServiceOrChannel::Cea608Channel(
                            Id::from_caption_field_channel(field, channel),
                        ),
                    );
                }
            }
            if changed {
                self.composition = None;
            }
        }
        ret
    }

    /// Forgets what was composed.
    pub fn clear_composition(&mut self)
        ensures
            final(self).composition is None,
            final(self).selected == old(self).selected,
            final(self).service == old(self).service,
            final(self).cea608 == old(self).cea608,
            final(self).same_video(*old(self)),
    {
        self.composition = None;
    }

    /// Where the captions come from that are to be composed. Without a choice what was composed is
    /// forgotten.
    pub fn generate_composition(&mut self) -> (r: Source)
        ensures
            r == match old(self).selected {
                None => Source::Nothing,
                Some(ServiceOrChannel::Service(_)) => if old(self).service is Some {
                    Source::Windows
                } else {
                    Source::Nothing
                },
                Some(ServiceOrChannel::Cea608Channel(_)) => Source::Cea608,
            },
            final(self).composition == if old(self).selected is None {
                None
            } else {
                old(self).composition
            },
            final(self).selected == old(self).selected,
            final(self).service == old(self).service,
            final(self).cea608 == old(self).cea608,
            final(self).same_video(*old(self)),
    {
        match self.selected {
            None => {
                self.composition = None;
                Source::Nothing
            },
            Some(ServiceOrChannel::Service(_)) => if self.service.is_some() {
                Source::Windows
            } else {
                Source::Nothing
            },
            Some(ServiceOrChannel::Cea608Channel(_)) => Source::Cea608,
        }
    }

    /// Composes the windows that are shown.
    pub fn compose_windows(&mut self, rectangles: Vec<Rectangle>)
        ensures
            final(self).composition == if rectangles@.len() == 0 {
                None
            } else {
                Some(rectangles)
            },
            final(self).selected == old(self).selected,
            final(self).service == old(self).service,
            final(self).cea608 == old(self).cea608,
            final(self).same_video(*old(self)),
    {
        if rectangles.len() == 0 {
            self.composition = None;
        } else {
            self.composition = Some(rectangles);
        }
    }

    /// Composes the CEA-608 screen. Where nothing is to be shown what was composed stays.
    pub fn compose_cea608(&mut self, rectangle: Option<Rectangle>)
        ensures
            match rectangle {
                Some(r) => final(self).composition matches Some(c) && c@ == seq![r],
                None => final(self).composition == old(self).composition,
            },
            final(self).selected == old(self).selected,
            final(self).service == old(self).service,
            final(self).cea608 == old(self).cea608,
            final(self).same_video(*old(self)),
    {
        if let Some(r) = rectangle {
            let mut rectangles: Vec<Rectangle> = Vec::new();
            rectangles.push(r);
            assert(rectangles@ =~= seq![r]);
            self.composition = Some(rectangles);
        }
    }
}

/// The stream in a field and channel.
pub open spec fn stream_id(field: Field, channel: Channel) -> Id {
    match (field, channel) {
        (Field::One, Channel::One) => Id::CC1,
        (Field::One, Channel::Two) => Id::CC2,
        (Field::Two, Channel::One) => Id::CC3,
        (Field::Two, Channel::Two) => Id::CC4,
    }
}

} // verus!
