//! The control codes of CEA-708 services.
use vstd::prelude::*;

verus! {

/// How much of a basic color there is.
#[derive(Clone, Copy, Debug, PartialEq, Eq, Structural)]
pub enum ColorValue {
    Zero,
    OneThird,
    TwoThirds,
    Full,
}

/// A color.
#[derive(Clone, Copy, Debug, PartialEq, Eq, Structural)]
pub struct Color {
    pub r: ColorValue,
    pub g: ColorValue,
    pub b: ColorValue,
}

/// How much of what is behind shines through.
#[derive(Clone, Copy, Debug, PartialEq, Eq, Structural)]
pub enum Opacity {
    Solid,
    Flash,
    Translucent,
    Transparent,
}

/// The ways to write and to scroll.
#[derive(Clone, Copy, Debug, PartialEq, Eq, Structural)]
pub enum Direction {
    LeftToRight,
    RightToLeft,
    TopToBottom,
    BottomToTop,
}

/// The point of a window that is placed on screen.
#[derive(Clone, Copy, Debug, PartialEq, Eq, Structural)]
pub enum Anchor {
    TopLeft,
    TopMiddle,
    TopRight,
    CenterLeft,
    CenterMiddle,
    CenterRight,
    BottomLeft,
    BottomMiddle,
    BottomRight,
    Undefined(u8),
}

/// A window: where it stands, how large it is, and its styles.
#[derive(Clone, Copy, Debug, PartialEq, Eq, Structural)]
pub struct DefineWindowArgs {
    pub window_id: u8,
    pub priority: u8,
    pub anchor_point: Anchor,
    pub relative_positioning: bool,
    pub anchor_vertical: u8,
    pub anchor_horizontal: u8,
    /// One less than the number of rows.
    pub row_count: u8,
    /// One less than the number of columns.
    pub column_count: u8,
    pub row_lock: bool,
    pub column_lock: bool,
    pub visible: bool,
    pub window_style_id: u8,
    pub pen_style_id: u8,
}

/// How a window looks and scrolls.
#[derive(Clone, Copy, Debug, PartialEq, Eq, Structural)]
pub struct SetWindowAttributesArgs {
    pub justify: u8,
    pub print_direction: Direction,
    pub scroll_direction: Direction,
    pub wordwrap: bool,
    pub display_effect: u8,
    pub effect_direction: Direction,
    pub effect_speed: u8,
    pub fill_color: Color,
    pub fill_opacity: Opacity,
    pub border_type: u8,
    pub border_color: Color,
}

/// How characters look.
#[derive(Clone, Copy, Debug, PartialEq, Eq, Structural)]
pub struct SetPenAttributesArgs {
    pub pen_size: u8,
    pub font_style: u8,
    pub text_tag: u8,
    pub offset: u8,
    pub italics: bool,
    pub underline: bool,
    pub edge_type: u8,
}

/// The colors of characters.
#[derive(Clone, Copy, Debug, PartialEq, Eq, Structural)]
pub struct SetPenColorArgs {
    pub foreground_color: Color,
    pub foreground_opacity: Opacity,
    pub background_color: Color,
    pub background_opacity: Opacity,
    pub edge_color: Color,
}

/// Where the next character goes.
#[derive(Clone, Copy, Debug, PartialEq, Eq, Structural)]
pub struct SetPenLocationArgs {
    pub row: u8,
    pub column: u8,
}

/// What a code of a service says. Windows are named by the bits of a byte.
#[derive(Clone, Copy, Debug, PartialEq, Eq, Structural)]
pub enum ServiceCommand {
    EndOfText,
    Backspace,
    FormFeed,
    CarriageReturn,
    HorizontalCarriageReturn,
    SetCurrentWindow(u8),
    ClearWindows(u8),
    DisplayWindows(u8),
    HideWindows(u8),
    ToggleWindows(u8),
    DeleteWindows(u8),
    Reset,
    SetPenAttributes(SetPenAttributesArgs),
    SetPenColor(SetPenColorArgs),
    SetPenLocation(SetPenLocationArgs),
    SetWindowAttributes(SetWindowAttributesArgs),
    DefineWindow(DefineWindowArgs),
    Char(char),
    Other,
}

/// The amount with the given number.
pub open spec fn color_value_of(n: int) -> ColorValue {
    if n == 0 {
        ColorValue::Zero
    } else if n == 1 {
        ColorValue::OneThird
    } else if n == 2 {
        ColorValue::TwoThirds
    } else {
        ColorValue::Full
    }
}

/// The number of an amount.
pub open spec fn color_value_number(v: ColorValue) -> u8 {
    match v {
        ColorValue::Zero => 0,
        ColorValue::OneThird => 1,
        ColorValue::TwoThirds => 2,
        ColorValue::Full => 3,
    }
}

/// The color in the low six bits of a byte.
pub open spec fn color_of(b: u8) -> Color {
    Color {
        r: color_value_of(b as int / 16 % 4),
        g: color_value_of(b as int / 4 % 4),
        b: color_value_of(b as int % 4),
    }
}

/// A color as six bits.
pub open spec fn color_bits(c: Color) -> int {
    16 * color_value_number(c.r) + 4 * color_value_number(c.g) + color_value_number(c.b)
}

/// The opacity in the high two bits of a byte.
pub open spec fn opacity_of(b: u8) -> Opacity {
    if b < 64 {
        Opacity::Solid
    } else if b < 128 {
        Opacity::Flash
    } else if b < 192 {
        Opacity::Translucent
    } else {
        Opacity::Transparent
    }
}

/// The number of an opacity.
pub open spec fn opacity_number(o: Opacity) -> u8 {
    match o {
        Opacity::Solid => 0,
        Opacity::Flash => 1,
        Opacity::Translucent => 2,
        Opacity::Transparent => 3,
    }
}

/// The direction with the given number.
pub open spec fn direction_of(n: int) -> Direction {
    if n == 0 {
        Direction::LeftToRight
    } else if n == 1 {
        Direction::RightToLeft
    } else if n == 2 {
        Direction::TopToBottom
    } else {
        Direction::BottomToTop
    }
}

/// The anchor with the given number.
pub open spec fn anchor_of(n: u8) -> Anchor {
    if n == 0 {
        Anchor::TopLeft
    } else if n == 1 {
        Anchor::TopMiddle
    } else if n == 2 {
        Anchor::TopRight
    } else if n == 3 {
        Anchor::CenterLeft
    } else if n == 4 {
        Anchor::CenterMiddle
    } else if n == 5 {
        Anchor::CenterRight
    } else if n == 6 {
        Anchor::BottomLeft
    } else if n == 7 {
        Anchor::BottomMiddle
    } else if n == 8 {
        Anchor::BottomRight
    } else {
        Anchor::Undefined(n)
    }
}

/// The number of an anchor.
pub open spec fn anchor_number(a: Anchor) -> u8 {
    match a {
        Anchor::TopLeft => 0,
        Anchor::TopMiddle => 1,
        Anchor::TopRight => 2,
        Anchor::CenterLeft => 3,
        Anchor::CenterMiddle => 4,
        Anchor::CenterRight => 5,
        Anchor::BottomLeft => 6,
        Anchor::BottomMiddle => 7,
        Anchor::BottomRight => 8,
        Anchor::Undefined(n) => n,
    }
}

/// A bit as a number.
pub open spec fn bit(b: bool) -> int {
    if b {
        1
    } else {
        0
    }
}

/// The window in the bytes of a code.
pub open spec fn define_window_of(b: Seq<u8>) -> DefineWindowArgs {
    DefineWindowArgs {
        window_id: (b[0] % 8) as u8,
        priority: (b[1] % 8) as u8,
        anchor_point: anchor_of((b[4] / 16) as u8),
        relative_positioning: b[2] >= 128,
        anchor_vertical: (b[2] % 128) as u8,
        anchor_horizontal: b[3],
        row_count: (b[4] % 16) as u8,
        column_count: (b[5] % 64) as u8,
        row_lock: b[1] / 16 % 2 == 1,
        column_lock: b[1] / 8 % 2 == 1,
        visible: b[1] / 32 % 2 == 1,
        window_style_id: (b[6] / 8 % 8) as u8,
        pen_style_id: (b[6] % 8) as u8,
    }
}

/// Whether all parts of a window fit in its code.
pub open spec fn is_window(a: DefineWindowArgs) -> bool {
    &&& a.window_id < 8
    &&& a.priority < 8
    &&& anchor_number(a.anchor_point) < 16
    &&& a.anchor_point is Undefined ==> anchor_number(a.anchor_point) >= 9
    &&& a.anchor_vertical < 128
    &&& a.row_count < 16
    &&& a.column_count < 64
    &&& a.window_style_id < 8
    &&& a.pen_style_id < 8
}

/// The bytes of the code of a window. What does not fit is cut off.
pub open spec fn define_window_bytes(a: DefineWindowArgs) -> Seq<u8> {
    seq![
        (0x98 + a.window_id % 8) as u8,
        (a.priority % 8 + 8 * bit(a.column_lock) + 16 * bit(a.row_lock) + 32 * bit(
            a.visible,
        )) as u8,
        (a.anchor_vertical % 128 + 128 * bit(a.relative_positioning)) as u8,
        a.anchor_horizontal,
        (a.row_count % 16 + 16 * (anchor_number(a.anchor_point) % 16)) as u8,
        (a.column_count % 64) as u8,
        (a.pen_style_id % 8 + 8 * (a.window_style_id % 8)) as u8,
    ]
}

/// The window attributes in the four bytes from `at` on.
pub open spec fn window_attributes_of(b: Seq<u8>, at: int) -> SetWindowAttributesArgs {
    SetWindowAttributesArgs {
        justify: (b[at + 2] % 4) as u8,
        print_direction: direction_of(b[at + 2] as int / 16 % 4),
        scroll_direction: direction_of(b[at + 2] as int / 4 % 4),
        wordwrap: b[at + 2] / 64 % 2 == 1,
        display_effect: (b[at + 3] % 4) as u8,
        effect_direction: direction_of(b[at + 3] as int / 4 % 4),
        effect_speed: (b[at + 3] / 16) as u8,
        fill_color: color_of(b[at]),
        fill_opacity: opacity_of(b[at]),
        border_type: (b[at + 1] / 64 + 4 * (b[at + 2] / 128)) as u8,
        border_color: color_of(b[at + 1]),
    }
}

/// The pen attributes in the two bytes from `at` on.
pub open spec fn pen_attributes_of(b: Seq<u8>, at: int) -> SetPenAttributesArgs {
    SetPenAttributesArgs {
        pen_size: (b[at] % 4) as u8,
        font_style: (b[at + 1] % 8) as u8,
        text_tag: (b[at] / 16) as u8,
        offset: (b[at] / 4 % 4) as u8,
        italics: b[at + 1] >= 128,
        underline: b[at + 1] / 64 % 2 == 1,
        edge_type: (b[at + 1] / 8 % 8) as u8,
    }
}

/// Whether all parts of pen attributes fit in their code.
pub open spec fn is_pen(a: SetPenAttributesArgs) -> bool {
    &&& a.pen_size < 4
    &&& a.font_style < 8
    &&& a.text_tag < 16
    &&& a.offset < 4
    &&& a.edge_type < 8
}

/// The bytes of the code of pen attributes.
pub open spec fn pen_attributes_bytes(a: SetPenAttributesArgs) -> Seq<u8> {
    seq![
        0x90u8,
        (a.pen_size % 4 + 4 * (a.offset % 4) + 16 * (a.text_tag % 16)) as u8,
        (a.font_style % 8 + 8 * (a.edge_type % 8) + 64 * bit(a.underline) + 128 * bit(
            a.italics,
        )) as u8,
    ]
}

/// The pen colors in the three bytes from `at` on.
pub open spec fn pen_color_of(b: Seq<u8>, at: int) -> SetPenColorArgs {
    SetPenColorArgs {
        foreground_color: color_of(b[at]),
        foreground_opacity: opacity_of(b[at]),
        background_color: color_of(b[at + 1]),
        background_opacity: opacity_of(b[at + 1]),
        edge_color: color_of(b[at + 2]),
    }
}

/// The bytes of the code of pen colors.
pub open spec fn pen_color_bytes(a: SetPenColorArgs) -> Seq<u8> {
    seq![
        0x91u8,
        (64 * opacity_number(a.foreground_opacity) + color_bits(a.foreground_color)) as u8,
        (64 * opacity_number(a.background_opacity) + color_bits(a.background_color)) as u8,
        color_bits(a.edge_color) as u8,
    ]
}

/// The pen location in the bytes of a code.
pub open spec fn pen_location_of(b: Seq<u8>) -> SetPenLocationArgs {
    SetPenLocationArgs { row: (b[1] % 16) as u8, column: (b[2] % 64) as u8 }
}

/// The bytes of the code of a pen location. What does not fit is cut off.
pub open spec fn pen_location_bytes(a: SetPenLocationArgs) -> Seq<u8> {
    seq![0x92u8, (a.row % 16) as u8, (a.column % 64) as u8]
}

/// What the bytes of a code say. The character is the one that the code stands for.
pub open spec fn command_of(b: Seq<u8>, character: Option<char>) -> ServiceCommand {
    if b.len() == 1 && b[0] == 0x03 {
        ServiceCommand::EndOfText
    } else if b.len() == 1 && b[0] == 0x08 {
        ServiceCommand::Backspace
    } else if b.len() == 1 && b[0] == 0x0c {
        ServiceCommand::FormFeed
    } else if b.len() == 1 && b[0] == 0x0d {
        ServiceCommand::CarriageReturn
    } else if b.len() == 1 && b[0] == 0x0e {
        ServiceCommand::HorizontalCarriageReturn
    } else if b.len() == 1 && 0x80 <= b[0] <= 0x87 {
        ServiceCommand::SetCurrentWindow((b[0] - 0x80) as u8)
    } else if b.len() == 2 && b[0] == 0x88 {
        ServiceCommand::ClearWindows(b[1])
    } else if b.len() == 2 && b[0] == 0x89 {
        ServiceCommand::DisplayWindows(b[1])
    } else if b.len() == 2 && b[0] == 0x8a {
        ServiceCommand::HideWindows(b[1])
    } else if b.len() == 2 && b[0] == 0x8b {
        ServiceCommand::ToggleWindows(b[1])
    } else if b.len() == 2 && b[0] == 0x8c {
        ServiceCommand::DeleteWindows(b[1])
    } else if b.len() == 1 && b[0] == 0x8f {
        ServiceCommand::Reset
    } else if b.len() == 3 && b[0] == 0x90 {
        ServiceCommand::SetPenAttributes(pen_attributes_of(b, 1))
    } else if b.len() == 4 && b[0] == 0x91 {
        ServiceCommand::SetPenColor(pen_color_of(b, 1))
    } else if b.len() == 3 && b[0] == 0x92 {
        ServiceCommand::SetPenLocation(pen_location_of(b))
    } else if b.len() == 5 && b[0] == 0x97 {
        ServiceCommand::SetWindowAttributes(window_attributes_of(b, 1))
    } else if b.len() == 7 && 0x98 <= b[0] <= 0x9f {
        ServiceCommand::DefineWindow(define_window_of(b))
    } else {
        match character {
            Some(c) => ServiceCommand::Char(c),
            None => ServiceCommand::Other,
        }
    }
}

fn color_value(n: u8) -> (r: ColorValue)
    ensures
        r == color_value_of(n as int),
{
    match n {
        0 => ColorValue::Zero,
        1 => ColorValue::OneThird,
        2 => ColorValue::TwoThirds,
        _ => ColorValue::Full,
    }
}

fn color_from(b: u8) -> (r: Color)
    ensures
        r == color_of(b),
{
    Color { r: color_value(b / 16 % 4), g: color_value(b / 4 % 4), b: color_value(b % 4) }
}

fn opacity_from(b: u8) -> (r: Opacity)
    ensures
        r == opacity_of(b),
{
    if b < 64 {
        Opacity::Solid
    } else if b < 128 {
        Opacity::Flash
    } else if b < 192 {
        Opacity::Translucent
    } else {
        Opacity::Transparent
    }
}

fn direction_from(n: u8) -> (r: Direction)
    ensures
        r == direction_of(n as int),
{
    match n {
        0 => Direction::LeftToRight,
        1 => Direction::RightToLeft,
        2 => Direction::TopToBottom,
        _ => Direction::BottomToTop,
    }
}

fn anchor_from(n: u8) -> (r: Anchor)
    ensures
        r == anchor_of(n),
{
    match n {
        0 => Anchor::TopLeft,
        1 => Anchor::TopMiddle,
        2 => Anchor::TopRight,
        3 => Anchor::CenterLeft,
        4 => Anchor::CenterMiddle,
        5 => Anchor::CenterRight,
        6 => Anchor::BottomLeft,
        7 => Anchor::BottomMiddle,
        8 => Anchor::BottomRight,
        _ => Anchor::Undefined(n),
    }
}

fn define_window_from(b: &[u8]) -> (r: DefineWindowArgs)
    requires
        b@.len() == 7,
    ensures
        r == define_window_of(b@),
{
    DefineWindowArgs {
        window_id: b[0] % 8,
        priority: b[1] % 8,
        anchor_point: anchor_from(b[4] / 16),
        relative_positioning: b[2] >= 128,
        anchor_vertical: b[2] % 128,
        anchor_horizontal: b[3],
        row_count: b[4] % 16,
        column_count: b[5] % 64,
        row_lock: b[1] / 16 % 2 == 1,
        column_lock: b[1] / 8 % 2 == 1,
        visible: b[1] / 32 % 2 == 1,
        window_style_id: b[6] / 8 % 8,
        pen_style_id: b[6] % 8,
    }
}

/// Reads window attributes from the four bytes from `at` on.
pub(crate) fn window_attributes_from(b: &[u8], at: usize) -> (r: SetWindowAttributesArgs)
    requires
        at + 4 <= b@.len(),
    ensures
        r == window_attributes_of(b@, at as int),
{
    let len: usize = b.len();
    SetWindowAttributesArgs {
        justify: b[at + 2] % 4,
        print_direction: direction_from(b[at + 2] / 16 % 4),
        scroll_direction: direction_from(b[at + 2] / 4 % 4),
        wordwrap: b[at + 2] / 64 % 2 == 1,
        display_effect: b[at + 3] % 4,
        effect_direction: direction_from(b[at + 3] / 4 % 4),
        effect_speed: b[at + 3] / 16,
        fill_color: color_from(b[at]),
        fill_opacity: opacity_from(b[at]),
        border_type: b[at + 1] / 64 + 4 * (b[at + 2] / 128),
        border_color: color_from(b[at + 1]),
    }
}

/// Reads pen attributes from the two bytes from `at` on.
pub(crate) fn pen_attributes_from(b: &[u8], at: usize) -> (r: SetPenAttributesArgs)
    requires
        at + 2 <= b@.len(),
    ensures
        r == pen_attributes_of(b@, at as int),
{
    let len: usize = b.len();
    SetPenAttributesArgs {
        pen_size: b[at] % 4,
        font_style: b[at + 1] % 8,
        text_tag: b[at] / 16,
        offset: b[at] / 4 % 4,
        italics: b[at + 1] >= 128,
        underline: b[at + 1] / 64 % 2 == 1,
        edge_type: b[at + 1] / 8 % 8,
    }
}

/// Reads pen colors from the three bytes from `at` on.
pub(crate) fn pen_color_from(b: &[u8], at: usize) -> (r: SetPenColorArgs)
    requires
        at + 3 <= b@.len(),
    ensures
        r == pen_color_of(b@, at as int),
{
    let len: usize = b.len();
    SetPenColorArgs {
        foreground_color: color_from(b[at]),
        foreground_opacity: opacity_from(b[at]),
        background_color: color_from(b[at + 1]),
        background_opacity: opacity_from(b[at + 1]),
        edge_color: color_from(b[at + 2]),
    }
}

impl ServiceCommand {
    /// Reads the bytes of a code that stands for the given character, if it stands for one.
    pub fn decode(b: &[u8], character: Option<char>) -> (r: ServiceCommand)
        ensures
            r == command_of(b@, character),
    {
        let other: ServiceCommand = match character {
            Some(c) => ServiceCommand::Char(c),
            None => ServiceCommand::Other,
        };
        let len: usize = b.len();
        if len == 1 {
            match b[0] {
                0x03 => ServiceCommand::EndOfText,
                0x08 => ServiceCommand::Backspace,
                0x0c => ServiceCommand::FormFeed,
                0x0d => ServiceCommand::CarriageReturn,
                0x0e => ServiceCommand::HorizontalCarriageReturn,
                0x8f => ServiceCommand::Reset,
                n => if 0x80 <= n && n <= 0x87 {
                    ServiceCommand::SetCurrentWindow(n - 0x80)
                } else {
                    other
                },
            }
        } else if len == 2 {
            match b[0] {
                0x88 => ServiceCommand::ClearWindows(b[1]),
                0x89 => ServiceCommand::DisplayWindows(b[1]),
                0x8a => ServiceCommand::HideWindows(b[1]),
                0x8b => ServiceCommand::ToggleWindows(b[1]),
                0x8c => ServiceCommand::DeleteWindows(b[1]),
                _ => other,
            }
        } else if len == 3 && b[0] == 0x90 {
            ServiceCommand::SetPenAttributes(pen_attributes_from(b, 1))
        } else if len == 3 && b[0] == 0x92 {
            ServiceCommand::SetPenLocation(
                SetPenLocationArgs { row: b[1] % 16, column: b[2] % 64 },
            )
        } else if len == 4 && b[0] == 0x91 {
            ServiceCommand::SetPenColor(pen_color_from(b, 1))
        } else if len == 5 && b[0] == 0x97 {
            ServiceCommand::SetWindowAttributes(window_attributes_from(b, 1))
        } else if len == 7 && 0x98 <= b[0] && b[0] <= 0x9f {
            ServiceCommand::DefineWindow(define_window_from(b))
        } else {
            other
        }
    }
}

fn bit_value(b: bool) -> (r: u8)
    ensures
        r == bit(b),
{
    if b {
        1
    } else {
        0
    }
}

impl Anchor {
    /// The number of the anchor.
    pub fn number(self) -> (r: u8)
        ensures
            r == anchor_number(self),
    {
        match self {
            Anchor::TopLeft => 0,
            Anchor::TopMiddle => 1,
            Anchor::TopRight => 2,
            Anchor::CenterLeft => 3,
            Anchor::CenterMiddle => 4,
            Anchor::CenterRight => 5,
            Anchor::BottomLeft => 6,
            Anchor::BottomMiddle => 7,
            Anchor::BottomRight => 8,
            Anchor::Undefined(n) => n,
        }
    }
}

fn color_value_to(v: ColorValue) -> (r: u8)
    ensures
        r == color_value_number(v),
        r < 4,
{
    match v {
        ColorValue::Zero => 0,
        ColorValue::OneThird => 1,
        ColorValue::TwoThirds => 2,
        ColorValue::Full => 3,
    }
}

fn color_to(c: Color) -> (r: u8)
    ensures
        r == color_bits(c),
        r < 64,
{
    16 * color_value_to(c.r) + 4 * color_value_to(c.g) + color_value_to(c.b)
}

fn opacity_to(o: Opacity) -> (r: u8)
    ensures
        r == opacity_number(o),
        r < 4,
{
    match o {
        Opacity::Solid => 0,
        Opacity::Flash => 1,
        Opacity::Translucent => 2,
        Opacity::Transparent => 3,
    }
}

impl DefineWindowArgs {
    /// The bytes of the code.
    pub fn to_bytes(&self) -> (r: Vec<u8>)
        ensures
            r@ == define_window_bytes(*self),
            crate::dtvcc::is_control(r@),
    {
        let mut bytes: Vec<u8> = Vec::new();
        bytes.push(0x98 + self.window_id % 8);
        bytes.push(
            self.priority % 8 + 8 * bit_value(self.column_lock) + 16 * bit_value(self.row_lock) + 32
                * bit_value(self.visible),
        );
        bytes.push(self.anchor_vertical % 128 + 128 * bit_value(self.relative_positioning));
        bytes.push(self.anchor_horizontal);
        bytes.push(self.row_count % 16 + 16 * (self.anchor_point.number() % 16));
        bytes.push(self.column_count % 64);
        bytes.push(self.pen_style_id % 8 + 8 * (self.window_style_id % 8));
        assert(bytes@ =~= define_window_bytes(*self));
        bytes
    }
}

impl SetPenAttributesArgs {
    /// The bytes of the code.
    pub fn to_bytes(&self) -> (r: Vec<u8>)
        ensures
            r@ == pen_attributes_bytes(*self),
            crate::dtvcc::is_control(r@),
    {
        let mut bytes: Vec<u8> = Vec::new();
        bytes.push(0x90);
        bytes.push(self.pen_size % 4 + 4 * (self.offset % 4) + 16 * (self.text_tag % 16));
        bytes.push(
            self.font_style % 8 + 8 * (self.edge_type % 8) + 64 * bit_value(self.underline) + 128
                * bit_value(self.italics),
        );
        assert(bytes@ =~= pen_attributes_bytes(*self));
        bytes
    }
}

impl SetPenColorArgs {
    /// The bytes of the code.
    pub fn to_bytes(&self) -> (r: Vec<u8>)
        ensures
            r@ == pen_color_bytes(*self),
            crate::dtvcc::is_control(r@),
    {
        let mut bytes: Vec<u8> = Vec::new();
        bytes.push(0x91);
        bytes.push(64 * opacity_to(self.foreground_opacity) + color_to(self.foreground_color));
        bytes.push(64 * opacity_to(self.background_opacity) + color_to(self.background_color));
        bytes.push(color_to(self.edge_color));
        assert(bytes@ =~= pen_color_bytes(*self));
        bytes
    }
}

impl SetPenLocationArgs {
    /// The bytes of the code.
    pub fn to_bytes(&self) -> (r: Vec<u8>)
        ensures
            r@ == pen_location_bytes(*self),
            crate::dtvcc::is_control(r@),
    {
        let mut bytes: Vec<u8> = Vec::new();
        bytes.push(0x92);
        bytes.push(self.row % 16);
        bytes.push(self.column % 64);
        assert(bytes@ =~= pen_location_bytes(*self));
        bytes
    }
}

proof fn lemma_window_flags(p: int, c: int, r: int, v: int)
    requires
        0 <= p < 8,
        0 <= c < 2,
        0 <= r < 2,
        0 <= v < 2,
    ensures
        ({
            let n = p + 8 * c + 16 * r + 32 * v;
            0 <= n < 64 && n % 8 == p && n / 8 % 2 == c && n / 16 % 2 == r && n / 32 % 2 == v
        }),
{
}

proof fn lemma_two_parts(low: int, high: int, m: int, h: int)
    requires
        0 <= low < m,
        0 <= high < h,
        m == 4 || m == 8 || m == 16 || m == 128,
    ensures
        (low + m * high) % m == low,
        (low + m * high) / m == high,
{
}

proof fn lemma_three_parts(a: int, b: int, c: int)
    requires
        0 <= a < 4,
        0 <= b < 4,
        0 <= c < 16,
    ensures
        ({
            let n = a + 4 * b + 16 * c;
            0 <= n < 256 && n % 4 == a && n / 4 % 4 == b && n / 16 == c
        }),
{
}

proof fn lemma_pen_flags(f: int, e: int, u: int, i: int)
    requires
        0 <= f < 8,
        0 <= e < 8,
        0 <= u < 2,
        0 <= i < 2,
    ensures
        ({
            let n = f + 8 * e + 64 * u + 128 * i;
            0 <= n < 256 && n % 8 == f && n / 8 % 8 == e && n / 64 % 2 == u && (n >= 128 <==> i
                == 1)
        }),
{
}

proof fn lemma_window_byte1(args: DefineWindowArgs)
    requires
        is_window(args),
    ensures
        ({
            let n = define_window_bytes(args)[1];
            n % 8 == args.priority && (n / 8 % 2 == 1 <==> args.column_lock) && (n / 16 % 2 == 1
                <==> args.row_lock) && (n / 32 % 2 == 1 <==> args.visible)
        }),
{
    lemma_window_flags(
        args.priority as int,
        bit(args.column_lock),
        bit(args.row_lock),
        bit(args.visible),
    );
}

proof fn lemma_window_byte2(args: DefineWindowArgs)
    requires
        is_window(args),
    ensures
        ({
            let n = define_window_bytes(args)[2];
            n % 128 == args.anchor_vertical && (n >= 128 <==> args.relative_positioning)
        }),
{
    lemma_two_parts(args.anchor_vertical as int, bit(args.relative_positioning), 128, 2);
}

proof fn lemma_window_byte4(args: DefineWindowArgs)
    requires
        is_window(args),
    ensures
        ({
            let n = define_window_bytes(args)[4];
            n % 16 == args.row_count && n / 16 == anchor_number(args.anchor_point)
        }),
{
    lemma_two_parts(args.row_count as int, anchor_number(args.anchor_point) as int, 16, 16);
}

proof fn lemma_window_byte6(args: DefineWindowArgs)
    requires
        is_window(args),
    ensures
        ({
            let n = define_window_bytes(args)[6];
            n % 8 == args.pen_style_id && n / 8 % 8 == args.window_style_id
        }),
{
    lemma_two_parts(args.pen_style_id as int, args.window_style_id as int, 8, 8);
}

proof fn lemma_window_parts(args: DefineWindowArgs)
    requires
        is_window(args),
    ensures
        define_window_of(define_window_bytes(args)) == args,
{
    lemma_window_byte1(args);
    lemma_window_byte2(args);
    lemma_window_byte4(args);
    lemma_window_byte6(args);
}

/// A window that was written is read back.
#[verifier::spinoff_prover]
pub proof fn law_window_round_trip(args: DefineWindowArgs)
    requires
        is_window(args),
    ensures
        command_of(define_window_bytes(args), None) == ServiceCommand::DefineWindow(args),
{
    let b = define_window_bytes(args);
    assert(command_of(b, None) == ServiceCommand::DefineWindow(define_window_of(b)));
    lemma_window_parts(args);
}

proof fn lemma_pen_byte1(args: SetPenAttributesArgs)
    requires
        is_pen(args),
    ensures
        ({
            let n = pen_attributes_bytes(args)[1];
            n % 4 == args.pen_size && n / 4 % 4 == args.offset && n / 16 == args.text_tag
        }),
{
    lemma_three_parts(args.pen_size as int, args.offset as int, args.text_tag as int);
}

proof fn lemma_pen_byte2(args: SetPenAttributesArgs)
    requires
        is_pen(args),
    ensures
        ({
            let n = pen_attributes_bytes(args)[2];
            n % 8 == args.font_style && n / 8 % 8 == args.edge_type && (n / 64 % 2 == 1
                <==> args.underline) && (n >= 128 <==> args.italics)
        }),
{
    lemma_pen_flags(
        args.font_style as int,
        args.edge_type as int,
        bit(args.underline),
        bit(args.italics),
    );
}

/// Pen attributes that were written are read back.
pub proof fn law_pen_attributes_round_trip(args: SetPenAttributesArgs)
    requires
        is_pen(args),
    ensures
        command_of(pen_attributes_bytes(args), None) == ServiceCommand::SetPenAttributes(args),
{
    let b = pen_attributes_bytes(args);
    assert(b.len() == 3 && b[0] == 0x90);
    assert(command_of(b, None) == ServiceCommand::SetPenAttributes(pen_attributes_of(b, 1)));
    assert(pen_attributes_of(b, 1) == args) by {
        lemma_pen_byte1(args);
        lemma_pen_byte2(args);
    }
}

proof fn lemma_color_round_trip(color: Color, opacity: Opacity)
    ensures
        color_of((64 * opacity_number(opacity) + color_bits(color)) as u8) == color,
        opacity_of((64 * opacity_number(opacity) + color_bits(color)) as u8) == opacity,
        color_of(color_bits(color) as u8) == color,
{
    let n = color_bits(color);
    assert(0 <= n < 64);
    assert(n / 16 == color_value_number(color.r));
    assert(n / 4 % 4 == color_value_number(color.g));
    assert(n % 4 == color_value_number(color.b));
}

/// Pen colors that were written are read back.
pub proof fn law_pen_color_round_trip(args: SetPenColorArgs)
    ensures
        command_of(pen_color_bytes(args), None) == ServiceCommand::SetPenColor(args),
{
    lemma_color_round_trip(args.foreground_color, args.foreground_opacity);
    lemma_color_round_trip(args.background_color, args.background_opacity);
    lemma_color_round_trip(args.edge_color, args.foreground_opacity);
}

/// A pen location that was written is read back.
pub proof fn law_pen_location_round_trip(args: SetPenLocationArgs)
    requires
        args.row < 16,
        args.column < 64,
    ensures
        command_of(pen_location_bytes(args), None) == ServiceCommand::SetPenLocation(args),
{
}

/// The codes for windows stand in a row: to make a window the current one, to clear, show, hide,
/// toggle and delete windows, and to begin anew. Those of text stand among the control characters.
pub proof fn law_codes_have_their_numbers(bits: u8, id: u8, character: Option<char>)
    requires
        id < 8,
    ensures
        command_of(seq![(128 + id) as u8], character) == ServiceCommand::SetCurrentWindow(id),
        command_of(seq![136u8, bits], character) == ServiceCommand::ClearWindows(bits),
        command_of(seq![137u8, bits], character) == ServiceCommand::DisplayWindows(bits),
        command_of(seq![138u8, bits], character) == ServiceCommand::HideWindows(bits),
        command_of(seq![139u8, bits], character) == ServiceCommand::ToggleWindows(bits),
        command_of(seq![140u8, bits], character) == ServiceCommand::DeleteWindows(bits),
        command_of(seq![143u8], character) == ServiceCommand::Reset,
        command_of(seq![3u8], character) == ServiceCommand::EndOfText,
        command_of(seq![8u8], character) == ServiceCommand::Backspace,
        command_of(seq![12u8], character) == ServiceCommand::FormFeed,
        command_of(seq![13u8], character) == ServiceCommand::CarriageReturn,
        command_of(seq![14u8], character) == ServiceCommand::HorizontalCarriageReturn,
{
}

} // verus!
