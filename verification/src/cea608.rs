//! CEA-608 codes.
use vstd::prelude::*;

verus! {

#[verifier::external_type_specification]
#[verifier::external_body]
pub struct ExCea608State(cea608_types::Cea608State);

#[verifier::external_type_specification]
#[verifier::external_body]
pub struct ExCea608(cea608_types::Cea608);

/// The last row of the screen.
pub const MAX_ROW: usize = 14;

/// The last column of the screen.
pub const MAX_COLUMN: usize = 31;

/// The two channels of a field.
#[derive(Clone, Copy, Debug, PartialEq, Eq, Structural)]
pub enum Channel {
    One,
    Two,
}

/// The two fields of a frame.
#[derive(Clone, Copy, Debug, PartialEq, Eq, Structural)]
pub enum Field {
    One,
    Two,
}

/// The four caption streams.
#[derive(Clone, Copy, Debug, PartialEq, Eq, Structural)]
pub enum Id {
    CC1,
    CC2,
    CC3,
    CC4,
}

/// The colors of text.
#[derive(Clone, Copy, Debug, PartialEq, Eq, Structural)]
pub enum Color {
    White,
    Green,
    Blue,
    Cyan,
    Red,
    Yellow,
    Magenta,
}

/// How captions come on screen.
#[derive(Clone, Copy, Debug, PartialEq, Eq, PartialOrd, Ord, Hash, Structural)]
pub enum Cea608Mode {
    PopOn,
    PaintOn,
    RollUp2,
    RollUp3,
    RollUp4,
}

/// What a preamble says beside the row.
#[derive(Clone, Copy, Debug, PartialEq, Eq, Structural)]
pub enum PreambleType {
    Color(Color),
    WhiteItalics,
    Indent(u8),
}

/// Where text begins and how it looks.
#[derive(Clone, Copy, Debug, PartialEq, Eq, Structural)]
pub struct PreambleAddressCode {
    pub row: u8,
    pub underline: bool,
    pub code: PreambleType,
}

/// How text looks from here on. Without a color it is in italics.
#[derive(Clone, Copy, Debug, PartialEq, Eq, Structural)]
pub struct MidRow {
    pub color: Option<Color>,
    pub underline: bool,
}

/// Text, which may take the place of the character before it.
#[derive(Clone, Copy, Debug, PartialEq, Eq, Structural)]
pub struct Text {
    pub needs_backspace: bool,
    pub char1: Option<char>,
    pub char2: Option<char>,
}

/// What is to be done.
#[derive(Clone, Copy, Debug, PartialEq, Eq, Structural)]
pub enum CaptionCommand {
    Text(Text),
    NewMode(Cea608Mode),
    EraseDisplay,
    EraseNonDisplay,
    CarriageReturn,
    Backspace,
    EndOfCaption,
    TabOffset(u8),
    DeleteToEndOfRow,
    Preamble(PreambleAddressCode),
    MidRowChange(MidRow),
}

/// What is to be done on a channel.
#[derive(Clone, Copy, Debug, PartialEq, Eq, Structural)]
pub struct CaptionCode {
    pub channel: Channel,
    pub command: CaptionCommand,
}

/// A byte does not have odd parity.
#[derive(Clone, Copy, Debug, PartialEq, Eq, Structural)]
pub struct InvalidParity;

/// What a decoder remembers.
pub struct DecoderView {
    pub last_data: Option<(u8, u8)>,
    pub last_channel: Option<Channel>,
    pub last_field: Option<Field>,
}

/// What a decoder remembers.
pub uninterp spec fn decoder_view(state: cea608_types::Cea608State) -> DecoderView;

/// What a code says.
pub uninterp spec fn code_of(code: cea608_types::Cea608) -> CaptionCode;

/// What a pair of bytes says to a decoder. A control code that comes twice in a row counts once.
pub uninterp spec fn decoded(view: DecoderView, byte0: u8, byte1: u8) -> Option<CaptionCode>;

/// What a decoder remembers once it has seen a pair of bytes.
pub uninterp spec fn after_pair(view: DecoderView, byte0: u8, byte1: u8) -> DecoderView;

/// What a new decoder remembers.
pub open spec fn empty_decoder() -> DecoderView {
    DecoderView { last_data: None, last_channel: None, last_field: None }
}

/// Whether an odd number of bits is set.
pub open spec fn odd_parity(b: u8) -> bool {
    crate::st2038anc_utils::ones(b as nat) % 2 == 1
}

/// Whether a pair of bytes is the control code that a decoder has just seen. It then counts no more.
pub open spec fn is_repeated(view: DecoderView, byte0: u8, byte1: u8) -> bool {
    view.last_data == Some((byte0, byte1)) && 0x10 <= byte0 % 128 <= 0x1f
}

/// Whether a preamble lies on screen.
pub open spec fn is_preamble(p: PreambleAddressCode) -> bool {
    &&& p.row <= MAX_ROW
    &&& p.code matches PreambleType::Indent(n) ==> n <= 28 && n % 4 == 0
}

/// Whether a command is within its bounds.
pub open spec fn is_command(c: CaptionCommand) -> bool {
    match c {
        CaptionCommand::Preamble(p) => is_preamble(p),
        CaptionCommand::TabOffset(n) => 1 <= n <= 3,
        _ => true,
    }
}

/// The number of a channel.
pub open spec fn channel_id(c: Channel) -> u8 {
    match c {
        Channel::One => 1,
        Channel::Two => 2,
    }
}

/// The place of a color among the colors.
pub open spec fn color_number(c: Color) -> u8 {
    match c {
        Color::White => 0,
        Color::Green => 1,
        Color::Blue => 2,
        Color::Cyan => 3,
        Color::Red => 4,
        Color::Yellow => 5,
        Color::Magenta => 6,
    }
}

/// The place of a mode among the modes.
pub open spec fn mode_number(m: Cea608Mode) -> u8 {
    match m {
        Cea608Mode::PopOn => 0,
        Cea608Mode::PaintOn => 1,
        Cea608Mode::RollUp2 => 2,
        Cea608Mode::RollUp3 => 3,
        Cea608Mode::RollUp4 => 4,
    }
}

impl Cea608Mode {
    /// Whether lines roll up.
    pub open spec fn rolls_up(&self) -> bool {
        self is RollUp2 || self is RollUp3 || self is RollUp4
    }

    /// How many rows roll up.
    pub open spec fn rows(&self) -> int {
        match self {
            Cea608Mode::RollUp2 => 2,
            Cea608Mode::RollUp3 => 3,
            Cea608Mode::RollUp4 => 4,
            _ => 0,
        }
    }

    /// Whether lines roll up.
    pub fn is_rollup(&self) -> (r: bool)
        ensures
            r == self.rolls_up(),
    {
        matches!(self, Cea608Mode::RollUp2 | Cea608Mode::RollUp3 | Cea608Mode::RollUp4)
    }

    /// How many rows roll up, if they do.
    pub fn rollup_rows(&self) -> (r: Option<u8>)
        ensures
            r == if self.rolls_up() {
                Some(self.rows() as u8)
            } else {
                None
            },
    {
        match self {
            Cea608Mode::RollUp2 => Some(2),
            Cea608Mode::RollUp3 => Some(3),
            Cea608Mode::RollUp4 => Some(4),
            _ => None,
        }
    }
}

impl PreambleAddressCode {
    /// The column where text begins.
    pub open spec fn at_column(&self) -> u8 {
        match self.code {
            PreambleType::Indent(n) => n,
            _ => 0,
        }
    }

    /// The color of text.
    pub open spec fn in_color(&self) -> Color {
        match self.code {
            PreambleType::Color(c) => c,
            _ => Color::White,
        }
    }

    /// The column where text begins.
    pub fn column(&self) -> (r: u8)
        ensures
            r == self.at_column(),
    {
        match self.code {
            PreambleType::Indent(n) => n,
            _ => 0,
        }
    }

    /// The color of text.
    pub fn color(&self) -> (r: Color)
        ensures
            r == self.in_color(),
    {
        match self.code {
            PreambleType::Color(c) => c,
            _ => Color::White,
        }
    }

    /// Whether text is in italics.
    pub fn italics(&self) -> (r: bool)
        ensures
            r == (self.code == PreambleType::WhiteItalics),
    {
        matches!(self.code, PreambleType::WhiteItalics)
    }
}

impl MidRow {
    /// Whether text is in italics.
    pub fn italics(&self) -> (r: bool)
        ensures
            r == (self.color is None),
    {
        self.color.is_none()
    }
}

impl Id {
    /// The field of a stream.
    pub open spec fn in_field(&self) -> Field {
        if self is CC1 || self is CC2 {
            Field::One
        } else {
            Field::Two
        }
    }

    /// The channel of a stream.
    pub open spec fn in_channel(&self) -> Channel {
        if self is CC1 || self is CC3 {
            Channel::One
        } else {
            Channel::Two
        }
    }

    /// The field of a stream.
    pub fn field(&self) -> (r: Field)
        ensures
            r == self.in_field(),
    {
        match self {
            Id::CC1 => Field::One,
            Id::CC2 => Field::One,
            _ => Field::Two,
        }
    }

    /// The channel of a stream.
    pub fn channel(&self) -> (r: Channel)
        ensures
            r == self.in_channel(),
    {
        match self {
            Id::CC1 => Channel::One,
            Id::CC3 => Channel::One,
            _ => Channel::Two,
        }
    }

    /// The stream in a field and channel.
    pub fn from_caption_field_channel(field: Field, channel: Channel) -> (r: Id)
        ensures
            r.in_field() == field,
            r.in_channel() == channel,
    {
        match (field, channel) {
            (Field::One, Channel::One) => Id::CC1,
            (Field::One, Channel::Two) => Id::CC2,
            (Field::Two, Channel::One) => Id::CC3,
            (Field::Two, Channel::Two) => Id::CC4,
        }
    }

    /// The stream with the given number.
    pub fn from_value(value: i8) -> (r: Id)
        requires
            1 <= value <= 4,
        ensures
            r == if value == 1 {
                Id::CC1
            } else if value == 2 {
                Id::CC2
            } else if value == 3 {
                Id::CC3
            } else {
                Id::CC4
            },
    {
        match value {
            1 => Id::CC1,
            2 => Id::CC2,
            3 => Id::CC3,
            _ => Id::CC4,
        }
    }
}

/// `Cea608State::default` of `cea608_types`: a decoder that has seen nothing.
#[verifier::external_body]
pub(crate) fn new_decoder() -> (r: cea608_types::Cea608State)
    ensures
        decoder_view(r) == empty_decoder(),
{
    cea608_types::Cea608State::default()
}

/// `Cea608State::reset` of `cea608_types`: the decoder is as a new one.
#[verifier::external_body]
pub(crate) fn reset_decoder(state: &mut cea608_types::Cea608State)
    ensures
        decoder_view(*final(state)) == empty_decoder(),
{
    state.reset();
}

/// `Cea608State::decode` of `cea608_types`: what a pair of bytes says, if it says anything. Bytes
/// without odd parity change nothing. A control code that comes again says nothing, and is new when
/// it comes once more.
#[verifier::external_body]
fn decode_pair(state: &mut cea608_types::Cea608State, byte0: u8, byte1: u8) -> (r: Result<
    Option<cea608_types::Cea608>,
    InvalidParity,
>)
    ensures
        r is Err <==> !odd_parity(byte0) || !odd_parity(byte1),
        r is Err ==> decoder_view(*final(state)) == decoder_view(*old(state)),
        r is Ok ==> decoder_view(*final(state)) == after_pair(
            decoder_view(*old(state)),
            byte0,
            byte1,
        ),
        r matches Ok(None) ==> decoded(decoder_view(*old(state)), byte0, byte1) is None,
        r matches Ok(Some(code)) ==> decoded(decoder_view(*old(state)), byte0, byte1) == Some(
            code_of(code),
        ) && is_command(code_of(code).command),
        r is Ok && is_repeated(decoder_view(*old(state)), byte0, byte1) ==> r->Ok_0 is None,
        r is Ok ==> decoder_view(*final(state)).last_data == if is_repeated(
            decoder_view(*old(state)),
            byte0,
            byte1,
        ) {
            None
        } else {
            Some((byte0, byte1))
        },
{
    state.decode([byte0, byte1]).map_err(|_| InvalidParity)
}

/// `Cea608::channel` of `cea608_types`, by its number.
#[verifier::external_body]
fn channel_of_code(code: &cea608_types::Cea608) -> (r: u8)
    ensures
        r == channel_id(code_of(*code).channel),
{
    code.channel().id()
}

/// The `Cea608` of `cea608_types` that are made of no more than a number.
#[verifier::external_body]
fn simple_command(code: &cea608_types::Cea608) -> (r: Option<CaptionCommand>)
    ensures
        r == (match code_of(*code).command {
            CaptionCommand::Text(_) => None,
            CaptionCommand::NewMode(_) => None,
            CaptionCommand::Preamble(_) => None,
            CaptionCommand::MidRowChange(_) => None,
            c => Some(c),
        }),
{
    match code {
        cea608_types::Cea608::EraseDisplay(_) => Some(CaptionCommand::EraseDisplay),
        cea608_types::Cea608::EraseNonDisplay(_) => Some(CaptionCommand::EraseNonDisplay),
        cea608_types::Cea608::CarriageReturn(_) => Some(CaptionCommand::CarriageReturn),
        cea608_types::Cea608::Backspace(_) => Some(CaptionCommand::Backspace),
        cea608_types::Cea608::EndOfCaption(_) => Some(CaptionCommand::EndOfCaption),
        cea608_types::Cea608::TabOffset(_, n) => Some(CaptionCommand::TabOffset(*n)),
        cea608_types::Cea608::DeleteToEndOfRow(_) => Some(CaptionCommand::DeleteToEndOfRow),
        _ => None,
    }
}

/// The `Cea608::Text` of `cea608_types`, field for field.
#[verifier::external_body]
fn text_command(code: &cea608_types::Cea608) -> (r: Option<Text>)
    ensures
        r == (match code_of(*code).command {
            CaptionCommand::Text(t) => Some(t),
            _ => None,
        }),
{
    match code {
        cea608_types::Cea608::Text(t) => Some(
            Text { needs_backspace: t.needs_backspace, char1: t.char1, char2: t.char2 },
        ),
        _ => None,
    }
}

/// The `Cea608::NewMode` of `cea608_types`, by the place of the mode among the modes.
#[verifier::external_body]
fn mode_command(code: &cea608_types::Cea608) -> (r: Option<u8>)
    ensures
        r == (match code_of(*code).command {
            CaptionCommand::NewMode(m) => Some(mode_number(m)),
            _ => None,
        }),
{
    match code {
        cea608_types::Cea608::NewMode(_, mode) => Some(*mode as u8),
        _ => None,
    }
}

/// The parts of a preamble: the row, whether it is underlined and in italics, the indentation if
/// it has one, and the place of the color among the colors.
#[derive(Clone, Copy, Debug, PartialEq, Eq, Structural)]
struct PreambleParts {
    row: u8,
    underline: bool,
    italics: bool,
    indent: Option<u8>,
    color: u8,
}

spec fn preamble_parts(p: PreambleAddressCode) -> PreambleParts {
    PreambleParts {
        row: p.row,
        underline: p.underline,
        italics: p.code is WhiteItalics,
        indent: match p.code {
            PreambleType::Indent(n) => Some(n),
            _ => None,
        },
        color: color_number(p.in_color()),
    }
}

/// The `Cea608::Preamble` of `cea608_types`, by what its methods say.
#[verifier::external_body]
fn preamble_command(code: &cea608_types::Cea608) -> (r: Option<PreambleParts>)
    ensures
        r == (match code_of(*code).command {
            CaptionCommand::Preamble(p) => Some(preamble_parts(p)),
            _ => None,
        }),
{
    match code {
        cea608_types::Cea608::Preamble(_, p) => Some(
            PreambleParts {
                row: p.row(),
                underline: p.underline(),
                italics: p.italics(),
                indent: p.code().indent(),
                color: p.color() as u8,
            },
        ),
        _ => None,
    }
}

/// The `Cea608::MidRowChange` of `cea608_types`: whether it is underlined, and the place of the
/// color among the colors, if it has one.
#[verifier::external_body]
fn midrow_command(code: &cea608_types::Cea608) -> (r: Option<(bool, Option<u8>)>)
    ensures
        r == (match code_of(*code).command {
            CaptionCommand::MidRowChange(m) => Some(
                (
                    m.underline,
                    match m.color {
                        Some(c) => Some(color_number(c)),
                        None => None,
                    },
                ),
            ),
            _ => None,
        }),
{
    match code {
        cea608_types::Cea608::MidRowChange(_, m) => Some(
            (m.underline(), m.color().map(|c| c as u8)),
        ),
        _ => None,
    }
}

fn color_at(number: u8) -> (r: Color)
    ensures
        number < 7 ==> color_number(r) == number,
{
    match number {
        0 => Color::White,
        1 => Color::Green,
        2 => Color::Blue,
        3 => Color::Cyan,
        4 => Color::Red,
        5 => Color::Yellow,
        _ => Color::Magenta,
    }
}

fn mode_at(number: u8) -> (r: Cea608Mode)
    ensures
        number < 5 ==> mode_number(r) == number,
{
    match number {
        0 => Cea608Mode::PopOn,
        1 => Cea608Mode::PaintOn,
        2 => Cea608Mode::RollUp2,
        3 => Cea608Mode::RollUp3,
        _ => Cea608Mode::RollUp4,
    }
}

fn convert(code: &cea608_types::Cea608) -> (r: CaptionCode)
    ensures
        r == code_of(*code),
{
    let channel: Channel = if channel_of_code(code) == 1 {
        Channel::One
    } else {
        Channel::Two
    };
    let command: CaptionCommand = if let Some(c) = simple_command(code) {
        c
    } else if let Some(t) = text_command(code) {
        CaptionCommand::Text(t)
    } else if let Some(n) = mode_command(code) {
        CaptionCommand::NewMode(mode_at(n))
    } else if let Some(p) = preamble_command(code) {
        let kind: PreambleType = match p.indent {
            Some(n) => PreambleType::Indent(n),
            None => if p.italics {
                PreambleType::WhiteItalics
            } else {
                PreambleType::Color(color_at(p.color))
            },
        };
        CaptionCommand::Preamble(
            PreambleAddressCode { row: p.row, underline: p.underline, code: kind },
        )
    } else if let Some((underline, color)) = midrow_command(code) {
        let color: Option<Color> = match color {
            Some(n) => Some(color_at(n)),
            None => None,
        };
        CaptionCommand::MidRowChange(MidRow { color, underline })
    } else {
        assert(false);
        CaptionCommand::Backspace
    };
    CaptionCode { channel, command }
}

/// What a pair of bytes says, if it says anything.
pub(crate) fn decode(state: &mut cea608_types::Cea608State, byte0: u8, byte1: u8) -> (r: Result<
    Option<CaptionCode>,
    InvalidParity,
>)
    ensures
        r == if odd_parity(byte0) && odd_parity(byte1) {
            Ok(decoded(decoder_view(*old(state)), byte0, byte1))
        } else {
            Err(InvalidParity)
        },
        r matches Ok(Some(code)) ==> is_command(code.command),
        decoder_view(*final(state)) == if r is Ok {
            after_pair(decoder_view(*old(state)), byte0, byte1)
        } else {
            decoder_view(*old(state))
        },
        r is Ok && is_repeated(decoder_view(*old(state)), byte0, byte1) ==> r->Ok_0 is None,
        r is Ok ==> decoder_view(*final(state)).last_data == if is_repeated(
            decoder_view(*old(state)),
            byte0,
            byte1,
        ) {
            None
        } else {
            Some((byte0, byte1))
        },
{
    match decode_pair(state, byte0, byte1) {
        Ok(Some(code)) => Ok(Some(convert(&code))),
        Ok(None) => Ok(None),
        Err(e) => Err(e),
    }
}

} // verus!
