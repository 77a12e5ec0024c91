//! Caption distribution packets, and text sizes.
use crate::text::{push_chars, push_dec_chars, push_hex2};
use byteorder::ByteOrder;
use vstd::prelude::*;

verus! {

/// How captions come with a video frame.
#[derive(Debug, Clone, Copy, PartialEq, Eq, Structural)]
pub enum CaptionType {
    Cea708Cdp,
    Cea708Raw,
    Cea608S3341a,
    Cea608Raw,
    Other,
}

/// What is wrong with a packet.
#[derive(Debug, Clone, Copy, PartialEq, Eq, Structural)]
pub enum ParseErrorCode {
    WrongLength,
    WrongMagicSequence,
    WrongLayout,
}

/// Why and where a packet could not be parsed.
#[derive(Debug, Clone)]
pub struct ParseError {
    pub code: ParseErrorCode,
    pub byte: usize,
    pub msg: String,
}

/// What a parse error says.
pub struct ParseErrorView {
    pub code: ParseErrorCode,
    pub byte: int,
    pub msg: Seq<char>,
}

impl View for ParseError {
    type V = ParseErrorView;

    open spec fn view(&self) -> ParseErrorView {
        ParseErrorView { code: self.code, byte: self.byte as int, msg: self.msg@ }
    }
}

/// The name of an error code.
pub open spec fn code_name(code: ParseErrorCode) -> Seq<char> {
    match code {
        ParseErrorCode::WrongLength => "WrongLength"@,
        ParseErrorCode::WrongMagicSequence => "WrongMagicSequence"@,
        ParseErrorCode::WrongLayout => "WrongLayout"@,
    }
}

/// The decimal digits of a number, as characters.
pub open spec fn number(n: int) -> Seq<char> {
    crate::text::chars(crate::text::dec_padded(n as nat, 0))
}

impl ParseError {
    fn new(code: ParseErrorCode, byte: usize, msg: String) -> (r: ParseError)
        ensures
            r@ == (ParseErrorView { code, byte: byte as int, msg: msg@ }),
    {
        ParseError { code, byte, msg }
    }

    /// The error as one line of text.
    pub fn to_text(&self) -> (r: String)
        ensures
            r@ == code_name(self.code) + " at byte "@ + number(self.byte as int) + ": "@
                + self.msg@,
    {
        let mut s: String = String::new();
        match self.code {
            ParseErrorCode::WrongLength => s.push_str("WrongLength"),
            ParseErrorCode::WrongMagicSequence => s.push_str("WrongMagicSequence"),
            ParseErrorCode::WrongLayout => s.push_str("WrongLayout"),
        }
        assert(s@ =~= code_name(self.code));
        s.push_str(" at byte ");
        push_dec_chars(&mut s, self.byte as u64, 0);
        s.push_str(": ");
        s.push_str(self.msg.as_str());
        s
    }
}

/// Calls byteorder's `BigEndian::read_u16`. It claims that the result is the number that the first
/// two bytes write, the first byte being the more significant one.
#[verifier::external_body]
pub(crate) fn read_u16(buf: &[u8]) -> (r: u16)
    requires
        buf@.len() >= 2,
    ensures
        r == buf@[0] * 256 + buf@[1],
{
    byteorder::BigEndian::read_u16(buf)
}

/// Whether the flags of a packet say that it holds caption data.
pub open spec fn has_cc_data(data: Seq<u8>) -> bool {
    data[4] as int / 64 % 2 == 1
}

/// Where the caption data section begins: behind a timecode where the flags name one.
pub open spec fn cc_section(data: Seq<u8>) -> int {
    if data[4] >= 128 {
        12
    } else {
        7
    }
}

/// How many bytes of caption data the section names.
pub open spec fn cc_len(data: Seq<u8>) -> int {
    3 * (data[cc_section(data) + 1] as int % 32)
}

/// What is wrong with a caption distribution packet.
pub open spec fn cdp_error(data: Seq<u8>) -> Option<ParseErrorView> {
    let at = cc_section(data);
    if data.len() < 11 {
        Some(
            ParseErrorView {
                code: ParseErrorCode::WrongLength,
                byte: 0,
                msg: "cdp packet too short "@ + number(data.len() as int) + ". expected at least "@
                    + number(11),
            },
        )
    } else if !(data[0] == 0x96 && data[1] == 0x69) {
        Some(
            ParseErrorView {
                code: ParseErrorCode::WrongMagicSequence,
                byte: 0,
                msg: "cdp packet does not have initial magic bytes of 0x9669"@,
            },
        )
    } else if data[2] != data.len() {
        Some(
            ParseErrorView {
                code: ParseErrorCode::WrongLength,
                byte: 2,
                msg: "advertised cdp packet length "@ + number(data[2] as int)
                    + " does not match length of data "@ + number(data.len() as int),
            },
        )
    } else if !has_cc_data(data) {
        None
    } else if data[4] >= 128 && data.len() < 12 {
        Some(
            ParseErrorView {
                code: ParseErrorCode::WrongLength,
                byte: 7,
                msg: "cdp packet signals a timecode but is not large enough to contain a timecode"@,
            },
        )
    } else if data.len() < at + 2 {
        Some(
            ParseErrorView {
                code: ParseErrorCode::WrongLength,
                byte: at,
                msg: "cdp packet signals cc_data but is not large enough to contain cc_data"@,
            },
        )
    } else if data[at] != 0x72 {
        Some(
            ParseErrorView {
                code: ParseErrorCode::WrongMagicSequence,
                byte: at,
                msg: "ccp is missing start code 0x72"@,
            },
        )
    } else if data[at + 1] < 0xe0 {
        Some(
            ParseErrorView {
                code: ParseErrorCode::WrongMagicSequence,
                byte: at + 2,
                msg: "reserved bits are not 0xe0, found "@ + crate::text::chars(
                    crate::text::hex2((data[at + 1] / 32 * 32) as u8, false),
                ),
            },
        )
    } else if cc_len(data) > data.len() - at - 2 {
        Some(
            ParseErrorView {
                code: ParseErrorCode::WrongLength,
                byte: at + 2,
                msg: "cc_data length extends past the end of the cdp packet"@,
            },
        )
    } else {
        None
    }
}

/// The caption data of a packet with which nothing is wrong.
pub open spec fn cdp_cc_data(data: Seq<u8>) -> Seq<u8> {
    if has_cc_data(data) {
        let at = cc_section(data) + 2;
        data.subrange(at, at + cc_len(data))
    } else {
        Seq::empty()
    }
}

fn text_of(s: &str) -> (r: String)
    ensures
        r@ == s@,
{
    let mut r: String = String::new();
    r.push_str(s);
    assert(r@ =~= s@);
    r
}

/// Extracts the caption data from a caption distribution packet.
pub fn extract_cdp(data: &[u8]) -> (r: Result<&[u8], ParseError>)
    ensures
        r is Ok <==> cdp_error(data@) is None,
        r matches Ok(cc) ==> cc@ == cdp_cc_data(data@),
        r matches Err(e) ==> e@ == cdp_error(data@)->0,
{
    let len: usize = data.len();
    if len < 11 {
        let mut msg: String = text_of("cdp packet too short ");
        push_dec_chars(&mut msg, len as u64, 0);
        msg.push_str(". expected at least ");
        push_dec_chars(&mut msg, 11, 0);
        return Err(ParseError::new(ParseErrorCode::WrongLength, 0, msg));
    }
    if read_u16(data) != 0x9669 {
        let msg: String = text_of("cdp packet does not have initial magic bytes of 0x9669");
        return Err(ParseError::new(ParseErrorCode::WrongMagicSequence, 0, msg));
    }
    if data[2] as usize != len {
        let mut msg: String = text_of("advertised cdp packet length ");
        push_dec_chars(&mut msg, data[2] as u64, 0);
        msg.push_str(" does not match length of data ");
        push_dec_chars(&mut msg, len as u64, 0);
        return Err(ParseError::new(ParseErrorCode::WrongLength, 2, msg));
    }
    /* skip framerate value */

    let flags: u8 = data[4];
    if flags / 64 % 2 == 0 {
        /* no cc_data */
        assert(data@.subrange(0, 0) =~= Seq::<u8>::empty());
        return Ok(&data[0..0]);
    }
    /* skip sequence counter */

    /* timecode present? */
    let mut at: usize = 7;
    if flags >= 128 {
        if len - at < 5 {
            let msg: String = text_of(
                "cdp packet signals a timecode but is not large enough to contain a timecode",
            );
            return Err(ParseError::new(ParseErrorCode::WrongLength, at, msg));
        }
        at = 12;
    }
    /* cc_data */

    if len - at < 2 {
        let msg: String = text_of(
            "cdp packet signals cc_data but is not large enough to contain cc_data",
        );
        return Err(ParseError::new(ParseErrorCode::WrongLength, at, msg));
    }
    if data[at] != 0x72 {
        let msg: String = text_of("ccp is missing start code 0x72");
        return Err(ParseError::new(ParseErrorCode::WrongMagicSequence, at, msg));
    }
    let cc_count: u8 = data[at + 1];
    if cc_count < 0xe0 {
        let mut msg: String = text_of("reserved bits are not 0xe0, found ");
        let mut digits: Vec<u8> = Vec::new();
        push_hex2(&mut digits, cc_count / 32 * 32, false);
        assert(digits@ =~= crate::text::hex2((cc_count / 32 * 32) as u8, false));
        push_chars(&mut msg, digits.as_slice());
        return Err(ParseError::new(ParseErrorCode::WrongMagicSequence, at + 2, msg));
    }
    let cc_len: usize = 3 * (cc_count % 32) as usize;
    if cc_len > len - at - 2 {
        let msg: String = text_of("cc_data length extends past the end of the cdp packet");
        return Err(ParseError::new(ParseErrorCode::WrongLength, at + 2, msg));
    }
    // the checksum is not looked at

    Ok(&data[at + 2..at + 2 + cc_len])
}

/// How many text layout units a pixel has.
pub const LAYOUT_SCALE: i32 = 1024;

/// What to do after the sample text was measured in some font size.
#[derive(Debug, Clone, Copy, PartialEq, Eq, Structural)]
pub enum FontStep {
    /// The text fits: measure it in the given size.
    Measure(i32),
    /// The text does not fit: use the given size.
    Use(i32),
}

/// Whether a text of the given extents, in layout units, fits in the video.
pub open spec fn text_fits(width: i32, height: i32, video_width: u32, video_height: u32) -> bool {
    width <= video_width * LAYOUT_SCALE && height <= video_height * LAYOUT_SCALE
}

/// Decides on the font size from the extents of a text of 32 by 15 characters: the largest one
/// in which the text fits is searched for from 1 on.
pub fn font_step(font_size: i32, width: i32, height: i32, video_width: u32, video_height: u32) -> (r:
    FontStep)
    requires
        1 <= font_size < i32::MAX / LAYOUT_SCALE,
        video_width <= i32::MAX / LAYOUT_SCALE,
        video_height <= i32::MAX / LAYOUT_SCALE,
    ensures
        r == if text_fits(width, height, video_width, video_height) {
            FontStep::Measure((font_size + 1) as i32)
        } else {
            FontStep::Use((font_size - 1) as i32)
        },
{
    if width > video_width as i32 * LAYOUT_SCALE || height > video_height as i32 * LAYOUT_SCALE {
        FontStep::Use(font_size - 1)
    } else {
        FontStep::Measure(font_size + 1)
    }
}

/// The size in pixels of what has the given extents in layout units.
pub fn layout_size(width: i32, height: i32) -> (r: (i32, i32))
    requires
        0 <= width,
        0 <= height,
    ensures
        r.0 == width / LAYOUT_SCALE,
        r.1 == height / LAYOUT_SCALE,
{
    (width / LAYOUT_SCALE, height / LAYOUT_SCALE)
}

} // verus!
