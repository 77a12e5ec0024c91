//! Parser for the lines of a MacCaption (MCC) file.
use vstd::prelude::*;
use crate::parser_utils::{digits, digits_range, end_of_line, timecode, TimeCode};
use crate::text::{parse_hex_byte, starts_with};

verus! {

/// A line of an MCC file.
#[derive(Clone, Debug, PartialEq, Eq)]
pub enum MccLine<'a> {
    Header,
    Comment,
    Empty,
    Uuid(&'a [u8]),
    Metadata(&'a [u8], &'a [u8]),
    TimeCodeRate(u8, bool),
    Caption(TimeCode, Option<Vec<u8>>),
}

/// What a line of an MCC file says.
pub enum MccLineView {
    Header,
    Comment,
    Empty,
    Uuid(Seq<u8>),
    Metadata(Seq<u8>, Seq<u8>),
    TimeCodeRate(u8, bool),
    Caption(TimeCode, Option<Seq<u8>>),
}

impl<'a> View for MccLine<'a> {
    type V = MccLineView;

    open spec fn view(&self) -> MccLineView {
        match *self {
            MccLine::Header => MccLineView::Header,
            MccLine::Comment => MccLineView::Comment,
            MccLine::Empty => MccLineView::Empty,
            MccLine::Uuid(uuid) => MccLineView::Uuid(uuid@),
            MccLine::Metadata(name, value) => MccLineView::Metadata(name@, value@),
            MccLine::TimeCodeRate(rate, df) => MccLineView::TimeCodeRate(rate, df),
            MccLine::Caption(tc, Some(payload)) => MccLineView::Caption(tc, Some(payload@)),
            MccLine::Caption(tc, None) => MccLineView::Caption(tc, None),
        }
    }
}

/// The part of the file that the next line belongs to.
#[derive(Clone, Copy, Debug, PartialEq, Eq, Structural)]
pub enum State {
    Header,
    EmptyAfterHeader,
    Comments,
    Metadata,
    Captions,
}

/// The line does not have the form that its place in the file asks for.
#[derive(Clone, Copy, Debug, PartialEq, Eq, Structural)]
pub struct InvalidLine;

/// Parses an MCC file line by line and keeps track of the current part of the file.
#[derive(Debug)]
pub struct MccParser {
    state: State,
}

/// Where the run of bytes other than `b` that starts at `at` ends.
pub open spec fn run_until(s: Seq<u8>, at: int, b: u8) -> int
    decreases s.len() - at,
{
    if 0 <= at < s.len() && s[at] != b {
        run_until(s, at + 1, b)
    } else {
        at
    }
}

/// Where the line that `at` lies in ends: at its `\n` or `\r`, or at the end of the input.
pub open spec fn run_until_newline(s: Seq<u8>, at: int) -> int
    decreases s.len() - at,
{
    if 0 <= at < s.len() && s[at] != 10 && s[at] != 13 {
        run_until_newline(s, at + 1)
    } else {
        at
    }
}

/// The three bytes of an invalid, empty caption triplet, `n` times.
pub open spec fn empty_triplets(n: nat) -> Seq<u8>
    decreases n,
{
    if n == 0 {
        Seq::empty()
    } else {
        empty_triplets((n - 1) as nat) + seq![0xfau8, 0x00, 0x00]
    }
}

/// The bytes that a single-letter short-cut stands for.
pub open spec fn shortcut(letter: u8) -> Option<Seq<u8>> {
    if 71 <= letter <= 79 {
        // G to O
        Some(empty_triplets((letter - 70) as nat))
    } else if letter == 80 {
        Some(seq![0xfbu8, 0x80, 0x80])
    } else if letter == 81 {
        Some(seq![0xfcu8, 0x80, 0x80])
    } else if letter == 82 {
        Some(seq![0xfdu8, 0x80, 0x80])
    } else if letter == 83 {
        Some(seq![0x96u8, 0x69])
    } else if letter == 84 {
        Some(seq![0x61u8, 0x01])
    } else if letter == 85 {
        Some(seq![0xe1u8, 0x00, 0x00, 0x00])
    } else if letter == 90 {
        Some(seq![0x00u8])
    } else {
        None
    }
}

/// The bytes that the payload item at `at` stands for, and where it ends. An item is a
/// single-letter short-cut or two hexadecimal digits.
pub open spec fn payload_item_at(s: Seq<u8>, at: int) -> Option<(Seq<u8>, int)> {
    if at >= s.len() {
        None
    } else if shortcut(s[at]) is Some {
        Some((shortcut(s[at])->0, at + 1))
    } else if crate::text::hex_pair_at(s, at) {
        Some((seq![crate::text::hex_byte(s, at)], at + 2))
    } else {
        None
    }
}

/// The bytes that all payload items from `at` on stand for, and where the last of them ends.
pub open spec fn payload_at(s: Seq<u8>, at: int) -> (Seq<u8>, int)
    decreases s.len() - at,
{
    match payload_item_at(s, at) {
        Some((bytes, next)) => if next > at {
            let (rest, end) = payload_at(s, next);
            (bytes + rest, end)
        } else {
            (Seq::empty(), at)
        },
        None => (Seq::empty(), at),
    }
}

/// Whether the whole of `s` is an MCC header line.
pub open spec fn is_header(s: Seq<u8>) -> bool {
    let start: int = if crate::text::starts_at(s, 0, seq![0xefu8, 0xbb, 0xbf]) {
        3
    } else {
        0
    };
    let name = crate::text::text("File Format=MacCaption_MCC V");
    &&& crate::text::starts_at(s, start, name)
    &&& {
        let at = start + name.len() as int;
        let v1 = crate::text::text("1.0");
        let v2 = crate::text::text("2.0");
        if crate::text::starts_at(s, at, v1) {
            crate::parser_utils::line_end_at(s, at + v1.len())
        } else {
            crate::text::starts_at(s, at, v2) && crate::parser_utils::line_end_at(s, at + v2.len())
        }
    }
}

/// Whether `s` is a comment.
pub open spec fn is_comment(s: Seq<u8>) -> bool {
    crate::text::starts_at(s, 0, crate::text::text("//"))
}

/// The UUID, where the whole of `s` is a UUID line.
pub open spec fn uuid_line(s: Seq<u8>) -> Option<Seq<u8>> {
    let name = crate::text::text("UUID=");
    let end = run_until_newline(s, name.len() as int);
    if crate::text::starts_at(s, 0, name) && end > name.len() && crate::parser_utils::line_end_at(
        s,
        end,
    ) {
        Some(s.subrange(name.len() as int, end))
    } else {
        None
    }
}

/// The rate and whether it is a drop frame rate, where the whole of `s` is a rate line.
pub open spec fn time_code_rate_line(s: Seq<u8>) -> Option<(u8, bool)> {
    let name = crate::text::text("Time Code Rate=");
    let df = crate::text::text("DF");
    if crate::text::starts_at(s, 0, name) {
        match crate::parser_utils::digits_range_at(s, name.len() as int, 1, 256) {
            Some((rate, next)) => {
                let has_df = crate::text::starts_at(s, next, df);
                let end = if has_df {
                    next + df.len()
                } else {
                    next
                };
                if crate::parser_utils::line_end_at(s, end) {
                    Some((rate as u8, has_df))
                } else {
                    None
                }
            },
            None => None,
        }
    } else {
        None
    }
}

/// The name and the value, where the whole of `s` is a `name=value` line.
pub open spec fn metadata_line(s: Seq<u8>) -> Option<(Seq<u8>, Seq<u8>)> {
    let eq = run_until(s, 0, 61);
    let end = run_until_newline(s, eq + 1);
    if 0 < eq < s.len() && end > eq + 1 && crate::parser_utils::line_end_at(s, end) {
        Some((s.subrange(0, eq), s.subrange(eq + 1, end)))
    } else {
        None
    }
}

/// Where the optional field and alignment behind a timecode end: `.0` or `.1`, and an optional
/// number behind a comma.
pub open spec fn field_end(s: Seq<u8>, at: int) -> int {
    if crate::parser_utils::byte_at(s, at, 46) && at + 1 < s.len() && (s[at + 1] == 48 || s[at + 1]
        == 49) {
        if crate::parser_utils::byte_at(s, at + 2, 44) {
            match crate::parser_utils::digits_at(s, at + 3) {
                Some((_, next)) => next,
                None => at + 2,
            }
        } else {
            at + 2
        }
    } else {
        at
    }
}

/// The timecode and, where it is asked for, the payload, where the whole of `s` is a caption
/// line.
pub open spec fn caption_line(s: Seq<u8>, parse_payload: bool) -> Option<
    (TimeCode, Option<Seq<u8>>),
> {
    match crate::parser_utils::timecode_at(s, 0) {
        Some((tc, next)) => {
            let tab = field_end(s, next);
            if !crate::parser_utils::byte_at(s, tab, 9) {
                None
            } else if parse_payload {
                let (payload, end) = payload_at(s, tab + 1);
                if end > tab + 1 && crate::parser_utils::line_end_at(s, end) {
                    Some((tc, Some(payload)))
                } else {
                    None
                }
            } else if crate::parser_utils::line_end_at(s, run_until_newline(s, tab + 1)) {
                Some((tc, None))
            } else {
                None
            }
        },
        None => None,
    }
}

/// What the line says in the given part of the file.
#[verifier::opaque]
pub open spec fn line_in_state(state: State, s: Seq<u8>, parse_payload: bool) -> Option<
    MccLineView,
> {
    match state {
        State::Header => if is_header(s) {
            Some(MccLineView::Header)
        } else {
            None
        },
        State::EmptyAfterHeader => if crate::parser_utils::line_end_at(s, 0) {
            Some(MccLineView::Empty)
        } else {
            None
        },
        State::Comments => if crate::parser_utils::line_end_at(s, 0) {
            Some(MccLineView::Empty)
        } else if is_comment(s) {
            Some(MccLineView::Comment)
        } else {
            None
        },
        State::Metadata => if crate::parser_utils::line_end_at(s, 0) {
            Some(MccLineView::Empty)
        } else if let Some(uuid) = uuid_line(s) {
            Some(MccLineView::Uuid(uuid))
        } else if let Some((rate, df)) = time_code_rate_line(s) {
            Some(MccLineView::TimeCodeRate(rate, df))
        } else if let Some((name, value)) = metadata_line(s) {
            Some(MccLineView::Metadata(name, value))
        } else {
            None
        },
        State::Captions => match caption_line(s, parse_payload) {
            Some((tc, payload)) => Some(MccLineView::Caption(tc, payload)),
            None => None,
        },
    }
}

/// The part of the file that the line behind `line` belongs to.
pub open spec fn next_state(state: State, line: MccLineView) -> State {
    match state {
        State::Header => State::EmptyAfterHeader,
        State::EmptyAfterHeader => State::Comments,
        State::Comments => if line is Empty {
            State::Metadata
        } else {
            State::Comments
        },
        State::Metadata => if line is Empty {
            State::Captions
        } else {
            State::Metadata
        },
        State::Captions => State::Captions,
    }
}

pub proof fn lemma_payload_at(s: Seq<u8>, at: int)
    requires
        0 <= at <= s.len(),
    ensures
        at <= payload_at(s, at).1 <= s.len(),
    decreases s.len() - at,
{
    if let Some((_, next)) = payload_item_at(s, at) {
        lemma_payload_at(s, next);
    }
}

fn skip_until(s: &[u8], at: usize, b: u8) -> (r: usize)
    requires
        at <= s@.len(),
    ensures
        r == run_until(s@, at as int, b),
        at <= r <= s@.len(),
{
    let mut i: usize = at;
    while i < s.len() && s[i] != b
        invariant
            at <= i <= s@.len(),
            run_until(s@, at as int, b) == run_until(s@, i as int, b),
        decreases s@.len() - i,
    {
        i += 1;
    }
    i
}

fn skip_until_newline(s: &[u8], at: usize) -> (r: usize)
    requires
        at <= s@.len(),
    ensures
        r == run_until_newline(s@, at as int),
        at <= r <= s@.len(),
{
    let mut i: usize = at;
    while i < s.len() && s[i] != 10 && s[i] != 13
        invariant
            at <= i <= s@.len(),
            run_until_newline(s@, at as int) == run_until_newline(s@, i as int),
        decreases s@.len() - i,
    {
        i += 1;
    }
    i
}

/// Parses the MCC header.
pub fn header<'a>(s: &'a [u8]) -> (r: Option<MccLine<'a>>)
    ensures
        r is Some <==> is_header(s@),
        r matches Some(line) ==> line@ == MccLineView::Header,
{
    let bom: [u8; 3] = [0xef, 0xbb, 0xbf];
    assert(bom@ =~= seq![0xefu8, 0xbb, 0xbf]);
    let start: usize = if starts_with(s, 0, &bom) {
        3
    } else {
        0
    };
    let name = "File Format=MacCaption_MCC V".as_bytes();
    if !starts_with(s, start, name) {
        return None;
    }
    let at: usize = start + name.len();
    let v1 = "1.0".as_bytes();
    let v2 = "2.0".as_bytes();
    if starts_with(s, at, v1) {
        if end_of_line(s, at + v1.len()) {
            return Some(MccLine::Header);
        }
        return None;
    }
    if starts_with(s, at, v2) && end_of_line(s, at + v2.len()) {
        Some(MccLine::Header)
    } else {
        None
    }
}

/// Parses an MCC comment, i.e. a line starting with `//`. We don't return the actual comment
/// text as it's irrelevant for us.
pub fn comment<'a>(s: &'a [u8]) -> (r: Option<MccLine<'a>>)
    ensures
        r is Some <==> is_comment(s@),
        r matches Some(line) ==> line@ == MccLineView::Comment,
{
    if starts_with(s, 0, "//".as_bytes()) {
        Some(MccLine::Comment)
    } else {
        None
    }
}

/// Parses the MCC UUID line.
pub fn uuid<'a>(s: &'a [u8]) -> (r: Option<MccLine<'a>>)
    ensures
        r is Some <==> uuid_line(s@) is Some,
        r matches Some(line) ==> line@ == MccLineView::Uuid(uuid_line(s@)->0),
{
    let name = "UUID=".as_bytes();
    if !starts_with(s, 0, name) {
        return None;
    }
    let end: usize = skip_until_newline(s, name.len());
    if end == name.len() || !end_of_line(s, end) {
        return None;
    }
    Some(MccLine::Uuid(&s[name.len()..end]))
}

/// Parses the MCC Time Code Rate line.
pub fn time_code_rate<'a>(s: &'a [u8]) -> (r: Option<MccLine<'a>>)
    ensures
        r is Some <==> time_code_rate_line(s@) is Some,
        r matches Some(line) ==> line@ == MccLineView::TimeCodeRate(
            (time_code_rate_line(s@)->0).0,
            (time_code_rate_line(s@)->0).1,
        ),
{
    let name = "Time Code Rate=".as_bytes();
    if !starts_with(s, 0, name) {
        return None;
    }
    match digits_range(s, name.len(), 1, 256) {
        Some((rate, next)) => {
            let df = "DF".as_bytes();
            let has_df: bool = starts_with(s, next, df);
            let end: usize = if has_df {
                next + df.len()
            } else {
                next
            };
            if end_of_line(s, end) {
                Some(MccLine::TimeCodeRate(rate as u8, has_df))
            } else {
                None
            }
        },
        None => None,
    }
}

/// Parses generic MCC metadata lines in the form `key=value`.
pub fn metadata<'a>(s: &'a [u8]) -> (r: Option<MccLine<'a>>)
    ensures
        r is Some <==> metadata_line(s@) is Some,
        r matches Some(line) ==> line@ == MccLineView::Metadata(
            (metadata_line(s@)->0).0,
            (metadata_line(s@)->0).1,
        ),
{
    let eq: usize = skip_until(s, 0, 61);
    if eq == 0 || eq >= s.len() {
        return None;
    }
    let end: usize = skip_until_newline(s, eq + 1);
    if end == eq + 1 || !end_of_line(s, end) {
        return None;
    }
    Some(MccLine::Metadata(&s[0..eq], &s[eq + 1..end]))
}

/// Accepts only an empty line.
pub fn empty_line<'a>(s: &'a [u8]) -> (r: Option<MccLine<'a>>)
    ensures
        r is Some <==> crate::parser_utils::line_end_at(s@, 0),
        r matches Some(line) ==> line@ == MccLineView::Empty,
{
    if end_of_line(s, 0) {
        Some(MccLine::Empty)
    } else {
        None
    }
}

fn push_empty_triplets(out: &mut Vec<u8>, n: usize)
    ensures
        final(out)@ == old(out)@ + empty_triplets(n as nat),
{
    let mut i: usize = 0;
    assert(out@ + empty_triplets(0) =~= out@);
    while i < n
        invariant
            i <= n,
            out@ == old(out)@ + empty_triplets(i as nat),
        decreases n - i,
    {
        out.push(0xfa);
        out.push(0x00);
        out.push(0x00);
        i += 1;
        assert(out@ =~= old(out)@ + empty_triplets(i as nat));
    }
}

fn push3(out: &mut Vec<u8>, a: u8, b: u8, c: u8)
    ensures
        final(out)@ == old(out)@ + seq![a, b, c],
{
    out.push(a);
    out.push(b);
    out.push(c);
    assert(out@ =~= old(out)@ + seq![a, b, c]);
}

/// Parses a single MCC payload item and appends the bytes that it stands for. This is ASCII hex
/// encoded bytes plus some single-character short-cuts for common byte sequences.
///
/// Returns where the item ends.
pub fn mcc_payload_item(s: &[u8], at: usize, out: &mut Vec<u8>) -> (r: Option<usize>)
    requires
        at <= s@.len(),
    ensures
        r is Some <==> payload_item_at(s@, at as int) is Some,
        r matches Some(next) ==> {
            &&& (payload_item_at(s@, at as int)->0).1 == next
            &&& at < next <= s@.len()
            &&& final(out)@ == old(out)@ + (payload_item_at(s@, at as int)->0).0
        },
        r is None ==> final(out)@ == old(out)@,
{
    if at >= s.len() {
        return None;
    }
    let letter: u8 = s[at];
    if 71 <= letter && letter <= 79 {
        push_empty_triplets(out, (letter - 70) as usize);
    } else if letter == 80 {
        push3(out, 0xfb, 0x80, 0x80);
    } else if letter == 81 {
        push3(out, 0xfc, 0x80, 0x80);
    } else if letter == 82 {
        push3(out, 0xfd, 0x80, 0x80);
    } else if letter == 83 {
        out.push(0x96);
        out.push(0x69);
        assert(out@ =~= old(out)@ + seq![0x96u8, 0x69]);
    } else if letter == 84 {
        out.push(0x61);
        out.push(0x01);
        assert(out@ =~= old(out)@ + seq![0x61u8, 0x01]);
    } else if letter == 85 {
        push3(out, 0xe1, 0x00, 0x00);
        out.push(0x00);
        assert(out@ =~= old(out)@ + seq![0xe1u8, 0x00, 0x00, 0x00]);
    } else if letter == 90 {
        out.push(0x00);
        assert(out@ =~= old(out)@ + seq![0x00u8]);
    } else {
        return match parse_hex_byte(s, at) {
            Some(v) => {
                out.push(v);
                assert(out@ =~= old(out)@ + seq![v]);
                Some(at + 2)
            },
            None => None,
        };
    }
    Some(at + 1)
}

/// Parses the whole MCC payload with conversion to the underlying byte values.
pub fn mcc_payload(s: &[u8], at: usize) -> (r: Option<(Vec<u8>, usize)>)
    requires
        at <= s@.len(),
    ensures
        r is Some <==> payload_item_at(s@, at as int) is Some,
        r is Some <==> payload_at(s@, at as int).1 > at,
        r matches Some((bytes, end)) ==> (bytes@, end as int) == payload_at(s@, at as int) && at
            < end <= s@.len(),
{
    let mut out: Vec<u8> = Vec::new();
    let mut i: usize = at;
    let ghost all = payload_at(s@, at as int);
    assert(out@ + all.0 =~= all.0);
    proof {
        lemma_payload_at(s@, at as int);
        if let Some((_, next)) = payload_item_at(s@, at as int) {
            lemma_payload_at(s@, next);
        }
    }
    loop
        invariant
            at <= i <= s@.len(),
            all == payload_at(s@, at as int),
            all == (out@ + payload_at(s@, i as int).0, payload_at(s@, i as int).1),
        ensures
            payload_item_at(s@, i as int) is None,
            all == (out@, i as int),
            at <= i <= s@.len(),
        decreases s@.len() - i,
    {
        let ghost was = out@;
        match mcc_payload_item(s, i, &mut out) {
            Some(next) => {
                proof {
                    let item = (payload_item_at(s@, i as int)->0).0;
                    let rest = payload_at(s@, next as int).0;
                    assert(was + (item + rest) =~= was + item + rest);
                }
                i = next;
            },
            None => {
                assert(out@ + payload_at(s@, i as int).0 =~= out@);
                break ;
            },
        }
    }
    if i == at {
        return None;
    }
    Some((out, i))
}

/// Parses a MCC caption line in the form `timecode\tpayload`.
pub fn caption<'a>(s: &'a [u8], parse_payload: bool) -> (r: Option<MccLine<'a>>)
    ensures
        r is Some <==> caption_line(s@, parse_payload) is Some,
        r matches Some(line) ==> line@ == MccLineView::Caption(
            (caption_line(s@, parse_payload)->0).0,
            (caption_line(s@, parse_payload)->0).1,
        ),
{
    let (tc, next) = match timecode(s, 0) {
        Some(v) => v,
        None => return None,
    };
    let mut tab: usize = next;
    if next < s.len() && s[next] == 46 && next + 1 < s.len() && (s[next + 1] == 48 || s[next + 1]
        == 49) {
        tab = next + 2;
        if tab < s.len() && s[tab] == 44 {
            if let Some((_, end)) = digits(s, tab + 1) {
                tab = end;
            }
        }
    }
    assert(tab == field_end(s@, next as int));
    if !(tab < s.len() && s[tab] == 9) {
        return None;
    }
    if parse_payload {
        match mcc_payload(s, tab + 1) {
            Some((payload, end)) => {
                if end_of_line(s, end) {
                    Some(MccLine::Caption(tc, Some(payload)))
                } else {
                    None
                }
            },
            None => None,
        }
    } else {
        let end: usize = skip_until_newline(s, tab + 1);
        if end_of_line(s, end) {
            Some(MccLine::Caption(tc, None))
        } else {
            None
        }
    }
}

impl MccParser {
    /// The part of the file that the next line belongs to.
    pub closed spec fn state(&self) -> State {
        self.state
    }

    /// A parser at the beginning of a file.
    pub fn new() -> (r: Self)
        ensures
            r.state() == State::Header,
    {
        MccParser { state: State::Header }
    }

    /// A parser that expects nothing but captions.
    pub fn new_scan_captions() -> (r: Self)
        ensures
            r.state() == State::Captions,
    {
        MccParser { state: State::Captions }
    }

    /// Goes back to the beginning of a file.
    pub fn reset(&mut self)
        ensures
            final(self).state() == State::Header,
    {
        self.state = State::Header;
    }

    /// Parses one line, which may end in a `\n` or `\r\n`. A line that is refused leaves the
    /// parser where it was.
    pub fn parse_line<'a>(&mut self, line: &'a [u8], parse_payload: bool) -> (r: Result<
        MccLine<'a>,
        InvalidLine,
    >)
        ensures
            r is Ok <==> line_in_state(old(self).state(), line@, parse_payload) is Some,
            r matches Ok(v) ==> {
                &&& v@ == line_in_state(old(self).state(), line@, parse_payload)->0
                &&& final(self).state() == next_state(old(self).state(), v@)
            },
            r is Err ==> final(self).state() == old(self).state(),
    {
        reveal(line_in_state);
        let found: Option<MccLine<'a>> = match self.state {
            State::Header => header(line),
            State::EmptyAfterHeader => empty_line(line),
            State::Comments => match empty_line(line) {
                Some(v) => Some(v),
                None => comment(line),
            },
            State::Metadata => match empty_line(line) {
                Some(v) => Some(v),
                None => match uuid(line) {
                    Some(v) => Some(v),
                    None => match time_code_rate(line) {
                        Some(v) => Some(v),
                        None => metadata(line),
                    },
                },
            },
            State::Captions => caption(line, parse_payload),
        };
        let v: MccLine<'a> = match found {
            Some(v) => v,
            None => return Err(InvalidLine),
        };
        let empty: bool = match v {
            MccLine::Empty => true,
            _ => false,
        };
        match self.state {
            State::Header => self.state = State::EmptyAfterHeader,
            State::EmptyAfterHeader => self.state = State::Comments,
            State::Comments => if empty {
                self.state = State::Metadata;
            },
            State::Metadata => if empty {
                self.state = State::Captions;
            },
            State::Captions => {},
        }
        Ok(v)
    }
}

} // verus!
