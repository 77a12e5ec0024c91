//! Parser for the lines of a Scenarist (SCC) file.
use vstd::prelude::*;
use crate::parser_utils::{end_of_line, timecode, TimeCode};
use crate::text::{parse_hex_byte, starts_with};

verus! {

/// A line of an SCC file.
#[derive(Clone, Debug, PartialEq, Eq)]
pub enum SccLine {
    Header,
    Empty,
    Caption(TimeCode, Vec<u8>),
}

/// What a line of an SCC file says.
pub enum SccLineView {
    Header,
    Empty,
    Caption(TimeCode, Seq<u8>),
}

impl View for SccLine {
    type V = SccLineView;

    open spec fn view(&self) -> SccLineView {
        match *self {
            SccLine::Header => SccLineView::Header,
            SccLine::Empty => SccLineView::Empty,
            SccLine::Caption(tc, payload) => SccLineView::Caption(tc, payload@),
        }
    }
}

/// The part of the file that the next line belongs to.
#[derive(Clone, Copy, Debug, PartialEq, Eq, Structural)]
pub enum State {
    Header,
    Empty,
    CaptionOrEmpty,
}

/// The line does not have the form that its place in the file asks for.
#[derive(Clone, Copy, Debug, PartialEq, Eq, Structural)]
pub struct InvalidLine;

/// Parses an SCC file line by line and keeps track of the current part of the file.
#[derive(Debug)]
pub struct SccParser {
    state: State,
}

/// Whether the whole of `s` is an SCC header line.
pub open spec fn is_header(s: Seq<u8>) -> bool {
    let start: int = if crate::text::starts_at(s, 0, seq![0xefu8, 0xbb, 0xbf]) {
        3
    } else {
        0
    };
    let name = crate::text::text("Scenarist_SCC V1.0");
    crate::text::starts_at(s, start, name) && crate::parser_utils::line_end_at(
        s,
        start + name.len(),
    )
}

/// Whether a pair of bytes is written at `at`, as four hexadecimal digits.
pub open spec fn pair_at(s: Seq<u8>, at: int) -> bool {
    crate::text::hex_pair_at(s, at) && crate::text::hex_pair_at(s, at + 2)
}

/// The pair of bytes that is written at `at`.
pub open spec fn pair_bytes(s: Seq<u8>, at: int) -> Seq<u8> {
    seq![crate::text::hex_byte(s, at), crate::text::hex_byte(s, at + 2)]
}

/// Where the payload item at `at` ends, with the space or the end of the line behind it.
pub open spec fn payload_item_end(s: Seq<u8>, at: int) -> Option<int> {
    if !pair_at(s, at) {
        None
    } else if crate::parser_utils::byte_at(s, at + 4, 32) {
        Some(at + 5)
    } else if crate::parser_utils::line_end_at(s, at + 4) {
        Some(s.len() as int)
    } else {
        None
    }
}

/// The bytes of all payload items from `at` on, and where the last of them ends.
pub open spec fn payload_at(s: Seq<u8>, at: int) -> (Seq<u8>, int)
    decreases s.len() - at,
{
    match payload_item_end(s, at) {
        Some(next) => if at < next <= s.len() {
            let (rest, end) = payload_at(s, next);
            (pair_bytes(s, at) + rest, end)
        } else {
            (Seq::empty(), at)
        },
        None => (Seq::empty(), at),
    }
}

/// Where the run of spaces, tabs, `\r` and `\n` that starts at `at` ends.
pub open spec fn spaces_end(s: Seq<u8>, at: int) -> int
    decreases s.len() - at,
{
    if 0 <= at < s.len() && (s[at] == 32 || s[at] == 9 || s[at] == 13 || s[at] == 10) {
        spaces_end(s, at + 1)
    } else {
        at
    }
}

/// The timecode and the payload, where the whole of `s` is a caption line.
pub open spec fn caption_line(s: Seq<u8>) -> Option<(TimeCode, Seq<u8>)> {
    match crate::parser_utils::timecode_at(s, 0) {
        Some((tc, tab)) => if crate::parser_utils::byte_at(s, tab, 9) {
            let start = spaces_end(s, tab + 1);
            let (payload, end) = payload_at(s, start);
            if end > start && crate::parser_utils::line_end_at(s, end) {
                Some((tc, payload))
            } else {
                None
            }
        } else {
            None
        },
        None => None,
    }
}

/// What the line says in the given part of the file.
pub open spec fn line_in_state(state: State, s: Seq<u8>) -> Option<SccLineView> {
    match state {
        State::Header => if is_header(s) {
            Some(SccLineView::Header)
        } else {
            None
        },
        State::Empty => if crate::parser_utils::line_end_at(s, 0) {
            Some(SccLineView::Empty)
        } else {
            None
        },
        State::CaptionOrEmpty => match caption_line(s) {
            Some((tc, payload)) => Some(SccLineView::Caption(tc, payload)),
            None => if crate::parser_utils::line_end_at(s, 0) {
                Some(SccLineView::Empty)
            } else {
                None
            },
        },
    }
}

/// The part of the file that the line behind one that was accepted belongs to.
pub open spec fn next_state(state: State) -> State {
    match state {
        State::Header => State::Empty,
        State::Empty => State::CaptionOrEmpty,
        State::CaptionOrEmpty => State::CaptionOrEmpty,
    }
}

pub proof fn lemma_payload_at(s: Seq<u8>, at: int)
    requires
        0 <= at <= s.len(),
    ensures
        at <= payload_at(s, at).1 <= s.len(),
    decreases s.len() - at,
{
    if let Some(next) = payload_item_end(s, at) {
        lemma_payload_at(s, next);
    }
}

/// Parses the SCC header.
pub fn header(s: &[u8]) -> (r: Option<SccLine>)
    ensures
        r is Some <==> is_header(s@),
        r matches Some(line) ==> line@ == SccLineView::Header,
{
    let bom: [u8; 3] = [0xef, 0xbb, 0xbf];
    assert(bom@ =~= seq![0xefu8, 0xbb, 0xbf]);
    let start: usize = if starts_with(s, 0, &bom) {
        3
    } else {
        0
    };
    let name = "Scenarist_SCC V1.0".as_bytes();
    if starts_with(s, start, name) && end_of_line(s, start + name.len()) {
        Some(SccLine::Header)
    } else {
        None
    }
}

/// Accepts only an empty line.
pub fn empty_line(s: &[u8]) -> (r: Option<SccLine>)
    ensures
        r is Some <==> crate::parser_utils::line_end_at(s@, 0),
        r matches Some(line) ==> line@ == SccLineView::Empty,
{
    if end_of_line(s, 0) {
        Some(SccLine::Empty)
    } else {
        None
    }
}

/// Parses a single SCC payload item. This is ASCII hex encoded bytes.
/// It returns a tuple of `(u8, u8)` of the hex encoded bytes.
pub fn scc_payload_item(s: &[u8], at: usize) -> (r: Option<(u8, u8)>)
    requires
        at <= s@.len(),
    ensures
        r is Some <==> pair_at(s@, at as int),
        r matches Some((a, b)) ==> seq![a, b] == pair_bytes(s@, at as int) && at + 4 <= s@.len()
            && at + 4 <= usize::MAX,
{
    match parse_hex_byte(s, at) {
        Some(a) => match parse_hex_byte(s, at + 2) {
            Some(b) => Some((a, b)),
            None => None,
        },
        None => None,
    }
}

/// Parses the whole SCC payload with conversion to the underlying byte values.
pub fn scc_payload(s: &[u8], at: usize) -> (r: Option<(Vec<u8>, usize)>)
    requires
        at <= s@.len(),
    ensures
        r is Some <==> payload_item_end(s@, at as int) is Some,
        r is Some <==> payload_at(s@, at as int).1 > at,
        r matches Some((bytes, end)) ==> (bytes@, end as int) == payload_at(s@, at as int) && at
            < end <= s@.len(),
{
    let mut out: Vec<u8> = Vec::new();
    let mut i: usize = at;
    let ghost all = payload_at(s@, at as int);
    assert(out@ + all.0 =~= all.0);
    proof {
        lemma_payload_at(s@, at as int);
        if let Some(next) = payload_item_end(s@, at as int) {
            lemma_payload_at(s@, next);
        }
    }
    loop
        invariant
            at <= i <= s@.len(),
            all == payload_at(s@, at as int),
            all == (out@ + payload_at(s@, i as int).0, payload_at(s@, i as int).1),
        ensures
            payload_item_end(s@, i as int) is None,
            all == (out@, i as int),
            at <= i <= s@.len(),
        decreases s@.len() - i,
    {
        let ghost was = out@;
        let next: Option<usize> = match scc_payload_item(s, i) {
            Some((a, b)) => {
                let end: usize = i + 4;
                let next: Option<usize> = if end < s.len() && s[end] == 32 {
                    Some(end + 1)
                } else if end_of_line(s, end) {
                    Some(s.len())
                } else {
                    None
                };
                if next.is_some() {
                    out.push(a);
                    out.push(b);
                    assert(out@ =~= was + pair_bytes(s@, i as int));
                }
                next
            },
            None => None,
        };
        match next {
            Some(n) => {
                proof {
                    let item = pair_bytes(s@, i as int);
                    let rest = payload_at(s@, n as int).0;
                    assert(was + (item + rest) =~= was + item + rest);
                }
                i = n;
            },
            None => {
                assert(out@ + payload_at(s@, i as int).0 =~= out@);
                break ;
            },
        }
    }
    if i == at {
        return None;
    }
    Some((out, i))
}

fn skip_spaces(s: &[u8], at: usize) -> (r: usize)
    requires
        at <= s@.len(),
    ensures
        r == spaces_end(s@, at as int),
        at <= r <= s@.len(),
{
    let mut i: usize = at;
    while i < s.len() && (s[i] == 32 || s[i] == 9 || s[i] == 13 || s[i] == 10)
        invariant
            at <= i <= s@.len(),
            spaces_end(s@, at as int) == spaces_end(s@, i as int),
        decreases s@.len() - i,
    {
        i += 1;
    }
    i
}

/// Parses a SCC caption line in the form `timecode\tpayload`.
pub fn caption(s: &[u8]) -> (r: Option<SccLine>)
    ensures
        r is Some <==> caption_line(s@) is Some,
        r matches Some(line) ==> line@ == SccLineView::Caption(
            (caption_line(s@)->0).0,
            (caption_line(s@)->0).1,
        ),
{
    let (tc, tab) = match timecode(s, 0) {
        Some(v) => v,
        None => return None,
    };
    if !(tab < s.len() && s[tab] == 9) {
        return None;
    }
    let start: usize = skip_spaces(s, tab + 1);
    match scc_payload(s, start) {
        Some((payload, end)) => {
            if end_of_line(s, end) {
                Some(SccLine::Caption(tc, payload))
            } else {
                None
            }
        },
        None => None,
    }
}

impl SccParser {
    /// The part of the file that the next line belongs to.
    pub closed spec fn state(&self) -> State {
        self.state
    }

    /// A parser at the beginning of a file.
    pub fn new() -> (r: Self)
        ensures
            r.state() == State::Header,
    {
        SccParser { state: State::Header }
    }

    /// A parser that expects captions and empty lines.
    pub fn new_scan_captions() -> (r: Self)
        ensures
            r.state() == State::CaptionOrEmpty,
    {
        SccParser { state: State::CaptionOrEmpty }
    }

    /// Goes back to the beginning of a file.
    pub fn reset(&mut self)
        ensures
            final(self).state() == State::Header,
    {
        self.state = State::Header;
    }

    /// Parses one line, which may end in a `\n` or `\r\n`. A line that is refused leaves the
    /// parser where it was.
    pub fn parse_line(&mut self, line: &[u8]) -> (r: Result<SccLine, InvalidLine>)
        ensures
            r is Ok <==> line_in_state(old(self).state(), line@) is Some,
            r matches Ok(v) ==> {
                &&& v@ == line_in_state(old(self).state(), line@)->0
                &&& final(self).state() == next_state(old(self).state())
            },
            r is Err ==> final(self).state() == old(self).state(),
    {
        let found: Option<SccLine> = match self.state {
            State::Header => header(line),
            State::Empty => empty_line(line),
            State::CaptionOrEmpty => match caption(line) {
                Some(v) => Some(v),
                None => empty_line(line),
            },
        };
        match found {
            Some(v) => {
                match self.state {
                    State::Header => self.state = State::Empty,
                    State::Empty => self.state = State::CaptionOrEmpty,
                    State::CaptionOrEmpty => {},
                }
                Ok(v)
            },
            None => Err(InvalidLine),
        }
    }
}

} // verus!
