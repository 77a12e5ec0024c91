//! Parsers that the caption file formats share.
//!
//! Each takes the input and the place where it begins, and returns the value with the place
//! behind it, or nothing where the input does not match.
use vstd::prelude::*;

verus! {

/// A timecode as it is written in a caption file.
#[derive(Clone, Copy, Debug, PartialEq, Eq, Structural)]
pub struct TimeCode {
    pub hours: u32,
    pub minutes: u32,
    pub seconds: u32,
    pub frames: u32,
    pub drop_frame: bool,
}

/// The number that the run of decimal digits at `at` writes. There has to be a digit, and the
/// number has to fit.
pub open spec fn digits_at(s: Seq<u8>, at: int) -> Option<(u32, int)> {
    let end = crate::text::digits_end(s, at);
    let value = crate::text::decimal(s, at, end);
    if end > at && value <= u32::MAX {
        Some((value as u32, end))
    } else {
        None
    }
}

/// A number at `at` that lies in `min..end`.
pub open spec fn digits_range_at(s: Seq<u8>, at: int, min: u32, end: u32) -> Option<(u32, int)> {
    match digits_at(s, at) {
        Some((value, next)) => if min <= value < end {
            Some((value, next))
        } else {
            None
        },
        None => None,
    }
}

/// Whether `s` holds `b` at `at`.
pub open spec fn byte_at(s: Seq<u8>, at: int, b: u8) -> bool {
    at < s.len() && s[at] == b
}

/// The bytes that may stand between the seconds and the frames: `:`, `.`, `;` and `,`.
pub open spec fn is_frame_separator(b: u8) -> bool {
    b == 58 || b == 46 || b == 59 || b == 44
}

/// A timecode in the form `hh:mm:ss:ff` at `at`.
///
/// Minutes and seconds lie under 60. A `;` or `,` before the frames marks drop frame.
pub open spec fn timecode_at(s: Seq<u8>, at: int) -> Option<(TimeCode, int)> {
    match digits_at(s, at) {
        Some((hours, h)) if byte_at(s, h, 58) => match digits_range_at(s, h + 1, 0, 60) {
            Some((minutes, m)) if byte_at(s, m, 58) => match digits_range_at(s, m + 1, 0, 60) {
                Some((seconds, p)) if p < s.len() && is_frame_separator(s[p]) => match digits_at(
                    s,
                    p + 1,
                ) {
                    Some((frames, next)) => Some(
                        (
                            (TimeCode {
                                hours,
                                minutes,
                                seconds,
                                frames,
                                drop_frame: s[p] == 59 || s[p] == 44,
                            }),
                            next,
                        ),
                    ),
                    None => None,
                },
                _ => None,
            },
            _ => None,
        },
        _ => None,
    }
}

/// Whether nothing but an optional `\n` or `\r\n` stands in `s` from `at` on.
pub open spec fn line_end_at(s: Seq<u8>, at: int) -> bool {
    ||| at == s.len()
    ||| at + 1 == s.len() && s[at] == 10
    ||| at + 2 == s.len() && s[at] == 13 && s[at + 1] == 10
}

/// Whether bytes are one line: they end with a line feed and hold no other.
pub open spec fn is_one_line(s: Seq<u8>) -> bool {
    &&& s.len() > 0
    &&& s.last() == 10
    &&& forall|i: int| 0 <= i < s.len() - 1 ==> #[trigger] s[i] != 10
}

pub proof fn lemma_digits_at(s: Seq<u8>, at: int)
    requires
        0 <= at <= s.len(),
    ensures
        digits_at(s, at) matches Some((_, next)) ==> at < next <= s.len(),
{
    crate::text::lemma_digits_end(s, at);
}

/// Parses a run of ASCII decimal digits and converts it into a `u32`.
pub fn digits(s: &[u8], at: usize) -> (r: Option<(u32, usize)>)
    requires
        at <= s@.len(),
    ensures
        r is Some <==> digits_at(s@, at as int) is Some,
        r matches Some((value, next)) ==> digits_at(s@, at as int) == Some((value, next as int))
            && at < next <= s@.len(),
{
    let ghost end = crate::text::digits_end(s@, at as int);
    proof {
        crate::text::lemma_digits_end(s@, at as int);
    }
    let mut i: usize = at;
    let mut value: u32 = 0;
    while i < s.len() && 48 <= s[i] && s[i] <= 57
        invariant
            0 <= at <= i <= end <= s@.len(),
            end == crate::text::digits_end(s@, at as int),
            forall|j: int| at <= j < end ==> crate::text::is_digit(#[trigger] s@[j]),
            value == crate::text::decimal(s@, at as int, i as int),
        decreases s@.len() - i,
    {
        proof {
            crate::text::lemma_digits_end_from(s@, at as int, i as int);
            crate::text::lemma_digits_end(s@, i + 1);
            crate::text::lemma_decimal_grows(s@, at as int, i + 1, end);
        }
        let d: u32 = (s[i] - 48) as u32;
        if value > (u32::MAX - d) / 10 {
            assert(value * 10 + d > u32::MAX);
            return None;
        }
        value = value * 10 + d;
        i += 1;
    }
    proof {
        crate::text::lemma_digits_end_from(s@, at as int, i as int);
    }
    if i == at {
        return None;
    }
    Some((value, i))
}

/// Parses a run of decimal digits whose value lies in `min..end`.
pub fn digits_range(s: &[u8], at: usize, min: u32, end: u32) -> (r: Option<(u32, usize)>)
    requires
        at <= s@.len(),
    ensures
        r is Some <==> digits_range_at(s@, at as int, min, end) is Some,
        r matches Some((value, next)) ==> digits_range_at(s@, at as int, min, end) == Some(
            (value, next as int),
        ) && at < next <= s@.len(),
{
    match digits(s, at) {
        Some((value, next)) => if min <= value && value < end {
            Some((value, next))
        } else {
            None
        },
        None => None,
    }
}

/// Parses a timecode in the form `hh:mm:ss:ff`.
pub fn timecode(s: &[u8], at: usize) -> (r: Option<(TimeCode, usize)>)
    requires
        at <= s@.len(),
    ensures
        r is Some <==> timecode_at(s@, at as int) is Some,
        r matches Some((value, next)) ==> timecode_at(s@, at as int) == Some((value, next as int))
            && at < next <= s@.len(),
{
    let (hours, h) = match digits(s, at) {
        Some(v) => v,
        None => return None,
    };
    if !(h < s.len() && s[h] == 58) {
        return None;
    }
    let (minutes, m) = match digits_range(s, h + 1, 0, 60) {
        Some(v) => v,
        None => return None,
    };
    if !(m < s.len() && s[m] == 58) {
        return None;
    }
    let (seconds, p) = match digits_range(s, m + 1, 0, 60) {
        Some(v) => v,
        None => return None,
    };
    if p >= s.len() {
        return None;
    }
    let sep: u8 = s[p];
    if !(sep == 58 || sep == 46 || sep == 59 || sep == 44) {
        return None;
    }
    match digits(s, p + 1) {
        Some((frames, next)) => {
            let drop_frame: bool = sep == 59 || sep == 44;
            Some((TimeCode { hours, minutes, seconds, frames, drop_frame }, next))
        },
        None => None,
    }
}

/// Checks for the end of the input, with an optional `\n` or `\r\n` before it.
pub fn end_of_line(s: &[u8], at: usize) -> (r: bool)
    requires
        at <= s@.len(),
    ensures
        r == line_end_at(s@, at as int),
{
    let rest: usize = s.len() - at;
    if rest == 0 {
        true
    } else if rest == 1 {
        s[at] == 10
    } else if rest == 2 {
        s[at] == 13 && s[at + 1] == 10
    } else {
        false
    }
}

proof fn lemma_digits_end_prefix(t: Seq<u8>, rest: Seq<u8>, at: int)
    requires
        0 <= at <= t.len(),
        rest.len() > 0 ==> !crate::text::is_digit(rest[0]),
    ensures
        crate::text::digits_end(t + rest, at) == crate::text::digits_end(t, at),
    decreases t.len() - at,
{
    if at < t.len() {
        assert((t + rest)[at] == t[at]);
        if crate::text::is_digit(t[at]) {
            lemma_digits_end_prefix(t, rest, at + 1);
        }
    } else if rest.len() > 0 {
        assert((t + rest)[at] == rest[0]);
    }
}

proof fn lemma_digits_at_prefix(t: Seq<u8>, rest: Seq<u8>, at: int)
    requires
        0 <= at <= t.len(),
        rest.len() > 0 ==> !crate::text::is_digit(rest[0]),
    ensures
        digits_at(t + rest, at) == digits_at(t, at),
{
    lemma_digits_end_prefix(t, rest, at);
    crate::text::lemma_digits_end(t, at);
    let n = crate::text::digits_end(t, at) - at;
    crate::text::lemma_decimal_same(t + rest, t, at, at, n);
}

/// A timecode ends where no digit follows, whatever else does.
pub proof fn lemma_timecode_prefix(t: Seq<u8>, rest: Seq<u8>)
    requires
        timecode_at(t, 0) matches Some((_, n)) && n == t.len(),
        rest.len() > 0 ==> !crate::text::is_digit(rest[0]),
    ensures
        timecode_at(t + rest, 0) == timecode_at(t, 0),
{
    let s = t + rest;
    lemma_digits_at_prefix(t, rest, 0);
    lemma_digits_at(t, 0);
    let (_, h) = digits_at(t, 0)->0;
    assert(s[h] == t[h]);
    lemma_digits_at_prefix(t, rest, h + 1);
    lemma_digits_at(t, h + 1);
    let (_, m) = digits_at(t, h + 1)->0;
    assert(s[m] == t[m]);
    lemma_digits_at_prefix(t, rest, m + 1);
    lemma_digits_at(t, m + 1);
    let (_, p) = digits_at(t, m + 1)->0;
    assert(s[p] == t[p]);
    lemma_digits_at_prefix(t, rest, p + 1);
}

proof fn lemma_run_of_digits(s: Seq<u8>, at: int)
    requires
        0 <= at <= s.len(),
        digits_at(s, at) is Some,
    ensures
        at < (digits_at(s, at)->0).1 <= s.len(),
        forall|i: int|
            at <= i < (digits_at(s, at)->0).1 ==> #[trigger] s[i] != 10,
{
    crate::text::lemma_digits_end(s, at);
    assert forall|i: int| at <= i < (digits_at(s, at)->0).1 implies #[trigger] s[i]
        != 10 by {
        assert(crate::text::is_digit(s[i]));
    }
}

/// The text of a timecode holds no line feed.
pub proof fn lemma_timecode_text(tc: Seq<u8>)
    requires
        timecode_at(tc, 0) matches Some((_, n)) && n == tc.len(),
    ensures
        forall|i: int| 0 <= i < tc.len() ==> #[trigger] tc[i] != 10,
{
    lemma_run_of_digits(tc, 0);
    let (_, h) = digits_at(tc, 0)->0;
    lemma_run_of_digits(tc, h + 1);
    let (_, m) = digits_at(tc, h + 1)->0;
    lemma_run_of_digits(tc, m + 1);
    let (_, p) = digits_at(tc, m + 1)->0;
    lemma_run_of_digits(tc, p + 1);
}

} // verus!
