//! Arithmetic on times and rates.
use vstd::prelude::*;

verus! {

/// A second in nanoseconds.
pub const SECOND: u64 = 1_000_000_000;

/// The quotient `val * num / denom`, rounded down.
pub open spec fn scaled_floor(val: int, num: int, denom: int) -> int {
    val * num / denom
}

/// The quotient `val * num / denom`, rounded to the nearest integer, halves up.
pub open spec fn scaled_round(val: int, num: int, denom: int) -> int {
    (val * num + denom / 2) / denom
}

/// The quotient `val * num / denom`, rounded up.
pub open spec fn scaled_ceil(val: int, num: int, denom: int) -> int {
    (val * num + denom - 1) / denom
}

/// The value where it fits.
pub open spec fn fits(v: int) -> Option<u64> {
    if v <= u64::MAX {
        Some(v as u64)
    } else {
        None
    }
}

fn product(val: u64, num: u64) -> (r: u128)
    ensures
        r == val * num,
        r <= 0xffff_ffff_ffff_fffe_0000_0000_0000_0001,
{
    assert(val as u128 * num as u128 <= 0xffff_ffff_ffff_fffe_0000_0000_0000_0001)
        by (nonlinear_arith)
        requires
            val <= 0xffff_ffff_ffff_ffff,
            num <= 0xffff_ffff_ffff_ffff,
    ;
    val as u128 * num as u128
}

fn narrow(v: u128) -> (r: Option<u64>)
    ensures
        r == fits(v as int),
{
    if v > u64::MAX as u128 {
        None
    } else {
        Some(v as u64)
    }
}

/// Calculates `val * num / denom` rounded down. There is no result where it does not fit.
pub fn mul_div_floor(val: u64, num: u64, denom: u64) -> (r: Option<u64>)
    requires
        denom > 0,
    ensures
        r == fits(scaled_floor(val as int, num as int, denom as int)),
{
    narrow(product(val, num) / denom as u128)
}

/// Calculates `val * num / denom` rounded to the nearest integer. There is no result where it
/// does not fit.
pub fn mul_div_round(val: u64, num: u64, denom: u64) -> (r: Option<u64>)
    requires
        denom > 0,
    ensures
        r == fits(scaled_round(val as int, num as int, denom as int)),
{
    narrow((product(val, num) + (denom / 2) as u128) / denom as u128)
}

/// Calculates `val * num / denom` rounded up. There is no result where it does not fit.
pub fn mul_div_ceil(val: u64, num: u64, denom: u64) -> (r: Option<u64>)
    requires
        denom > 0,
    ensures
        r == fits(scaled_ceil(val as int, num as int, denom as int)),
{
    narrow((product(val, num) + (denom - 1) as u128) / denom as u128)
}

/// Why an element cannot go on.
#[derive(Clone, Copy, Debug, PartialEq, Eq, Structural)]
pub enum FlowError {
    /// The data or the state does not allow it.
    Error,
    /// The format was not agreed on.
    NotNegotiated,
    /// The end of the stream was reached.
    Eos,
    /// More data is needed first.
    NeedData,
}

/// How many frames there are in a second, as a quotient.
#[derive(Clone, Copy, Debug, PartialEq, Eq, Structural)]
pub struct Framerate {
    pub numer: u32,
    pub denom: u32,
}

impl Framerate {
    /// How long a frame lasts in nanoseconds, rounded to the nearest one.
    pub open spec fn frame_time(&self) -> int {
        scaled_round(SECOND as int, self.denom as int, self.numer as int)
    }

    /// How long a frame lasts in nanoseconds.
    pub fn frame_duration(&self) -> (r: u64)
        requires
            self.numer > 0,
        ensures
            r == self.frame_time(),
            r <= 0x4000_0000_0000_0000,
    {
        let ghost v = SECOND * self.denom as int + self.numer as int / 2;
        let ghost n = self.numer as int;
        assert(0 <= v <= 0x4000_0000_0000_0000);
        assert(0 <= v / n <= v) by (nonlinear_arith)
            requires
                v >= 0,
                n > 0,
        ;
        match mul_div_round(SECOND, self.denom as u64, self.numer as u64) {
            Some(d) => d,
            None => {
                assert(false);
                0
            },
        }
    }
}

/// The part of a stream that is played.
#[derive(Clone, Copy, Debug, PartialEq, Eq, Structural)]
pub struct Segment {
    pub start: Option<u64>,
    pub stop: Option<u64>,
}

/// How many milliseconds a time is, rounded down.
pub open spec fn millis(time: int) -> int {
    time / 1_000_000
}

/// A time in hours, minutes, seconds and milliseconds, rounded down.
pub open spec fn time_parts(time: int) -> (int, int, int, int) {
    let ms = millis(time);
    (ms / 3_600_000, ms / 60_000 % 60, ms / 1000 % 60, ms % 1000)
}

/// A time as text, with the given sign before the milliseconds.
pub open spec fn time_text(time: int, point: char) -> Seq<char> {
    let (h, m, s, ms) = time_parts(time);
    (crate::text::chars(crate::text::dec_padded(h as nat, 2)).push(':') + crate::text::chars(
        crate::text::dec_padded(m as nat, 2),
    ).push(':') + crate::text::chars(crate::text::dec_padded(s as nat, 2)).push(point))
        + crate::text::chars(crate::text::dec_padded(ms as nat, 3))
}

/// Splits a time into hours, minutes, seconds and milliseconds.
pub fn split_time(time: u64) -> (r: (u64, u8, u8, u16))
    ensures
        (r.0 as int, r.1 as int, r.2 as int, r.3 as int) == time_parts(time as int),
{
    let s: u64 = time / 1_000_000_000;
    let m: u64 = s / 60;
    let h: u64 = m / 60;
    let ns: u64 = time % 1_000_000_000;
    (h, (m % 60) as u8, (s % 60) as u8, (ns / 1_000_000) as u16)
}

/// Times of the same millisecond have the same parts, and no others do.
pub proof fn lemma_time_parts(a: int, b: int)
    ensures
        time_parts(a) == time_parts(b) <==> millis(a) == millis(b),
{
    let ms = millis(a);
    let (h, m, s, f) = time_parts(a);
    assert(ms == h * 3_600_000 + m * 60_000 + s * 1000 + f);
    let ms2 = millis(b);
    let (h2, m2, s2, f2) = time_parts(b);
    assert(ms2 == h2 * 3_600_000 + m2 * 60_000 + s2 * 1000 + f2);
}

/// Appends a time as text.
pub fn push_time(out: &mut String, time: u64, point: char)
    ensures
        final(out)@ == old(out)@ + time_text(time as int, point),
{
    let (h, m, s, ms) = split_time(time);
    crate::text::push_dec_chars(out, h, 2);
    out.push(':');
    crate::text::push_dec_chars(out, m as u64, 2);
    out.push(':');
    crate::text::push_dec_chars(out, s as u64, 2);
    out.push(point);
    crate::text::push_dec_chars(out, ms as u64, 3);
    assert(out@ =~= old(out)@ + time_text(time as int, point));
}

proof fn lemma_two_digits(n: nat)
    requires
        n < 100,
    ensures
        crate::text::dec_padded(n, 2) == seq![(48 + n / 10) as u8, (48 + n % 10) as u8],
{
    reveal_with_fuel(crate::text::dec, 3);
    assert(crate::text::dec_padded(n, 2) =~= seq![(48 + n / 10) as u8, (48 + n % 10) as u8]);
}

proof fn lemma_three_digits(n: nat)
    requires
        n < 1000,
    ensures
        crate::text::dec_padded(n, 3) == seq![
            (48 + n / 100) as u8,
            (48 + n / 10 % 10) as u8,
            (48 + n % 10) as u8,
        ],
{
    reveal_with_fuel(crate::text::dec, 4);
    assert(n / 10 / 10 == n / 100);
    assert(crate::text::dec_padded(n, 3) =~= seq![
        (48 + n / 100) as u8,
        (48 + n / 10 % 10) as u8,
        (48 + n % 10) as u8,
    ]);
}

/// The number that a digit stands for.
pub open spec fn digit(c: char) -> int {
    c as int - 48
}

/// A time as text reads back as its milliseconds: two digits for hours, minutes and seconds each,
/// with colons between them, and three digits behind the sign.
pub proof fn law_time_reads_back(time: int, point: char)
    requires
        0 <= time < 360_000 * SECOND,
    ensures
        ({
            let t = time_text(time, point);
            let hours = 10 * digit(t[0]) + digit(t[1]);
            let minutes = 10 * digit(t[3]) + digit(t[4]);
            let seconds = 10 * digit(t[6]) + digit(t[7]);
            let rest = 100 * digit(t[9]) + 10 * digit(t[10]) + digit(t[11]);
            &&& t.len() == 12
            &&& t[2] == ':' && t[5] == ':' && t[8] == point
            &&& 0 <= minutes < 60
            &&& 0 <= seconds < 60
            &&& 0 <= rest < 1000
            &&& ((hours * 60 + minutes) * 60 + seconds) * 1000 + rest == time / 1_000_000
        }),
{
    let (h, m, s, ms) = time_parts(time);
    let all = millis(time);
    assert(all == h * 3_600_000 + m * 60_000 + s * 1000 + ms);
    lemma_two_digits(h as nat);
    lemma_two_digits(m as nat);
    lemma_two_digits(s as nat);
    lemma_three_digits(ms as nat);
}

/// The frame duration is the time of a frame, to half a nanosecond.
pub proof fn law_frame_time_is_rounded(rate: Framerate)
    requires
        rate.numer > 0,
    ensures
        2 * (rate.frame_time() * rate.numer - SECOND * rate.denom) <= rate.numer,
        2 * (SECOND * rate.denom - rate.frame_time() * rate.numer) <= rate.numer,
{
    let n = rate.numer as int;
    let v = SECOND as int * rate.denom as int + n / 2;
    vstd::arithmetic::div_mod::lemma_fundamental_div_mod(v, n);
    vstd::arithmetic::mul::lemma_mul_is_commutative(n, v / n);
}

} // verus!
