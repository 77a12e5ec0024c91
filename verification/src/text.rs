//! ASCII text as bytes: matching, decimal and hexadecimal digits.
use vstd::prelude::*;
use vstd::string::*;

verus! {

/// The bytes of a string literal.
pub open spec fn text(s: &str) -> Seq<u8> {
    s.spec_bytes()
}

/// Whether `lit` stands in `s` at `at`.
pub open spec fn starts_at(s: Seq<u8>, at: int, lit: Seq<u8>) -> bool {
    at + lit.len() <= s.len() && s.subrange(at, at + lit.len()) == lit
}

/// Whether `lit` stands in `s` at `at`.
pub fn starts_with(s: &[u8], at: usize, lit: &[u8]) -> (r: bool)
    requires
        at <= s@.len(),
    ensures
        r == starts_at(s@, at as int, lit@),
        r ==> at + lit@.len() <= usize::MAX,
{
    if s.len() - at < lit.len() {
        return false;
    }
    let len: usize = s.len();
    let mut i: usize = 0;
    while i < lit.len()
        invariant
            i <= lit@.len(),
            at + lit@.len() <= s@.len() == len,
            forall|j: int| 0 <= j < i ==> s@[at + j] == lit@[j],
        decreases lit@.len() - i,
    {
        if s[at + i] != lit[i] {
            assert(s@.subrange(at as int, at + lit@.len())[i as int] != lit@[i as int]);
            return false;
        }
        i += 1;
    }
    assert(s@.subrange(at as int, at + lit@.len()) =~= lit@);
    true
}

/// The digit `b` stands for.
pub open spec fn is_digit(b: u8) -> bool {
    48 <= b <= 57
}

/// Where the run of decimal digits that starts at `at` ends.
pub open spec fn digits_end(s: Seq<u8>, at: int) -> int
    decreases s.len() - at,
{
    if 0 <= at < s.len() && is_digit(s[at]) {
        digits_end(s, at + 1)
    } else {
        at
    }
}

/// The number that the decimal digits `s[from..to]` write.
pub open spec fn decimal(s: Seq<u8>, from: int, to: int) -> nat
    decreases to - from,
{
    if from >= to {
        0
    } else {
        decimal(s, from, to - 1) * 10 + (s[to - 1] - 48) as nat
    }
}

pub proof fn lemma_digits_end(s: Seq<u8>, at: int)
    requires
        0 <= at <= s.len(),
    ensures
        at <= digits_end(s, at) <= s.len(),
        forall|i: int| at <= i < digits_end(s, at) ==> is_digit(#[trigger] s[i]),
    decreases s.len() - at,
{
    if at < s.len() && is_digit(s[at]) {
        lemma_digits_end(s, at + 1);
    }
}

/// The end of a run of digits is the end of the run from any place in it.
pub proof fn lemma_digits_end_from(s: Seq<u8>, at: int, i: int)
    requires
        0 <= at <= i <= s.len(),
        forall|j: int| at <= j < i ==> is_digit(#[trigger] s[j]),
    ensures
        digits_end(s, at) == digits_end(s, i),
    decreases i - at,
{
    if at < i {
        lemma_digits_end_from(s, at + 1, i);
    }
}

/// A longer run of digits writes no smaller number.
pub proof fn lemma_decimal_grows(s: Seq<u8>, from: int, i: int, to: int)
    requires
        0 <= from <= i <= to <= s.len(),
        forall|j: int| from <= j < to ==> is_digit(#[trigger] s[j]),
    ensures
        decimal(s, from, i) <= decimal(s, from, to),
    decreases to - i,
{
    if i < to {
        lemma_decimal_grows(s, from, i, to - 1);
        assert(is_digit(s[to - 1]));
    }
}

/// The value of a hexadecimal digit.
pub open spec fn hex_value(b: u8) -> Option<u8> {
    if 48 <= b <= 57 {
        Some((b - 48) as u8)
    } else if 65 <= b <= 70 {
        Some((b - 55) as u8)
    } else if 97 <= b <= 102 {
        Some((b - 87) as u8)
    } else {
        None
    }
}

/// The value of a hexadecimal digit, in either case.
pub fn hex_digit(b: u8) -> (r: Option<u8>)
    ensures
        r == hex_value(b),
        r matches Some(v) ==> v < 16,
{
    if 48 <= b && b <= 57 {
        Some(b - 48)
    } else if 65 <= b && b <= 70 {
        Some(b - 55)
    } else if 97 <= b && b <= 102 {
        Some(b - 87)
    } else {
        None
    }
}

/// Whether two hexadecimal digits stand in `s` at `at`.
pub open spec fn hex_pair_at(s: Seq<u8>, at: int) -> bool {
    at + 2 <= s.len() && hex_value(s[at]) is Some && hex_value(s[at + 1]) is Some
}

/// The byte that the two hexadecimal digits at `at` write.
pub open spec fn hex_byte(s: Seq<u8>, at: int) -> u8 {
    (hex_value(s[at])->0 * 16 + hex_value(s[at + 1])->0) as u8
}

/// The byte that two hexadecimal digits at `at` write.
pub fn parse_hex_byte(s: &[u8], at: usize) -> (r: Option<u8>)
    requires
        at <= s@.len(),
    ensures
        r is Some <==> hex_pair_at(s@, at as int),
        r matches Some(v) ==> v == hex_byte(s@, at as int) && at + 2 <= usize::MAX,
{
    if s.len() - at < 2 {
        return None;
    }
    match (hex_digit(s[at]), hex_digit(s[at + 1])) {
        (Some(hi), Some(lo)) => Some(hi * 16 + lo),
        _ => None,
    }
}

/// The hexadecimal digit for `v`, in upper or lower case.
pub open spec fn hex_char(v: int, upper: bool) -> u8 {
    if v < 10 {
        (48 + v) as u8
    } else if upper {
        (55 + v) as u8
    } else {
        (87 + v) as u8
    }
}

/// The two hexadecimal digits that write `b`.
pub open spec fn hex2(b: u8, upper: bool) -> Seq<u8> {
    seq![hex_char(b as int / 16, upper), hex_char(b as int % 16, upper)]
}

fn hex_digit_char(v: u8, upper: bool) -> (r: u8)
    requires
        v < 16,
    ensures
        r == hex_char(v as int, upper),
{
    if v < 10 {
        48 + v
    } else if upper {
        55 + v
    } else {
        87 + v
    }
}

/// Appends the two hexadecimal digits that write `b`.
pub fn push_hex2(out: &mut Vec<u8>, b: u8, upper: bool)
    ensures
        final(out)@ == old(out)@ + hex2(b, upper),
{
    out.push(hex_digit_char(b / 16, upper));
    out.push(hex_digit_char(b % 16, upper));
    assert(out@ =~= old(out)@ + hex2(b, upper));
}

/// Appends a text.
pub fn push_text(out: &mut Vec<u8>, t: &str)
    ensures
        final(out)@ == old(out)@ + text(t),
{
    push_bytes(out, t.as_bytes());
}

/// Appends bytes.
pub fn push_bytes(out: &mut Vec<u8>, bytes: &[u8])
    ensures
        final(out)@ == old(out)@ + bytes@,
{
    let mut i: usize = 0;
    while i < bytes.len()
        invariant
            i <= bytes@.len(),
            out@ == old(out)@ + bytes@.take(i as int),
        decreases bytes@.len() - i,
    {
        out.push(bytes[i]);
        i += 1;
        assert(out@ =~= old(out)@ + bytes@.take(i as int));
    }
    assert(bytes@.take(i as int) =~= bytes@);
}

/// The decimal digits of `n`, without leading zeros.
pub open spec fn dec(n: nat) -> Seq<u8>
    decreases n,
{
    if n < 10 {
        seq![(48 + n) as u8]
    } else {
        dec(n / 10).push((48 + n % 10) as u8)
    }
}

/// The decimal digits of `n` with leading zeros up to `width` digits.
pub open spec fn dec_padded(n: nat, width: nat) -> Seq<u8> {
    let d = dec(n);
    if d.len() < width {
        Seq::new((width - d.len()) as nat, |i: int| 48u8) + d
    } else {
        d
    }
}

pub proof fn lemma_dec_len(n: nat)
    ensures
        dec(n).len() >= 1,
        n < 10 ==> dec(n).len() == 1,
        10 <= n < 100 ==> dec(n).len() == 2,
        100 <= n < 1000 ==> dec(n).len() == 3,
        forall|i: int| 0 <= i < dec(n).len() ==> is_digit(#[trigger] dec(n)[i]),
    decreases n,
{
    if n >= 10 {
        lemma_dec_len(n / 10);
    }
}

/// The digits of a number write that number.
pub proof fn lemma_dec_decimal(n: nat)
    ensures
        decimal(dec(n), 0, dec(n).len() as int) == n,
    decreases n,
{
    reveal_with_fuel(decimal, 2);
    if n >= 10 {
        let d = dec(n);
        let e = dec(n / 10);
        lemma_dec_decimal(n / 10);
        assert(d.drop_last() =~= e);
        lemma_decimal_same(d, e, 0, 0, e.len() as int);
        assert(d.last() == (48 + n % 10) as u8);
    }
}

/// The same digits write the same number wherever they stand.
pub proof fn lemma_decimal_same(s: Seq<u8>, t: Seq<u8>, i: int, j: int, n: int)
    requires
        0 <= n,
        0 <= i,
        0 <= j,
        i + n <= s.len(),
        j + n <= t.len(),
        forall|k: int| 0 <= k < n ==> #[trigger] s[i + k] == t[j + k],
    ensures
        decimal(s, i, i + n) == decimal(t, j, j + n),
    decreases n,
{
    if n > 0 {
        lemma_decimal_same(s, t, i, j, n - 1);
        assert(s[i + (n - 1)] == t[j + (n - 1)]);
    }
}

/// Leading zeros add nothing.
pub proof fn lemma_decimal_zeros(s: Seq<u8>, from: int, mid: int, to: int)
    requires
        0 <= from <= mid <= to <= s.len(),
        forall|i: int| from <= i < mid ==> #[trigger] s[i] == 48u8,
    ensures
        decimal(s, from, to) == decimal(s, mid, to),
    decreases to - from,
{
    if from < to {
        if mid < to {
            lemma_decimal_zeros(s, from, mid, to - 1);
        } else {
            lemma_decimal_zeros(s, from, to - 1, to - 1);
            assert(s[to - 1] == 48u8);
        }
    }
}

/// Padded digits write the number.
pub proof fn law_padded_digits_write_the_number(n: nat, width: nat)
    ensures
        decimal(dec_padded(n, width), 0, dec_padded(n, width).len() as int) == n,
        forall|i: int| 0 <= i < dec_padded(n, width).len() ==> is_digit(
            #[trigger] dec_padded(n, width)[i],
        ),
        dec_padded(n, width).len() >= 1,
{
    let d = dec(n);
    let p = dec_padded(n, width);
    lemma_dec_len(n);
    lemma_dec_decimal(n);
    if d.len() < width {
        let z = width - d.len();
        lemma_decimal_zeros(p, 0, z, p.len() as int);
        lemma_decimal_same(p, d, z, 0, d.len() as int);
    }
}

/// Appends the decimal digits of `n`, with leading zeros up to `width` digits.
pub fn push_dec(out: &mut Vec<u8>, n: u64, width: usize)
    requires
        width <= 20,
    ensures
        final(out)@ == old(out)@ + dec_padded(n as nat, width as nat),
{
    let mut digits: Vec<u8> = Vec::new();
    let mut rest: u64 = n;
    proof {
        lemma_dec_len(n as nat);
        assert(dec(n as nat) + digits@.reverse() =~= dec(n as nat));
    }
    while rest >= 10
        invariant
            dec(n as nat) == dec(rest as nat) + digits@.reverse(),
        decreases rest,
    {
        let ghost was = digits@;
        let d: u8 = (rest % 10) as u8;
        digits.push(48 + d);
        proof {
            assert(digits@.reverse() =~= seq![(48 + d) as u8] + was.reverse());
            assert(dec(rest as nat) + was.reverse() =~= dec(rest as nat / 10)
                + digits@.reverse());
        }
        rest = rest / 10;
    }
    let ghost was = digits@;
    digits.push(48 + rest as u8);
    proof {
        assert(digits@.reverse() =~= seq![(48 + rest) as u8] + was.reverse());
        assert(digits@.reverse() =~= dec(n as nat));
    }
    let mut len: usize = digits.len();
    let ghost pad = if digits@.len() < width {
        (width - digits@.len()) as nat
    } else {
        0
    };
    let ghost start = out@;
    assert(start + Seq::new(0nat, |i: int| 48u8) =~= start);
    while len < width
        invariant
            digits@.len() <= len,
            len <= width || len == digits@.len(),
            len - digits@.len() <= pad,
            pad == if digits@.len() < width {
                (width - digits@.len()) as nat
            } else {
                0
            },
            out@ == start + Seq::new((len - digits@.len()) as nat, |i: int| 48u8),
        decreases width - len,
    {
        out.push(48);
        len += 1;
        assert(out@ =~= start + Seq::new((len - digits@.len()) as nat, |i: int| 48u8));
    }
    let ghost padded = out@;
    let mut i: usize = digits.len();
    while i > 0
        invariant
            i <= digits@.len(),
            out@ == padded + digits@.reverse().take(digits@.len() - i),
        decreases i,
    {
        i -= 1;
        out.push(digits[i]);
        assert(out@ =~= padded + digits@.reverse().take(digits@.len() - i));
    }
    assert(digits@.reverse().take(digits@.len() as int) =~= digits@.reverse());
    assert(out@ =~= old(out)@ + dec_padded(n as nat, width as nat));
}

/// Whether two runs of bytes are the same.
pub fn same_bytes(a: &[u8], b: &[u8]) -> (r: bool)
    ensures
        r == (a@ == b@),
{
    if a.len() != b.len() {
        return false;
    }
    let r: bool = starts_with(a, 0, b);
    proof {
        assert(a@.subrange(0, b@.len() as int) =~= a@);
    }
    r
}

/// `std`'s `String::push`: appends the character.
pub assume_specification[ String::push ](s: &mut String, c: char)
    ensures
        final(s)@ == old(s)@.push(c),
;

/// `std`'s `String::push_str`: appends the characters of the other text.
pub assume_specification[ String::push_str ](s: &mut String, t: &str)
    ensures
        final(s)@ == old(s)@ + t@,
;

/// ASCII bytes as characters.
pub open spec fn chars(bytes: Seq<u8>) -> Seq<char> {
    bytes.map_values(|b: u8| b as char)
}

/// Appends ASCII bytes as characters.
pub fn push_chars(s: &mut String, bytes: &[u8])
    ensures
        final(s)@ == old(s)@ + chars(bytes@),
{
    let mut i: usize = 0;
    assert(s@ + chars(bytes@.take(0)) =~= s@);
    while i < bytes.len()
        invariant
            i <= bytes@.len(),
            s@ == old(s)@ + chars(bytes@.take(i as int)),
        decreases bytes@.len() - i,
    {
        s.push(bytes[i] as char);
        i += 1;
        assert(s@ =~= old(s)@ + chars(bytes@.take(i as int)));
    }
    assert(bytes@.take(i as int) =~= bytes@);
}

/// Appends the decimal digits of `n`, with leading zeros up to `width` digits.
pub fn push_dec_chars(s: &mut String, n: u64, width: usize)
    requires
        width <= 20,
    ensures
        final(s)@ == old(s)@ + chars(dec_padded(n as nat, width as nat)),
{
    let mut digits: Vec<u8> = Vec::new();
    push_dec(&mut digits, n, width);
    assert(digits@ =~= dec_padded(n as nat, width as nat));
    push_chars(s, digits.as_slice());
}

/// How many bytes a text takes.
pub open spec fn byte_size(t: Seq<char>) -> usize {
    vstd::utf8::encode_utf8(t).len() as usize
}

/// How many bytes a text takes.
pub fn size_of_text(s: &String) -> (r: usize)
    ensures
        r == byte_size(s@),
{
    s.as_str().len()
}

} // verus!
