//! Writing of MacCaption (MCC) files.
pub mod headers;
pub mod laws;
use crate::clock::FlowError;
use crate::mcc_enc::headers::{PREAMBLE_V1, PREAMBLE_V2};
use crate::st2038anc_utils::{data_bytes, AncDataHeader};
use crate::text::{push_bytes, push_dec, push_hex2, push_text};
use chrono::TimeZone;
use vstd::prelude::*;

verus! {

/// The version that the files name.
pub const PROGRAM_VERSION: &'static str = "0.1.0";

/// The kind of captions that come in.
#[derive(Clone, Copy, Debug, PartialEq, Eq, Structural)]
pub enum Format {
    Cea708Cdp,
    Cea608,
}

/// A moment on a calendar, with the offset from UTC in seconds.
#[derive(Clone, Copy, Debug, PartialEq, Eq, Structural)]
pub struct CreationDate {
    pub year: i32,
    pub month: u32,
    pub day: u32,
    pub hour: u32,
    pub minute: u32,
    pub second: u32,
    pub utc_offset: i32,
}

/// What the user set.
#[derive(Clone, Debug)]
pub struct Settings {
    pub uuid: Option<String>,
    pub creation_date: Option<CreationDate>,
}

/// Encodes captions as an MCC file.
#[derive(Debug)]
pub struct MccEnc {
    pub format: Option<Format>,
    pub need_headers: bool,
    pub handle_as_st2038: bool,
}

/// How the day of the creation is written.
pub const DATE_PATTERN: &'static str = "%A, %B %d, %Y";

/// How the time of day of the creation is written.
pub const TIME_PATTERN: &'static str = "%H:%M:%S";

/// Whether a moment is written in this form.
pub open spec fn is_pattern(pattern: Seq<char>) -> bool {
    pattern == DATE_PATTERN@ || pattern == TIME_PATTERN@
}

/// Whether a text is what is written of a moment: some characters between space and tilde.
pub open spec fn is_stamp(t: Seq<char>) -> bool {
    t.len() > 0 && forall|i: int| 0 <= i < t.len() ==> ' ' <= #[trigger] t[i] <= '~'
}

/// Whether a text is a random UUID: groups of upper case hexadecimal digits with hyphens between
/// them, with the marks of version 4.
pub open spec fn is_random_uuid(t: Seq<char>) -> bool {
    &&& t.len() == 36
    &&& forall|i: int|
        0 <= i < 36 ==> if i == 8 || i == 13 || i == 18 || i == 23 {
            #[trigger] t[i] == '-'
        } else {
            '0' <= t[i] <= '9' || 'A' <= t[i] <= 'F'
        }
    &&& t[14] == '4'
    &&& t[19] == '8' || t[19] == '9' || t[19] == 'A' || t[19] == 'B'
}

/// The day and the time of day as chrono's `DateTime::format` writes them in the two forms, for the
/// moment that `FixedOffset::east_opt` and `TimeZone::with_ymd_and_hms` make of the numbers, if
/// they make one.
pub uninterp spec fn creation_texts_of(
    year: i32,
    month: u32,
    day: u32,
    hour: u32,
    minute: u32,
    second: u32,
    utc_offset: i32,
    date_pattern: Seq<char>,
    time_pattern: Seq<char>,
) -> Option<(Seq<char>, Seq<char>)>;

/// The day and the time of day of a moment, each in its form.
pub open spec fn texts_of(
    d: CreationDate,
    date_pattern: Seq<char>,
    time_pattern: Seq<char>,
) -> Option<(Seq<char>, Seq<char>)> {
    creation_texts_of(
        d.year,
        d.month,
        d.day,
        d.hour,
        d.minute,
        d.second,
        d.utc_offset,
        date_pattern,
        time_pattern,
    )
}

/// The day and the time of day of a moment.
pub open spec fn date_texts(d: CreationDate) -> Option<(Seq<char>, Seq<char>)> {
    texts_of(d, DATE_PATTERN@, TIME_PATTERN@)
}

/// Calls `chrono::FixedOffset::east_opt`, `TimeZone::with_ymd_and_hms` and `DateTime::format`. It
/// claims that the texts depend on what is given alone, and that days and times of day are written
/// in English, with digits and punctuation.
#[verifier::external_body]
pub(crate) fn format_creation_date(d: &CreationDate, date_pattern: &str, time_pattern: &str) -> (r:
    Option<(String, String)>)
    requires
        is_pattern(date_pattern@),
        is_pattern(time_pattern@),
    ensures
        r is Some <==> creation_texts_of(
            d.year,
            d.month,
            d.day,
            d.hour,
            d.minute,
            d.second,
            d.utc_offset,
            date_pattern@,
            time_pattern@,
        ) is Some,
        r matches Some((date, time)) ==> creation_texts_of(
            d.year,
            d.month,
            d.day,
            d.hour,
            d.minute,
            d.second,
            d.utc_offset,
            date_pattern@,
            time_pattern@,
        ) == Some((date@, time@)) && is_stamp(date@) && is_stamp(time@),
{
    let zone = chrono::FixedOffset::east_opt(d.utc_offset)?;
    let at = zone.with_ymd_and_hms(d.year, d.month, d.day, d.hour, d.minute, d.second).latest()?;
    Some((at.format(date_pattern).to_string(), at.format(time_pattern).to_string()))
}

/// Calls `chrono::Local::now` and `DateTime::format`. The texts depend on the time and on the time
/// zone. It claims that they are the day and the time of day of one moment, each in its form, and
/// that these are written in English, with digits and punctuation.
#[verifier::external_body]
pub(crate) fn format_current_date(date_pattern: &str, time_pattern: &str) -> (r: (String, String))
    requires
        is_pattern(date_pattern@),
        is_pattern(time_pattern@),
    ensures
        exists|d: CreationDate| #[trigger]
            texts_of(d, date_pattern@, time_pattern@) == Some((r.0@, r.1@)),
        is_stamp(r.0@),
        is_stamp(r.1@),
{
    let at = chrono::Local::now();
    (at.format(date_pattern).to_string(), at.format(time_pattern).to_string())
}

/// Calls `uuid::Uuid::new_v4` and writes the result in upper case, with hyphens. The text is
/// random. It claims the form that all of them have.
#[verifier::external_body]
pub(crate) fn random_uuid() -> (r: String)
    ensures
        is_random_uuid(r@),
{
    format!("{:X}", uuid::Uuid::new_v4().as_hyphenated())
}

/// The bytes of a text.
pub open spec fn utf8(s: Seq<char>) -> Seq<u8> {
    vstd::utf8::encode_utf8(s)
}

/// Whether the frame rate is the one that asks for version 2.0 of the format.
pub open spec fn is_version_2(numer: u32, denom: u32) -> bool {
    numer == 60000 && denom == 1001
}

/// The line that names the rate: whole rates as they are, others as drop frame rates.
pub open spec fn rate_line(numer: u32, denom: u32) -> Seq<u8> {
    crate::text::text("Time Code Rate=") + if denom == 1 {
        crate::text::dec_padded(numer as nat, 0) + crate::text::text("\r\n")
    } else {
        crate::text::dec_padded(numer as nat / 1000, 0) + crate::text::text("DF\r\n")
    }
}

/// Lines one behind the other.
pub open spec fn joined(lines: Seq<Seq<u8>>) -> Seq<u8>
    decreases lines.len(),
{
    if lines.len() == 0 {
        Seq::empty()
    } else {
        joined(lines.drop_last()) + lines.last()
    }
}

/// The lines that describe the format.
pub open spec fn preamble_lines(version_2: bool) -> Seq<Seq<u8>> {
    if version_2 {
        PREAMBLE_V2@.map_values(|line: &'static str| crate::text::text(line))
    } else {
        PREAMBLE_V1@.map_values(|line: &'static str| crate::text::text(line))
    }
}

/// A line with a name and a value.
pub open spec fn value_line(name: Seq<u8>, value: Seq<u8>) -> Seq<u8> {
    name + value + crate::text::text("\r\n")
}

/// The lines behind the description of the format.
pub open spec fn metadata_lines(
    uuid: Seq<char>,
    date: Seq<char>,
    time: Seq<char>,
    numer: u32,
    denom: u32,
) -> Seq<Seq<u8>> {
    seq![
        value_line(crate::text::text("UUID="), utf8(uuid)),
        value_line(
            crate::text::text("Creation Program="),
            crate::text::text("GStreamer MCC Encoder ") + crate::text::text(PROGRAM_VERSION),
        ),
        value_line(crate::text::text("Creation Date="), utf8(date)),
        value_line(crate::text::text("Creation Time="), utf8(time)),
        rate_line(numer, denom),
        crate::text::text("\r\n"),
    ]
}

/// The lines that a file begins with.
pub open spec fn header_lines(
    uuid: Seq<char>,
    date: Seq<char>,
    time: Seq<char>,
    numer: u32,
    denom: u32,
) -> Seq<Seq<u8>> {
    preamble_lines(is_version_2(numer, denom)) + metadata_lines(uuid, date, time, numer, denom)
}

/// What a file begins with.
pub open spec fn header_text(
    uuid: Seq<char>,
    date: Seq<char>,
    time: Seq<char>,
    numer: u32,
    denom: u32,
) -> Seq<u8> {
    joined(header_lines(uuid, date, time, numer, denom))
}

/// The version of the format for a frame rate.
pub fn format_version(numer: u32, denom: u32) -> (r: i32)
    ensures
        r == if is_version_2(numer, denom) {
            2i32
        } else {
            1i32
        },
{
    if numer == 60000 && denom == 1001 {
        2
    } else {
        1
    }
}

proof fn lemma_joined_push(lines: Seq<Seq<u8>>, line: Seq<u8>)
    ensures
        joined(lines.push(line)) == joined(lines) + line,
{
    assert(lines.push(line).drop_last() =~= lines);
}

fn push_preamble(buffer: &mut Vec<u8>, version_2: bool)
    requires
        old(buffer)@.len() == 0,
    ensures
        final(buffer)@ == joined(preamble_lines(version_2)),
{
    let ghost lines = preamble_lines(version_2);
    let mut i: usize = 0;
    assert(lines.take(0) =~= Seq::<Seq<u8>>::empty());
    if version_2 {
        while i < PREAMBLE_V2.len()
            invariant
                i <= PREAMBLE_V2@.len(),
                lines == PREAMBLE_V2@.map_values(|line: &'static str| crate::text::text(line)),
                buffer@ == joined(lines.take(i as int)),
            decreases PREAMBLE_V2@.len() - i,
        {
            push_text(buffer, PREAMBLE_V2[i]);
            proof {
                lemma_joined_push(lines.take(i as int), lines[i as int]);
                assert(lines.take(i + 1) =~= lines.take(i as int).push(lines[i as int]));
            }
            i += 1;
        }
    } else {
        while i < PREAMBLE_V1.len()
            invariant
                i <= PREAMBLE_V1@.len(),
                lines == PREAMBLE_V1@.map_values(|line: &'static str| crate::text::text(line)),
                buffer@ == joined(lines.take(i as int)),
            decreases PREAMBLE_V1@.len() - i,
        {
            push_text(buffer, PREAMBLE_V1[i]);
            proof {
                lemma_joined_push(lines.take(i as int), lines[i as int]);
                assert(lines.take(i + 1) =~= lines.take(i as int).push(lines[i as int]));
            }
            i += 1;
        }
    }
    assert(lines.take(i as int) =~= lines);
}

fn push_value_line(buffer: &mut Vec<u8>, name: &str, value: &str)
    ensures
        final(buffer)@ == old(buffer)@ + value_line(
            crate::text::text(name),
            crate::text::text(value),
        ),
{
    push_text(buffer, name);
    push_text(buffer, value);
    push_text(buffer, "\r\n");
    assert(buffer@ =~= old(buffer)@ + value_line(
        crate::text::text(name),
        crate::text::text(value),
    ));
}

fn push_rate_line(buffer: &mut Vec<u8>, numer: u32, denom: u32)
    ensures
        final(buffer)@ == old(buffer)@ + rate_line(numer, denom),
{
    push_text(buffer, "Time Code Rate=");
    if denom == 1 {
        push_dec(buffer, numer as u64, 0);
        push_text(buffer, "\r\n");
    } else {
        push_dec(buffer, (numer / 1000) as u64, 0);
        push_text(buffer, "DF\r\n");
    }
    assert(buffer@ =~= old(buffer)@ + rate_line(numer, denom));
}

proof fn lemma_joined_metadata(
    lines: Seq<Seq<u8>>,
    uuid: Seq<char>,
    date: Seq<char>,
    time: Seq<char>,
    numer: u32,
    denom: u32,
)
    ensures
        ({
            let m = metadata_lines(uuid, date, time, numer, denom);
            joined(lines + m) == joined(lines) + m[0] + m[1] + m[2] + m[3] + m[4] + m[5]
        }),
{
    let m = metadata_lines(uuid, date, time, numer, denom);
    let l1 = lines.push(m[0]);
    let l2 = l1.push(m[1]);
    let l3 = l2.push(m[2]);
    let l4 = l3.push(m[3]);
    let l5 = l4.push(m[4]);
    lemma_joined_push(lines, m[0]);
    lemma_joined_push(l1, m[1]);
    lemma_joined_push(l2, m[2]);
    lemma_joined_push(l3, m[3]);
    lemma_joined_push(l4, m[4]);
    lemma_joined_push(l5, m[5]);
    assert(lines + m =~= l5.push(m[5]));
}

/// Writes what a file begins with.
pub fn write_headers(uuid: &str, date: &str, time: &str, numer: u32, denom: u32) -> (r: Vec<u8>)
    requires
        denom == 1 || denom == 1001,
    ensures
        r@ == header_text(uuid@, date@, time@, numer, denom),
{
    let mut buffer: Vec<u8> = Vec::new();
    push_preamble(&mut buffer, numer == 60000 && denom == 1001);
    push_value_line(&mut buffer, "UUID=", uuid);
    let ghost before = buffer@;
    push_text(&mut buffer, "Creation Program=");
    push_text(&mut buffer, "GStreamer MCC Encoder ");
    push_text(&mut buffer, PROGRAM_VERSION);
    push_text(&mut buffer, "\r\n");
    assert(buffer@ =~= before + value_line(
        crate::text::text("Creation Program="),
        crate::text::text("GStreamer MCC Encoder ") + crate::text::text(PROGRAM_VERSION),
    ));
    push_value_line(&mut buffer, "Creation Date=", date);
    push_value_line(&mut buffer, "Creation Time=", time);
    push_rate_line(&mut buffer, numer, denom);
    push_text(&mut buffer, "\r\n");
    proof {
        lemma_joined_metadata(
            preamble_lines(is_version_2(numer, denom)),
            uuid@,
            date@,
            time@,
            numer,
            denom,
        );
    }
    buffer
}

/// Whether these are the texts that headers can have: those that were set, and otherwise a random
/// UUID and some moment.
pub open spec fn are_texts(
    settings: Settings,
    uuid: Seq<char>,
    date: Seq<char>,
    time: Seq<char>,
) -> bool {
    &&& match settings.uuid {
        Some(u) => uuid == u@,
        None => is_random_uuid(uuid),
    }
    &&& match settings.creation_date {
        Some(d) => date_texts(d) == Some((date, time)),
        None => exists|d: CreationDate| #[trigger] date_texts(d) == Some((date, time)),
    }
    &&& is_stamp(date)
    &&& is_stamp(time)
}

/// Makes the headers of a file. Where no UUID is set a random one is taken, and where no date is
/// set the current one.
///
/// There are none without a frame rate, nor with a date that no calendar has.
pub fn generate_headers(settings: &Settings, framerate: Option<(u32, u32)>) -> (r: Result<
    Vec<u8>,
    FlowError,
>)
    requires
        framerate matches Some((_, denom)) ==> denom == 1 || denom == 1001,
    ensures
        framerate is None ==> r == Err::<Vec<u8>, FlowError>(FlowError::NotNegotiated),
        framerate is Some ==> (r is Err <==> settings.creation_date is Some && date_texts(
            settings.creation_date->0,
        ) is None),
        framerate is Some ==> (r matches Err(e) ==> e == FlowError::Error),
        r matches Ok(bytes) ==> exists|uuid: Seq<char>, date: Seq<char>, time: Seq<char>|
            {
                &&& bytes@ == #[trigger] header_text(
                    uuid,
                    date,
                    time,
                    (framerate->0).0,
                    (framerate->0).1,
                )
                &&& are_texts(*settings, uuid, date, time)
            },
{
    let (numer, denom) = match framerate {
        Some(v) => v,
        None => return Err(FlowError::NotNegotiated),
    };
    let uuid: String = match &settings.uuid {
        Some(uuid) => uuid.clone(),
        None => random_uuid(),
    };
    let (date, time) = match &settings.creation_date {
        Some(d) => match format_creation_date(d, DATE_PATTERN, TIME_PATTERN) {
            Some(v) => v,
            None => return Err(FlowError::Error),
        },
        None => format_current_date(DATE_PATTERN, TIME_PATTERN),
    };
    proof {
        if settings.creation_date is None {
            let d = choose|d: CreationDate| #[trigger]
                texts_of(d, DATE_PATTERN@, TIME_PATTERN@) == Some((date@, time@));
            assert(date_texts(d) == Some((date@, time@)));
        }
    }
    Ok(write_headers(uuid.as_str(), date.as_str(), time.as_str(), numer, denom))
}

/// How many empty caption triplets `s` begins with, at most `max`.
pub open spec fn triplet_run(s: Seq<u8>, max: nat) -> nat
    decreases max,
{
    if max > 0 && s.len() >= 3 && s[0] == 0xfa && s[1] == 0 && s[2] == 0 {
        1 + triplet_run(s.skip(3), (max - 1) as nat)
    } else {
        0
    }
}

/// Whether `s` begins with these three bytes.
pub open spec fn begins3(s: Seq<u8>, a: u8, b: u8, c: u8) -> bool {
    s.len() >= 3 && s[0] == a && s[1] == b && s[2] == c
}

/// Whether `s` begins with these two bytes.
pub open spec fn begins2(s: Seq<u8>, a: u8, b: u8) -> bool {
    s.len() >= 2 && s[0] == a && s[1] == b
}

/// The text for the first bytes of `s`, and how many bytes that text stands for. The longest run
/// of empty triplets is taken first.
pub open spec fn encode_item(s: Seq<u8>) -> (Seq<u8>, int) {
    let run = triplet_run(s, 9);
    if run > 0 {
        (seq![(70 + run) as u8], 3 * run as int)
    } else if begins3(s, 0xfb, 0x80, 0x80) {
        (seq![80u8], 3)
    } else if begins3(s, 0xfc, 0x80, 0x80) {
        (seq![81u8], 3)
    } else if begins3(s, 0xfd, 0x80, 0x80) {
        (seq![82u8], 3)
    } else if begins2(s, 0x96, 0x69) {
        (seq![83u8], 2)
    } else if begins2(s, 0x61, 0x01) {
        (seq![84u8], 2)
    } else if s.len() >= 4 && s[0] == 0xe1 && s[1] == 0 && s[2] == 0 && s[3] == 0 {
        (seq![85u8], 4)
    } else if s[0] == 0 {
        (seq![90u8], 1)
    } else {
        (crate::text::hex2(s[0], true), 1)
    }
}

/// The text for bytes.
pub open spec fn encoded(s: Seq<u8>) -> Seq<u8>
    decreases s.len(),
{
    if s.len() == 0 {
        Seq::empty()
    } else {
        let (text, n) = encode_item(s);
        if 0 < n <= s.len() {
            text + encoded(s.skip(n))
        } else {
            Seq::empty()
        }
    }
}

pub proof fn lemma_triplet_run(s: Seq<u8>, max: nat)
    ensures
        triplet_run(s, max) <= max,
        3 * triplet_run(s, max) <= s.len(),
        s.take(3 * triplet_run(s, max) as int) == crate::mcc_parse::parser::empty_triplets(
            triplet_run(s, max),
        ),
    decreases max,
{
    let n = triplet_run(s, max);
    if n > 0 {
        lemma_triplet_run(s.skip(3), (max - 1) as nat);
        let m = (n - 1) as nat;
        lemma_triplets_front(m);
        assert(s.take(3 * n as int) =~= seq![0xfau8, 0, 0] + s.skip(3).take(3 * m as int));
    } else {
        assert(s.take(0) =~= Seq::<u8>::empty());
    }
}

/// One more triplet in front is one more triplet behind.
pub(crate) proof fn lemma_triplets_front(n: nat)
    ensures
        crate::mcc_parse::parser::empty_triplets(n + 1) == seq![0xfau8, 0, 0]
            + crate::mcc_parse::parser::empty_triplets(n),
        crate::mcc_parse::parser::empty_triplets(n).len() == 3 * n,
    decreases n,
{
    reveal_with_fuel(crate::mcc_parse::parser::empty_triplets, 2);
    if n > 0 {
        lemma_triplets_front((n - 1) as nat);
        assert(crate::mcc_parse::parser::empty_triplets(n + 1) =~= seq![0xfau8, 0, 0]
            + crate::mcc_parse::parser::empty_triplets(n));
    } else {
        assert(crate::mcc_parse::parser::empty_triplets(1) =~= seq![0xfau8, 0, 0]
            + crate::mcc_parse::parser::empty_triplets(0));
    }
}

fn count_triplets(s: &[u8], at: usize) -> (r: usize)
    requires
        at <= s@.len(),
    ensures
        r == triplet_run(s@.skip(at as int), 9),
        3 * r <= s@.len() - at,
{
    let mut n: usize = 0;
    let mut i: usize = at;
    while n < 9 && s.len() - i >= 3 && s[i] == 0xfa && s[i + 1] == 0 && s[i + 2] == 0
        invariant
            n <= 9,
            i == at + 3 * n <= s@.len(),
            triplet_run(s@.skip(at as int), 9) == n + triplet_run(
                s@.skip(i as int),
                (9 - n) as nat,
            ),
        decreases 9 - n,
    {
        assert(s@.skip(i as int).skip(3) =~= s@.skip(i + 3));
        n += 1;
        i += 3;
    }
    n
}

/// Appends the text for bytes: short-cuts for common sequences, and two hexadecimal digits for
/// every other byte.
pub fn encode_payload(outbuf: &mut Vec<u8>, slice: &[u8])
    ensures
        final(outbuf)@ == old(outbuf)@ + encoded(slice@),
{
    let mut i: usize = 0;
    assert(slice@.skip(0) =~= slice@);
    assert(outbuf@ + encoded(slice@) =~= old(outbuf)@ + encoded(slice@));
    while i < slice.len()
        invariant
            i <= slice@.len(),
            outbuf@ + encoded(slice@.skip(i as int)) == old(outbuf)@ + encoded(slice@),
        decreases slice@.len() - i,
    {
        let ghost s = slice@.skip(i as int);
        let ghost before = outbuf@;
        proof {
            lemma_triplet_run(s, 9);
            assert forall|k: int| 0 <= k < s.len() implies #[trigger] s[k] == slice@[i + k] by {}
        }
        let run: usize = count_triplets(slice, i);
        let rest: usize = slice.len() - i;
        let b0: u8 = slice[i];
        let n: usize;
        if run > 0 {
            outbuf.push(70 + run as u8);
            n = 3 * run;
        } else if rest >= 3 && b0 == 0xfb && slice[i + 1] == 0x80 && slice[i + 2] == 0x80 {
            outbuf.push(80);
            n = 3;
        } else if rest >= 3 && b0 == 0xfc && slice[i + 1] == 0x80 && slice[i + 2] == 0x80 {
            outbuf.push(81);
            n = 3;
        } else if rest >= 3 && b0 == 0xfd && slice[i + 1] == 0x80 && slice[i + 2] == 0x80 {
            outbuf.push(82);
            n = 3;
        } else if rest >= 2 && b0 == 0x96 && slice[i + 1] == 0x69 {
            outbuf.push(83);
            n = 2;
        } else if rest >= 2 && b0 == 0x61 && slice[i + 1] == 0x01 {
            outbuf.push(84);
            n = 2;
        } else if rest >= 4 && b0 == 0xe1 && slice[i + 1] == 0 && slice[i + 2] == 0 && slice[i + 3]
            == 0 {
            outbuf.push(85);
            n = 4;
        } else if b0 == 0 {
            outbuf.push(90);
            n = 1;
        } else {
            push_hex2(outbuf, b0, true);
            n = 1;
        }
        proof {
            let (text, m) = encode_item(s);
            assert(m == n);
            assert(outbuf@ =~= before + text);
            assert(s.skip(n as int) =~= slice@.skip(i + n));
            assert(outbuf@ + encoded(s.skip(n as int)) =~= before + (text + encoded(
                s.skip(n as int),
            )));
        }
        i += n;
    }
    assert(encoded(slice@.skip(i as int)) =~= Seq::<u8>::empty());
    assert(outbuf@ + Seq::<u8>::empty() =~= outbuf@);
}

/// The bytes of a packet as a file holds them: identifiers, data count, data and checksum, each
/// without parity bits.
pub open spec fn packet_payload(bits: Seq<bool>) -> Seq<u8> {
    let header = crate::st2038anc_utils::header_of(bits);
    seq![header.did, header.sdid, header.data_count] + crate::st2038anc_utils::data_bytes_of(bits)
        + seq![(header.checksum % 256) as u8]
}

/// The payloads of a run of packets that ends with the bytes or with stuffing. There are none where
/// something else than a packet stands between.
pub open spec fn packet_payloads(s: Seq<u8>) -> Option<Seq<Seq<u8>>>
    decreases s.len(),
{
    if s.len() == 0 || s[0] == 0xff {
        Some(Seq::empty())
    } else if !crate::st2038anc_utils::is_packet(crate::bits::bits_of(s)) {
        None
    } else {
        let bits = crate::bits::bits_of(s);
        let len = crate::st2038anc_utils::header_of(bits).len;
        if 0 < len <= s.len() {
            match packet_payloads(s.skip(len as int)) {
                Some(rest) => Some(seq![packet_payload(bits)] + rest),
                None => None,
            }
        } else {
            None
        }
    }
}

/// The line for a payload.
pub open spec fn payload_line(tc: Seq<u8>, payload: Seq<u8>) -> Seq<u8> {
    tc + seq![9u8] + encoded(payload) + crate::text::text("\r\n")
}

/// The lines for payloads: each has the timecode.
pub open spec fn payload_lines(tc: Seq<u8>, payloads: Seq<Seq<u8>>) -> Seq<Seq<u8>> {
    payloads.map_values(|payload: Seq<u8>| payload_line(tc, payload))
}

/// The sum of bytes, modulo 256.
pub open spec fn byte_sum(s: Seq<u8>) -> nat
    decreases s.len(),
{
    if s.len() == 0 {
        0
    } else {
        (byte_sum(s.drop_last()) + s.last() as nat) % 256
    }
}

/// The text for captions that are not packets yet: identifiers and length, data and checksum.
pub open spec fn caption_text(format: Format, data: Seq<u8>) -> Seq<u8> {
    let start = match format {
        Format::Cea608 => crate::text::text("6102"),
        Format::Cea708Cdp => crate::text::text("T"),
    };
    let sum = byte_sum(data) as u8;
    start + crate::text::hex2(data.len() as u8, true) + encoded(data) + if sum == 0 {
        seq![90u8]
    } else {
        crate::text::hex2(sum, true)
    } + crate::text::text("\r\n")
}

/// Appends the line for the packet at the beginning of a slice.
fn push_packet(outbuf: &mut Vec<u8>, tc: &[u8], slice: &[u8], header: &AncDataHeader)
    requires
        crate::st2038anc_utils::is_packet(crate::bits::bits_of(slice@)),
        *header == crate::st2038anc_utils::header_of(crate::bits::bits_of(slice@)),
    ensures
        final(outbuf)@ == old(outbuf)@ + payload_line(
            tc@,
            packet_payload(crate::bits::bits_of(slice@)),
        ),
{
    let mut payload: Vec<u8> = Vec::new();
    payload.push(header.did);
    payload.push(header.sdid);
    payload.push(header.data_count);
    let words: Vec<u8> = data_bytes(slice, header);
    push_bytes(&mut payload, words.as_slice());
    payload.push((header.checksum % 256) as u8);
    assert(payload@ =~= packet_payload(crate::bits::bits_of(slice@)));
    push_bytes(outbuf, tc);
    outbuf.push(9);
    encode_payload(outbuf, payload.as_slice());
    push_text(outbuf, "\r\n");
    assert(outbuf@ =~= old(outbuf)@ + payload_line(tc@, payload@));
}

/// One more payload is one more line.
proof fn lemma_payload_lines_push(tc: Seq<u8>, payloads: Seq<Seq<u8>>, payload: Seq<u8>)
    ensures
        joined(payload_lines(tc, payloads.push(payload))) == joined(payload_lines(tc, payloads))
            + payload_line(tc, payload),
{
    let line = payload_line(tc, payload);
    let lines = payload_lines(tc, payloads);
    assert(payload_lines(tc, payloads.push(payload)) =~= lines.push(line));
    lemma_joined_push(lines, line);
}

/// The payloads of all packets are the first one and those behind it.
proof fn lemma_packet_payloads(s: Seq<u8>, done: Seq<Seq<u8>>)
    requires
        s.len() > 0,
        s[0] != 0xff,
        crate::st2038anc_utils::is_packet(crate::bits::bits_of(s)),
        0 < crate::st2038anc_utils::header_of(crate::bits::bits_of(s)).len <= s.len(),
    ensures
        ({
            let bits = crate::bits::bits_of(s);
            let rest = packet_payloads(
                s.skip(crate::st2038anc_utils::header_of(bits).len as int),
            );
            &&& packet_payloads(s) is Some <==> rest is Some
            &&& rest is Some ==> done + packet_payloads(s)->0 == done.push(packet_payload(bits))
                + rest->0
        }),
{
    let bits = crate::bits::bits_of(s);
    let rest = packet_payloads(s.skip(crate::st2038anc_utils::header_of(bits).len as int));
    if let Some(more) = rest {
        assert(done + (seq![packet_payload(bits)] + more) =~= done.push(packet_payload(bits))
            + more);
    }
}

fn push_packets(outbuf: &mut Vec<u8>, tc: &[u8], data: &[u8]) -> (r: bool)
    ensures
        r == (packet_payloads(data@) is Some),
        r ==> final(outbuf)@ == old(outbuf)@ + joined(
            payload_lines(tc@, packet_payloads(data@)->0),
        ),
        old(outbuf)@.is_prefix_of(final(outbuf)@),
{
    let mut at: usize = 0;
    let ghost mut done = Seq::<Seq<u8>>::empty();
    let ghost all = packet_payloads(data@);
    proof {
        assert(data@.skip(0) =~= data@);
        assert(payload_lines(tc@, done) =~= Seq::<Seq<u8>>::empty());
        assert(outbuf@ =~= old(outbuf)@ + joined(payload_lines(tc@, done)));
        if let Some(p) = all {
            assert(done + p =~= p);
        }
    }
    while at < data.len()
        invariant
            at <= data@.len(),
            all == packet_payloads(data@),
            all is Some <==> packet_payloads(data@.skip(at as int)) is Some,
            all matches Some(p) ==> p == done + packet_payloads(data@.skip(at as int))->0,
            outbuf@ == old(outbuf)@ + joined(payload_lines(tc@, done)),
        ensures
            all == Some(done),
            outbuf@ == old(outbuf)@ + joined(payload_lines(tc@, done)),
        decreases data@.len() - at,
    {
        let ghost s = data@.skip(at as int);
        // Stop on stuffing bytes
        if data[at] == 0xff {
            assert(s[0] == 0xff);
            assert(done + Seq::<Seq<u8>>::empty() =~= done);
            break ;
        }
        let slice: &[u8] = &data[at..data.len()];
        assert(slice@ =~= s);
        let header: AncDataHeader = match AncDataHeader::from_slice(slice) {
            Ok(v) => v,
            Err(_) => {
                return false;
            },
        };
        let ghost before = outbuf@;
        push_packet(outbuf, tc, slice, &header);
        proof {
            let payload = packet_payload(crate::bits::bits_of(s));
            lemma_packet_payloads(s, done);
            lemma_payload_lines_push(tc@, done, payload);
            assert(s.skip(header.len as int) =~= data@.skip(at + header.len));
            assert(outbuf@ =~= old(outbuf)@ + joined(payload_lines(tc@, done.push(payload))));
            done = done.push(payload);
        }
        at += header.len;
        assert(at == data@.len() ==> done + Seq::<Seq<u8>>::empty() =~= done);
    }
    true
}

fn sum_bytes(data: &[u8]) -> (r: u8)
    ensures
        r == byte_sum(data@),
{
    let mut sum: u8 = 0;
    let mut i: usize = 0;
    assert(data@.take(0) =~= Seq::<u8>::empty());
    while i < data.len()
        invariant
            i <= data@.len(),
            sum == byte_sum(data@.take(i as int)),
        decreases data@.len() - i,
    {
        proof {
            assert(data@.take(i + 1).drop_last() =~= data@.take(i as int));
            assert(data@.take(i + 1).last() == data@[i as int]);
        }
        sum = ((sum as u16 + data[i] as u16) % 256) as u8;
        i += 1;
    }
    assert(data@.take(i as int) =~= data@);
    sum
}

impl MccEnc {
    /// A new encoder.
    pub fn new(handle_as_st2038: bool) -> (r: MccEnc)
        ensures
            r == (MccEnc { format: None, need_headers: true, handle_as_st2038 }),
    {
        MccEnc { format: None, need_headers: true, handle_as_st2038 }
    }

    /// The kind of captions was agreed on. Packets name their kind themselves.
    pub fn set_format(&mut self, format: Format)
        ensures
            *final(self) == (MccEnc {
                format: if old(self).handle_as_st2038 {
                    old(self).format
                } else {
                    Some(format)
                },
                ..*old(self)
            }),
    {
        if !self.handle_as_st2038 {
            self.format = Some(format);
        }
    }

    /// The outcome of writing a buffer of captions with the given timecode.
    pub open spec fn caption(&self, timecode: Option<Seq<u8>>, data: Seq<u8>) -> Result<
        Seq<u8>,
        FlowError,
    > {
        match timecode {
            None => Err(FlowError::Error),
            Some(tc) => if self.handle_as_st2038 {
                match packet_payloads(data) {
                    Some(payloads) => Ok(joined(payload_lines(tc, payloads))),
                    None => Err(FlowError::Error),
                }
            } else if data.len() >= 256 {
                Err(FlowError::Error)
            } else {
                match self.format {
                    Some(format) => Ok(tc + seq![9u8] + caption_text(format, data)),
                    None => Err(FlowError::NotNegotiated),
                }
            },
        }
    }

    /// Appends the lines for a buffer of captions to `outbuf`, each with the timecode: one for each
    /// packet, or one for captions that are not packets yet.
    ///
    /// A buffer needs a timecode, whose text is given. After an error `outbuf` still holds its own
    /// bytes; what is behind them is of no use.
    pub fn generate_caption(&self, timecode: Option<&[u8]>, data: &[u8], outbuf: &mut Vec<u8>) -> (r:
        Result<(), FlowError>)
        ensures
            ({
                let tc = match timecode {
                    Some(tc) => Some(tc@),
                    None => None,
                };
                match self.caption(tc, data@) {
                    Ok(line) => r is Ok && final(outbuf)@ == old(outbuf)@ + line,
                    Err(e) => r == Err::<(), FlowError>(e) && old(outbuf)@.is_prefix_of(
                        final(outbuf)@,
                    ),
                }
            }),
    {
        let tc: &[u8] = match timecode {
            Some(v) => v,
            None => return Err(FlowError::Error),
        };
        if self.handle_as_st2038 {
            if !push_packets(outbuf, tc, data) {
                return Err(FlowError::Error);
            }
            return Ok(());
        }
        push_bytes(outbuf, tc);
        outbuf.push(9);
        if data.len() >= 256 {
            return Err(FlowError::Error);
        }
        let len: u8 = data.len() as u8;
        let format: Format = match self.format {
            Some(v) => v,
            None => return Err(FlowError::NotNegotiated),
        };
        match format {
            Format::Cea608 => push_text(outbuf, "6102"),
            Format::Cea708Cdp => push_text(outbuf, "T"),
        }
        push_hex2(outbuf, len, true);
        let checksum: u8 = sum_bytes(data);
        encode_payload(outbuf, data);
        if checksum == 0 {
            outbuf.push(90);
        } else {
            push_hex2(outbuf, checksum, true);
        }
        push_text(outbuf, "\r\n");
        proof {
            let line = tc@ + seq![9u8] + caption_text(format, data@);
            assert(outbuf@ =~= old(outbuf)@ + line);
        }
        Ok(())
    }

    /// Encodes a buffer of captions, with the headers in front of the first one.
    pub fn encode(
        &mut self,
        settings: &Settings,
        framerate: Option<(u32, u32)>,
        timecode: Option<&[u8]>,
        data: &[u8],
    ) -> (r: Result<Vec<u8>, FlowError>)
        requires
            framerate matches Some((_, denom)) ==> denom == 1 || denom == 1001,
        ensures
            *final(self) == (MccEnc { need_headers: false, ..*old(self) }),
            ({
                let tc = match timecode {
                    Some(tc) => Some(tc@),
                    None => None,
                };
                let line = old(self).caption(tc, data@);
                let no_date = settings.creation_date matches Some(d) && date_texts(d) is None;
                if old(self).need_headers && framerate is None {
                    r == Err::<Vec<u8>, FlowError>(FlowError::NotNegotiated)
                } else if old(self).need_headers && no_date {
                    r == Err::<Vec<u8>, FlowError>(FlowError::Error)
                } else {
                    &&& line matches Err(e) ==> r == Err::<Vec<u8>, FlowError>(e)
                    &&& line is Ok ==> r is Ok
                    &&& line is Ok && !old(self).need_headers ==> (r->Ok_0)@ == line->Ok_0
                    &&& line is Ok && old(self).need_headers ==> exists|
                        uuid: Seq<char>,
                        date: Seq<char>,
                        time: Seq<char>,
                    |
                        {
                            &&& (r->Ok_0)@ == #[trigger] header_text(
                                uuid,
                                date,
                                time,
                                (framerate->0).0,
                                (framerate->0).1,
                            ) + line->Ok_0
                            &&& are_texts(*settings, uuid, date, time)
                        }
                }
            }),
    {
        let mut outbuf: Vec<u8> = Vec::new();
        if self.need_headers {
            self.need_headers = false;
            match generate_headers(settings, framerate) {
                Ok(bytes) => outbuf = bytes,
                Err(e) => return Err(e),
            }
        }
        let ghost head = outbuf@;
        match self.generate_caption(timecode, data, &mut outbuf) {
            Ok(()) => {
                assert(Seq::<u8>::empty() + outbuf@ =~= outbuf@);
                Ok(outbuf)
            },
            Err(e) => Err(e),
        }
    }
}

/// Whether incoming captions are ancillary data packets, which is so unless the value of the
/// environment variable that says otherwise is `1`.
pub fn is_st2038(value: Option<&[u8]>) -> (r: bool)
    ensures
        r == !(value matches Some(v) && v@ == seq![49u8]),
{
    match value {
        Some(v) => {
            if v.len() == 1 && v[0] == 49 {
                assert(v@ =~= seq![49u8]);
                false
            } else {
                true
            }
        },
        None => true,
    }
}

pub(crate) proof fn lemma_encode_item(b: Seq<u8>)
    requires
        b.len() > 0,
    ensures
        0 < encode_item(b).1 <= b.len(),
        encode_item(b).0.len() > 0,
        forall|s: Seq<u8>, at: int|
            0 <= at && #[trigger] crate::text::starts_at(s, at, encode_item(b).0)
                ==> crate::mcc_parse::parser::payload_item_at(s, at) == Some(
                (b.take(encode_item(b).1), at + encode_item(b).0.len()),
            ),
{
    let (text, n) = encode_item(b);
    let run = triplet_run(b, 9);
    lemma_triplet_run(b, 9);
    assert forall|s: Seq<u8>, at: int|
        0 <= at && #[trigger] crate::text::starts_at(
            s,
            at,
            text,
        ) implies crate::mcc_parse::parser::payload_item_at(s, at) == Some(
        (b.take(n), at + text.len()),
    ) by {
        let found = s.subrange(at, at + text.len());
        assert(found == text);
        assert(s[at] == found[0]);
        if run > 0 {
        } else if begins3(b, 0xfb, 0x80, 0x80) {
            assert(b.take(3) =~= seq![0xfbu8, 0x80, 0x80]);
        } else if begins3(b, 0xfc, 0x80, 0x80) {
            assert(b.take(3) =~= seq![0xfcu8, 0x80, 0x80]);
        } else if begins3(b, 0xfd, 0x80, 0x80) {
            assert(b.take(3) =~= seq![0xfdu8, 0x80, 0x80]);
        } else if begins2(b, 0x96, 0x69) {
            assert(b.take(2) =~= seq![0x96u8, 0x69]);
        } else if begins2(b, 0x61, 0x01) {
            assert(b.take(2) =~= seq![0x61u8, 0x01]);
        } else if n == 4 {
            assert(b.take(4) =~= seq![0xe1u8, 0x00, 0x00, 0x00]);
        } else if b[0] == 0 {
            assert(b.take(1) =~= seq![0u8]);
        } else {
            assert(s[at + 1] == found[1]);
            assert(b.take(1) =~= seq![b[0]]);
        }
    }
}

/// The text for bytes reads back as these bytes, wherever it stands; reading goes on behind it.
pub proof fn law_payload_round_trip(pre: Seq<u8>, b: Seq<u8>, rest: Seq<u8>)
    ensures
        ({
            let s = pre + encoded(b) + rest;
            let end = (pre.len() + encoded(b).len()) as int;
            let (more, last) = crate::mcc_parse::parser::payload_at(s, end);
            crate::mcc_parse::parser::payload_at(s, pre.len() as int) == (b + more, last)
        }),
    decreases b.len(),
{
    let s = pre + encoded(b) + rest;
    let at = pre.len() as int;
    if b.len() == 0 {
        assert(b + crate::mcc_parse::parser::payload_at(s, at).0
            =~= crate::mcc_parse::parser::payload_at(s, at).0);
    } else {
        lemma_encode_item(b);
        let (text, n) = encode_item(b);
        assert(s.subrange(at, at + text.len()) =~= text);
        assert(crate::text::starts_at(s, at, text));
        law_payload_round_trip(pre + text, b.skip(n), rest);
        assert(pre + text + encoded(b.skip(n)) + rest =~= s);
        let end = (pre.len() + encoded(b).len()) as int;
        let more = crate::mcc_parse::parser::payload_at(s, end).0;
        assert(b.take(n) + (b.skip(n) + more) =~= b + more);
    }
}

/// A line that is written reads back: the parser finds its timecode and the bytes of its payload.
pub proof fn law_line_round_trip(tc: Seq<u8>, payload: Seq<u8>)
    requires
        crate::parser_utils::timecode_at(tc, 0) matches Some((_, n)) && n == tc.len(),
        payload.len() > 0,
    ensures
        ({
            let line = tc + seq![9u8] + encoded(payload) + crate::text::text("\r\n");
            crate::mcc_parse::parser::caption_line(line, true) == Some(
                ((crate::parser_utils::timecode_at(tc, 0)->0).0, Some(payload)),
            )
        }),
{
    let end = crate::text::text("\r\n");
    lemma_crlf();
    let line = tc + seq![9u8] + encoded(payload) + end;
    let rest = seq![9u8] + encoded(payload) + end;
    assert(line =~= tc + rest);
    crate::parser_utils::lemma_timecode_prefix(tc, rest);
    let tab = tc.len() as int;
    assert(line[tab] == 9);
    law_payload_round_trip(tc + seq![9u8], payload, end);
    lemma_encode_item(payload);
    let stop = (tab + 1 + encoded(payload).len()) as int;
    assert(line[stop] == end[0]);
    assert(line[stop + 1] == end[1]);
    assert(crate::mcc_parse::parser::payload_at(line, stop).0 =~= Seq::<u8>::empty());
    assert(payload + Seq::<u8>::empty() =~= payload);
}

pub proof fn lemma_crlf()
    ensures
        crate::text::text("\r\n") == seq![13u8, 10u8],
{
    reveal_strlit("\r\n");
    vstd::utf8::is_ascii_chars_encode_utf8("\r\n"@);
    assert(crate::text::text("\r\n") =~= seq![13u8, 10u8]);
}

} // verus!
