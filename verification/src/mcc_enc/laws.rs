//! What holds of MCC files as a whole: lines that are written read back, and payloads are written
//! in as few characters as the format allows.
use crate::mcc_enc::{Format, MccEnc};
use crate::mcc_parse::parser::{MccLineView, State};
use crate::parser_utils::TimeCode;
use vstd::prelude::*;

verus! {

/// Whether a payload can hold this character: a digit, a letter from A to U, or Z.
pub open spec fn is_payload_char(b: u8) -> bool {
    48 <= b <= 57 || 65 <= b <= 85 || b == 90
}

proof fn lemma_hex2_chars(b: u8)
    ensures
        crate::text::hex2(b, true).len() == 2,
        is_payload_char(crate::text::hex2(b, true)[0]),
        is_payload_char(crate::text::hex2(b, true)[1]),
{
}

/// The text for bytes holds digits and capital letters only. It is empty only where there are no
/// bytes, and at most two characters stand for a byte.
pub proof fn law_payload_characters(b: Seq<u8>)
    ensures
        forall|i: int|
            0 <= i < crate::mcc_enc::encoded(b).len() ==> is_payload_char(
                #[trigger] crate::mcc_enc::encoded(b)[i],
            ),
        crate::mcc_enc::encoded(b).len() == 0 <==> b.len() == 0,
        crate::mcc_enc::encoded(b).len() <= 2 * b.len(),
    decreases b.len(),
{
    if b.len() > 0 {
        crate::mcc_enc::lemma_encode_item(b);
        let (text, n) = crate::mcc_enc::encode_item(b);
        crate::mcc_enc::lemma_triplet_run(b, 9);
        lemma_hex2_chars(b[0]);
        law_payload_characters(b.skip(n));
        let rest = crate::mcc_enc::encoded(b.skip(n));
        assert forall|i: int| 0 <= i < (text + rest).len() implies is_payload_char(
            #[trigger] (text + rest)[i],
        ) by {
            if i >= text.len() {
                assert((text + rest)[i] == rest[i - text.len()]);
            }
        }
    }
}

/// A shorter limit on the run cuts it off.
proof fn lemma_run_limit(s: Seq<u8>, a: nat, b: nat)
    requires
        a <= b,
    ensures
        crate::mcc_enc::triplet_run(s, a) == if a <= crate::mcc_enc::triplet_run(s, b) {
            a
        } else {
            crate::mcc_enc::triplet_run(s, b)
        },
    decreases b,
{
    if a > 0 && crate::mcc_enc::begins3(s, 0xfa, 0, 0) {
        lemma_run_limit(s.skip(3), (a - 1) as nat, (b - 1) as nat);
    }
}

/// A run goes on behind its first triplets.
proof fn lemma_run_rest(s: Seq<u8>, a: nat, b: nat)
    requires
        crate::mcc_enc::triplet_run(s, a) == a,
    ensures
        3 * a <= s.len(),
        crate::mcc_enc::triplet_run(s, a + b) == a + crate::mcc_enc::triplet_run(
            s.skip(3 * a as int),
            b,
        ),
    decreases a,
{
    if a > 0 {
        lemma_run_rest(s.skip(3), (a - 1) as nat, b);
        assert(s.skip(3).skip(3 * (a - 1)) =~= s.skip(3 * a as int));
    } else {
        assert(s.skip(0) =~= s);
    }
}

/// What stands behind a run of triplets takes no more characters than with the run.
proof fn lemma_skip_run(s: Seq<u8>, j: nat)
    requires
        j <= 9,
        crate::mcc_enc::triplet_run(s, j) == j,
    ensures
        3 * j <= s.len(),
        crate::mcc_enc::encoded(s.skip(3 * j as int)).len() <= crate::mcc_enc::encoded(s).len(),
    decreases s.len(),
{
    lemma_run_rest(s, j, (9 - j) as nat);
    if j == 0 {
        assert(s.skip(0) =~= s);
    } else {
        let m = crate::mcc_enc::triplet_run(s, 9);
        crate::mcc_enc::lemma_triplet_run(s, 9);
        lemma_run_limit(s, j, 9);
        let u = s.skip(3 * j as int);
        let d = (m - j) as nat;
        let v = s.skip(3 * m as int);
        assert(v =~= u.skip(3 * d as int));
        if d > 0 {
            let more = crate::mcc_enc::triplet_run(u, 9);
            crate::mcc_enc::lemma_triplet_run(u, 9);
            lemma_run_limit(u, (9 - j) as nat, 9);
            lemma_run_limit(u, d, 9);
            lemma_run_rest(u, d, (9 - d) as nat);
            let k = (more - d) as nat;
            lemma_run_limit(v, k, (9 - d) as nat);
            lemma_skip_run(v, k);
            assert(u.skip(3 * more as int) =~= v.skip(3 * k as int));
        }
    }
}

/// No short-cut begins with these bytes, but for the one for a single zero.
proof fn lemma_skip_one(s: Seq<u8>)
    requires
        s.len() > 0,
        s[0] == 0 || s[0] == 0x80 || s[0] == 0x69 || s[0] == 1,
    ensures
        crate::mcc_enc::encoded(s.skip(1)).len() <= crate::mcc_enc::encoded(s).len(),
{
}

/// The run that a short-cut for triplets stands for.
proof fn lemma_triplets_run(s: Seq<u8>, n: nat)
    requires
        s.len() >= 3 * n,
        s.take(3 * n as int) == crate::mcc_parse::parser::empty_triplets(n),
    ensures
        crate::mcc_enc::triplet_run(s, n) == n,
    decreases n,
{
    if n > 0 {
        let m = (n - 1) as nat;
        crate::mcc_enc::lemma_triplets_front(m);
        let t = s.take(3 * n as int);
        assert(t == seq![0xfau8, 0, 0] + crate::mcc_parse::parser::empty_triplets(m));
        assert(s[0] == t[0] && s[1] == t[1] && s[2] == t[2]);
        assert(s.skip(3).take(3 * m as int) =~= t.skip(3));
        assert(t.skip(3) =~= crate::mcc_parse::parser::empty_triplets(m));
        lemma_triplets_run(s.skip(3), m);
    }
}

/// Beginning with another item than the writer does saves nothing.
proof fn lemma_item_saves_nothing(t: Seq<u8>, at: int, s: Seq<u8>)
    requires
        0 <= at,
        crate::mcc_parse::parser::payload_item_at(t, at) matches Some((p, _)) && p.len() <= s.len()
            && s.take(p.len() as int) == p,
    ensures
        ({
            let (p, next) = crate::mcc_parse::parser::payload_item_at(t, at)->0;
            &&& p.len() > 0
            &&& crate::mcc_enc::encoded(s).len() <= next - at + crate::mcc_enc::encoded(
                s.skip(p.len() as int),
            ).len()
        }),
{
    let (p, next) = crate::mcc_parse::parser::payload_item_at(t, at)->0;
    let letter = t[at];
    let m = crate::mcc_enc::triplet_run(s, 9);
    crate::mcc_enc::lemma_triplet_run(s, 9);
    if 71 <= letter <= 79 {
        let k = (letter - 70) as nat;
        crate::mcc_enc::lemma_triplets_front(k);
        lemma_triplets_run(s, k);
        lemma_run_limit(s, k, 9);
        lemma_run_rest(s, k, (9 - k) as nat);
        let u = s.skip(3 * k as int);
        let d = (m - k) as nat;
        lemma_run_limit(u, d, (9 - k) as nat);
        lemma_skip_run(u, d);
        assert(u.skip(3 * d as int) =~= s.skip(3 * m as int));
    } else {
        assert forall|i: int| 0 <= i < p.len() implies #[trigger] s[i] == p[i] by {
            assert(s.take(p.len() as int)[i] == s[i]);
        }
        if crate::mcc_parse::parser::shortcut(letter) is None {
            let (text, n) = crate::mcc_enc::encode_item(s);
            crate::mcc_enc::lemma_encode_item(s);
            let r = s.skip(1);
            if n > 1 {
                lemma_skip_one(r);
                if n == 2 {
                    assert(r.skip(1) =~= s.skip(2));
                } else {
                    lemma_skip_one(r.skip(1));
                    assert(r.skip(1).skip(1) =~= s.skip(3));
                    if m > 0 {
                        lemma_run_limit(s, 1, 9);
                        reveal_with_fuel(crate::mcc_enc::triplet_run, 2);
                        lemma_run_rest(s, 1, 8);
                        let d = (m - 1) as nat;
                        lemma_run_limit(s.skip(3), d, 8);
                        lemma_skip_run(s.skip(3), d);
                        assert(s.skip(3).skip(3 * d as int) =~= s.skip(3 * m as int));
                    } else if n == 4 {
                        lemma_skip_one(r.skip(1).skip(1));
                        assert(r.skip(1).skip(1).skip(1) =~= s.skip(4));
                    }
                }
            }
        }
    }
}

proof fn lemma_shortest(t: Seq<u8>, at: int)
    requires
        0 <= at <= t.len(),
    ensures
        ({
            let (b, end) = crate::mcc_parse::parser::payload_at(t, at);
            crate::mcc_enc::encoded(b).len() <= end - at
        }),
    decreases t.len() - at,
{
    if let Some((p, next)) = crate::mcc_parse::parser::payload_item_at(t, at) {
        let (b, end) = crate::mcc_parse::parser::payload_at(t, at);
        let (rest, _) = crate::mcc_parse::parser::payload_at(t, next);
        lemma_shortest(t, next);
        assert(b == p + rest);
        assert(b.take(p.len() as int) =~= p);
        assert(b.skip(p.len() as int) =~= rest);
        lemma_item_saves_nothing(t, at, b);
    }
}

/// Bytes are written in as few characters as possible: no shorter text reads as the same bytes.
pub proof fn law_payload_is_shortest(t: Seq<u8>)
    requires
        crate::mcc_parse::parser::payload_at(t, 0).1 == t.len(),
    ensures
        crate::mcc_enc::encoded(crate::mcc_parse::parser::payload_at(t, 0).0).len() <= t.len(),
{
    lemma_shortest(t, 0);
}

/// The bytes of the line that captions of the given kind are written as, where they are not packets
/// yet: identifiers, length, data and sum.
pub open spec fn caption_payload(format: Format, data: Seq<u8>) -> Seq<u8> {
    seq![
        0x61u8,
        match format {
            Format::Cea608 => 0x02u8,
            Format::Cea708Cdp => 0x01u8,
        },
        data.len() as u8,
    ] + data + seq![crate::mcc_enc::byte_sum(data) as u8]
}

/// The payloads of the lines for a buffer of captions.
pub open spec fn caption_payloads(enc: MccEnc, data: Seq<u8>) -> Seq<Seq<u8>> {
    if enc.handle_as_st2038 {
        crate::mcc_enc::packet_payloads(data)->0
    } else {
        seq![caption_payload(enc.format->0, data)]
    }
}

/// The lines for a buffer of captions.
pub open spec fn caption_lines(enc: MccEnc, tc: Seq<u8>, data: Seq<u8>) -> Seq<Seq<u8>> {
    if enc.handle_as_st2038 {
        crate::mcc_enc::payload_lines(tc, crate::mcc_enc::packet_payloads(data)->0)
    } else {
        seq![tc + seq![9u8] + crate::mcc_enc::caption_text(enc.format->0, data)]
    }
}

proof fn lemma_one_line(tc: Seq<u8>, text: Seq<u8>)
    requires
        crate::parser_utils::timecode_at(tc, 0) matches Some((_, n)) && n == tc.len(),
        forall|i: int| 0 <= i < text.len() ==> is_payload_char(#[trigger] text[i]),
    ensures
        crate::parser_utils::is_one_line(tc + seq![9u8] + text + crate::text::text("\r\n")),
{
    crate::parser_utils::lemma_timecode_text(tc);
    crate::mcc_enc::lemma_crlf();
    let s = tc + seq![9u8] + text + crate::text::text("\r\n");
    assert(s.last() == 10);
    assert forall|i: int| 0 <= i < s.len() - 1 implies #[trigger] s[i] != 10 by {
        if i < tc.len() {
            assert(s[i] == tc[i]);
        } else if i > tc.len() && i < tc.len() + 1 + text.len() {
            assert(s[i] == text[i - tc.len() - 1]);
        }
    }
}

/// Two hexadecimal digits read back as their byte, wherever they stand.
proof fn lemma_hex_item(s: Seq<u8>, at: int, b: u8)
    requires
        0 <= at,
        crate::text::starts_at(s, at, crate::text::hex2(b, true)),
    ensures
        crate::mcc_parse::parser::payload_item_at(s, at) == Some((seq![b], at + 2)),
{
    let found = s.subrange(at, at + 2);
    assert(found == crate::text::hex2(b, true));
    assert(s[at] == found[0]);
    assert(s[at + 1] == found[1]);
}

proof fn lemma_starts()
    ensures
        crate::text::text("6102") == crate::text::hex2(0x61, true) + crate::text::hex2(0x02, true),
        crate::text::text("T") == seq![84u8],
{
    reveal_strlit("6102");
    reveal_strlit("T");
    vstd::utf8::is_ascii_chars_encode_utf8("6102"@);
    vstd::utf8::is_ascii_chars_encode_utf8("T"@);
    assert(crate::text::text("6102") =~= crate::text::hex2(0x61, true) + crate::text::hex2(
        0x02,
        true,
    ));
    assert(crate::text::text("T") =~= seq![84u8]);
}

/// The text of the identifiers.
spec fn start_text(format: Format) -> Seq<u8> {
    match format {
        Format::Cea608 => crate::text::text("6102"),
        Format::Cea708Cdp => crate::text::text("T"),
    }
}

/// The identifiers.
spec fn start_bytes(format: Format) -> Seq<u8> {
    match format {
        Format::Cea608 => seq![0x61u8, 0x02u8],
        Format::Cea708Cdp => seq![0x61u8, 0x01u8],
    }
}

/// The text of the sum.
spec fn sum_text(sum: u8) -> Seq<u8> {
    if sum == 0 {
        seq![90u8]
    } else {
        crate::text::hex2(sum, true)
    }
}

/// The identifiers read back.
proof fn lemma_start_items(s: Seq<u8>, at: int, format: Format)
    requires
        0 <= at,
        crate::text::starts_at(s, at, start_text(format)),
    ensures
        ({
            let (more, end) = crate::mcc_parse::parser::payload_at(
                s,
                at + start_text(format).len(),
            );
            crate::mcc_parse::parser::payload_at(s, at) == (start_bytes(format) + more, end)
        }),
{
    lemma_starts();
    let found = s.subrange(at, at + start_text(format).len());
    assert(found == start_text(format));
    match format {
        Format::Cea608 => {
            assert(s.subrange(at, at + 2) =~= found.take(2));
            assert(found.take(2) =~= crate::text::hex2(0x61, true));
            lemma_hex_item(s, at, 0x61);
            assert(s.subrange(at + 2, at + 4) =~= found.skip(2));
            assert(found.skip(2) =~= crate::text::hex2(0x02, true));
            lemma_hex_item(s, at + 2, 0x02);
            let more = crate::mcc_parse::parser::payload_at(s, at + 4);
            assert(crate::mcc_parse::parser::payload_at(s, at + 2) == (
                seq![0x02u8] + more.0,
                more.1,
            ));
            assert(seq![0x61u8] + (seq![0x02u8] + more.0) =~= seq![0x61u8, 0x02u8] + more.0);
        },
        Format::Cea708Cdp => {
            assert(s[at] == found[0]);
        },
    }
}

/// The sum reads back, and the line ends behind it.
proof fn lemma_last_items(s: Seq<u8>, at: int, sum: u8)
    requires
        0 <= at <= s.len(),
        s.skip(at) == sum_text(sum) + crate::text::text("\r\n"),
    ensures
        crate::mcc_parse::parser::payload_at(s, at) == (seq![sum], s.len() - 2),
        crate::parser_utils::line_end_at(s, s.len() - 2),
{
    crate::mcc_enc::lemma_crlf();
    let stop = at + sum_text(sum).len();
    let tail = s.skip(at);
    assert(tail.len() == sum_text(sum).len() + 2);
    assert(tail.len() == s.len() - at);
    assert(s[stop] == tail[stop - at]);
    assert(s[stop + 1] == tail[stop + 1 - at]);
    assert(crate::mcc_parse::parser::payload_at(s, stop) == (Seq::<u8>::empty(), stop));
    assert(s.subrange(at, stop) =~= sum_text(sum));
    if sum == 0 {
        assert(s[at] == tail[0]);
    } else {
        lemma_hex_item(s, at, sum);
    }
    assert(seq![sum] + Seq::<u8>::empty() =~= seq![sum]);
}

proof fn lemma_caption_characters(format: Format, data: Seq<u8>)
    ensures
        ({
            let len = data.len() as u8;
            let sum = crate::mcc_enc::byte_sum(data) as u8;
            let text = start_text(format) + crate::text::hex2(len, true) + crate::mcc_enc::encoded(
                data,
            ) + sum_text(sum);
            forall|i: int| 0 <= i < text.len() ==> is_payload_char(#[trigger] text[i])
        }),
{
    let len = data.len() as u8;
    let sum = crate::mcc_enc::byte_sum(data) as u8;
    let start = start_text(format);
    let len_text = crate::text::hex2(len, true);
    let enc = crate::mcc_enc::encoded(data);
    let text = start + len_text + enc + sum_text(sum);
    lemma_starts();
    lemma_hex2_chars(0x61);
    lemma_hex2_chars(0x02);
    lemma_hex2_chars(len);
    lemma_hex2_chars(sum);
    law_payload_characters(data);
    assert forall|i: int| 0 <= i < text.len() implies is_payload_char(#[trigger] text[i]) by {
        if i < start.len() {
            assert(text[i] == start[i]);
        } else if i < start.len() + 2 {
            assert(text[i] == len_text[i - start.len()]);
        } else if i < start.len() + 2 + enc.len() {
            assert(text[i] == enc[i - start.len() - 2]);
        } else {
            assert(text[i] == sum_text(sum)[i - start.len() - 2 - enc.len()]);
        }
    }
}

/// The parts of the text for captions that are not packets yet, one behind the other.
proof fn lemma_caption_parts(pre: Seq<u8>, format: Format, data: Seq<u8>)
    ensures
        ({
            let s = pre + crate::mcc_enc::caption_text(format, data);
            let start = start_text(format);
            let len_text = crate::text::hex2(data.len() as u8, true);
            let enc = crate::mcc_enc::encoded(data);
            let tail = sum_text(crate::mcc_enc::byte_sum(data) as u8) + crate::text::text("\r\n");
            let at = pre.len() as int;
            let behind = at + start.len();
            &&& len_text.len() == 2
            &&& s == pre + start + len_text + enc + tail
            &&& s.len() == behind + 2 + enc.len() + tail.len()
            &&& s.subrange(at, behind) == start
            &&& s.subrange(behind, behind + 2) == len_text
            &&& s.skip(behind + 2 + enc.len()) == tail
        }),
{
    let s = pre + crate::mcc_enc::caption_text(format, data);
    let start = start_text(format);
    let len_text = crate::text::hex2(data.len() as u8, true);
    let enc = crate::mcc_enc::encoded(data);
    let tail = sum_text(crate::mcc_enc::byte_sum(data) as u8) + crate::text::text("\r\n");
    let behind = pre.len() as int + start.len();
    assert(s =~= pre + start + len_text + enc + tail);
    assert(s.subrange(pre.len() as int, behind) =~= start);
    assert(s.subrange(behind, behind + 2) =~= len_text);
    assert(s.skip(behind + 2 + enc.len()) =~= tail);
}

/// The payload of captions that are not packets yet reads back, wherever it stands.
proof fn lemma_caption_payload(pre: Seq<u8>, format: Format, data: Seq<u8>)
    requires
        data.len() < 256,
    ensures
        ({
            let s = pre + crate::mcc_enc::caption_text(format, data);
            &&& crate::mcc_parse::parser::payload_at(s, pre.len() as int) == (
                caption_payload(format, data),
                s.len() - 2,
            )
            &&& crate::parser_utils::line_end_at(s, s.len() - 2)
            &&& s.len() > pre.len() + 2
        }),
{
    let s = pre + crate::mcc_enc::caption_text(format, data);
    let start = start_text(format);
    let len = data.len() as u8;
    let sum = crate::mcc_enc::byte_sum(data) as u8;
    let len_text = crate::text::hex2(len, true);
    let enc = crate::mcc_enc::encoded(data);
    let tail = sum_text(sum) + crate::text::text("\r\n");
    crate::mcc_enc::lemma_crlf();
    let at = pre.len() as int;
    let behind = at + start.len();
    let head = pre + start + len_text;
    let last = (head.len() + enc.len()) as int;
    lemma_caption_parts(pre, format, data);
    lemma_start_items(s, at, format);
    lemma_hex_item(s, behind, len);
    crate::mcc_enc::law_payload_round_trip(head, data, tail);
    lemma_last_items(s, last, sum);
    assert(crate::mcc_parse::parser::payload_at(s, behind).0 == seq![len] + (data + seq![sum]));
    assert(start_bytes(format) + (seq![len] + (data + seq![sum])) =~= caption_payload(
        format,
        data,
    ));
}

/// The line for captions that are not packets yet reads back as their bytes.
proof fn lemma_caption_line(tc: Seq<u8>, format: Format, data: Seq<u8>)
    requires
        crate::parser_utils::timecode_at(tc, 0) matches Some((_, n)) && n == tc.len(),
        data.len() < 256,
    ensures
        ({
            let line = tc + seq![9u8] + crate::mcc_enc::caption_text(format, data);
            &&& crate::parser_utils::is_one_line(line)
            &&& crate::mcc_parse::parser::caption_line(line, true) == Some(
                (
                    (crate::parser_utils::timecode_at(tc, 0)->0).0,
                    Some(caption_payload(format, data)),
                ),
            )
        }),
{
    let len = data.len() as u8;
    let sum = crate::mcc_enc::byte_sum(data) as u8;
    let text = start_text(format) + crate::text::hex2(len, true) + crate::mcc_enc::encoded(data)
        + sum_text(sum);
    let line = tc + seq![9u8] + crate::mcc_enc::caption_text(format, data);
    assert(line =~= tc + seq![9u8] + text + crate::text::text("\r\n"));
    lemma_caption_characters(format, data);
    lemma_one_line(tc, text);
    let rest = seq![9u8] + crate::mcc_enc::caption_text(format, data);
    assert(line =~= tc + rest);
    crate::parser_utils::lemma_timecode_prefix(tc, rest);
    assert(line[tc.len() as int] == 9);
    lemma_caption_payload(tc + seq![9u8], format, data);
}

/// Where captions are expected, a caption line reads as one.
proof fn lemma_in_captions(line: Seq<u8>)
    requires
        crate::mcc_parse::parser::caption_line(line, true) is Some,
    ensures
        ({
            let (tc, payload) = crate::mcc_parse::parser::caption_line(line, true)->0;
            crate::mcc_parse::parser::line_in_state(State::Captions, line, true) == Some(
                MccLineView::Caption(tc, payload),
            )
        }),
{
    reveal(crate::mcc_parse::parser::line_in_state);
}

/// Captions that are written read back: what is written for a buffer is a run of lines, and a
/// reader that expects captions finds in each of them the timecode of the buffer and the bytes of
/// one packet.
pub proof fn law_captions_read_back(enc: MccEnc, tc: Seq<u8>, data: Seq<u8>)
    requires
        crate::parser_utils::timecode_at(tc, 0) matches Some((_, n)) && n == tc.len(),
        enc.caption(Some(tc), data) is Ok,
    ensures
        ({
            let lines = caption_lines(enc, tc, data);
            let payloads = caption_payloads(enc, data);
            let time: TimeCode = (crate::parser_utils::timecode_at(tc, 0)->0).0;
            &&& enc.caption(Some(tc), data)->Ok_0 == crate::mcc_enc::joined(lines)
            &&& lines.len() == payloads.len()
            &&& forall|i: int|
                0 <= i < lines.len() ==> crate::parser_utils::is_one_line(#[trigger] lines[i])
                    && crate::mcc_parse::parser::line_in_state(State::Captions, lines[i], true)
                    == Some(MccLineView::Caption(time, Some(payloads[i])))
        }),
{
    let lines = caption_lines(enc, tc, data);
    let payloads = caption_payloads(enc, data);
    let time: TimeCode = (crate::parser_utils::timecode_at(tc, 0)->0).0;
    if enc.handle_as_st2038 {
        assert forall|i: int| 0 <= i < lines.len() implies crate::parser_utils::is_one_line(
            #[trigger] lines[i],
        ) && crate::mcc_parse::parser::line_in_state(State::Captions, lines[i], true) == Some(
            MccLineView::Caption(time, Some(payloads[i])),
        ) by {
            lemma_packet_payload(data, i);
            crate::mcc_enc::law_line_round_trip(tc, payloads[i]);
            lemma_in_captions(lines[i]);
            law_payload_characters(payloads[i]);
            lemma_one_line(tc, crate::mcc_enc::encoded(payloads[i]));
        }
    } else {
        let format = enc.format->0;
        lemma_caption_line(tc, format, data);
        lemma_in_captions(lines[0]);
        reveal_with_fuel(crate::mcc_enc::joined, 2);
        assert(lines.drop_last() =~= Seq::<Seq<u8>>::empty());
        assert(crate::mcc_enc::joined(lines) =~= lines[0]);
    }
}

/// Each packet has at least its identifiers, its data count and its checksum.
proof fn lemma_packet_payload(s: Seq<u8>, i: int)
    requires
        crate::mcc_enc::packet_payloads(s) matches Some(p) && 0 <= i < p.len(),
    ensures
        (crate::mcc_enc::packet_payloads(s)->0)[i].len() >= 4,
    decreases s.len(),
{
    let bits = crate::bits::bits_of(s);
    let n = crate::st2038anc_utils::header_of(bits).len as int;
    if i > 0 {
        lemma_packet_payload(s.skip(n), i - 1);
    }
}

/// The part of a file that a reader is in behind the first `n` lines, where it understands all of
/// them.
pub open spec fn state_after(lines: Seq<Seq<u8>>, n: nat) -> Option<State>
    decreases n,
{
    if n == 0 {
        Some(State::Header)
    } else {
        match state_after(lines, (n - 1) as nat) {
            Some(state) => match crate::mcc_parse::parser::line_in_state(
                state,
                lines[n - 1],
                true,
            ) {
                Some(line) => Some(crate::mcc_parse::parser::next_state(state, line)),
                None => None,
            },
            None => None,
        }
    }
}

/// What a reader finds in the line with the index `i` of a file.
pub open spec fn line_read(lines: Seq<Seq<u8>>, i: int) -> Option<MccLineView> {
    match state_after(lines, i as nat) {
        Some(state) => crate::mcc_parse::parser::line_in_state(state, lines[i], true),
        None => None,
    }
}

/// Whether bytes can be the value of a line: there are some, and none ends the line.
pub open spec fn is_value(s: Seq<u8>) -> bool {
    s.len() > 0 && forall|i: int| 0 <= i < s.len() ==> #[trigger] s[i] != 10 && s[i] != 13
}

/// The rate that headers name.
pub open spec fn named_rate(numer: u32, denom: u32) -> int {
    if denom == 1 {
        numer as int
    } else {
        numer as int / 1000
    }
}

/// What the lines of the headers say.
pub open spec fn header_says(
    i: int,
    preamble: int,
    uuid: Seq<char>,
    date: Seq<char>,
    time: Seq<char>,
    numer: u32,
    denom: u32,
) -> MccLineView {
    if i == 0 {
        MccLineView::Header
    } else if i == 1 || i == preamble - 1 || i == preamble + 5 {
        MccLineView::Empty
    } else if i < preamble {
        MccLineView::Comment
    } else if i == preamble {
        MccLineView::Uuid(crate::mcc_enc::utf8(uuid))
    } else if i == preamble + 1 {
        MccLineView::Metadata(
            crate::text::text("Creation Program"),
            crate::text::text("GStreamer MCC Encoder ") + crate::text::text(
                crate::mcc_enc::PROGRAM_VERSION,
            ),
        )
    } else if i == preamble + 2 {
        MccLineView::Metadata(crate::text::text("Creation Date"), crate::mcc_enc::utf8(date))
    } else if i == preamble + 3 {
        MccLineView::Metadata(crate::text::text("Creation Time"), crate::mcc_enc::utf8(time))
    } else {
        MccLineView::TimeCodeRate(named_rate(numer, denom) as u8, denom == 1001)
    }
}

proof fn lemma_run_until(s: Seq<u8>, at: int, end: int, b: u8)
    requires
        0 <= at <= end < s.len(),
        forall|i: int| at <= i < end ==> #[trigger] s[i] != b,
        s[end] == b,
    ensures
        crate::mcc_parse::parser::run_until(s, at, b) == end,
    decreases end - at,
{
    if at < end {
        lemma_run_until(s, at + 1, end, b);
    }
}

proof fn lemma_run_until_newline(s: Seq<u8>, at: int, end: int)
    requires
        0 <= at <= end < s.len(),
        forall|i: int| at <= i < end ==> #[trigger] s[i] != 10 && s[i] != 13,
        s[end] == 13,
    ensures
        crate::mcc_parse::parser::run_until_newline(s, at) == end,
    decreases end - at,
{
    if at < end {
        lemma_run_until_newline(s, at + 1, end);
    }
}

/// A line with a name and a value: where its parts lie.
proof fn lemma_value_line(name: Seq<u8>, value: Seq<u8>)
    requires
        name.len() > 1,
        forall|i: int|
            0 <= i < name.len() - 1 ==> #[trigger] name[i] != 10 && name[i] != 13 && name[i] != 61,
        name.last() == 61,
        is_value(value),
    ensures
        ({
            let s = crate::mcc_enc::value_line(name, value);
            &&& crate::parser_utils::is_one_line(s)
            &&& s.len() > 3
            &&& s.take(name.len() as int) == name
            &&& crate::mcc_parse::parser::run_until_newline(s, name.len() as int) == s.len() - 2
            &&& crate::parser_utils::line_end_at(s, s.len() - 2)
            &&& s.subrange(name.len() as int, s.len() - 2) == value
            &&& crate::mcc_parse::parser::metadata_line(s) == Some((name.drop_last(), value))
        }),
{
    let s = crate::mcc_enc::value_line(name, value);
    crate::mcc_enc::lemma_crlf();
    let n = name.len() as int;
    let end = s.len() - 2;
    assert(s.take(n) =~= name);
    assert(s.subrange(n, end) =~= value);
    assert forall|i: int| 0 <= i < n implies #[trigger] s[i] == name[i] by {}
    assert forall|i: int| n <= i < end implies #[trigger] s[i] == value[i - n] by {}
    lemma_run_until_newline(s, n, end);
    lemma_run_until(s, 0, n - 1, 61);
    assert(s.subrange(0, n - 1) =~= name.drop_last());
}

/// Bytes of the names of the lines.
proof fn lemma_names()
    ensures
        crate::text::text("UUID=") == seq![85u8, 85, 73, 68, 61],
        crate::text::text("Time Code Rate=").len() == 15,
        crate::text::text("Time Code Rate=")[0] == 84,
        forall|i: int|
            0 <= i < 15 ==> #[trigger] crate::text::text("Time Code Rate=")[i] != 10,
        crate::text::text("DF") == seq![68u8, 70],
        crate::text::text("DF\r\n") == seq![68u8, 70, 13, 10],
{
    reveal_strlit("UUID=");
    reveal_strlit("Time Code Rate=");
    reveal_strlit("DF");
    reveal_strlit("DF\r\n");
    vstd::utf8::is_ascii_chars_encode_utf8("UUID="@);
    vstd::utf8::is_ascii_chars_encode_utf8("Time Code Rate="@);
    vstd::utf8::is_ascii_chars_encode_utf8("DF"@);
    vstd::utf8::is_ascii_chars_encode_utf8("DF\r\n"@);
    assert(crate::text::text("UUID=") =~= seq![85u8, 85, 73, 68, 61]);
    assert(crate::text::text("DF") =~= seq![68u8, 70]);
    assert(crate::text::text("DF\r\n") =~= seq![68u8, 70, 13, 10]);
}

/// A name that a line of metadata can have: it ends with the only `=`, and begins as neither the
/// line with the UUID nor the one with the rate does.
spec fn is_metadata_name(name: Seq<u8>) -> bool {
    &&& name.len() > 1
    &&& name.last() == 61
    &&& name[0] != 84
    &&& name[0] != 85
    &&& forall|i: int|
        0 <= i < name.len() - 1 ==> #[trigger] name[i] != 10 && name[i] != 13 && name[i] != 61
}

proof fn lemma_metadata_names()
    ensures
        is_metadata_name(crate::text::text("Creation Program=")),
        is_metadata_name(crate::text::text("Creation Date=")),
        is_metadata_name(crate::text::text("Creation Time=")),
        crate::text::text("Creation Program=").drop_last() == crate::text::text(
            "Creation Program",
        ),
        crate::text::text("Creation Date=").drop_last() == crate::text::text("Creation Date"),
        crate::text::text("Creation Time=").drop_last() == crate::text::text("Creation Time"),
{
    reveal_strlit("Creation Program=");
    reveal_strlit("Creation Program");
    reveal_strlit("Creation Date=");
    reveal_strlit("Creation Date");
    reveal_strlit("Creation Time=");
    reveal_strlit("Creation Time");
    vstd::utf8::is_ascii_chars_encode_utf8("Creation Program="@);
    vstd::utf8::is_ascii_chars_encode_utf8("Creation Program"@);
    vstd::utf8::is_ascii_chars_encode_utf8("Creation Date="@);
    vstd::utf8::is_ascii_chars_encode_utf8("Creation Date"@);
    vstd::utf8::is_ascii_chars_encode_utf8("Creation Time="@);
    vstd::utf8::is_ascii_chars_encode_utf8("Creation Time"@);
    assert(crate::text::text("Creation Program=").drop_last() =~= crate::text::text(
        "Creation Program",
    ));
    assert(crate::text::text("Creation Date=").drop_last() =~= crate::text::text("Creation Date"));
    assert(crate::text::text("Creation Time=").drop_last() =~= crate::text::text("Creation Time"));
}

proof fn lemma_program()
    ensures
        is_value(
            crate::text::text("GStreamer MCC Encoder ") + crate::text::text(
                crate::mcc_enc::PROGRAM_VERSION,
            ),
        ),
{
    reveal_strlit("GStreamer MCC Encoder ");
    reveal_strlit("0.1.0");
    vstd::utf8::is_ascii_chars_encode_utf8("GStreamer MCC Encoder "@);
    vstd::utf8::is_ascii_chars_encode_utf8("0.1.0"@);
}

/// A line of metadata reads back.
proof fn lemma_metadata_line(name: Seq<u8>, value: Seq<u8>)
    requires
        is_metadata_name(name),
        is_value(value),
    ensures
        crate::parser_utils::is_one_line(crate::mcc_enc::value_line(name, value)),
        crate::mcc_parse::parser::line_in_state(
            State::Metadata,
            crate::mcc_enc::value_line(name, value),
            true,
        ) == Some(MccLineView::Metadata(name.drop_last(), value)),
{
    let s = crate::mcc_enc::value_line(name, value);
    lemma_value_line(name, value);
    assert(s[0] == s.take(name.len() as int)[0]);
    assert(crate::mcc_parse::parser::uuid_line(s) is None) by {
        lemma_names();
        lemma_starts_otherwise(s, crate::text::text("UUID="));
    }
    assert(crate::mcc_parse::parser::time_code_rate_line(s) is None) by {
        lemma_names();
        lemma_starts_otherwise(s, crate::text::text("Time Code Rate="));
    }
    assert(!crate::parser_utils::line_end_at(s, 0));
    lemma_metadata_state(s);
}

/// A line that is none of the others is metadata.
proof fn lemma_metadata_state(s: Seq<u8>)
    requires
        !crate::parser_utils::line_end_at(s, 0),
        crate::mcc_parse::parser::uuid_line(s) is None,
        crate::mcc_parse::parser::time_code_rate_line(s) is None,
        crate::mcc_parse::parser::metadata_line(s) is Some,
    ensures
        ({
            let (name, value) = crate::mcc_parse::parser::metadata_line(s)->0;
            crate::mcc_parse::parser::line_in_state(State::Metadata, s, true) == Some(
                MccLineView::Metadata(name, value),
            )
        }),
{
    reveal(crate::mcc_parse::parser::line_in_state);
}

proof fn lemma_starts_otherwise(s: Seq<u8>, start: Seq<u8>)
    requires
        s.len() > 0,
        start.len() > 0,
        s[0] != start[0],
    ensures
        !crate::text::starts_at(s, 0, start),
{
    if crate::text::starts_at(s, 0, start) {
        assert(s.subrange(0, start.len() as int)[0] == s[0]);
    }
}

/// The line with the UUID reads back.
proof fn lemma_uuid_line(value: Seq<u8>)
    requires
        is_value(value),
    ensures
        crate::parser_utils::is_one_line(
            crate::mcc_enc::value_line(crate::text::text("UUID="), value),
        ),
        crate::mcc_parse::parser::line_in_state(
            State::Metadata,
            crate::mcc_enc::value_line(crate::text::text("UUID="), value),
            true,
        ) == Some(MccLineView::Uuid(value)),
{
    let name = crate::text::text("UUID=");
    lemma_names();
    let s = crate::mcc_enc::value_line(name, value);
    lemma_value_line(name, value);
    reveal(crate::mcc_parse::parser::line_in_state);
    assert(s.subrange(0, name.len() as int) =~= s.take(name.len() as int));
}

/// The line with the rate reads back.
proof fn lemma_rate_line(numer: u32, denom: u32)
    requires
        denom == 1 || denom == 1001,
        1 <= named_rate(numer, denom) <= 255,
    ensures
        crate::parser_utils::is_one_line(crate::mcc_enc::rate_line(numer, denom)),
        crate::mcc_parse::parser::line_in_state(
            State::Metadata,
            crate::mcc_enc::rate_line(numer, denom),
            true,
        ) == Some(
            MccLineView::TimeCodeRate(named_rate(numer, denom) as u8, denom == 1001),
        ),
{
    let s = crate::mcc_enc::rate_line(numer, denom);
    let name = crate::text::text("Time Code Rate=");
    let rate = named_rate(numer, denom) as nat;
    let d = crate::text::dec(rate);
    let tail = if denom == 1 {
        crate::text::text("\r\n")
    } else {
        crate::text::text("DF\r\n")
    };
    lemma_names();
    crate::mcc_enc::lemma_crlf();
    crate::text::lemma_dec_len(rate);
    crate::text::lemma_dec_decimal(rate);
    assert(crate::text::dec_padded(rate, 0) == d);
    assert(s =~= name + d + tail);
    let next = (15 + d.len()) as int;
    assert forall|i: int| 0 <= i < 15 implies #[trigger] s[i] == name[i] by {}
    assert forall|i: int| 15 <= i < next implies #[trigger] s[i] == d[i - 15] by {}
    assert forall|i: int| next <= i < s.len() implies #[trigger] s[i] == tail[i - next] by {}
    assert(s.subrange(0, name.len() as int) =~= name);
    assert forall|i: int| 15 <= i < next implies crate::text::is_digit(#[trigger] s[i]) by {
        assert(crate::text::is_digit(d[i - 15]));
    }
    crate::text::lemma_digits_end_from(s, 15, next);
    assert(s[next] == tail[0]);
    assert(crate::text::digits_end(s, 15) == next);
    assert forall|k: int| 0 <= k < d.len() implies #[trigger] s[15 + k] == d[0 + k] by {}
    crate::text::lemma_decimal_same(s, d, 15, 0, d.len() as int);
    assert(crate::parser_utils::digits_range_at(s, 15, 1, 256) == Some((rate as u32, next)));
    let df = crate::text::text("DF");
    if denom == 1 {
        if crate::text::starts_at(s, next, df) {
            assert(s.subrange(next, next + 2)[0] == s[next]);
        }
    } else {
        assert(s.subrange(next, next + df.len()) =~= df);
    }
    assert(s[0] == 84);
    lemma_starts_otherwise(s, crate::text::text("UUID="));
    reveal(crate::mcc_parse::parser::line_in_state);
}

proof fn lemma_line_text(t: &str)
    requires
        crate::mcc_enc::headers::is_line_text(t@),
    ensures
        crate::parser_utils::is_one_line(crate::text::text(t)),
        crate::text::text(t).len() == t@.len(),
        forall|i: int|
            0 <= i < t@.len() ==> #[trigger] crate::text::text(t)[i] == t@[i] as u8,
{
    assert forall|i: int| 0 <= i < t@.len() implies '\0' <= #[trigger] t@[i] <= '\u{7f}' by {}
    vstd::utf8::is_ascii_chars_encode_utf8(t@);
    let s = crate::text::text(t);
    assert(s.last() == '\n' as u8);
    assert forall|i: int| 0 <= i < s.len() - 1 implies #[trigger] s[i] != 10 by {
        if i == s.len() - 2 {
            assert(s[i] == '\r' as u8);
        } else {
            assert(' ' <= t@[i] <= '~');
            assert(s[i] as int == t@[i] as int);
        }
    }
}

proof fn lemma_comment_line(t: &str)
    requires
        crate::mcc_enc::headers::is_comment_text(t@),
    ensures
        crate::parser_utils::is_one_line(crate::text::text(t)),
        crate::mcc_parse::parser::line_in_state(State::Comments, crate::text::text(t), true)
            == Some(MccLineView::Comment),
{
    lemma_line_text(t);
    let s = crate::text::text(t);
    reveal_strlit("//");
    vstd::utf8::is_ascii_chars_encode_utf8("//"@);
    assert(s.subrange(0, 2) =~= crate::text::text("//"));
    reveal(crate::mcc_parse::parser::line_in_state);
}

proof fn lemma_empty_line(state: State)
    requires
        state == State::EmptyAfterHeader || state == State::Comments || state == State::Metadata,
    ensures
        crate::parser_utils::is_one_line(crate::text::text("\r\n")),
        crate::mcc_parse::parser::line_in_state(state, crate::text::text("\r\n"), true) == Some(
            MccLineView::Empty,
        ),
{
    crate::mcc_enc::lemma_crlf();
    reveal(crate::mcc_parse::parser::line_in_state);
}

proof fn lemma_format_line(version_2: bool)
    ensures
        ({
            let s = if version_2 {
                crate::text::text("File Format=MacCaption_MCC V2.0\r\n")
            } else {
                crate::text::text("File Format=MacCaption_MCC V1.0\r\n")
            };
            &&& crate::parser_utils::is_one_line(s)
            &&& crate::mcc_parse::parser::line_in_state(State::Header, s, true) == Some(
                MccLineView::Header,
            )
        }),
{
    let v1 = crate::text::text("1.0");
    let v2 = crate::text::text("2.0");
    let name = crate::text::text("File Format=MacCaption_MCC V");
    reveal_strlit("File Format=MacCaption_MCC V1.0\r\n");
    reveal_strlit("File Format=MacCaption_MCC V2.0\r\n");
    reveal_strlit("File Format=MacCaption_MCC V");
    reveal_strlit("1.0");
    reveal_strlit("2.0");
    vstd::utf8::is_ascii_chars_encode_utf8("File Format=MacCaption_MCC V1.0\r\n"@);
    vstd::utf8::is_ascii_chars_encode_utf8("File Format=MacCaption_MCC V2.0\r\n"@);
    vstd::utf8::is_ascii_chars_encode_utf8("File Format=MacCaption_MCC V"@);
    vstd::utf8::is_ascii_chars_encode_utf8("1.0"@);
    vstd::utf8::is_ascii_chars_encode_utf8("2.0"@);
    let s = if version_2 {
        crate::text::text("File Format=MacCaption_MCC V2.0\r\n")
    } else {
        crate::text::text("File Format=MacCaption_MCC V1.0\r\n")
    };
    assert(name.len() == 28);
    assert(s.len() == 33);
    if crate::text::starts_at(s, 0, seq![0xefu8, 0xbb, 0xbf]) {
        assert(s.subrange(0, 3)[0] == s[0]);
    }
    assert(s.subrange(0, 28) =~= name);
    if version_2 {
        if crate::text::starts_at(s, 28, v1) {
            assert(s.subrange(28, 31)[0] == s[28]);
        }
        assert(s.subrange(28, 31) =~= v2);
    } else {
        assert(s.subrange(28, 31) =~= v1);
    }
    reveal(crate::mcc_parse::parser::line_in_state);
}

/// The part of the file that a line of the headers belongs to.
spec fn header_state(i: int, preamble: int) -> State {
    if i == 0 {
        State::Header
    } else if i == 1 {
        State::EmptyAfterHeader
    } else if i < preamble {
        State::Comments
    } else if i < preamble + 6 {
        State::Metadata
    } else {
        State::Captions
    }
}

proof fn lemma_preamble_line(version_2: bool, i: int)
    requires
        0 <= i < crate::mcc_enc::preamble_lines(version_2).len(),
    ensures
        ({
            let lines = crate::mcc_enc::preamble_lines(version_2);
            let n = lines.len() as int;
            &&& crate::parser_utils::is_one_line(lines[i])
            &&& crate::mcc_parse::parser::line_in_state(header_state(i, n), lines[i], true) == Some(
                if i == 0 {
                    MccLineView::Header
                } else if i == 1 || i == n - 1 {
                    MccLineView::Empty
                } else {
                    MccLineView::Comment
                },
            )
        }),
{
    let n = crate::mcc_enc::preamble_lines(version_2).len() as int;
    let t = if version_2 {
        crate::mcc_enc::headers::PREAMBLE_V2@[i]
    } else {
        crate::mcc_enc::headers::PREAMBLE_V1@[i]
    };
    assert(crate::mcc_enc::preamble_lines(version_2)[i] == crate::text::text(t));
    crate::mcc_enc::headers::lemma_first_lines();
    if i == 0 {
        lemma_format_line(version_2);
    } else if i == 1 {
        lemma_empty_line(State::EmptyAfterHeader);
    } else if i == n - 1 {
        lemma_empty_line(State::Comments);
    } else {
        crate::mcc_enc::headers::lemma_comments();
        lemma_comment_line(t);
    }
}

proof fn lemma_header_line(
    uuid: Seq<char>,
    date: Seq<char>,
    time: Seq<char>,
    numer: u32,
    denom: u32,
    i: int,
)
    requires
        is_value(crate::mcc_enc::utf8(uuid)),
        is_value(crate::mcc_enc::utf8(date)),
        is_value(crate::mcc_enc::utf8(time)),
        denom == 1 || denom == 1001,
        1 <= named_rate(numer, denom) <= 255,
        0 <= i < crate::mcc_enc::header_lines(uuid, date, time, numer, denom).len(),
    ensures
        ({
            let lines = crate::mcc_enc::header_lines(uuid, date, time, numer, denom);
            let n = lines.len() - 6;
            &&& crate::parser_utils::is_one_line(lines[i])
            &&& crate::mcc_parse::parser::line_in_state(header_state(i, n), lines[i], true) == Some(
                header_says(i, n, uuid, date, time, numer, denom),
            )
        }),
{
    let version_2 = crate::mcc_enc::is_version_2(numer, denom);
    let preamble = crate::mcc_enc::preamble_lines(version_2);
    let metadata = crate::mcc_enc::metadata_lines(uuid, date, time, numer, denom);
    let lines = crate::mcc_enc::header_lines(uuid, date, time, numer, denom);
    let n = preamble.len() as int;
    assert(lines.len() == n + 6);
    if i < n {
        assert(lines[i] == preamble[i]);
        lemma_preamble_line(version_2, i);
    } else {
        assert(lines[i] == metadata[i - n]);
        lemma_metadata_names();
        if i == n {
            lemma_uuid_line(crate::mcc_enc::utf8(uuid));
        } else if i == n + 1 {
            lemma_program();
            lemma_metadata_line(
                crate::text::text("Creation Program="),
                crate::text::text("GStreamer MCC Encoder ") + crate::text::text(
                    crate::mcc_enc::PROGRAM_VERSION,
                ),
            );
        } else if i == n + 2 {
            lemma_metadata_line(crate::text::text("Creation Date="), crate::mcc_enc::utf8(date));
        } else if i == n + 3 {
            lemma_metadata_line(crate::text::text("Creation Time="), crate::mcc_enc::utf8(time));
        } else if i == n + 4 {
            lemma_rate_line(numer, denom);
        } else {
            lemma_empty_line(State::Metadata);
        }
    }
}

proof fn lemma_header_states(
    uuid: Seq<char>,
    date: Seq<char>,
    time: Seq<char>,
    numer: u32,
    denom: u32,
    k: nat,
)
    requires
        is_value(crate::mcc_enc::utf8(uuid)),
        is_value(crate::mcc_enc::utf8(date)),
        is_value(crate::mcc_enc::utf8(time)),
        denom == 1 || denom == 1001,
        1 <= named_rate(numer, denom) <= 255,
        k <= crate::mcc_enc::header_lines(uuid, date, time, numer, denom).len(),
    ensures
        ({
            let lines = crate::mcc_enc::header_lines(uuid, date, time, numer, denom);
            state_after(lines, k) == Some(header_state(k as int, lines.len() - 6))
        }),
    decreases k,
{
    if k > 0 {
        lemma_header_states(uuid, date, time, numer, denom, (k - 1) as nat);
        lemma_header_line(uuid, date, time, numer, denom, k - 1);
    }
}

/// Headers that are written read back: they are a run of lines, the reader understands each of
/// them in its place and finds what the headers were made of, and it expects captions behind them.
pub proof fn law_headers_read_back(
    uuid: Seq<char>,
    date: Seq<char>,
    time: Seq<char>,
    numer: u32,
    denom: u32,
)
    requires
        is_value(crate::mcc_enc::utf8(uuid)),
        is_value(crate::mcc_enc::utf8(date)),
        is_value(crate::mcc_enc::utf8(time)),
        denom == 1 || denom == 1001,
        1 <= named_rate(numer, denom) <= 255,
    ensures
        ({
            let lines = crate::mcc_enc::header_lines(uuid, date, time, numer, denom);
            let preamble = crate::mcc_enc::preamble_lines(
                crate::mcc_enc::is_version_2(numer, denom),
            ).len() as int;
            &&& crate::mcc_enc::header_text(uuid, date, time, numer, denom)
                == crate::mcc_enc::joined(lines)
            &&& forall|i: int|
                0 <= i < lines.len() ==> crate::parser_utils::is_one_line(#[trigger] lines[i])
                    && line_read(lines, i) == Some(
                    header_says(i, preamble, uuid, date, time, numer, denom),
                )
            &&& state_after(lines, lines.len()) == Some(State::Captions)
        }),
{
    let lines = crate::mcc_enc::header_lines(uuid, date, time, numer, denom);
    let preamble = crate::mcc_enc::preamble_lines(
        crate::mcc_enc::is_version_2(numer, denom),
    ).len() as int;
    assert(lines.len() == preamble + 6);
    assert forall|i: int| 0 <= i < lines.len() implies crate::parser_utils::is_one_line(
        #[trigger] lines[i],
    ) && line_read(lines, i) == Some(
        header_says(i, preamble, uuid, date, time, numer, denom),
    ) by {
        lemma_header_states(uuid, date, time, numer, denom, i as nat);
        lemma_header_line(uuid, date, time, numer, denom, i);
    }
    lemma_header_states(uuid, date, time, numer, denom, lines.len());
}

/// The texts that the writer makes up itself can stand in headers.
pub proof fn law_made_up_texts_are_values(t: Seq<char>)
    requires
        crate::mcc_enc::is_stamp(t) || crate::mcc_enc::is_random_uuid(t),
    ensures
        is_value(crate::mcc_enc::utf8(t)),
{
    assert forall|i: int| 0 <= i < t.len() implies ' ' <= #[trigger] t[i] <= '~' by {}
    vstd::utf8::is_ascii_chars_encode_utf8(t);
    let s = crate::mcc_enc::utf8(t);
    assert forall|i: int| 0 <= i < s.len() implies #[trigger] s[i] != 10 && s[i] != 13 by {
        assert(' ' <= t[i] <= '~');
        assert(s[i] as int == t[i] as int);
    }
}

} // verus!
