//! Writing of Scenarist (SCC) files.
use crate::clock::{mul_div_floor, FlowError, SECOND};
use crate::scc_parse::parser::{SccLineView, State};
use crate::text::{push_bytes, push_hex2, push_text};
use vstd::prelude::*;

verus! {

/// How many packets a line holds at most, to batch pushes of smaller buffers.
pub const MAXIMUM_PACKETS_PER_LINE: usize = 16;

/// When a packet was shown: the text of its timecode, and the number of its frame in the day.
#[derive(Debug)]
pub struct Timecode {
    pub text: Vec<u8>,
    pub frame: u64,
}

/// A pair of bytes that waits for its line to be written.
#[derive(Debug)]
pub struct Packet {
    pub byte0: u8,
    pub byte1: u8,
    pub timecode: Timecode,
    pub pts: Option<u64>,
}

/// What a packet holds.
pub struct PacketView {
    pub byte0: u8,
    pub byte1: u8,
    pub timecode: Seq<u8>,
    pub frame: u64,
    pub pts: Option<u64>,
}

impl View for Packet {
    type V = PacketView;

    open spec fn view(&self) -> PacketView {
        PacketView {
            byte0: self.byte0,
            byte1: self.byte1,
            timecode: self.timecode.text@,
            frame: self.timecode.frame,
            pts: self.pts,
        }
    }
}

/// A line of a file, with the time at which its first packet is shown and how long its packets
/// take.
#[derive(Debug)]
pub struct Line {
    pub bytes: Vec<u8>,
    pub pts: Option<u64>,
    pub duration: Option<u64>,
}

/// Encodes captions as an SCC file.
#[derive(Debug)]
pub struct SccEnc {
    pub need_headers: bool,
    /// The frame that the next packet of the line is expected to have.
    pub expected_frame: Option<u64>,
    pub internal_buffer: Vec<Packet>,
    pub framerate: Option<(u32, u32)>,
    /// The number of frames after which timecodes begin again.
    pub frames_per_day: u64,
    pub output_padding: bool,
}

/// The frame behind a frame.
pub open spec fn frame_after(frame: u64, frames_per_day: u64) -> u64 {
    if frame == u64::MAX || frame + 1 == frames_per_day {
        0
    } else {
        (frame + 1) as u64
    }
}

fn next_frame(frame: u64, frames_per_day: u64) -> (r: u64)
    ensures
        r == frame_after(frame, frames_per_day),
{
    if frame == u64::MAX || frame + 1 == frames_per_day {
        0
    } else {
        frame + 1
    }
}

/// The four digits for a pair of bytes.
pub open spec fn pair_text(p: PacketView) -> Seq<u8> {
    crate::text::hex2(p.byte0, false) + crate::text::hex2(p.byte1, false)
}

/// The digits for all pairs, with spaces between them.
pub open spec fn pairs_text(packets: Seq<PacketView>) -> Seq<u8>
    decreases packets.len(),
{
    if packets.len() == 0 {
        Seq::empty()
    } else if packets.len() == 1 {
        pair_text(packets[0])
    } else {
        pairs_text(packets.drop_last()) + seq![32u8] + pair_text(packets.last())
    }
}

/// The text that a file begins with.
pub open spec fn header_text() -> Seq<u8> {
    crate::text::text("Scenarist_SCC V1.0\r\n\r\n")
}

/// The text of a line, with an empty line behind it.
pub open spec fn line_text(packets: Seq<PacketView>) -> Seq<u8> {
    packets[0].timecode + seq![9u8] + pairs_text(packets) + crate::text::text("\r\n\r\n")
}

impl SccEnc {
    /// The packets that wait.
    pub open spec fn waiting(&self) -> Seq<PacketView> {
        self.internal_buffer@.map_values(|p: Packet| p@)
    }

    /// The encoder can write lines: it knows the frame rate, and the line is not full.
    pub open spec fn wf(&self) -> bool {
        &&& self.internal_buffer@.len() < MAXIMUM_PACKETS_PER_LINE
        &&& self.framerate matches Some((numer, _)) && numer > 0
    }

    /// A new encoder.
    pub fn new(output_padding: bool) -> (r: SccEnc)
        ensures
            r.need_headers,
            r.expected_frame is None,
            r.waiting() == Seq::<PacketView>::empty(),
            r.framerate is None,
            r.frames_per_day == 0,
            r.output_padding == output_padding,
    {
        let r = SccEnc {
            need_headers: true,
            expected_frame: None,
            internal_buffer: Vec::new(),
            framerate: None,
            frames_per_day: 0,
            output_padding,
        };
        assert(r.waiting() =~= Seq::<PacketView>::empty());
        r
    }

    /// Writes the header to the buffer and remembers that it was written.
    fn generate_headers(&mut self, buffer: &mut Vec<u8>)
        ensures
            *final(self) == (SccEnc { need_headers: false, ..*old(self) }),
            final(buffer)@ == old(buffer)@ + header_text(),
    {
        self.need_headers = false;
        push_text(buffer, "Scenarist_SCC V1.0\r\n\r\n");
    }

    /// Appends the four digits for a pair of bytes.
    pub fn encode_payload(outbuf: &mut Vec<u8>, byte0: u8, byte1: u8)
        ensures
            final(outbuf)@ == old(outbuf)@ + crate::text::hex2(byte0, false) + crate::text::hex2(
                byte1,
                false,
            ),
    {
        push_hex2(outbuf, byte0, false);
        push_hex2(outbuf, byte1, false);
    }

    /// What writing the waiting packets gives: nothing where none wait, else the line, with the
    /// header in front of the first one.
    pub open spec fn line_bytes(&self) -> Option<Seq<u8>> {
        if self.waiting().len() == 0 {
            None
        } else if self.need_headers {
            Some(header_text() + line_text(self.waiting()))
        } else {
            Some(line_text(self.waiting()))
        }
    }

    /// How long the waiting packets take.
    pub open spec fn line_duration(&self) -> Option<u64> {
        crate::clock::fits(
            crate::clock::scaled_floor(
                SECOND as int,
                self.waiting().len() * (self.framerate->0).1,
                (self.framerate->0).0 as int,
            ),
        )
    }

    /// Whether `r` is the line that the waiting packets make.
    pub open spec fn is_line(&self, r: Option<Line>) -> bool {
        &&& r is Some <==> self.line_bytes() is Some
        &&& r matches Some(line) ==> {
            &&& line.bytes@ == self.line_bytes()->0
            &&& line.pts == self.waiting()[0].pts
            &&& line.duration == self.line_duration()
        }
    }

    /// Flushes the waiting packets into a line.
    pub fn write_line(&mut self) -> (r: Option<Line>)
        requires
            old(self).internal_buffer@.len() <= MAXIMUM_PACKETS_PER_LINE,
            old(self).framerate matches Some((numer, _)) && numer > 0,
        ensures
            old(self).is_line(r),
            final(self).waiting() == Seq::<PacketView>::empty(),
            final(self).need_headers == (old(self).need_headers && r is None),
            final(self).expected_frame == old(self).expected_frame,
            final(self).framerate == old(self).framerate,
            final(self).frames_per_day == old(self).frames_per_day,
            final(self).output_padding == old(self).output_padding,
    {
        let mut outbuf: Vec<u8> = Vec::new();
        if self.internal_buffer.len() == 0 {
            assert(self.waiting() =~= Seq::<PacketView>::empty());
            return None;
        }
        if self.need_headers {
            self.generate_headers(&mut outbuf);
        }
        let ghost packets = self.waiting();
        let ghost head = outbuf@;
        proof {
            assert(Seq::<u8>::empty() + header_text() =~= header_text());
        }
        let pts: Option<u64> = self.internal_buffer[0].pts;
        push_bytes(&mut outbuf, self.internal_buffer[0].timecode.text.as_slice());
        outbuf.push(9);
        let ghost start = outbuf@;
        assert(start =~= head + packets[0].timecode + seq![9u8]);
        Self::encode_payload(
            &mut outbuf,
            self.internal_buffer[0].byte0,
            self.internal_buffer[0].byte1,
        );
        let mut i: usize = 1;
        proof {
            assert(packets.take(1)[0] == packets[0]);
            assert(outbuf@ =~= start + pairs_text(packets.take(1)));
        }
        while i < self.internal_buffer.len()
            invariant
                1 <= i <= self.internal_buffer@.len(),
                packets == self.waiting(),
                outbuf@ == start + pairs_text(packets.take(i as int)),
            decreases self.internal_buffer@.len() - i,
        {
            outbuf.push(32);
            Self::encode_payload(
                &mut outbuf,
                self.internal_buffer[i].byte0,
                self.internal_buffer[i].byte1,
            );
            proof {
                let t = packets.take(i + 1);
                assert(t.drop_last() =~= packets.take(i as int));
                assert(t.last() == packets[i as int]);
                assert(outbuf@ =~= start + pairs_text(t));
            }
            i += 1;
        }
        assert(packets.take(i as int) =~= packets);
        push_text(&mut outbuf, "\r\n\r\n");
        assert(outbuf@ =~= head + line_text(packets));
        let (numer, denom) = match self.framerate {
            Some(v) => v,
            None => (1, 1),
        };
        let count: usize = self.internal_buffer.len();
        assert(count * denom <= 16 * 0xffff_ffff) by (nonlinear_arith)
            requires
                count <= 16,
                denom <= 0xffff_ffff,
        ;
        let duration: Option<u64> = mul_div_floor(SECOND, count as u64 * denom as u64, numer as u64);
        // Clear the internal buffer
        self.internal_buffer.clear();
        proof {
            assert(self.waiting() =~= Seq::<PacketView>::empty());
            assert(Seq::<u8>::empty() + line_text(packets) =~= line_text(packets));
        }
        Some(Line { bytes: outbuf, pts, duration })
    }

    /// The encoder with one more packet waiting.
    pub open spec fn with_packet(&self, p: PacketView) -> Seq<PacketView> {
        self.waiting().push(p)
    }

    /// Takes one packet and gives the line that it completes, if it completes one.
    ///
    /// A packet holds two bytes and has a timecode. Padding is left out where it is not wanted. A
    /// packet that does not follow the one before begins a new line, and so does one behind a
    /// full line.
    pub fn generate_caption(
        &mut self,
        data: &[u8],
        timecode: Option<Timecode>,
        pts: Option<u64>,
    ) -> (r: Result<Option<Line>, FlowError>)
        requires
            old(self).wf(),
        ensures
            final(self).wf(),
            final(self).framerate == old(self).framerate,
            final(self).frames_per_day == old(self).frames_per_day,
            final(self).output_padding == old(self).output_padding,
            ({
                let padding = !old(self).output_padding && data@ == seq![0x80u8, 0x80u8];
                let same_lines = final(self).waiting() == old(self).waiting()
                    && final(self).need_headers == old(self).need_headers;
                if data@.len() != 2 {
                    &&& r == Err::<Option<Line>, FlowError>(FlowError::Error)
                    &&& same_lines
                    &&& final(self).expected_frame == old(self).expected_frame
                } else if padding {
                    &&& r == Ok::<Option<Line>, FlowError>(None)
                    &&& same_lines
                    &&& final(self).expected_frame == old(self).expected_frame
                } else if timecode is None {
                    &&& r == Err::<Option<Line>, FlowError>(FlowError::Error)
                    &&& same_lines
                    &&& final(self).expected_frame == match old(self).expected_frame {
                        Some(f) => Some(frame_after(f, old(self).frames_per_day)),
                        None => None,
                    }
                } else {
                    let p = PacketView {
                        byte0: data@[0],
                        byte1: data@[1],
                        timecode: timecode->0.text@,
                        frame: timecode->0.frame,
                        pts,
                    };
                    let follows = old(self).expected_frame is None || old(self).expected_frame
                        == Some(p.frame);
                    let line = old(self).with_packet(p);
                    &&& r is Ok
                    &&& final(self).expected_frame == Some(
                        frame_after(p.frame, old(self).frames_per_day),
                    )
                    &&& if !follows {
                        &&& old(self).is_line(r->Ok_0)
                        &&& final(self).waiting() == seq![p]
                        &&& final(self).need_headers == (old(self).need_headers && r->Ok_0 is None)
                    } else if line.len() == MAXIMUM_PACKETS_PER_LINE {
                        &&& r->Ok_0 is Some
                        &&& (r->Ok_0)->0.bytes@ == if old(self).need_headers {
                            header_text() + line_text(line)
                        } else {
                            line_text(line)
                        }
                        &&& (r->Ok_0)->0.pts == line[0].pts
                        &&& (r->Ok_0)->0.duration == crate::clock::fits(
                            crate::clock::scaled_floor(
                                SECOND as int,
                                line.len() * (old(self).framerate->0).1,
                                (old(self).framerate->0).0 as int,
                            ),
                        )
                        &&& final(self).waiting() == Seq::<PacketView>::empty()
                        &&& !final(self).need_headers
                    } else {
                        &&& r->Ok_0 is None
                        &&& final(self).waiting() == line
                        &&& final(self).need_headers == old(self).need_headers
                    }
                }
            }),
    {
        if data.len() != 2 {
            return Err(FlowError::Error);
        }
        let byte0: u8 = data[0];
        let byte1: u8 = data[1];
        if !self.output_padding && byte0 == 0x80 && byte1 == 0x80 {
            assert(data@ =~= seq![0x80u8, 0x80u8]);
            return Ok(None);
        }
        let timecode: Timecode = match timecode {
            Some(v) => v,
            None => {
                // If we need to skip a buffer, increment the frame if it exists
                // to avoid getting out of sync
                if let Some(f) = self.expected_frame {
                    self.expected_frame = Some(next_frame(f, self.frames_per_day));
                }
                return Err(FlowError::Error);
            },
        };
        let frame: u64 = timecode.frame;
        let follows: bool = match self.expected_frame {
            Some(f) => f == frame,
            None => true,
        };
        let packet = Packet { byte0, byte1, timecode, pts };
        let ghost p = packet@;
        // if the timecode is different from the expected one,
        // flush the previous line into the buffer, and push
        // the new packet to the, now empty, internal buffer
        if !follows {
            let outbuf: Option<Line> = self.write_line();
            assert(self.waiting().len() == self.internal_buffer@.len());
            self.internal_buffer.push(packet);
            self.expected_frame = Some(next_frame(frame, self.frames_per_day));
            assert(self.waiting() =~= seq![p]);
            return Ok(outbuf);
        }
        self.expected_frame = Some(next_frame(frame, self.frames_per_day));
        self.internal_buffer.push(packet);
        assert(self.waiting() =~= old(self).waiting().push(p));
        if self.internal_buffer.len() == MAXIMUM_PACKETS_PER_LINE {
            let line: Option<Line> = self.write_line();
            assert(self.waiting().len() == self.internal_buffer@.len());
            return Ok(line);
        }
        Ok(None)
    }
}

/// The bytes of packets, in order.
pub open spec fn packet_bytes(packets: Seq<PacketView>) -> Seq<u8>
    decreases packets.len(),
{
    if packets.len() == 0 {
        Seq::empty()
    } else {
        seq![packets[0].byte0, packets[0].byte1] + packet_bytes(packets.drop_first())
    }
}

/// The digits for the first pair, and those for the others behind a space.
proof fn lemma_pairs_front(packets: Seq<PacketView>)
    requires
        packets.len() > 1,
    ensures
        pairs_text(packets) == pair_text(packets[0]) + seq![32u8] + pairs_text(
            packets.drop_first(),
        ),
    decreases packets.len(),
{
    let rest = packets.drop_first();
    if packets.len() == 2 {
        assert(packets.drop_last()[0] == packets[0]);
        assert(rest[0] == packets[1]);
        assert(pairs_text(packets.drop_last()) == pair_text(packets[0]));
    } else {
        lemma_pairs_front(packets.drop_last());
        assert(packets.drop_last().drop_first() =~= rest.drop_last());
        assert(pairs_text(packets) =~= pair_text(packets[0]) + seq![32u8] + pairs_text(rest));
    }
}

/// The digits for a pair, followed by a space or by the end of the line, are an item that reads back
/// as the bytes of the pair.
proof fn lemma_pair_reads_back(pre: Seq<u8>, p: PacketView, rest: Seq<u8>)
    requires
        rest.len() > 0,
        rest[0] == 32 || rest == seq![13u8, 10u8],
    ensures
        ({
            let s = pre + pair_text(p) + rest;
            let at = pre.len() as int;
            &&& crate::scc_parse::parser::pair_bytes(s, at) == seq![p.byte0, p.byte1]
            &&& crate::scc_parse::parser::payload_item_end(s, at) == if rest[0] == 32 {
                Some(at + 5)
            } else {
                Some(s.len() as int)
            }
            &&& s.len() == at + 4 + rest.len()
        }),
{
    let s = pre + pair_text(p) + rest;
    let at = pre.len() as int;
    let t = pair_text(p);
    assert(s[at] == t[0] && s[at + 1] == t[1] && s[at + 2] == t[2] && s[at + 3] == t[3]);
    assert(s[at + 4] == rest[0]);
    if rest[0] != 32 {
        assert(s[at + 5] == rest[1]);
    }
    assert(crate::scc_parse::parser::pair_bytes(s, at) =~= seq![p.byte0, p.byte1]);
}

proof fn lemma_regrouped(a: Seq<u8>, b: Seq<u8>, c: Seq<u8>, d: Seq<u8>, e: Seq<u8>)
    ensures
        a + (b + c + d) + e == a + b + (c + d + e),
        a + (b + c + d) + e == a + b + c + d + e,
{
    assert(a + (b + c + d) + e =~= a + b + (c + d + e));
    assert(a + (b + c + d) + e =~= a + b + c + d + e);
}

/// The digits for pairs, followed by the end of the line, read back as the bytes of the pairs.
proof fn lemma_pairs_read_back(pre: Seq<u8>, packets: Seq<PacketView>)
    requires
        packets.len() > 0,
    ensures
        ({
            let s = pre + pairs_text(packets) + seq![13u8, 10u8];
            crate::scc_parse::parser::payload_at(s, pre.len() as int) == (
                packet_bytes(packets),
                s.len() as int,
            )
        }),
    decreases packets.len(),
{
    let end = seq![13u8, 10u8];
    let s = pre + pairs_text(packets) + end;
    let t = pair_text(packets[0]);
    let rest = packets.drop_first();
    if packets.len() == 1 {
        assert(pairs_text(packets) =~= t);
        assert(packet_bytes(rest) =~= Seq::<u8>::empty());
        lemma_pair_reads_back(pre, packets[0], end);
        assert(crate::scc_parse::parser::payload_at(s, s.len() as int).0 =~= packet_bytes(rest));
    } else {
        lemma_pairs_front(packets);
        let behind = seq![32u8] + pairs_text(rest) + end;
        let next = pre + t + seq![32u8];
        lemma_regrouped(pre, t, seq![32u8], pairs_text(rest), end);
        lemma_pair_reads_back(pre, packets[0], behind);
        lemma_pairs_read_back(next, rest);
    }
}

/// A line that is written reads back. Up to its first line end it is a caption with the timecode
/// of its first packet and the bytes of all its packets; what is left is an empty line.
pub proof fn law_line_round_trip(packets: Seq<PacketView>)
    requires
        packets.len() > 0,
        crate::parser_utils::timecode_at(packets[0].timecode, 0) matches Some((_, n)) && n
            == packets[0].timecode.len(),
    ensures
        ({
            let text = line_text(packets);
            let n = text.len() - 2;
            &&& crate::scc_parse::parser::caption_line(text.take(n)) == Some(
                (
                    (crate::parser_utils::timecode_at(packets[0].timecode, 0)->0).0,
                    packet_bytes(packets),
                ),
            )
            &&& crate::parser_utils::line_end_at(text.skip(n), 0)
        }),
{
    let tc = packets[0].timecode;
    let text = line_text(packets);
    let n = text.len() - 2;
    lemma_ends();
    let pairs = pairs_text(packets);
    let line = tc + seq![9u8] + pairs + seq![13u8, 10u8];
    assert(text.take(n) =~= line);
    assert(text.skip(n) =~= seq![13u8, 10u8]);
    let rest = seq![9u8] + pairs + seq![13u8, 10u8];
    assert(line =~= tc + rest);
    crate::parser_utils::lemma_timecode_prefix(tc, rest);
    lemma_pairs_read_back(tc + seq![9u8], packets);
    let start = tc.len() as int + 1;
    assert(line[start - 1] == 9);
    if packets.len() > 1 {
        lemma_pairs_front(packets);
    }
    assert(line[start] == pair_text(packets[0])[0]);
    assert(crate::scc_parse::parser::spaces_end(line, start) == start);
}

/// Digits and spaces alone stand for pairs.
proof fn lemma_pairs_characters(packets: Seq<PacketView>)
    ensures
        forall|i: int| 0 <= i < pairs_text(packets).len() ==> #[trigger] pairs_text(packets)[i] >= 32,
    decreases packets.len(),
{
    if packets.len() > 0 {
        lemma_pairs_characters(packets.drop_last());
        let before = pairs_text(packets.drop_last());
        let last = pair_text(packets.last());
        assert(last.len() == 4);
        assert(last[0] >= 32 && last[1] >= 32 && last[2] >= 32 && last[3] >= 32);
        assert(packets.len() == 1 ==> packets[0] == packets.last());
        let text = pairs_text(packets);
        assert forall|i: int| 0 <= i < text.len() implies #[trigger] text[i] >= 32 by {
            if packets.len() == 1 {
                assert(text == last);
            } else if i < before.len() {
                assert(text[i] == before[i]);
            } else if i > before.len() {
                assert(text[i] == last[i - before.len() - 1]);
            }
        }
    }
}

/// What is written reads back as a file. The header is a line and an empty line, and so are the
/// captions behind it; the reader understands each line in its place, and finds the timecode of the
/// first packet and the bytes of all packets.
pub proof fn law_file_reads_back(packets: Seq<PacketView>)
    requires
        packets.len() > 0,
        crate::parser_utils::timecode_at(packets[0].timecode, 0) matches Some((_, n)) && n
            == packets[0].timecode.len(),
    ensures
        ({
            let header = crate::text::text("Scenarist_SCC V1.0\r\n");
            let end = crate::text::text("\r\n");
            let captions = packets[0].timecode + seq![9u8] + pairs_text(packets) + end;
            let tc = (crate::parser_utils::timecode_at(packets[0].timecode, 0)->0).0;
            let expected = crate::scc_parse::parser::next_state(State::Empty);
            &&& header_text() == header + end
            &&& line_text(packets) == captions + end
            &&& crate::parser_utils::is_one_line(header)
            &&& crate::parser_utils::is_one_line(captions)
            &&& crate::parser_utils::is_one_line(end)
            &&& crate::scc_parse::parser::line_in_state(State::Header, header) == Some(
                SccLineView::Header,
            )
            &&& crate::scc_parse::parser::next_state(State::Header) == State::Empty
            &&& crate::scc_parse::parser::line_in_state(State::Empty, end) == Some(
                SccLineView::Empty,
            )
            &&& crate::scc_parse::parser::line_in_state(expected, captions) == Some(
                SccLineView::Caption(tc, packet_bytes(packets)),
            )
            &&& crate::scc_parse::parser::next_state(expected) == expected
            &&& crate::scc_parse::parser::line_in_state(expected, end) == Some(SccLineView::Empty)
        }),
{
    lemma_header_line();
    lemma_captions_line(packets);
    lemma_empty_line();
}

/// The line of captions is one line, which reads back.
proof fn lemma_captions_line(packets: Seq<PacketView>)
    requires
        packets.len() > 0,
        crate::parser_utils::timecode_at(packets[0].timecode, 0) matches Some((_, n)) && n
            == packets[0].timecode.len(),
    ensures
        ({
            let end = crate::text::text("\r\n");
            let captions = packets[0].timecode + seq![9u8] + pairs_text(packets) + end;
            let tc = (crate::parser_utils::timecode_at(packets[0].timecode, 0)->0).0;
            &&& line_text(packets) == captions + end
            &&& crate::parser_utils::is_one_line(captions)
            &&& crate::scc_parse::parser::caption_line(captions) == Some(
                (tc, packet_bytes(packets)),
            )
        }),
{
    let tc = packets[0].timecode;
    lemma_line_parts(tc, pairs_text(packets));
    assert(crate::parser_utils::is_one_line(
        tc + seq![9u8] + pairs_text(packets) + crate::text::text("\r\n"),
    )) by {
        crate::parser_utils::lemma_timecode_text(tc);
        lemma_pairs_characters(packets);
        lemma_one_line(tc, pairs_text(packets));
    }
    law_line_round_trip(packets);
}

/// A line and the empty line behind it.
proof fn lemma_line_parts(tc: Seq<u8>, pairs: Seq<u8>)
    ensures
        ({
            let end = crate::text::text("\r\n");
            let captions = tc + seq![9u8] + pairs + end;
            let text = tc + seq![9u8] + pairs + crate::text::text("\r\n\r\n");
            text == captions + end && text.take(text.len() - 2) == captions
        }),
{
    let end = crate::text::text("\r\n");
    let captions = tc + seq![9u8] + pairs + end;
    let text = tc + seq![9u8] + pairs + crate::text::text("\r\n\r\n");
    crate::mcc_enc::lemma_crlf();
    lemma_ends();
    assert(text =~= captions + end);
    assert(text.take(text.len() - 2) =~= captions);
}

proof fn lemma_one_line(tc: Seq<u8>, pairs: Seq<u8>)
    requires
        forall|i: int| 0 <= i < tc.len() ==> #[trigger] tc[i] != 10,
        forall|i: int| 0 <= i < pairs.len() ==> #[trigger] pairs[i] >= 32,
    ensures
        crate::parser_utils::is_one_line(tc + seq![9u8] + pairs + crate::text::text("\r\n")),
{
    crate::mcc_enc::lemma_crlf();
    let line = tc + seq![9u8] + pairs + crate::text::text("\r\n");
    assert forall|i: int| 0 <= i < line.len() - 1 implies #[trigger] line[i] != 10 by {
        if i < tc.len() {
            assert(line[i] == tc[i]);
        } else if i > tc.len() && i < tc.len() + 1 + pairs.len() {
            assert(line[i] == pairs[i - tc.len() - 1]);
        }
    }
    assert(line.last() == 10);
}

proof fn lemma_empty_line()
    ensures
        ({
            let end = crate::text::text("\r\n");
            &&& crate::parser_utils::is_one_line(end)
            &&& crate::parser_utils::line_end_at(end, 0)
            &&& crate::scc_parse::parser::caption_line(end) is None
        }),
{
    crate::mcc_enc::lemma_crlf();
}

proof fn lemma_header_line()
    ensures
        ({
            let header = crate::text::text("Scenarist_SCC V1.0\r\n");
            &&& header_text() == header + crate::text::text("\r\n")
            &&& crate::parser_utils::is_one_line(header)
            &&& crate::scc_parse::parser::is_header(header)
        }),
{
    let header = crate::text::text("Scenarist_SCC V1.0\r\n");
    let name = crate::text::text("Scenarist_SCC V1.0");
    reveal_strlit("Scenarist_SCC V1.0\r\n\r\n");
    reveal_strlit("Scenarist_SCC V1.0\r\n");
    reveal_strlit("Scenarist_SCC V1.0");
    vstd::utf8::is_ascii_chars_encode_utf8("Scenarist_SCC V1.0\r\n\r\n"@);
    vstd::utf8::is_ascii_chars_encode_utf8("Scenarist_SCC V1.0\r\n"@);
    vstd::utf8::is_ascii_chars_encode_utf8("Scenarist_SCC V1.0"@);
    crate::mcc_enc::lemma_crlf();
    assert(header_text() =~= header + crate::text::text("\r\n"));
    assert(name.len() == 18 && header.len() == 20);
    if crate::text::starts_at(header, 0, seq![0xefu8, 0xbb, 0xbf]) {
        assert(header.subrange(0, 3)[0] == header[0]);
    }
    assert(header.subrange(0, 18) =~= name);
}

proof fn lemma_ends()
    ensures
        crate::text::text("\r\n\r\n") == seq![13u8, 10u8, 13u8, 10u8],
{
    reveal_strlit("\r\n\r\n");
    vstd::utf8::is_ascii_chars_encode_utf8("\r\n\r\n"@);
    assert(crate::text::text("\r\n\r\n") =~= seq![13u8, 10u8, 13u8, 10u8]);
}

} // verus!
