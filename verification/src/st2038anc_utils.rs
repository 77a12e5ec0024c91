//! SMPTE ST 2038 ancillary data packets.
use crate::bits::{read_bits, write_fields};
use vstd::prelude::*;

verus! {

/// What stands before and behind the data words of a packet.
#[derive(Clone, Copy, Debug, PartialEq, Eq, Structural)]
pub struct AncDataHeader {
    pub c_not_y_channel_flag: bool,
    pub did: u8,
    pub sdid: u8,
    pub line_number: u16,
    pub horizontal_offset: u16,
    pub data_count: u8,
    pub checksum: u16,
    pub len: usize,
}

/// A packet with its data words.
#[derive(Clone, Debug)]
pub struct AncData {
    pub header: AncDataHeader,
    pub data: Vec<u16>,
}

/// The bytes are not an ancillary data packet.
#[derive(Clone, Copy, Debug, PartialEq, Eq, Structural)]
pub struct InvalidPacket;

/// The packet cannot be written.
#[derive(Clone, Copy, Debug, PartialEq, Eq, Structural)]
pub enum PacketError {
    /// The payload holds more than 255 words.
    TooLong,
    /// A value does not fit in its field.
    OutOfRange,
}

/// The ten bit words of a packet as they are kept beside a video frame.
#[derive(Clone, Debug)]
pub struct AncillaryMeta {
    pub c_not_y_channel: bool,
    pub line: u16,
    pub offset: u16,
    pub did: u16,
    pub sdid_block_number: u16,
    pub data_count: u16,
    pub data: Vec<u16>,
    pub checksum: u16,
}

/// How many data words the packet at the beginning of `bits` holds.
pub open spec fn data_count_of(bits: Seq<bool>) -> int {
    crate::bits::field(bits, 50, 10) as int % 256
}

/// Where the checksum of a packet with `count` data words ends.
pub open spec fn checksum_end(count: int) -> int {
    70 + 10 * count
}

/// How many bits a packet with `count` data words takes, with those that fill the last byte.
pub open spec fn packet_bits(count: int) -> int {
    (checksum_end(count) + 7) / 8 * 8
}

/// Whether `bits` begin with a packet: six zero bits, all fields, and ones up to the next byte.
pub open spec fn is_packet(bits: Seq<bool>) -> bool {
    let end = checksum_end(data_count_of(bits));
    &&& bits.len() >= 60
    &&& crate::bits::field(bits, 0, 6) == 0
    &&& bits.len() >= end
    &&& forall|i: int| end <= i < packet_bits(data_count_of(bits)) ==> #[trigger] bits[i]
}

/// The header of the packet at the beginning of `bits`. The two parity bits of the words are
/// dropped.
pub open spec fn header_of(bits: Seq<bool>) -> AncDataHeader {
    let count = data_count_of(bits);
    AncDataHeader {
        c_not_y_channel_flag: bits[6],
        did: (crate::bits::field(bits, 30, 10) % 256) as u8,
        sdid: (crate::bits::field(bits, 40, 10) % 256) as u8,
        line_number: crate::bits::field(bits, 7, 11) as u16,
        horizontal_offset: crate::bits::field(bits, 18, 12) as u16,
        data_count: count as u8,
        checksum: crate::bits::field(bits, 60 + 10 * count, 10) as u16,
        len: (packet_bits(count) / 8) as usize,
    }
}

/// The data words of the packet at the beginning of `bits`.
pub open spec fn data_of(bits: Seq<bool>) -> Seq<u16> {
    Seq::new(
        data_count_of(bits) as nat,
        |k: int| crate::bits::field(bits, 60 + 10 * k, 10) as u16,
    )
}

proof fn lemma_field_bounds(bits: Seq<bool>)
    requires
        bits.len() >= 60,
    ensures
        crate::bits::field(bits, 50, 10) < 1024,
        crate::bits::field(bits, 6, 1) == if bits[6] {
            1nat
        } else {
            0nat
        },
{
    crate::bits::lemma_pow2_values();
    crate::bits::lemma_bits_value(bits.subrange(50, 60));
    reveal_with_fuel(crate::bits::bits_value, 2);
    assert(bits.subrange(6, 7).drop_last() =~= Seq::<bool>::empty());
}

/// The low eight bits of a word.
fn low_byte(word: u16) -> (r: u8)
    ensures
        r == word % 256,
{
    (word % 256) as u8
}

/// Checks that ones fill the packet's last byte.
fn filled_with_ones(slice: &[u8], end: u32) -> (r: bool)
    requires
        end <= 8 * slice@.len(),
        end <= 2620,
    ensures
        r == (forall|i: int|
            end <= i < (end + 7) / 8 * 8 ==> #[trigger] crate::bits::bits_of(slice@)[i]),
{
    let ghost bits = crate::bits::bits_of(slice@);
    let mut at: u32 = end;
    while at % 8 != 0
        invariant
            end <= at <= (end + 7) / 8 * 8,
            end <= 8 * slice@.len(),
            end <= 2620,
            bits == crate::bits::bits_of(slice@),
            forall|i: int| end <= i < at ==> #[trigger] bits[i],
        decreases (end + 7) / 8 * 8 - at,
    {
        proof {
            reveal_with_fuel(crate::bits::bits_value, 2);
            assert(bits.subrange(at as int, at + 1).drop_last() =~= Seq::<bool>::empty());
            assert(bits.subrange(at as int, at + 1).last() == bits[at as int]);
        }
        match read_bits(slice, at, 1) {
            Some(1) => {},
            _ => return false,
        }
        at += 1;
    }
    true
}

/// Reads the fields before the data words, with the data count.
fn read_prefix(slice: &[u8]) -> (r: Option<(bool, u16, u16, u8, u8, u8)>)
    ensures
        r is Some <==> 8 * slice@.len() >= 60 && crate::bits::field(
            crate::bits::bits_of(slice@),
            0,
            6,
        ) == 0,
        r matches Some((c, line, offset, did, sdid, count)) ==> {
            let bits = crate::bits::bits_of(slice@);
            &&& c == bits[6]
            &&& line == crate::bits::field(bits, 7, 11)
            &&& offset == crate::bits::field(bits, 18, 12)
            &&& did == crate::bits::field(bits, 30, 10) % 256
            &&& sdid == crate::bits::field(bits, 40, 10) % 256
            &&& count == data_count_of(bits)
        },
{
    let zeroes: u16 = match read_bits(slice, 0, 6) {
        Some(v) => v,
        None => return None,
    };
    if zeroes != 0 {
        return None;
    }
    let count: u16 = match read_bits(slice, 50, 10) {
        Some(v) => v,
        None => return None,
    };
    proof {
        lemma_field_bounds(crate::bits::bits_of(slice@));
    }
    match (
        read_bits(slice, 6, 1),
        read_bits(slice, 7, 11),
        read_bits(slice, 18, 12),
        read_bits(slice, 30, 10),
        read_bits(slice, 40, 10),
    ) {
        (Some(c), Some(line), Some(offset), Some(did), Some(sdid)) => Some(
            (c == 1, line, offset, low_byte(did), low_byte(sdid), low_byte(count)),
        ),
        _ => None,
    }
}

impl AncDataHeader {
    /// Parses the header of the packet at the beginning of `slice`.
    pub fn from_slice(slice: &[u8]) -> (r: Result<AncDataHeader, InvalidPacket>)
        ensures
            r is Ok <==> is_packet(crate::bits::bits_of(slice@)),
            r matches Ok(header) ==> {
                &&& header == header_of(crate::bits::bits_of(slice@))
                &&& 0 < header.len <= slice@.len()
            },
    {
        let ghost bits = crate::bits::bits_of(slice@);
        let (c_not_y_channel_flag, line_number, horizontal_offset, did, sdid, data_count) =
            match read_prefix(slice) {
            Some(v) => v,
            None => return Err(InvalidPacket),
        };
        let at: u32 = 60 + 10 * data_count as u32;
        let checksum: u16 = match read_bits(slice, at, 10) {
            Some(v) => v,
            None => return Err(InvalidPacket),
        };
        if !filled_with_ones(slice, at + 10) {
            return Err(InvalidPacket);
        }
        let len: usize = ((at + 10 + 7) / 8) as usize;
        Ok(
            AncDataHeader {
                c_not_y_channel_flag,
                did,
                sdid,
                line_number,
                horizontal_offset,
                data_count,
                checksum,
                len,
            },
        )
    }
}

impl AncData {
    /// Parses the packet at the beginning of `slice`.
    pub fn from_slice(slice: &[u8]) -> (r: Result<AncData, InvalidPacket>)
        ensures
            r is Ok <==> is_packet(crate::bits::bits_of(slice@)),
            r matches Ok(anc) ==> {
                &&& anc.header == header_of(crate::bits::bits_of(slice@))
                &&& anc.data@ == data_of(crate::bits::bits_of(slice@))
                &&& 0 < anc.header.len <= slice@.len()
            },
    {
        let header: AncDataHeader = match AncDataHeader::from_slice(slice) {
            Ok(v) => v,
            Err(e) => return Err(e),
        };
        let data: Vec<u16> = data_words(slice, &header);
        Ok(AncData { header, data })
    }
}

/// Reads the data words of a packet whose header was parsed.
pub fn data_words(slice: &[u8], header: &AncDataHeader) -> (r: Vec<u16>)
    requires
        is_packet(crate::bits::bits_of(slice@)),
        *header == header_of(crate::bits::bits_of(slice@)),
    ensures
        r@ == data_of(crate::bits::bits_of(slice@)),
{
    let ghost bits = crate::bits::bits_of(slice@);
    proof {
        lemma_field_bounds(bits);
    }
    let mut data: Vec<u16> = Vec::new();
    let count: u32 = header.data_count as u32;
    let mut k: u32 = 0;
    while k < count
        invariant
            k <= count == data_count_of(bits),
            count < 256,
            bits == crate::bits::bits_of(slice@),
            checksum_end(count as int) <= 8 * slice@.len(),
            data@ == data_of(bits).take(k as int),
        decreases count - k,
    {
        match read_bits(slice, 60 + 10 * k, 10) {
            Some(word) => data.push(word),
            None => {
                assert(false);
            },
        }
        k += 1;
        assert(data@ =~= data_of(bits).take(k as int));
    }
    assert(data_of(bits).take(k as int) =~= data_of(bits));
    data
}

/// The data bytes of a packet whose header was parsed: its data words without their parity bits.
pub fn data_bytes(slice: &[u8], header: &AncDataHeader) -> (r: Vec<u8>)
    requires
        is_packet(crate::bits::bits_of(slice@)),
        *header == header_of(crate::bits::bits_of(slice@)),
    ensures
        r@ == data_bytes_of(crate::bits::bits_of(slice@)),
{
    let words: Vec<u16> = data_words(slice, header);
    let mut data: Vec<u8> = Vec::new();
    let mut k: usize = 0;
    while k < words.len()
        invariant
            k <= words@.len(),
            data@.len() == k,
            forall|i: int| 0 <= i < k ==> data@[i] == words@[i] % 256,
        decreases words@.len() - k,
    {
        data.push(low_byte(words[k]));
        k += 1;
    }
    assert(data@ =~= data_bytes_of(crate::bits::bits_of(slice@)));
    data
}

/// The data bytes of the packet at the beginning of `bits`.
pub open spec fn data_bytes_of(bits: Seq<bool>) -> Seq<u8> {
    data_of(bits).map_values(|w: u16| (w % 256) as u8)
}

/// The number of ones in the binary digits of `n`.
pub open spec fn ones(n: nat) -> nat
    decreases n,
{
    if n == 0 {
        0
    } else {
        n % 2 + ones(n / 2)
    }
}

/// The ten bit word for a byte: bit 8 makes the number of ones in bits 0 to 8 even, and bit 9 is
/// its opposite.
pub open spec fn parity_word(v: u8) -> u16 {
    if ones(v as nat) % 2 == 1 {
        (0x100 + v) as u16
    } else {
        (0x200 + v) as u16
    }
}

/// Extends an 8-bit value to a 10-bit ST 291 word with even/odd parity.
pub fn extend_with_even_odd_parity(v: u8) -> (r: u16)
    ensures
        r == parity_word(v),
{
    let mut rest: u8 = v;
    let mut odd: bool = false;
    while rest > 0
        invariant
            ones(v as nat) % 2 == (ones(rest as nat) + if odd {
                1nat
            } else {
                0nat
            }) % 2,
        decreases rest,
    {
        if rest % 2 == 1 {
            odd = !odd;
        }
        rest = rest / 2;
    }
    if odd {
        // Odd number of ones in v: b8 = 1, b9 = 0
        0x100 + v as u16
    } else {
        // Even number of ones in v: b8 = 0, b9 = 1
        0x200 + v as u16
    }
}

/// The sum of the nine low bits of each word.
pub open spec fn sum9(words: Seq<u16>) -> nat
    decreases words.len(),
{
    if words.len() == 0 {
        0
    } else {
        sum9(words.drop_last()) + (words.last() % 512) as nat
    }
}

/// The checksum word: the nine low bits of the sum, and the opposite of its bit 8.
pub open spec fn checksum_word(words: Seq<u16>) -> u16 {
    let sum = sum9(words) % 512;
    if sum < 256 {
        (sum + 512) as u16
    } else {
        sum as u16
    }
}

/// The words that the checksum covers: data identifiers, data count and data.
pub open spec fn covered_words(did: u8, sdid: u8, payload: Seq<u8>) -> Seq<u16> {
    seq![parity_word(did), parity_word(sdid), parity_word(payload.len() as u8)]
        + payload.map_values(|b: u8| parity_word(b))
}

/// All words of a packet.
pub open spec fn packet_words(did: u8, sdid: u8, payload: Seq<u8>) -> Seq<u16> {
    covered_words(did, sdid, payload).push(checksum_word(covered_words(did, sdid, payload)))
}

/// The fields of a packet with the given words.
pub open spec fn packet_fields(c_not_y_channel: bool, line: u16, offset: u16, words: Seq<u16>) -> Seq<
    (u32, u16),
> {
    seq![
        (6u32, 0u16),
        (
            1u32,
            if c_not_y_channel {
                1u16
            } else {
                0u16
            },
        ),
        (11u32, line),
        (12u32, offset),
    ] + words.map_values(|w: u16| (10u32, w))
}

fn fields_of(c_not_y_channel: bool, line: u16, offset: u16, words: &Vec<u16>) -> (r: Vec<(u32, u16)>)
    ensures
        r@ == packet_fields(c_not_y_channel, line, offset, words@),
        forall|i: int| 0 <= i < r@.len() ==> 0 < (#[trigger] r@[i]).0 <= 16,
{
    let c: u16 = if c_not_y_channel {
        1
    } else {
        0
    };
    let mut fields: Vec<(u32, u16)> = Vec::new();
    fields.push((6, 0));
    fields.push((1, c));
    fields.push((11, line));
    fields.push((12, offset));
    let ghost all = packet_fields(c_not_y_channel, line, offset, words@);
    assert(fields@ =~= all.take(4));
    let mut i: usize = 0;
    while i < words.len()
        invariant
            i <= words@.len(),
            all == packet_fields(c_not_y_channel, line, offset, words@),
            fields@ == all.take(4 + i),
            forall|j: int| 0 <= j < fields@.len() ==> 0 < (#[trigger] fields@[j]).0 <= 16,
        decreases words@.len() - i,
    {
        fields.push((10, words[i]));
        i += 1;
        assert(fields@ =~= all.take(4 + i));
    }
    assert(all.take(4 + i) =~= all);
    fields
}

/// Whether a packet with these numbers can be written.
pub open spec fn can_convert(line: u16, offset: u16, payload: Seq<u8>) -> bool {
    payload.len() <= 255 && line < 2048 && offset < 4096
}

/// The bits of a packet.
pub open spec fn packet(
    c_not_y_channel: bool,
    line: u16,
    offset: u16,
    did: u8,
    sdid: u8,
    payload: Seq<u8>,
) -> Seq<bool> {
    crate::bits::aligned_with_ones(
        crate::bits::fields_bits(
            packet_fields(c_not_y_channel, line, offset, packet_words(did, sdid, payload)),
        ),
    )
}

proof fn lemma_packet_fit(c: bool, line: u16, offset: u16, words: Seq<u16>)
    ensures
        crate::bits::fields_fit(packet_fields(c, line, offset, words)) <==> line < 2048 && offset
            < 4096 && forall|i: int| 0 <= i < words.len() ==> #[trigger] words[i] < 1024,
{
    let f = packet_fields(c, line, offset, words);
    crate::bits::lemma_pow2_values();
    if crate::bits::fields_fit(f) {
        assert(f[2].1 < 2048);
        assert(f[3].1 < 4096);
        assert forall|i: int| 0 <= i < words.len() implies #[trigger] words[i] < 1024 by {
            assert(f[4 + i] == (10u32, words[i]));
        }
    }
    if line < 2048 && offset < 4096 && forall|i: int|
        0 <= i < words.len() ==> #[trigger] words[i] < 1024 {
        assert forall|i: int| 0 <= i < f.len() implies (#[trigger] f[i]).1 < crate::bits::pow2(
            f[i].0 as int,
        ) by {
            if i >= 4 {
                assert(f[i] == (10u32, words[i - 4]));
            }
        }
    }
}

proof fn lemma_sum9_push(words: Seq<u16>, w: u16)
    ensures
        sum9(words.push(w)) % 512 == (sum9(words) % 512 + (w % 512) as nat) % 512,
{
    assert(words.push(w).drop_last() =~= words);
}

/// Adds a word behind the others, and to the checksum.
fn add_word(words: &mut Vec<u16>, checksum: u16, v: u8) -> (r: u16)
    requires
        checksum < 512,
        checksum as nat == sum9(old(words)@) % 512,
    ensures
        final(words)@ == old(words)@.push(parity_word(v)),
        r < 512,
        r as nat == sum9(final(words)@) % 512,
{
    let val: u16 = extend_with_even_odd_parity(v);
    proof {
        lemma_sum9_push(words@, val);
    }
    words.push(val);
    (checksum + val % 512) % 512
}

/// The words of a packet.
fn words_of(did: u8, sdid: u8, payload: &[u8]) -> (r: Vec<u16>)
    requires
        payload@.len() <= 255,
    ensures
        r@ == packet_words(did, sdid, payload@),
        forall|j: int| 0 <= j < r@.len() ==> #[trigger] r@[j] < 1024,
{
    // See Section 6.7 of ST-291 on Checksum Word.
    //
    // In 10-bit applications, the checksum value shall be equal to
    // the nine least significant bits of the sum of the nine least
    // significant bits of the DID, SDID, DC and UDW.
    let mut words: Vec<u16> = Vec::new();
    let mut checksum: u16 = add_word(&mut words, 0, did);
    checksum = add_word(&mut words, checksum, sdid);
    checksum = add_word(&mut words, checksum, payload.len() as u8);
    let ghost all = covered_words(did, sdid, payload@);
    assert(words@ =~= all.take(3));
    let mut i: usize = 0;
    while i < payload.len()
        invariant
            i <= payload@.len() <= 255,
            all == covered_words(did, sdid, payload@),
            words@ == all.take(3 + i),
            checksum < 512,
            checksum as nat == sum9(words@) % 512,
        decreases payload@.len() - i,
    {
        checksum = add_word(&mut words, checksum, payload[i]);
        i += 1;
        assert(words@ =~= all.take(3 + i));
    }
    assert(all.take(3 + i) =~= all);
    // b9 = NOT b8 (ST 291 checksum word)
    if checksum < 256 {
        checksum = checksum + 512;
    }
    words.push(checksum);
    words
}

/// Encodes the payload as one packet.
pub fn convert_to_st2038_buffer(
    c_not_y_channel: bool,
    line_number: u16,
    horizontal_offset: u16,
    did: u8,
    sdid: u8,
    payload: &[u8],
) -> (r: Result<Vec<u8>, PacketError>)
    ensures
        r is Ok <==> can_convert(line_number, horizontal_offset, payload@),
        r matches Ok(bytes) ==> crate::bits::bits_of(bytes@) == packet(
            c_not_y_channel,
            line_number,
            horizontal_offset,
            did,
            sdid,
            payload@,
        ),
        r matches Err(e) ==> e == if payload@.len() > 255 {
            PacketError::TooLong
        } else {
            PacketError::OutOfRange
        },
{
    if payload.len() > 255 {
        return Err(PacketError::TooLong);
    }
    let words: Vec<u16> = words_of(did, sdid, payload);
    proof {
        lemma_packet_fit(c_not_y_channel, line_number, horizontal_offset, words@);
    }
    let fields: Vec<(u32, u16)> = fields_of(
        c_not_y_channel,
        line_number,
        horizontal_offset,
        &words,
    );
    let (bytes, ok) = write_fields(&fields);
    if ok {
        Ok(bytes)
    } else {
        Err(PacketError::OutOfRange)
    }
}

/// The words of a packet that is kept beside a video frame.
pub open spec fn meta_words(meta: AncillaryMeta) -> Seq<u16> {
    seq![meta.did, meta.sdid_block_number, meta.data_count] + meta.data@ + seq![meta.checksum]
}

/// The fields of a packet that is kept beside a video frame.
pub open spec fn meta_fields(meta: AncillaryMeta) -> Seq<(u32, u16)> {
    packet_fields(meta.c_not_y_channel, meta.line, meta.offset, meta_words(meta))
}

/// Appends a packet that is kept beside a video frame.
///
/// A word that does not fit in ten bits ends the writing: the whole bytes of what was written
/// before it are left behind the buffer's own.
pub fn to_st2038_with_10bit(st2038_buffer: &mut Vec<u8>, meta: &AncillaryMeta) -> (r: Result<
    (),
    PacketError,
>)
    ensures
        r is Ok <==> meta.data@.len() <= 255 && crate::bits::fields_fit(meta_fields(*meta)),
        r matches Err(e) ==> e == if meta.data@.len() > 255 {
            PacketError::TooLong
        } else {
            PacketError::OutOfRange
        },
        meta.data@.len() > 255 ==> final(st2038_buffer)@ == old(st2038_buffer)@,
        meta.data@.len() <= 255 ==> {
            let n = old(st2038_buffer)@.len() as int;
            &&& n <= final(st2038_buffer)@.len()
            &&& final(st2038_buffer)@.take(n) == old(st2038_buffer)@
            &&& crate::bits::bits_of(final(st2038_buffer)@.skip(n)) == if r is Ok {
                crate::bits::aligned_with_ones(crate::bits::fields_bits(meta_fields(*meta)))
            } else {
                crate::bits::whole_bytes(crate::bits::fields_bits(meta_fields(*meta)))
            }
        },
{
    if meta.data.len() > 255 {
        return Err(PacketError::TooLong);
    }
    let mut words: Vec<u16> = Vec::new();
    words.push(meta.did);
    words.push(meta.sdid_block_number);
    words.push(meta.data_count);
    let mut i: usize = 0;
    assert(words@ =~= meta_words(*meta).take(3));
    while i < meta.data.len()
        invariant
            i <= meta.data@.len(),
            words@ == meta_words(*meta).take(3 + i),
        decreases meta.data@.len() - i,
    {
        words.push(meta.data[i]);
        i += 1;
        assert(words@ =~= meta_words(*meta).take(3 + i));
    }
    words.push(meta.checksum);
    assert(words@ =~= meta_words(*meta));
    let fields: Vec<(u32, u16)> = fields_of(meta.c_not_y_channel, meta.line, meta.offset, &words);
    let (bytes, ok) = write_fields(&fields);
    crate::text::push_bytes(st2038_buffer, bytes.as_slice());
    proof {
        let n = old(st2038_buffer)@.len() as int;
        assert(st2038_buffer@.take(n) =~= old(st2038_buffer)@);
        assert(st2038_buffer@.skip(n) =~= bytes@);
    }
    if ok {
        Ok(())
    } else {
        Err(PacketError::OutOfRange)
    }
}

/// The words to keep beside a video frame for a packet. The parity bits of the identifiers and
/// of the data count are restored.
pub fn ancillary_meta(anc: AncData) -> (r: AncillaryMeta)
    ensures
        r.c_not_y_channel == anc.header.c_not_y_channel_flag,
        r.line == anc.header.line_number,
        r.offset == anc.header.horizontal_offset,
        r.did == parity_word(anc.header.did),
        r.sdid_block_number == parity_word(anc.header.sdid),
        r.data_count == parity_word((anc.data@.len() % 256) as u8),
        r.data@ == anc.data@,
        r.checksum == anc.header.checksum,
{
    let count: u8 = (anc.data.len() % 256) as u8;
    AncillaryMeta {
        c_not_y_channel: anc.header.c_not_y_channel_flag,
        line: anc.header.line_number,
        offset: anc.header.horizontal_offset,
        did: extend_with_even_odd_parity(anc.header.did),
        sdid_block_number: extend_with_even_odd_parity(anc.header.sdid),
        data_count: extend_with_even_odd_parity(count),
        data: anc.data,
        checksum: anc.header.checksum,
    }
}

/// The fields of a packet before its words take 30 bits, and each word takes ten.
proof fn lemma_packet_width(c: bool, line: u16, offset: u16, words: Seq<u16>, k: int)
    requires
        0 <= k <= words.len(),
    ensures
        crate::bits::width(packet_fields(c, line, offset, words).take(4 + k)) == 30 + 10 * k,
        crate::bits::width(packet_fields(c, line, offset, words).take(0)) == 0,
        crate::bits::width(packet_fields(c, line, offset, words).take(1)) == 6,
        crate::bits::width(packet_fields(c, line, offset, words).take(2)) == 7,
        crate::bits::width(packet_fields(c, line, offset, words).take(3)) == 18,
    decreases k,
{
    let f = packet_fields(c, line, offset, words);
    reveal_with_fuel(crate::bits::width, 6);
    assert(f.take(4).drop_first().drop_first().drop_first().drop_first() =~= Seq::<
        (u32, u16),
    >::empty());
    assert(f.take(3).drop_first().drop_first().drop_first() =~= Seq::<(u32, u16)>::empty());
    assert(f.take(2).drop_first().drop_first() =~= Seq::<(u32, u16)>::empty());
    assert(f.take(1).drop_first() =~= Seq::<(u32, u16)>::empty());
    if k > 0 {
        lemma_packet_width(c, line, offset, words, k - 1);
        lemma_width_push(f.take(4 + k - 1), f[4 + k - 1]);
        assert(f.take(4 + k) =~= f.take(4 + k - 1).push(f[4 + k - 1]));
    }
}

proof fn lemma_width_push(f: Seq<(u32, u16)>, x: (u32, u16))
    ensures
        crate::bits::width(f.push(x)) == crate::bits::width(f) + x.0,
    decreases f.len(),
{
    reveal_with_fuel(crate::bits::width, 2);
    if f.len() == 0 {
        assert(f.push(x).drop_first() =~= Seq::<(u32, u16)>::empty());
    } else {
        assert(f.push(x).drop_first() =~= f.drop_first().push(x));
        lemma_width_push(f.drop_first(), x);
    }
}

/// The bits of the field `k` are those of the padded packet at the same place.
proof fn lemma_packet_field(c: bool, line: u16, offset: u16, words: Seq<u16>, k: int)
    requires
        crate::bits::fields_fit(packet_fields(c, line, offset, words)),
        0 <= k < 4 + words.len(),
    ensures
        ({
            let f = packet_fields(c, line, offset, words);
            let raw = crate::bits::fields_bits(f);
            let bits = crate::bits::aligned_with_ones(raw);
            &&& raw.len() == 30 + 10 * words.len()
            &&& crate::bits::field(bits, crate::bits::width(f.take(k)), f[k].0 as int) == f[k].1
        }),
{
    let f = packet_fields(c, line, offset, words);
    let raw = crate::bits::fields_bits(f);
    let bits = crate::bits::aligned_with_ones(raw);
    crate::bits::lemma_field_at(f, k);
    lemma_packet_width(c, line, offset, words, words.len() as int);
    crate::bits::lemma_fields_add(f, Seq::empty());
    assert(f.take(4 + words.len() as int) =~= f);
    let at = crate::bits::width(f.take(k));
    assert(bits.subrange(at, at + f[k].0) =~= raw.subrange(at, at + f[k].0));
}

/// The bits of a packet whose fields fit.
#[verifier::opaque]
spec fn padded(c: bool, line: u16, offset: u16, words: Seq<u16>) -> Seq<bool> {
    crate::bits::aligned_with_ones(crate::bits::fields_bits(packet_fields(c, line, offset, words)))
}

proof fn lemma_packet_word(c: bool, line: u16, offset: u16, words: Seq<u16>, k: int)
    requires
        crate::bits::fields_fit(packet_fields(c, line, offset, words)),
        0 <= k < words.len(),
    ensures
        crate::bits::field(padded(c, line, offset, words), 30 + 10 * k, 10) == words[k],
{
    reveal(padded);
    lemma_packet_field(c, line, offset, words, 4 + k);
    lemma_packet_width(c, line, offset, words, k);
    assert(packet_fields(c, line, offset, words)[4 + k] == (10u32, words[k]));
}

proof fn lemma_packet_head(c: bool, line: u16, offset: u16, words: Seq<u16>)
    requires
        crate::bits::fields_fit(packet_fields(c, line, offset, words)),
        words.len() >= 3,
    ensures
        ({
            let bits = padded(c, line, offset, words);
            let end = 30 + 10 * words.len();
            &&& bits.len() == (end + 7) / 8 * 8
            &&& forall|i: int| end <= i < bits.len() ==> #[trigger] bits[i]
            &&& crate::bits::field(bits, 0, 6) == 0
            &&& bits[6] == c
            &&& crate::bits::field(bits, 7, 11) == line
            &&& crate::bits::field(bits, 18, 12) == offset
        }),
{
    reveal(padded);
    let bits = padded(c, line, offset, words);
    lemma_packet_width(c, line, offset, words, 0);
    lemma_packet_field(c, line, offset, words, 0);
    lemma_packet_field(c, line, offset, words, 1);
    lemma_packet_field(c, line, offset, words, 2);
    lemma_packet_field(c, line, offset, words, 3);
    lemma_field_bounds(bits);
}

/// Bits whose fields hold the given values are a packet with these values.
proof fn lemma_read_back(bits: Seq<bool>, c: bool, line: u16, offset: u16, words: Seq<u16>)
    requires
        4 <= words.len() <= 259,
        words[2] % 256 == words.len() - 4,
        bits.len() == (30 + 10 * words.len() + 7) / 8 * 8,
        forall|i: int| 30 + 10 * words.len() <= i < bits.len() ==> #[trigger] bits[i],
        crate::bits::field(bits, 0, 6) == 0,
        bits[6] == c,
        crate::bits::field(bits, 7, 11) == line,
        crate::bits::field(bits, 18, 12) == offset,
        crate::bits::field(bits, 30, 10) == words[0],
        crate::bits::field(bits, 40, 10) == words[1],
        crate::bits::field(bits, 50, 10) == words[2],
        crate::bits::field(bits, 30 + 10 * (words.len() - 1), 10) == words.last(),
    ensures
        is_packet(bits),
        data_count_of(bits) == words.len() - 4,
        bits.len() == packet_bits(words.len() - 4),
        header_of(bits) == (AncDataHeader {
            c_not_y_channel_flag: c,
            did: (words[0] % 256) as u8,
            sdid: (words[1] % 256) as u8,
            line_number: line,
            horizontal_offset: offset,
            data_count: (words.len() - 4) as u8,
            checksum: words.last(),
            len: (bits.len() / 8) as usize,
        }),
{
    let n = words.len() - 4;
    assert(data_count_of(bits) == n);
    assert(60 + 10 * n == 30 + 10 * (words.len() - 1));
}

proof fn lemma_packet_words(did: u8, sdid: u8, payload: Seq<u8>)
    requires
        payload.len() <= 255,
    ensures
        ({
            let words = packet_words(did, sdid, payload);
            &&& words.len() == 4 + payload.len()
            &&& words[0] == parity_word(did)
            &&& words[1] == parity_word(sdid)
            &&& words[2] == parity_word(payload.len() as u8)
            &&& words.last() == checksum_word(covered_words(did, sdid, payload))
            &&& forall|k: int|
                0 <= k < payload.len() ==> words[3 + k] == #[trigger] parity_word(payload[k])
            &&& forall|i: int| 0 <= i < words.len() ==> #[trigger] words[i] < 1024
        }),
{
    let words = packet_words(did, sdid, payload);
    assert forall|i: int| 0 <= i < words.len() implies #[trigger] words[i] < 1024 by {
        if 3 <= i < 3 + payload.len() {
            assert(words[i] == parity_word(payload[i - 3]));
        }
    }
}

/// The word `k` of a packet.
spec fn word_at(bits: Seq<bool>, k: int) -> nat {
    crate::bits::field(bits, 30 + 10 * k, 10)
}

proof fn lemma_data_back(bits: Seq<bool>, words: Seq<u16>, payload: Seq<u8>)
    requires
        data_count_of(bits) == payload.len(),
        words.len() == payload.len() + 4,
        forall|k: int| 0 <= k < words.len() ==> #[trigger] word_at(bits, k) == words[k],
        forall|k: int|
            0 <= k < payload.len() ==> words[3 + k] == #[trigger] parity_word(payload[k]),
    ensures
        data_of(bits) == payload.map_values(|b: u8| parity_word(b)),
        data_bytes_of(bits) == payload,
{
    assert forall|k: int| 0 <= k < payload.len() implies #[trigger] data_of(bits)[k]
        == parity_word(payload[k]) by {
        assert(word_at(bits, 3 + k) == words[3 + k]);
        assert(60 + 10 * k == 30 + 10 * (3 + k));
    }
    assert(data_of(bits) =~= payload.map_values(|b: u8| parity_word(b)));
    assert(data_bytes_of(bits) =~= payload);
}

proof fn lemma_all_words(c: bool, line: u16, offset: u16, words: Seq<u16>)
    requires
        crate::bits::fields_fit(packet_fields(c, line, offset, words)),
    ensures
        forall|k: int|
            0 <= k < words.len() ==> #[trigger] word_at(padded(c, line, offset, words), k)
                == words[k],
{
    assert forall|k: int| 0 <= k < words.len() implies #[trigger] word_at(
        padded(c, line, offset, words),
        k,
    ) == words[k] by {
        lemma_packet_word(c, line, offset, words, k);
    }
}

proof fn lemma_packet_is_padded(
    c: bool,
    line: u16,
    offset: u16,
    did: u8,
    sdid: u8,
    payload: Seq<u8>,
)
    ensures
        packet(c, line, offset, did, sdid, payload) == padded(
            c,
            line,
            offset,
            packet_words(did, sdid, payload),
        ),
{
    reveal(padded);
}

/// The bits of a packet read back.
proof fn lemma_padded_reads_back(
    c: bool,
    line: u16,
    offset: u16,
    did: u8,
    sdid: u8,
    payload: Seq<u8>,
    bits: Seq<bool>,
)
    requires
        can_convert(line, offset, payload),
        bits == padded(c, line, offset, packet_words(did, sdid, payload)),
    ensures
        is_packet(bits),
        bits.len() == packet_bits(payload.len() as int),
        header_of(bits) == (AncDataHeader {
            c_not_y_channel_flag: c,
            did,
            sdid,
            line_number: line,
            horizontal_offset: offset,
            data_count: payload.len() as u8,
            checksum: checksum_word(covered_words(did, sdid, payload)),
            len: (bits.len() / 8) as usize,
        }),
        data_of(bits) == payload.map_values(|b: u8| parity_word(b)),
        data_bytes_of(bits) == payload,
{
    let words = packet_words(did, sdid, payload);
    lemma_packet_words(did, sdid, payload);
    lemma_packet_fit(c, line, offset, words);
    lemma_packet_head(c, line, offset, words);
    lemma_all_words(c, line, offset, words);
    assert(word_at(bits, 0) == words[0] && word_at(bits, 1) == words[1] && word_at(bits, 2)
        == words[2] && word_at(bits, words.len() - 1) == words.last());
    lemma_read_back(bits, c, line, offset, words);
    lemma_data_back(bits, words, payload);
}

/// What was encoded reads back: the header of an encoded packet names what it was made from, its
/// data bytes are the payload, and the packet takes up all the bytes.
#[verifier::spinoff_prover]
pub proof fn law_packet_round_trip(
    c_not_y_channel: bool,
    line: u16,
    offset: u16,
    did: u8,
    sdid: u8,
    payload: Seq<u8>,
)
    requires
        can_convert(line, offset, payload),
    ensures
        ({
            let bits = packet(c_not_y_channel, line, offset, did, sdid, payload);
            &&& is_packet(bits)
            &&& bits.len() == packet_bits(payload.len() as int)
            &&& header_of(bits) == (AncDataHeader {
                c_not_y_channel_flag: c_not_y_channel,
                did,
                sdid,
                line_number: line,
                horizontal_offset: offset,
                data_count: payload.len() as u8,
                checksum: checksum_word(covered_words(did, sdid, payload)),
                len: (bits.len() / 8) as usize,
            })
            &&& data_of(bits) == payload.map_values(|b: u8| parity_word(b))
            &&& data_bytes_of(bits) == payload
        }),
{
    let bits = packet(c_not_y_channel, line, offset, did, sdid, payload);
    lemma_packet_is_padded(c_not_y_channel, line, offset, did, sdid, payload);
    lemma_padded_reads_back(c_not_y_channel, line, offset, did, sdid, payload, bits);
}

/// The low eight bits of a word are the byte, bits 0 to 8 hold an even number of ones, and bit 9
/// is the opposite of bit 8.
pub proof fn law_parity_word(v: u8)
    ensures
        parity_word(v) % 256 == v,
        ones((parity_word(v) % 512) as nat) % 2 == 0,
        (parity_word(v) / 512) % 2 == 1 - (parity_word(v) / 256) % 2,
{
    if ones(v as nat) % 2 == 1 {
        assert(parity_word(v) % 512 == 256 + v);
        crate::bits::lemma_pow2_values();
        lemma_ones_high_bit(v as nat, 8);
    } else {
        assert(parity_word(v) % 512 == v);
    }
}

/// A further bit on the left is one more one.
proof fn lemma_ones_high_bit(v: nat, n: nat)
    requires
        v < crate::bits::pow2(n as int),
    ensures
        ones((crate::bits::pow2(n as int) + v) as nat) == ones(v) + 1,
    decreases n,
{
    reveal_with_fuel(ones, 2);
    if n > 0 {
        let high = crate::bits::pow2(n as int);
        let half = crate::bits::pow2(n - 1);
        assert(high == 2 * half);
        lemma_ones_high_bit(v / 2, (n - 1) as nat);
        assert((high + v) / 2 == half + v / 2);
        assert((high + v) % 2 == v % 2);
    }
}

/// The checksum word keeps the rule for its two top bits as well.
pub proof fn law_checksum_word(words: Seq<u16>)
    ensures
        checksum_word(words) % 512 == sum9(words) % 512,
        (checksum_word(words) / 512) % 2 == 1 - (checksum_word(words) / 256) % 2,
{
}

/// The header of the packet at `at`. There is none at the end, at stuffing, and where something
/// else than a packet stands.
pub open spec fn header_at(s: Seq<u8>, at: int) -> Option<AncDataHeader> {
    if 0 <= at < s.len() && s[at] != 0xff && is_packet(crate::bits::bits_of(s.skip(at))) {
        Some(header_of(crate::bits::bits_of(s.skip(at))))
    } else {
        None
    }
}

/// Parses the header of the packet at `at`.
pub fn parse_header_at(s: &[u8], at: usize) -> (r: Option<AncDataHeader>)
    requires
        at <= s@.len(),
    ensures
        r == header_at(s@, at as int),
        r matches Some(header) ==> 0 < header.len <= s@.len() - at,
{
    if at >= s.len() || s[at] == 0xff {
        return None;
    }
    let slice: &[u8] = &s[at..s.len()];
    assert(slice@ =~= s@.skip(at as int));
    match AncDataHeader::from_slice(slice) {
        Ok(header) => Some(header),
        Err(_) => None,
    }
}

/// A packet lies within the bytes that it was found in.
pub proof fn lemma_header_at(s: Seq<u8>, at: int)
    ensures
        header_at(s, at) matches Some(h) ==> 0 < h.len <= s.len() - at && h.horizontal_offset
            < 4096 && h.line_number < 2048,
{
    if header_at(s, at) is Some {
        let bits = crate::bits::bits_of(s.skip(at));
        crate::bits::lemma_pow2_values();
        crate::bits::lemma_bits_value(bits.subrange(7, 18));
        crate::bits::lemma_bits_value(bits.subrange(18, 30));
        crate::bits::lemma_bits_value(bits.subrange(50, 60));
    }
}

/// A packet begins with a byte that is no stuffing.
pub proof fn lemma_first_byte(s: Seq<u8>)
    requires
        is_packet(crate::bits::bits_of(s)),
    ensures
        s[0] != 0xff,
{
    let bits = crate::bits::bits_of(s);
    if s[0] == 0xff {
        let zeroes = bits.subrange(0, 6);
        reveal_with_fuel(crate::bits::bits_value, 2);
        assert(crate::bits::pow2(2) == 4) by {
            reveal_with_fuel(crate::bits::pow2, 3);
        }
        assert(bits[5] == crate::bits::bit_of(s[0], 5));
        assert(zeroes.last() == bits[5]);
    }
}

} // verus!
