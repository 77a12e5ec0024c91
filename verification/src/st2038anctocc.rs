//! Unpacking of captions from ancillary data.
use crate::cctost2038anc::Format;
use crate::st2038anc_utils::{data_bytes, parse_header_at, AncDataHeader};
use vstd::prelude::*;

verus! {

/// Converts ancillary data packets to captions.
#[derive(Clone, Copy, Debug, PartialEq, Eq, Structural)]
pub struct St2038AncToCc {
    /// Whether CEA-608 captions were put out before.
    pub has_cea608: bool,
    /// Whether CEA-708 captions were put out before.
    pub has_cea708: bool,
}

/// Captions that were found in a packet.
#[derive(Debug)]
pub struct Captions {
    pub format: Format,
    /// Whether these are the first captions of their kind.
    pub first: bool,
    pub payload: Vec<u8>,
    /// Where the next packet begins.
    pub next: usize,
}

/// The kind of captions that a packet holds, if it holds captions.
pub open spec fn caption_format(header: AncDataHeader) -> Option<Format> {
    if header.did == 0x61 && header.sdid == 0x01 {
        Some(Format::Cea708)
    } else if header.did == 0x61 && header.sdid == 0x02 {
        Some(Format::Cea608)
    } else {
        None
    }
}

/// Where the first packet with captions from `at` on begins. Other packets are passed over.
pub open spec fn next_captions(s: Seq<u8>, at: int) -> Option<int>
    decreases s.len() - at,
{
    match crate::st2038anc_utils::header_at(s, at) {
        Some(header) => if caption_format(header) is Some {
            Some(at)
        } else if 0 < header.len {
            next_captions(s, at + header.len)
        } else {
            None
        },
        None => None,
    }
}

impl St2038AncToCc {
    /// A converter that put nothing out yet.
    pub fn new() -> (r: St2038AncToCc)
        ensures
            !r.has_cea608 && !r.has_cea708,
    {
        St2038AncToCc { has_cea608: false, has_cea708: false }
    }

    /// Whether captions of a kind were put out before.
    pub open spec fn has(&self, format: Format) -> bool {
        match format {
            Format::Cea608 => self.has_cea608,
            Format::Cea708 => self.has_cea708,
        }
    }

    /// Finds the next captions from `at` on. The end of the bytes, stuffing and bytes that are no
    /// packet end the search.
    pub fn next(&mut self, data: &[u8], at: usize) -> (r: Option<Captions>)
        requires
            at <= data@.len(),
        ensures
            r is Some <==> next_captions(data@, at as int) is Some,
            r is None ==> *final(self) == *old(self),
            r matches Some(c) ==> {
                let start = next_captions(data@, at as int)->0;
                let header = crate::st2038anc_utils::header_at(data@, start)->0;
                &&& Some(c.format) == caption_format(header)
                &&& c.first == !old(self).has(c.format)
                &&& c.payload@ == crate::st2038anc_utils::data_bytes_of(
                    crate::bits::bits_of(data@.skip(start)),
                )
                &&& c.next == start + header.len
                &&& at < c.next <= data@.len()
                &&& final(self).has_cea608 == (old(self).has_cea608 || c.format == Format::Cea608)
                &&& final(self).has_cea708 == (old(self).has_cea708 || c.format == Format::Cea708)
            },
    {
        let len: usize = data.len();
        let mut start: usize = at;
        loop
            invariant
                at <= start <= data@.len() == len,
                *self == *old(self),
                next_captions(data@, at as int) == next_captions(data@, start as int),
            decreases data@.len() - start,
        {
            let header: AncDataHeader = match parse_header_at(data, start) {
                Some(v) => v,
                None => return None,
            };
            let next: usize = start + header.len;
            if header.did == 0x61 && (header.sdid == 0x01 || header.sdid == 0x02) {
                let slice: &[u8] = &data[start..data.len()];
                assert(slice@ =~= data@.skip(start as int));
                let payload: Vec<u8> = data_bytes(slice, &header);
                if header.sdid == 0x01 {
                    let first: bool = !self.has_cea708;
                    self.has_cea708 = true;
                    return Some(Captions { format: Format::Cea708, first, payload, next });
                } else {
                    let first: bool = !self.has_cea608;
                    self.has_cea608 = true;
                    return Some(Captions { format: Format::Cea608, first, payload, next });
                }
            }
            start = next;
        }
    }
}

/// Captions that were packed are found again, and nothing else with them.
pub proof fn law_captions_round_trip(
    bytes: Seq<u8>,
    c_not_y_channel: bool,
    line: u16,
    offset: u16,
    format: Format,
    data: Seq<u8>,
)
    requires
        crate::st2038anc_utils::can_convert(line, offset, data),
        crate::bits::bits_of(bytes) == crate::st2038anc_utils::packet(
            c_not_y_channel,
            line,
            offset,
            0x61,
            crate::cctost2038anc::sdid_of(format),
            data,
        ),
    ensures
        next_captions(bytes, 0) == Some(0int),
        caption_format(crate::st2038anc_utils::header_at(bytes, 0)->0) == Some(format),
        crate::st2038anc_utils::data_bytes_of(crate::bits::bits_of(bytes.skip(0))) == data,
        (crate::st2038anc_utils::header_at(bytes, 0)->0).len == bytes.len(),
{
    let sdid = crate::cctost2038anc::sdid_of(format);
    crate::st2038anc_utils::law_packet_round_trip(
        c_not_y_channel,
        line,
        offset,
        0x61,
        sdid,
        data,
    );
    let bits = crate::bits::bits_of(bytes);
    assert(bytes.skip(0) =~= bytes);
    assert(bytes[0] != 0xff) by {
        crate::st2038anc_utils::lemma_first_byte(bytes);
    }
}

} // verus!
