//! Merging of CEA-708 caption streams into one.
use crate::clock::{FlowError, Framerate};
use crate::dtvcc::{
    add_header, cea608_pairs, clone_code, codes_of_service, flush_parser, handle_cea608,
    new_packet, new_parser, new_service, new_writer, number_of_service, pop_packet,
    push_all_cea608, push_cc_data, push_code, push_packet, push_service,
    services_of_packet, set_output_cea608_padding, set_output_padding, write_frame, Cea608Pair,
    PacketView, ServiceView,
};
use crate::text::same_bytes;
use cea708_types::tables::Code;
use cea708_types::{CCDataParser, CCDataWriter, DTVCCPacket, Service};
use vstd::prelude::*;

verus! {

/// How many services there can be, with the null service.
pub const SERVICES: usize = 64;

/// How captions are carried.
#[derive(Clone, Copy, Debug, PartialEq, Eq, Structural)]
pub enum CeaFormat {
    S334_1a,
    Cea608Field0,
    Cea608Field1,
    CcData,
    Cdp,
}

/// Why a format is not known.
#[derive(Clone, Copy, Debug, PartialEq, Eq, Structural)]
pub enum UnknownFormat {
    Name,
    Format,
    Field,
}

/// What the field of a format says.
#[derive(Clone, Copy, Debug, PartialEq, Eq, Structural)]
pub enum Field {
    Missing,
    NoNumber,
    Number(i32),
}

/// The format with the given name and fields.
pub open spec fn format_of(name: Seq<u8>, format: Option<Seq<u8>>, field: Field) -> Result<
    CeaFormat,
    UnknownFormat,
> {
    if name == crate::text::text("closedcaption/x-cea-608") {
        if format == Some(crate::text::text("raw")) {
            match field {
                Field::Missing => Ok(CeaFormat::Cea608Field0),
                Field::Number(0) => Ok(CeaFormat::Cea608Field0),
                Field::Number(1) => Ok(CeaFormat::Cea608Field1),
                _ => Err(UnknownFormat::Field),
            }
        } else if format == Some(crate::text::text("s334-1a")) {
            Ok(CeaFormat::S334_1a)
        } else {
            Err(UnknownFormat::Format)
        }
    } else if name == crate::text::text("closedcaption/x-cea-708") {
        if format == Some(crate::text::text("cdp")) {
            Ok(CeaFormat::Cdp)
        } else if format == Some(crate::text::text("cc_data")) {
            Ok(CeaFormat::CcData)
        } else {
            Err(UnknownFormat::Format)
        }
    } else {
        Err(UnknownFormat::Name)
    }
}

fn is_text(value: Option<&[u8]>, t: &str) -> (r: bool)
    ensures
        r == (value is Some && value->0@ == crate::text::text(t)),
{
    match value {
        Some(v) => same_bytes(v, t.as_bytes()),
        None => false,
    }
}

impl CeaFormat {
    /// The format with the given name and fields.
    pub fn from_caps(name: &[u8], format: Option<&[u8]>, field: Field) -> (r: Result<
        CeaFormat,
        UnknownFormat,
    >)
        ensures
            r == format_of(
                name@,
                match format {
                    Some(f) => Some(f@),
                    None => None,
                },
                field,
            ),
    {
        if same_bytes(name, "closedcaption/x-cea-608".as_bytes()) {
            if is_text(format, "raw") {
                match field {
                    Field::Missing => Ok(CeaFormat::Cea608Field0),
                    Field::Number(n) => if n == 0 {
                        Ok(CeaFormat::Cea608Field0)
                    } else if n == 1 {
                        Ok(CeaFormat::Cea608Field1)
                    } else {
                        Err(UnknownFormat::Field)
                    },
                    Field::NoNumber => Err(UnknownFormat::Field),
                }
            } else if is_text(format, "s334-1a") {
                Ok(CeaFormat::S334_1a)
            } else {
                Err(UnknownFormat::Format)
            }
        } else if same_bytes(name, "closedcaption/x-cea-708".as_bytes()) {
            if is_text(format, "cdp") {
                Ok(CeaFormat::Cdp)
            } else if is_text(format, "cc_data") {
                Ok(CeaFormat::CcData)
            } else {
                Err(UnknownFormat::Format)
            }
        } else {
            Err(UnknownFormat::Name)
        }
    }
}

/// The time of a frame.
#[derive(Clone, Copy, Debug, PartialEq, Eq, Structural)]
pub struct Window {
    pub start: u64,
    pub end: u64,
}

/// What stands at the head of an input.
#[derive(Clone, Debug)]
pub enum Head {
    /// No more data will come.
    Eos,
    /// There is no data yet.
    Empty,
    /// The data has no time at all.
    NoTimeFormat,
    /// A buffer whose running time is not known.
    Untimed,
    /// A buffer with its running time. It may be that its bytes cannot be read.
    Buffer { start: u64, duration: Option<u64>, data: Option<Vec<u8>> },
}

/// What is kept for an input.
pub struct Cea708MuxSinkPad {
    pub format: CeaFormat,
    pub ccp_parser: CCDataParser,
    /// The codes of each service that were left over.
    pub pending_services: Vec<Vec<Code>>,
    /// Whether a buffer was taken for the next frame.
    pub pending_buffer: bool,
}

/// What came of a look at the inputs.
#[derive(Debug)]
pub struct Collected {
    /// Whether the buffer at the head of each input was taken. After an error the inputs behind it
    /// are missing.
    pub taken: Vec<bool>,
    /// Whether a frame can be put out.
    pub outcome: Result<(), FlowError>,
}

/// What is put out for a frame.
#[derive(Clone, Debug)]
pub enum Output {
    Buffer { data: Vec<u8>, start: u64, duration: Option<u64> },
    Gap { start: u64, length: u64 },
}

/// Merges captions.
pub struct Cea708Mux {
    pub out_format: CeaFormat,
    pub fps: Option<Framerate>,
    pub dtvcc_seq_no: u8,
    pub writer: CCDataWriter,
    pub n_frames: u64,
}

/// Whether an input stops everything.
pub open spec fn is_error(head: Head, window: Window) -> bool {
    match head {
        Head::NoTimeFormat => true,
        Head::Untimed => true,
        Head::Buffer { start, data, .. } => start < window.end && data is None,
        _ => false,
    }
}

/// Whether the buffer at the head of an input is for this frame.
pub open spec fn takes(head: Head, window: Window) -> bool {
    head matches Head::Buffer { start, data, .. } && start < window.end && data is Some
}

/// When a buffer ends.
pub open spec fn end_of(head: Head) -> int {
    head->start + match head->duration {
        Some(d) => d as int,
        None => 0,
    }
}

/// Whether an input may have more data for this frame.
pub open spec fn needs_data(head: Head, window: Window) -> bool {
    head is Empty || (takes(head, window) && end_of(head) < window.start)
}

/// The caption packet at the head of an input.
pub open spec fn packet_at(head: Head) -> Seq<u8> {
    crate::dtvcc::with_header(head->data->0@)
}

/// How many inputs come before the first one that stops everything.
pub open spec fn before_error(heads: Seq<Head>, window: Window) -> int
    decreases heads.len(),
{
    if heads.len() == 0 {
        0
    } else if is_error(heads[0], window) {
        0
    } else {
        1 + before_error(heads.drop_first(), window)
    }
}

/// What is kept for an input once its head was looked at.
pub open spec fn is_collected(was: Cea708MuxSinkPad, now: Cea708MuxSinkPad, head: Head, window: Window) -> bool {
    &&& now.format == was.format
    &&& now.pending_services == was.pending_services
    &&& now.pending_buffer == (was.pending_buffer || takes(head, window))
    &&& crate::dtvcc::parser_view(now.ccp_parser) == if takes(head, window) {
        crate::dtvcc::pushed(crate::dtvcc::parser_view(was.ccp_parser), packet_at(head))
    } else {
        crate::dtvcc::parser_view(was.ccp_parser)
    }
}

/// The CEA-608 pairs of an input for this frame.
pub open spec fn pairs_at(was: Cea708MuxSinkPad, head: Head, window: Window) -> Seq<Cea608Pair> {
    if takes(head, window) && crate::dtvcc::parser_view(was.ccp_parser).cea608 is Some {
        crate::dtvcc::cea608_of(packet_at(head))
    } else {
        Seq::empty()
    }
}

/// The CEA-608 pairs of the first `n` inputs for this frame.
pub open spec fn all_pairs(pads: Seq<Cea708MuxSinkPad>, heads: Seq<Head>, window: Window, n: int) -> Seq<
    Cea608Pair,
>
    decreases n,
{
    if n <= 0 {
        Seq::empty()
    } else {
        all_pairs(pads, heads, window, n - 1) + pairs_at(pads[n - 1], heads[n - 1], window)
    }
}

/// How many codes fit in a service block behind those that it has.
pub open spec fn fit_count(have: Seq<Code>, more: Seq<Code>) -> nat
    decreases more.len(),
{
    if more.len() == 0 {
        0
    } else if crate::dtvcc::code_len(more[0]) + crate::dtvcc::codes_len(have)
        <= crate::dtvcc::MAX_SERVICE_LEN {
        1 + fit_count(have.push(more[0]), more.drop_first())
    } else {
        0
    }
}

/// The codes of all services: those that go out, and those of an input that are left over.
pub struct Codes {
    pub out: Seq<Seq<Code>>,
    pub pending: Seq<Seq<Code>>,
}

/// Adds codes to a service. What is left over from earlier comes first. What does not fit is left
/// over for later.
pub open spec fn add_codes(codes: Codes, number: int, more: Seq<Code>) -> Codes {
    if number == 0 {
        codes
    } else {
        let all = codes.pending[number] + more;
        let n = fit_count(codes.out[number], all) as int;
        Codes {
            out: codes.out.update(number, codes.out[number] + all.take(n)),
            pending: codes.pending.update(number, all.skip(n)),
        }
    }
}

/// Adds the first `n` service blocks.
pub open spec fn add_services(codes: Codes, services: Seq<ServiceView>, n: int) -> Codes
    decreases n,
{
    if n <= 0 {
        codes
    } else {
        add_codes(
            add_services(codes, services, n - 1),
            services[n - 1].number as int,
            services[n - 1].codes,
        )
    }
}

/// Adds the first `n` packets.
pub open spec fn add_packets(codes: Codes, packets: Seq<PacketView>, n: int) -> Codes
    decreases n,
{
    if n <= 0 {
        codes
    } else {
        let services = packets[n - 1].services;
        add_services(add_packets(codes, packets, n - 1), services, services.len() as int)
    }
}

/// Adds what is left over of the services before `n`.
pub open spec fn add_pending(codes: Codes, n: int) -> Codes
    decreases n,
{
    if n <= 0 {
        codes
    } else {
        add_codes(add_pending(codes, n - 1), n - 1, Seq::empty())
    }
}

/// The codes that are left over on an input.
pub open spec fn pending_of(pad: Cea708MuxSinkPad) -> Seq<Seq<Code>> {
    pad.pending_services@.map_values(|codes: Vec<Code>| codes@)
}

/// The codes once all that an input has was added.
pub open spec fn add_pad(out: Seq<Seq<Code>>, pad: Cea708MuxSinkPad) -> Codes {
    let codes = Codes { out, pending: pending_of(pad) };
    if pad.format == CeaFormat::CcData {
        let packets = crate::dtvcc::parser_view(pad.ccp_parser).packets;
        add_pending(add_packets(codes, packets, packets.len() as int), SERVICES as int)
    } else {
        codes
    }
}

/// The codes that go out for the first `n` inputs.
pub open spec fn add_pads(pads: Seq<Cea708MuxSinkPad>, n: int) -> Seq<Seq<Code>>
    decreases n,
{
    if n <= 0 {
        Seq::new(SERVICES as nat, |i: int| Seq::empty())
    } else {
        add_pad(add_pads(pads, n - 1), pads[n - 1]).out
    }
}

/// The service blocks of the services before `n` that have codes.
pub open spec fn blocks(out: Seq<Seq<Code>>, n: int) -> Seq<ServiceView>
    decreases n,
{
    if n <= 0 {
        Seq::empty()
    } else if out[n - 1].len() > 0 {
        blocks(out, n - 1).push(ServiceView { number: (n - 1) as u8, codes: out[n - 1] })
    } else {
        blocks(out, n - 1)
    }
}

/// The service blocks that go out.
pub open spec fn blocks_of(pads: Seq<Cea708MuxSinkPad>) -> Seq<ServiceView> {
    blocks(add_pads(pads, pads.len() as int), SERVICES as int)
}

/// What is kept for an input once all that it has was added.
pub open spec fn is_drained(was: Cea708MuxSinkPad, now: Cea708MuxSinkPad, out: Seq<Seq<Code>>) -> bool {
    &&& now.format == was.format
    &&& !now.pending_buffer
    &&& pending_of(now) == add_pad(out, was).pending
    &&& crate::dtvcc::parser_view(now.ccp_parser) == if was.format == CeaFormat::CcData {
        crate::dtvcc::ParserView {
            packets: Seq::empty(),
            ..crate::dtvcc::parser_view(was.ccp_parser)
        }
    } else {
        crate::dtvcc::parser_view(was.ccp_parser)
    }
}

/// Whether codes can be left over: there are some for each service but the null service, and there
/// are bytes for each code.
pub open spec fn can_be_pending(pending: Seq<Vec<Code>>) -> bool {
    &&& pending.len() == SERVICES
    &&& pending[0]@.len() == 0
    &&& forall|i: int|
        0 <= i < pending.len() ==> crate::dtvcc::all_have_bytes((#[trigger] pending[i])@)
}

impl Cea708MuxSinkPad {
    /// There is room for what is left over of each service.
    pub open spec fn wf(&self) -> bool {
        can_be_pending(self.pending_services@)
    }

    /// The state of a new input.
    pub fn new() -> (r: Cea708MuxSinkPad)
        ensures
            r.wf(),
            r.format == CeaFormat::Cdp,
            !r.pending_buffer,
            pending_of(r) == Seq::new(SERVICES as nat, |i: int| Seq::<Code>::empty()),
            crate::dtvcc::parser_view(r.ccp_parser) == (crate::dtvcc::ParserView {
                cea608: Some(Seq::<Cea608Pair>::empty()),
                ..crate::dtvcc::empty_parser()
            }),
    {
        let mut ccp_parser: CCDataParser = new_parser();
        handle_cea608(&mut ccp_parser);
        let mut pending_services: Vec<Vec<Code>> = Vec::new();
        let mut i: usize = 0;
        while i < SERVICES
            invariant
                i <= SERVICES,
                pending_services@.len() == i,
                forall|j: int| 0 <= j < i ==> (#[trigger] pending_services@[j])@.len() == 0,
            decreases SERVICES - i,
        {
            pending_services.push(Vec::new());
            i += 1;
        }
        let r = Cea708MuxSinkPad {
            format: CeaFormat::Cdp,
            ccp_parser,
            pending_services,
            pending_buffer: false,
        };
        assert(pending_of(r) =~~= Seq::new(SERVICES as nat, |i: int| Seq::<Code>::empty()));
        r
    }

    /// Forgets what was read in part.
    pub fn flush(&mut self)
        ensures
            crate::dtvcc::parser_view(final(self).ccp_parser) == crate::dtvcc::empty_parser(),
            final(self).format == old(self).format,
            final(self).pending_services == old(self).pending_services,
            final(self).pending_buffer == old(self).pending_buffer,
    {
        flush_parser(&mut self.ccp_parser);
    }

    /// Reads a caption packet. Its CEA-608 pairs go straight to the output.
    fn take(&mut self, data: &[u8], writer: &mut CCDataWriter)
        requires
            crate::dtvcc::can_push(crate::dtvcc::with_header(data@)),
        ensures
            final(self).format == old(self).format,
            final(self).pending_services == old(self).pending_services,
            final(self).pending_buffer,
            crate::dtvcc::parser_view(final(self).ccp_parser) == crate::dtvcc::pushed(
                crate::dtvcc::parser_view(old(self).ccp_parser),
                crate::dtvcc::with_header(data@),
            ),
            crate::dtvcc::writer_view(*final(writer)) == crate::dtvcc::with_pairs(
                crate::dtvcc::writer_view(*old(writer)),
                if crate::dtvcc::parser_view(old(self).ccp_parser).cea608 is Some {
                    crate::dtvcc::cea608_of(crate::dtvcc::with_header(data@))
                } else {
                    Seq::empty()
                },
            ),
    {
        let cc_data: Vec<u8> = add_header(data);
        let _ = push_cc_data(&mut self.ccp_parser, cc_data.as_slice());
        if let Some(pairs) = cea608_pairs(&mut self.ccp_parser) {
            push_all_cea608(writer, &pairs);
        }
        self.pending_buffer = true;
    }

    /// Adds all that was read to the services.
    fn drain(&mut self, services: &mut Vec<Service>)
        requires
            old(self).wf(),
            are_services(old(services)@),
        ensures
            final(self).wf(),
            are_services(final(services)@),
            final(services)@[0] == old(services)@[0],
            is_drained(*old(self), *final(self), out_of(old(services)@)),
            out_of(final(services)@) == add_pad(out_of(old(services)@), *old(self)).out,
    {
        self.pending_buffer = false;
        if self.format != CeaFormat::CcData {
            return;
        }
        let ghost start = Codes { out: out_of(services@), pending: pending_of(*self) };
        let ghost view = crate::dtvcc::parser_view(self.ccp_parser);
        let ghost packets = view.packets;
        let ghost mut n: int = 0;
        let mut more: bool = true;
        assert(packets.skip(0) =~= packets);
        while more
            invariant
                self.wf(),
                self.format == CeaFormat::CcData,
                !self.pending_buffer,
                are_services(services@),
                services@[0] == old(services)@[0],
                0 <= n <= packets.len(),
                !more ==> n == packets.len(),
                crate::dtvcc::parser_view(self.ccp_parser) == (crate::dtvcc::ParserView {
                    packets: packets.skip(n),
                    ..view
                }),
                start.out.len() == SERVICES,
                start.pending.len() == SERVICES,
                add_packets(start, packets, n) == (Codes {
                    out: out_of(services@),
                    pending: pending_of(*self),
                }),
            decreases
                    (if more {
                        1int
                    } else {
                        0int
                    }),
                    packets.len() - n,
        {
            match pop_packet(&mut self.ccp_parser) {
                Some(packet) => {
                    proof {
                        assert(packets.skip(n)[0] == packets[n]);
                        assert(packets.skip(n).drop_first() =~= packets.skip(n + 1));
                        n = n + 1;
                    }
                    add_packet(services, &mut self.pending_services, &packet);
                    assert(self.pending_services@.map_values(|codes: Vec<Code>| codes@)
                        == pending_of(*self));
                },
                None => {
                    more = false;
                },
            }
        }
        assert(packets.skip(n) =~= Seq::<PacketView>::empty());
        let ghost read = add_packets(start, packets, n);
        let mut i: usize = 0;
        let none: Vec<Code> = Vec::new();
        while i < SERVICES
            invariant
                self.wf(),
                self.format == CeaFormat::CcData,
                !self.pending_buffer,
                are_services(services@),
                services@[0] == old(services)@[0],
                crate::dtvcc::parser_view(self.ccp_parser) == (crate::dtvcc::ParserView {
                    packets: Seq::<PacketView>::empty(),
                    ..view
                }),
                i <= SERVICES,
                none@.len() == 0,
                add_pending(read, i as int) == (Codes {
                    out: out_of(services@),
                    pending: pending_of(*self),
                }),
            decreases SERVICES - i,
        {
            assert(none@ =~= Seq::<Code>::empty());
            add_block(services, &mut self.pending_services, i, none.as_slice());
            assert(self.pending_services@.map_values(|codes: Vec<Code>| codes@) == pending_of(
                *self,
            ));
            i += 1;
        }
    }
}

/// Whether these are all services by their numbers.
pub open spec fn are_services(services: Seq<Service>) -> bool {
    &&& services.len() == SERVICES
    &&& forall|i: int|
        0 <= i < services.len() ==> crate::dtvcc::service_view(#[trigger] services[i]).number == i
}

/// The codes of all services.
pub open spec fn out_of(services: Seq<Service>) -> Seq<Seq<Code>> {
    services.map_values(|s: Service| crate::dtvcc::service_view(s).codes)
}

proof fn lemma_fit_count(have: Seq<Code>, more: Seq<Code>)
    ensures
        fit_count(have, more) <= more.len(),
    decreases more.len(),
{
    if more.len() > 0 {
        lemma_fit_count(have.push(more[0]), more.drop_first());
    }
}

/// Moves as many codes as fit into a service block.
fn fill(service: &mut Service, codes: &mut Vec<Code>)
    requires
        crate::dtvcc::service_view(*old(service)).number != 0,
        crate::dtvcc::all_have_bytes(old(codes)@),
    ensures
        crate::dtvcc::all_have_bytes(final(codes)@),
        crate::dtvcc::service_view(*final(service)).number == crate::dtvcc::service_view(
            *old(service),
        ).number,
        ({
            let have = crate::dtvcc::service_view(*old(service)).codes;
            let n = fit_count(have, old(codes)@) as int;
            &&& crate::dtvcc::service_view(*final(service)).codes == have + old(codes)@.take(n)
            &&& final(codes)@ == old(codes)@.skip(n)
        }),
{
    let ghost have = crate::dtvcc::service_view(*service).codes;
    let ghost all = codes@;
    let mut n: usize = 0;
    let mut more: bool = true;
    proof {
        lemma_fit_count(have, all);
        assert(all.skip(0) =~= all);
        assert(have + all.take(0) =~= have);
    }
    while more
        invariant
            codes@ == all,
            crate::dtvcc::all_have_bytes(all),
            n <= all.len(),
            crate::dtvcc::service_view(*service).number == crate::dtvcc::service_view(
                *old(service),
            ).number,
            crate::dtvcc::service_view(*service).number != 0,
            crate::dtvcc::service_view(*service).codes == have + all.take(n as int),
            fit_count(have, all) == n + if more {
                fit_count(have + all.take(n as int), all.skip(n as int))
            } else {
                0
            },
        decreases
                (if more {
                    1int
                } else {
                    0int
                }),
                all.len() - n,
    {
        assert(n < all.len() ==> crate::dtvcc::has_bytes(all[n as int]));
        if n >= codes.len() {
            more = false;
        } else if push_code(service, &codes[n]) {
            proof {
                let rest = all.skip(n as int);
                assert(rest[0] == all[n as int]);
                assert(rest.drop_first() =~= all.skip(n + 1));
                assert((have + all.take(n as int)).push(all[n as int]) =~= have + all.take(n + 1));
            }
            n += 1;
        } else {
            proof {
                assert(all.skip(n as int)[0] == all[n as int]);
            }
            more = false;
        }
    }
    let rest: Vec<Code> = codes.split_off(n);
    *codes = rest;
    assert(codes@ =~= all.skip(n as int));
    proof {
        assert forall|k: int| 0 <= k < codes@.len() implies #[trigger] crate::dtvcc::has_bytes(
            codes@[k],
        ) by {
            assert(crate::dtvcc::has_bytes(all[n + k]));
        }
    }
}

/// Adds codes to a service.
fn add_block(
    services: &mut Vec<Service>,
    pending: &mut Vec<Vec<Code>>,
    number: usize,
    more: &[Code],
)
    requires
        are_services(old(services)@),
        can_be_pending(old(pending)@),
        number < SERVICES,
        crate::dtvcc::all_have_bytes(more@),
    ensures
        are_services(final(services)@),
        final(services)@[0] == old(services)@[0],
        can_be_pending(final(pending)@),
        add_codes(
            Codes {
                out: out_of(old(services)@),
                pending: old(pending)@.map_values(|codes: Vec<Code>| codes@),
            },
            number as int,
            more@,
        ) == (Codes {
            out: out_of(final(services)@),
            pending: final(pending)@.map_values(|codes: Vec<Code>| codes@),
        }),
{
    if number == 0 {
        return;
    }
    let mut all: Vec<Code> = Vec::new();
    std::mem::swap(&mut all, &mut pending[number]);
    let ghost left = old(pending)@[number as int]@;
    let mut i: usize = 0;
    assert(left + more@.take(0) =~= left);
    while i < more.len()
        invariant
            i <= more@.len(),
            crate::dtvcc::all_have_bytes(more@),
            crate::dtvcc::all_have_bytes(all@),
            all@ == left + more@.take(i as int),
        decreases more@.len() - i,
    {
        assert(crate::dtvcc::has_bytes(more@[i as int]));
        all.push(clone_code(&more[i]));
        assert(left + more@.take(i + 1) =~= (left + more@.take(i as int)).push(more@[i as int]));
        i += 1;
    }
    assert(more@.take(i as int) =~= more@);
    let ghost before = services@;
    fill(&mut services[number], &mut all);
    pending.set(number, all);
    proof {
        let was = Codes {
            out: out_of(old(services)@),
            pending: old(pending)@.map_values(|codes: Vec<Code>| codes@),
        };
        let now = add_codes(was, number as int, more@);
        assert(was.pending[number as int] == left);
        assert(was.out[number as int] == crate::dtvcc::service_view(
            before[number as int],
        ).codes);
        assert(now.out =~= out_of(services@));
        assert(now.pending =~= pending@.map_values(|codes: Vec<Code>| codes@));
    }
}

/// Adds the service blocks of a packet.
fn add_packet(services: &mut Vec<Service>, pending: &mut Vec<Vec<Code>>, packet: &DTVCCPacket)
    requires
        are_services(old(services)@),
        can_be_pending(old(pending)@),
    ensures
        are_services(final(services)@),
        final(services)@[0] == old(services)@[0],
        can_be_pending(final(pending)@),
        add_services(
            Codes {
                out: out_of(old(services)@),
                pending: old(pending)@.map_values(|codes: Vec<Code>| codes@),
            },
            crate::dtvcc::packet_view(*packet).services,
            crate::dtvcc::packet_view(*packet).services.len() as int,
        ) == (Codes {
            out: out_of(final(services)@),
            pending: final(pending)@.map_values(|codes: Vec<Code>| codes@),
        }),
{
    let ghost was = Codes {
        out: out_of(services@),
        pending: pending@.map_values(|codes: Vec<Code>| codes@),
    };
    let blocks: &[Service] = services_of_packet(packet);
    let ghost views = crate::dtvcc::packet_view(*packet).services;
    let mut i: usize = 0;
    while i < blocks.len()
        invariant
            are_services(services@),
            services@[0] == old(services)@[0],
            can_be_pending(pending@),
            i <= blocks@.len(),
            views == blocks@.map_values(|s: Service| crate::dtvcc::service_view(s)),
            add_services(was, views, i as int) == (Codes {
                out: out_of(services@),
                pending: pending@.map_values(|codes: Vec<Code>| codes@),
            }),
        decreases blocks@.len() - i,
    {
        assert(views[i as int] == crate::dtvcc::service_view(blocks@[i as int]));
        add_block(
            services,
            pending,
            number_of_service(&blocks[i]) as usize,
            codes_of_service(&blocks[i]),
        );
        i += 1;
    }
}

proof fn lemma_blocks_len(out: Seq<Seq<Code>>, n: int, m: int)
    requires
        n <= m,
    ensures
        crate::dtvcc::services_len(blocks(out, n)) <= crate::dtvcc::services_len(blocks(out, m)),
    decreases m - n,
{
    if n < m {
        lemma_blocks_len(out, n, m - 1);
        if m > 0 && out[m - 1].len() > 0 {
            let b = blocks(out, m);
            assert(b.drop_last() =~= blocks(out, m - 1));
        }
    }
}

/// Puts the services that have codes into a packet. There is none where it would be too long.
fn make_packet(services: Vec<Service>, sequence_no: u8) -> (r: Option<DTVCCPacket>)
    requires
        are_services(services@),
        sequence_no < 4,
        out_of(services@)[0].len() == 0,
    ensures
        r is Some <==> crate::dtvcc::packet_len(blocks(out_of(services@), SERVICES as int))
            <= crate::dtvcc::MAX_PACKET_LEN,
        r matches Some(packet) ==> crate::dtvcc::packet_view(packet) == (PacketView {
            sequence_no,
            services: blocks(out_of(services@), SERVICES as int),
        }),
{
    let ghost all = services@;
    let ghost out = out_of(all);
    let mut rest: Vec<Service> = services;
    let mut packet: DTVCCPacket = new_packet(sequence_no);
    let mut n: usize = 0;
    assert(all.skip(0) =~= all);
    assert(crate::dtvcc::packet_view(packet).services =~= blocks(out, 0));
    while n < SERVICES
        invariant
            n <= SERVICES,
            all == services@,
            are_services(all),
            out == out_of(all),
            out[0].len() == 0,
            rest@ == all.skip(n as int),
            crate::dtvcc::packet_view(packet) == (PacketView {
                sequence_no,
                services: blocks(out, n as int),
            }),
            crate::dtvcc::packet_len(blocks(out, n as int)) <= crate::dtvcc::MAX_PACKET_LEN,
        decreases SERVICES - n,
    {
        let service: Service = rest.remove(0);
        proof {
            assert(service == all[n as int]);
            assert(rest@ =~= all.skip(n + 1));
            assert(out[n as int] == crate::dtvcc::service_view(service).codes);
        }
        if codes_of_service(&service).len() > 0 {
            let ghost view = crate::dtvcc::service_view(service);
            proof {
                assert(blocks(out, n + 1).drop_last() =~= blocks(out, n as int));
                assert(blocks(out, n + 1).last() == view);
                lemma_blocks_len(out, n + 1, SERVICES as int);
            }
            let len: usize = crate::dtvcc::len_of_service(&service);
            assert(crate::dtvcc::services_len(blocks(out, n + 1)) == crate::dtvcc::services_len(
                blocks(out, n as int),
            ) + len);
            if !push_service(&mut packet, service) {
                return None;
            }
        }
        n += 1;
    }
    Some(packet)
}

impl Cea708Mux {
    /// A mux that has seen nothing.
    pub fn new() -> (r: Cea708Mux)
        ensures
            r.out_format == CeaFormat::Cdp,
            r.fps is None,
            r.is_reset(),
    {
        let mut writer: CCDataWriter = new_writer();
        set_output_padding(&mut writer, true);
        set_output_cea608_padding(&mut writer, true);
        Cea708Mux { out_format: CeaFormat::Cdp, fps: None, dtvcc_seq_no: 0, writer, n_frames: 0 }
    }

    /// Whether nothing was put out or is left over.
    pub open spec fn is_reset(&self) -> bool {
        &&& self.dtvcc_seq_no == 0
        &&& self.n_frames == 0
        &&& crate::dtvcc::writer_view(self.writer) == (crate::dtvcc::WriterView {
            output_padding: true,
            output_cea608_padding: true,
            ..crate::dtvcc::empty_writer()
        })
    }

    /// Forgets all but the format.
    pub fn flush(&mut self)
        ensures
            final(self).out_format == old(self).out_format,
            final(self).fps == old(self).fps,
            final(self).is_reset(),
    {
        let fresh: Cea708Mux = Cea708Mux::new();
        *self = Cea708Mux { out_format: self.out_format, fps: self.fps, ..fresh };
    }

    /// Settles the output format.
    pub fn negotiated(&mut self, format: CeaFormat, fps: Framerate)
        ensures
            final(self).out_format == format,
            final(self).fps == Some(fps),
            final(self).dtvcc_seq_no == old(self).dtvcc_seq_no,
            final(self).writer == old(self).writer,
            final(self).n_frames == old(self).n_frames,
    {
        self.out_format = format;
        self.fps = Some(fps);
    }

    /// The time of the next frame.
    pub fn window(fps: Framerate, position: Option<u64>, segment_start: u64) -> (r: Window)
        requires
            fps.numer > 0,
            crate::st2038ancmux::St2038AncMux::start_of(position, segment_start) + fps.frame_time()
                < u64::MAX,
        ensures
            r.start == crate::st2038ancmux::St2038AncMux::start_of(position, segment_start),
            r.end == r.start + fps.frame_time(),
    {
        let start: u64 = match position {
            Some(p) => if p < segment_start {
                segment_start
            } else {
                p
            },
            None => segment_start,
        };
        Window { start, end: start + fps.frame_duration() }
    }

    /// Takes the buffers for a frame from the inputs, and says whether the frame can be put out: on
    /// timeout, or once all inputs have data for it or end before it.
    pub fn collect(
        &mut self,
        pads: &mut Vec<Cea708MuxSinkPad>,
        heads: &Vec<Head>,
        window: Window,
        timeout: bool,
    ) -> (r: Collected)
        requires
            old(pads)@.len() == heads@.len(),
            forall|i: int|
                0 <= i < before_error(heads@, window) && takes(#[trigger] heads@[i], window) ==> {
                    &&& old(pads)@[i].format == CeaFormat::CcData
                    &&& end_of(heads@[i]) < u64::MAX
                    &&& crate::dtvcc::can_push(packet_at(heads@[i]))
                },
        ensures
            ({
                let n = before_error(heads@, window);
                &&& r.taken@ == heads@.take(n).map_values(|head: Head| takes(head, window))
                &&& final(pads)@.len() == old(pads)@.len()
                &&& forall|i: int|
                    0 <= i < n ==> is_collected(
                        old(pads)@[i],
                        #[trigger] final(pads)@[i],
                        heads@[i],
                        window,
                    )
                &&& forall|i: int|
                    n <= i < heads@.len() ==> #[trigger] final(pads)@[i] == old(pads)@[i]
                &&& crate::dtvcc::writer_view(final(self).writer) == crate::dtvcc::with_pairs(
                    crate::dtvcc::writer_view(old(self).writer),
                    all_pairs(old(pads)@, heads@, window, n),
                )
                &&& r.outcome == if n < heads@.len() {
                    Err::<(), FlowError>(FlowError::Error)
                } else if !timeout && exists|i: int|
                    0 <= i < heads@.len() && needs_data(#[trigger] heads@[i], window) {
                    Err(FlowError::NeedData)
                } else if forall|i: int|
                    0 <= i < heads@.len() ==> #[trigger] heads@[i] is Eos
                        && !old(pads)@[i].pending_buffer {
                    Err(FlowError::Eos)
                } else {
                    Ok(())
                }
            }),
            final(self).out_format == old(self).out_format,
            final(self).fps == old(self).fps,
            final(self).dtvcc_seq_no == old(self).dtvcc_seq_no,
            final(self).n_frames == old(self).n_frames,
    {
        let ghost was = pads@;
        let ghost writer = crate::dtvcc::writer_view(self.writer);
        let mut taken: Vec<bool> = Vec::new();
        let mut need_data: bool = false;
        let mut all_eos: bool = true;
        let mut i: usize = 0;
        assert(heads@.skip(0) =~= heads@);
        while i < heads.len()
            invariant
                i <= heads@.len(),
                was == old(pads)@,
                pads@.len() == heads@.len(),
                was.len() == heads@.len(),
                before_error(heads@, window) == i + before_error(heads@.skip(i as int), window),
                forall|j: int|
                    0 <= j < before_error(heads@, window) && takes(#[trigger] heads@[j], window)
                        ==> {
                        &&& was[j].format == CeaFormat::CcData
                        &&& end_of(heads@[j]) < u64::MAX
                        &&& crate::dtvcc::can_push(packet_at(heads@[j]))
                    },
                taken@ == heads@.take(i as int).map_values(|head: Head| takes(head, window)),
                forall|j: int|
                    0 <= j < i ==> is_collected(was[j], #[trigger] pads@[j], heads@[j], window),
                forall|j: int| i <= j < heads@.len() ==> #[trigger] pads@[j] == was[j],
                crate::dtvcc::writer_view(self.writer) == crate::dtvcc::with_pairs(
                    writer,
                    all_pairs(was, heads@, window, i as int),
                ),
                writer == crate::dtvcc::writer_view(old(self).writer),
                need_data == (exists|j: int|
                    0 <= j < i && needs_data(#[trigger] heads@[j], window)),
                all_eos == (forall|j: int|
                    0 <= j < i ==> #[trigger] heads@[j] is Eos && !was[j].pending_buffer),
                self.out_format == old(self).out_format,
                self.fps == old(self).fps,
                self.dtvcc_seq_no == old(self).dtvcc_seq_no,
                self.n_frames == old(self).n_frames,
            decreases heads@.len() - i,
        {
            proof {
                let rest = heads@.skip(i as int);
                assert(rest[0] == heads@[i as int]);
                assert(rest.drop_first() =~= heads@.skip(i + 1));
                lemma_before_error(rest, window);
                lemma_before_error(rest.drop_first(), window);
                assert(heads@.take(i + 1) =~= heads@.take(i as int).push(heads@[i as int]));
            }
            let ghost view = crate::dtvcc::writer_view(self.writer);
            match &heads[i] {
                Head::Eos => {
                    if pads[i].pending_buffer {
                        all_eos = false;
                    }
                    taken.push(false);
                },
                Head::Empty => {
                    all_eos = false;
                    need_data = true;
                    assert(needs_data(heads@[i as int], window));
                    taken.push(false);
                },
                Head::NoTimeFormat => {
                    return Collected { taken, outcome: Err(FlowError::Error) };
                },
                Head::Untimed => {
                    return Collected { taken, outcome: Err(FlowError::Error) };
                },
                Head::Buffer { start, duration, data } => {
                    all_eos = false;
                    if *start >= window.end {
                        taken.push(false);
                    } else {
                        match data {
                            Some(bytes) => {
                                assert(takes(heads@[i as int], window));
                                let d: u64 = match duration {
                                    Some(d) => *d,
                                    None => 0,
                                };
                                if *start + d < window.start {
                                    need_data = true;
                                    assert(needs_data(heads@[i as int], window));
                                }
                                pads[i].take(bytes.as_slice(), &mut self.writer);
                                taken.push(true);
                            },
                            None => {
                                return Collected { taken, outcome: Err(FlowError::Error) };
                            },
                        }
                    }
                },
            }
            proof {
                assert(taken@ =~= heads@.take(i + 1).map_values(|head: Head| takes(head, window)));
                lemma_with_pairs(
                    writer,
                    all_pairs(was, heads@, window, i as int),
                    pairs_at(was[i as int], heads@[i as int], window),
                );
                assert(is_collected(was[i as int], pads@[i as int], heads@[i as int], window));
            }
            i += 1;
        }
        assert(heads@.take(i as int) =~= heads@);
        let outcome: Result<(), FlowError> = if need_data && !timeout {
            Err(FlowError::NeedData)
        } else if all_eos {
            Err(FlowError::Eos)
        } else {
            Ok(())
        };
        Collected { taken, outcome }
    }

    /// Puts out a frame with what was taken from the inputs. Each service gets the codes of all
    /// inputs, as far as they fit, and what does not fit is left over on its input. There is no
    /// frame where the services do not fit in one packet.
    pub fn output(&mut self, pads: &mut Vec<Cea708MuxSinkPad>, fps: Framerate, window: Window) -> (r: Option<
        Output,
    >)
        requires
            crate::dtvcc::is_framerate(fps.numer, fps.denom),
            window.start <= window.end,
            old(self).n_frames < u64::MAX,
            forall|i: int| 0 <= i < old(pads)@.len() ==> (#[trigger] old(pads)@[i]).wf(),
        ensures
            final(pads)@.len() == old(pads)@.len(),
            forall|i: int|
                0 <= i < old(pads)@.len() ==> (#[trigger] final(pads)@[i]).wf() && is_drained(
                    old(pads)@[i],
                    final(pads)@[i],
                    add_pads(old(pads)@, i),
                ),
            r is Some <==> crate::dtvcc::packet_len(blocks_of(old(pads)@))
                <= crate::dtvcc::MAX_PACKET_LEN,
            r matches Some(output) ==> {
                let was = crate::dtvcc::writer_view(old(self).writer);
                let view = crate::dtvcc::WriterView {
                    packets: was.packets.push(
                        PacketView {
                            sequence_no: old(self).dtvcc_seq_no % 4,
                            services: blocks_of(old(pads)@),
                        },
                    ),
                    ..was
                };
                let bytes = crate::dtvcc::frame_bytes(view, fps.numer, fps.denom);
                &&& crate::dtvcc::writer_view(final(self).writer) == crate::dtvcc::after_frame(
                    view,
                    fps.numer,
                    fps.denom,
                )
                &&& final(self).n_frames == old(self).n_frames + 1
                &&& final(self).dtvcc_seq_no == if blocks_of(old(pads)@).len() > 0 {
                    (old(self).dtvcc_seq_no + 1) % 256
                } else {
                    old(self).dtvcc_seq_no as int
                }
                &&& match output {
                    Output::Buffer { data, start, duration } => {
                        &&& bytes.len() > 2
                        &&& data@ == bytes.skip(2)
                        &&& start == window.start
                        &&& duration == if window.start < window.end {
                            Some((window.end - window.start) as u64)
                        } else {
                            None
                        }
                    },
                    Output::Gap { start, length } => {
                        &&& bytes.len() <= 2
                        &&& start == window.start
                        &&& length == window.end - window.start
                    },
                }
            },
            r is None ==> {
                &&& crate::dtvcc::writer_view(final(self).writer) == crate::dtvcc::writer_view(
                    old(self).writer,
                )
                &&& final(self).dtvcc_seq_no == old(self).dtvcc_seq_no
                &&& final(self).n_frames == old(self).n_frames
            },
            final(self).out_format == old(self).out_format,
            final(self).fps == old(self).fps,
    {
        let ghost was = pads@;
        let mut services: Vec<Service> = Vec::new();
        let mut n: usize = 0;
        while n < SERVICES
            invariant
                n <= SERVICES,
                services@.len() == n,
                forall|i: int|
                    0 <= i < n ==> crate::dtvcc::service_view(#[trigger] services@[i]) == (
                    ServiceView { number: i as u8, codes: Seq::<Code>::empty() }),
            decreases SERVICES - n,
        {
            services.push(new_service(n as u8));
            n += 1;
        }
        assert(out_of(services@) =~= add_pads(was, 0));
        let ghost null = services@[0];
        let mut i: usize = 0;
        while i < pads.len()
            invariant
                i <= pads@.len(),
                pads@.len() == was.len(),
                was == old(pads)@,
                are_services(services@),
                services@[0] == null,
                forall|j: int| 0 <= j < was.len() ==> (#[trigger] was[j]).wf(),
                forall|j: int|
                    0 <= j < i ==> (#[trigger] pads@[j]).wf() && is_drained(
                        was[j],
                        pads@[j],
                        add_pads(was, j),
                    ),
                forall|j: int| i <= j < was.len() ==> #[trigger] pads@[j] == was[j],
                out_of(services@) == add_pads(was, i as int),
            decreases pads@.len() - i,
        {
            pads[i].drain(&mut services);
            i += 1;
        }
        let sequence_no: u8 = self.dtvcc_seq_no % 4;
        let packet: DTVCCPacket = match make_packet(services, sequence_no) {
            Some(packet) => packet,
            None => return None,
        };
        if services_of_packet(&packet).len() > 0 {
            self.dtvcc_seq_no = self.dtvcc_seq_no.wrapping_add(1);
        }
        push_packet(&mut self.writer, packet);
        let mut data: Vec<u8> = write_frame(&mut self.writer, fps.numer, fps.denom);
        self.n_frames = self.n_frames + 1;
        if data.len() > 2 {
            let captions: Vec<u8> = data.split_off(2);
            let duration: Option<u64> = if window.start < window.end {
                Some(window.end - window.start)
            } else {
                None
            };
            Some(Output::Buffer { data: captions, start: window.start, duration })
        } else {
            Some(Output::Gap { start: window.start, length: window.end - window.start })
        }
    }
}

proof fn lemma_before_error(heads: Seq<Head>, window: Window)
    ensures
        0 <= before_error(heads, window) <= heads.len(),
    decreases heads.len(),
{
    if heads.len() > 0 && !is_error(heads[0], window) {
        lemma_before_error(heads.drop_first(), window);
    }
}

proof fn lemma_with_pairs(view: crate::dtvcc::WriterView, a: Seq<Cea608Pair>, b: Seq<Cea608Pair>)
    ensures
        crate::dtvcc::with_pairs(view, a + b) == crate::dtvcc::with_pairs(
            crate::dtvcc::with_pairs(view, a),
            b,
        ),
    decreases b.len(),
{
    if b.len() == 0 {
        assert(a + b =~= a);
    } else {
        lemma_with_pairs(view, a, b.drop_last());
        assert((a + b).drop_last() =~= a + b.drop_last());
    }
}

/// The codes of a service in the first `k` service blocks.
pub open spec fn codes_in_services(services: Seq<ServiceView>, k: int, number: int) -> Seq<Code>
    decreases k,
{
    if k <= 0 {
        Seq::empty()
    } else if services[k - 1].number == number {
        codes_in_services(services, k - 1, number) + services[k - 1].codes
    } else {
        codes_in_services(services, k - 1, number)
    }
}

/// The codes of a service in the first `k` packets.
pub open spec fn codes_in_packets(packets: Seq<PacketView>, k: int, number: int) -> Seq<Code>
    decreases k,
{
    if k <= 0 {
        Seq::empty()
    } else {
        codes_in_packets(packets, k - 1, number) + codes_in_services(
            packets[k - 1].services,
            packets[k - 1].services.len() as int,
            number,
        )
    }
}

/// Whether the numbers of service blocks are such.
pub open spec fn are_numbered(services: Seq<ServiceView>) -> bool {
    forall|i: int| 0 <= i < services.len() ==> (#[trigger] services[i]).number < SERVICES
}

/// All codes of a service: those that go out, and then those that are left over.
pub open spec fn stream(codes: Codes, number: int) -> Seq<Code> {
    codes.out[number] + codes.pending[number]
}

/// Whether there is room for all services, and none takes too much.
pub open spec fn are_codes(codes: Codes) -> bool {
    &&& codes.out.len() == SERVICES
    &&& codes.pending.len() == SERVICES
    &&& forall|i: int|
        0 <= i < SERVICES ==> crate::dtvcc::codes_len(#[trigger] codes.out[i])
            <= crate::dtvcc::MAX_SERVICE_LEN
}

proof fn lemma_fit_len(have: Seq<Code>, more: Seq<Code>)
    requires
        crate::dtvcc::codes_len(have) <= crate::dtvcc::MAX_SERVICE_LEN,
    ensures
        crate::dtvcc::codes_len(have + more.take(fit_count(have, more) as int))
            <= crate::dtvcc::MAX_SERVICE_LEN,
    decreases more.len(),
{
    let n = fit_count(have, more) as int;
    lemma_fit_count(have, more);
    if n == 0 {
        assert(have + more.take(0) =~= have);
    } else {
        let next = have.push(more[0]);
        assert(next.drop_last() =~= have);
        lemma_fit_len(next, more.drop_first());
        lemma_fit_count(next, more.drop_first());
        assert(next + more.drop_first().take(n - 1) =~= have + more.take(n));
    }
}

proof fn lemma_add_codes(codes: Codes, number: int, more: Seq<Code>, n: int)
    requires
        are_codes(codes),
        0 <= number < SERVICES,
        0 < n < SERVICES,
    ensures
        are_codes(add_codes(codes, number, more)),
        stream(add_codes(codes, number, more), n) == if n == number {
            stream(codes, n) + more
        } else {
            stream(codes, n)
        },
{
    if number != 0 {
        let all = codes.pending[number] + more;
        let k = fit_count(codes.out[number], all) as int;
        lemma_fit_count(codes.out[number], all);
        lemma_fit_len(codes.out[number], all);
        assert(all.take(k) + all.skip(k) =~= all);
        assert((codes.out[number] + all.take(k)) + all.skip(k) =~= codes.out[number] + (
        codes.pending[number] + more));
        assert(codes.out[number] + (codes.pending[number] + more) =~= stream(codes, number)
            + more);
    }
}

proof fn lemma_add_services(codes: Codes, services: Seq<ServiceView>, k: int, n: int)
    requires
        are_codes(codes),
        are_numbered(services),
        0 <= k <= services.len(),
        0 < n < SERVICES,
    ensures
        are_codes(add_services(codes, services, k)),
        stream(add_services(codes, services, k), n) == stream(codes, n) + codes_in_services(
            services,
            k,
            n,
        ),
    decreases k,
{
    if k == 0 {
        assert(stream(codes, n) + Seq::<Code>::empty() =~= stream(codes, n));
    } else {
        lemma_add_services(codes, services, k - 1, n);
        lemma_add_codes(
            add_services(codes, services, k - 1),
            services[k - 1].number as int,
            services[k - 1].codes,
            n,
        );
        let before = codes_in_services(services, k - 1, n);
        assert(stream(codes, n) + before + services[k - 1].codes =~= stream(codes, n) + (before
            + services[k - 1].codes));
    }
}

proof fn lemma_add_packets(codes: Codes, packets: Seq<PacketView>, k: int, n: int)
    requires
        are_codes(codes),
        forall|i: int| 0 <= i < packets.len() ==> are_numbered((#[trigger] packets[i]).services),
        0 <= k <= packets.len(),
        0 < n < SERVICES,
    ensures
        are_codes(add_packets(codes, packets, k)),
        stream(add_packets(codes, packets, k), n) == stream(codes, n) + codes_in_packets(
            packets,
            k,
            n,
        ),
    decreases k,
{
    if k == 0 {
        assert(stream(codes, n) + Seq::<Code>::empty() =~= stream(codes, n));
    } else {
        lemma_add_packets(codes, packets, k - 1, n);
        let services = packets[k - 1].services;
        lemma_add_services(
            add_packets(codes, packets, k - 1),
            services,
            services.len() as int,
            n,
        );
        let before = codes_in_packets(packets, k - 1, n);
        let now = codes_in_services(services, services.len() as int, n);
        assert(stream(codes, n) + before + now =~= stream(codes, n) + (before + now));
    }
}

proof fn lemma_add_pending(codes: Codes, k: int, n: int)
    requires
        are_codes(codes),
        0 <= k <= SERVICES,
        0 < n < SERVICES,
    ensures
        are_codes(add_pending(codes, k)),
        stream(add_pending(codes, k), n) == stream(codes, n),
    decreases k,
{
    if k > 0 {
        lemma_add_pending(codes, k - 1, n);
        lemma_add_codes(add_pending(codes, k - 1), k - 1, Seq::empty(), n);
        assert(stream(codes, n) + Seq::<Code>::empty() =~= stream(codes, n));
    }
}

/// No code of an input is lost or changes its place among those of its service: what went out and
/// what is left over is what there was before, followed by what came. And no service block gets
/// too long.
pub proof fn law_no_code_lost(out: Seq<Seq<Code>>, pad: Cea708MuxSinkPad, n: int)
    requires
        pad.wf(),
        pad.format == CeaFormat::CcData,
        are_codes(Codes { out, pending: pending_of(pad) }),
        forall|i: int|
            0 <= i < crate::dtvcc::parser_view(pad.ccp_parser).packets.len() ==> are_numbered(
                (#[trigger] crate::dtvcc::parser_view(pad.ccp_parser).packets[i]).services,
            ),
        0 < n < SERVICES,
    ensures
        are_codes(add_pad(out, pad)),
        stream(add_pad(out, pad), n) == out[n] + pad.pending_services@[n]@ + codes_in_packets(
            crate::dtvcc::parser_view(pad.ccp_parser).packets,
            crate::dtvcc::parser_view(pad.ccp_parser).packets.len() as int,
            n,
        ),
{
    let codes = Codes { out, pending: pending_of(pad) };
    let packets = crate::dtvcc::parser_view(pad.ccp_parser).packets;
    lemma_add_packets(codes, packets, packets.len() as int, n);
    lemma_add_pending(add_packets(codes, packets, packets.len() as int), SERVICES as int, n);
}

} // verus!
