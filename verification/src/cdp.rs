//! Reading and writing of caption distribution packets.
use crate::dtvcc::{Cea608Pair, ParserView, WriterView};
use vstd::prelude::*;

verus! {

/// How many entries a list of services holds at most.
pub const MAX_SERVICES: usize = 15;

#[verifier::external_type_specification]
#[verifier::external_body]
pub struct ExCDPParser(cdp_types::CDPParser);

#[verifier::external_type_specification]
#[verifier::external_body]
pub struct ExCDPWriter(cdp_types::CDPWriter);

#[verifier::external_type_specification]
#[verifier::external_body]
pub struct ExServiceInfo(cdp_types::ServiceInfo);

/// A time code.
#[derive(Clone, Copy, Debug, PartialEq, Eq, Structural)]
pub struct CdpTimeCode {
    pub hours: u8,
    pub minutes: u8,
    pub seconds: u8,
    pub frames: u8,
    pub field: bool,
    pub drop_frame: bool,
}

/// A CEA-708 service.
#[derive(Clone, Copy, Debug, PartialEq, Eq, Structural)]
pub struct DigitalServiceEntry {
    pub service: u8,
    pub easy_reader: bool,
    pub wide_aspect_ratio: bool,
}

/// A CEA-608 field, `true` for the first one, or a CEA-708 service.
#[derive(Clone, Copy, Debug, PartialEq, Eq, Structural)]
pub enum FieldOrService {
    Field(bool),
    Service(DigitalServiceEntry),
}

/// The language of captions.
#[derive(Clone, Copy, Debug, PartialEq, Eq)]
pub struct ServiceEntry {
    pub language: [u8; 3],
    pub service: FieldOrService,
}

/// What a parser of caption distribution packets holds.
pub struct CdpParserView {
    /// The captions.
    pub captions: ParserView,
    pub time_code: Option<CdpTimeCode>,
    /// The number that stands for the framerate.
    pub framerate: Option<u8>,
    pub sequence: u16,
}

/// A list of services.
#[verifier::ext_equal]
pub struct ServiceInfoView {
    /// Whether this is the first part of the list.
    pub start: bool,
    /// Whether the list is another one than before.
    pub change: bool,
    /// Whether this is the last part of the list.
    pub complete: bool,
    pub services: Seq<ServiceEntry>,
}

/// What a writer of caption distribution packets holds.
pub struct CdpWriterView {
    /// The captions.
    pub captions: WriterView,
    pub time_code: Option<CdpTimeCode>,
    pub sequence: u16,
    pub service_info: Option<ServiceInfoView>,
}

/// What a parser holds.
pub uninterp spec fn cdp_parser_view(parser: cdp_types::CDPParser) -> CdpParserView;

/// Whether a parser takes a packet, and what it holds then.
pub uninterp spec fn parsed_cdp(view: CdpParserView, data: Seq<u8>) -> (bool, CdpParserView);

/// What a writer holds.
pub uninterp spec fn cdp_writer_view(writer: cdp_types::CDPWriter) -> CdpWriterView;

/// What a list of services holds.
pub uninterp spec fn service_info_view(info: cdp_types::ServiceInfo) -> ServiceInfoView;

/// The packet that a writer puts out, with the number of the framerate.
pub uninterp spec fn cdp_bytes(view: CdpWriterView, framerate: u8) -> Seq<u8>;

/// What a new parser holds.
pub open spec fn empty_cdp_parser() -> CdpParserView {
    CdpParserView {
        captions: ParserView {
            cea608: Some(Seq::<Cea608Pair>::empty()),
            ..crate::dtvcc::empty_parser()
        },
        time_code: None,
        framerate: None,
        sequence: 0,
    }
}

/// What a new writer holds. It writes padding.
pub open spec fn empty_cdp_writer() -> CdpWriterView {
    CdpWriterView {
        captions: WriterView {
            output_padding: true,
            output_cea608_padding: true,
            ..crate::dtvcc::empty_writer()
        },
        time_code: None,
        sequence: 0,
        service_info: None,
    }
}

/// Whether a number stands for a framerate.
pub open spec fn is_cdp_framerate(number: u8) -> bool {
    1 <= number <= 8
}

/// The framerate that a number stands for.
pub open spec fn cdp_framerate(number: u8) -> (u32, u32) {
    if number == 1 {
        (24000, 1001)
    } else if number == 2 {
        (24, 1)
    } else if number == 3 {
        (25, 1)
    } else if number == 4 {
        (30000, 1001)
    } else if number == 5 {
        (30, 1)
    } else if number == 6 {
        (50, 1)
    } else if number == 7 {
        (60000, 1001)
    } else {
        (60, 1)
    }
}

/// `CDPParser::new` of `cdp_types`: a parser that holds nothing and keeps CEA-608 pairs.
#[verifier::external_body]
pub(crate) fn new_cdp_parser() -> (r: cdp_types::CDPParser)
    ensures
        cdp_parser_view(r) == empty_cdp_parser(),
{
    cdp_types::CDPParser::new()
}

/// `CDPParser::parse` of `cdp_types`: reads a packet. One that it takes has a framerate.
#[verifier::external_body]
pub(crate) fn parse_cdp(parser: &mut cdp_types::CDPParser, data: &[u8]) -> (r: bool)
    ensures
        (r, cdp_parser_view(*final(parser))) == parsed_cdp(cdp_parser_view(*old(parser)), data@),
        r ==> cdp_parser_view(*final(parser)).framerate is Some,
{
    parser.parse(data).is_ok()
}

/// `CDPParser::framerate` of `cdp_types`, by the number that stands for it.
#[verifier::external_body]
pub(crate) fn framerate_of_cdp(parser: &cdp_types::CDPParser) -> (r: Option<u8>)
    ensures
        r == cdp_parser_view(*parser).framerate,
        r matches Some(number) ==> is_cdp_framerate(number),
{
    parser.framerate().map(|f| f.id())
}

/// `CDPParser::time_code` of `cdp_types`, field for field.
#[verifier::external_body]
pub(crate) fn time_code_of_cdp(parser: &cdp_types::CDPParser) -> (r: Option<CdpTimeCode>)
    ensures
        r == cdp_parser_view(*parser).time_code,
{
    parser.time_code().map(
        |t|
            CdpTimeCode {
                hours: t.hours(),
                minutes: t.minutes(),
                seconds: t.seconds(),
                frames: t.frames(),
                field: t.field(),
                drop_frame: t.drop_frame(),
            },
    )
}

/// `CDPParser::sequence` of `cdp_types`: the sequence number of the packet.
#[verifier::external_body]
pub(crate) fn sequence_of_cdp(parser: &cdp_types::CDPParser) -> (r: u16)
    ensures
        r == cdp_parser_view(*parser).sequence,
{
    parser.sequence()
}

/// `CDPParser::pop_packet` of `cdp_types`: takes the oldest DTVCC packet.
#[verifier::external_body]
pub(crate) fn pop_cdp_packet(parser: &mut cdp_types::CDPParser) -> (r: Option<
    cea708_types::DTVCCPacket,
>)
    ensures
        r is Some <==> cdp_parser_view(*old(parser)).captions.packets.len() > 0,
        r matches Some(packet) ==> crate::dtvcc::packet_view(packet) == cdp_parser_view(
            *old(parser),
        ).captions.packets[0] && cdp_parser_view(*final(parser)) == (CdpParserView {
            captions: ParserView {
                packets: cdp_parser_view(*old(parser)).captions.packets.drop_first(),
                ..cdp_parser_view(*old(parser)).captions
            },
            ..cdp_parser_view(*old(parser))
        }),
        r is None ==> cdp_parser_view(*final(parser)) == cdp_parser_view(*old(parser)),
{
    parser.pop_packet()
}

/// `CDPParser::cea608` of `cdp_types`: the CEA-608 pairs of the packet, one for one.
#[verifier::external_body]
pub(crate) fn cea608_of_cdp(parser: &mut cdp_types::CDPParser) -> (r: Option<Vec<Cea608Pair>>)
    ensures
        cdp_parser_view(*final(parser)) == cdp_parser_view(*old(parser)),
        r is None <==> cdp_parser_view(*old(parser)).captions.cea608 is None,
        r matches Some(pairs) ==> cdp_parser_view(*old(parser)).captions.cea608 == Some(pairs@),
{
    let pair = |p: &cea708_types::Cea608| match *p {
        cea708_types::Cea608::Field1(byte0, byte1) => Cea608Pair { field1: true, byte0, byte1 },
        cea708_types::Cea608::Field2(byte0, byte1) => Cea608Pair { field1: false, byte0, byte1 },
    };
    parser.cea608().map(|pairs| pairs.iter().map(pair).collect())
}

/// `CDPParser::flush` of `cdp_types`: the parser is as a new one.
#[verifier::external_body]
pub(crate) fn flush_cdp_parser(parser: &mut cdp_types::CDPParser)
    ensures
        cdp_parser_view(*final(parser)) == empty_cdp_parser(),
{
    parser.flush();
}

/// `CDPWriter::new` of `cdp_types`: a writer that holds nothing and writes padding.
#[verifier::external_body]
pub(crate) fn new_cdp_writer() -> (r: cdp_types::CDPWriter)
    ensures
        cdp_writer_view(r) == empty_cdp_writer(),
{
    cdp_types::CDPWriter::new()
}

/// `CDPWriter::push_packet` of `cdp_types`: the packet is written after those before it.
#[verifier::external_body]
pub(crate) fn push_cdp_packet(
    writer: &mut cdp_types::CDPWriter,
    packet: cea708_types::DTVCCPacket,
)
    ensures
        cdp_writer_view(*final(writer)) == (CdpWriterView {
            captions: WriterView {
                packets: cdp_writer_view(*old(writer)).captions.packets.push(
                    crate::dtvcc::packet_view(packet),
                ),
                ..cdp_writer_view(*old(writer)).captions
            },
            ..cdp_writer_view(*old(writer))
        }),
{
    writer.push_packet(packet);
}

/// `CDPWriter::push_cea608` of `cdp_types`: the pair is written after those of its field before
/// it. Padding is dropped.
#[verifier::external_body]
pub(crate) fn push_cdp_cea608(writer: &mut cdp_types::CDPWriter, pair: Cea608Pair)
    ensures
        cdp_writer_view(*final(writer)) == (CdpWriterView {
            captions: crate::dtvcc::with_pair(cdp_writer_view(*old(writer)).captions, pair),
            ..cdp_writer_view(*old(writer))
        }),
{
    writer.push_cea608(
        if pair.field1 {
            cea708_types::Cea608::Field1(pair.byte0, pair.byte1)
        } else {
            cea708_types::Cea608::Field2(pair.byte0, pair.byte1)
        },
    );
}

/// `CDPWriter::set_time_code` of `cdp_types`, field for field.
#[verifier::external_body]
pub(crate) fn set_cdp_time_code(
    writer: &mut cdp_types::CDPWriter,
    time_code: Option<CdpTimeCode>,
)
    ensures
        cdp_writer_view(*final(writer)) == (CdpWriterView {
            time_code,
            ..cdp_writer_view(*old(writer))
        }),
{
    writer.set_time_code(
        time_code.map(
            |t|
                cdp_types::TimeCode::new(
                    t.hours,
                    t.minutes,
                    t.seconds,
                    t.frames,
                    t.field,
                    t.drop_frame,
                ),
        ),
    );
}

/// `CDPWriter::set_sequence_count` of `cdp_types`: the sequence number of the next packet.
#[verifier::external_body]
pub(crate) fn set_cdp_sequence(writer: &mut cdp_types::CDPWriter, sequence: u16)
    ensures
        cdp_writer_view(*final(writer)) == (CdpWriterView {
            sequence,
            ..cdp_writer_view(*old(writer))
        }),
{
    writer.set_sequence_count(sequence);
}

/// `CDPWriter::set_service_info` of `cdp_types`: the list of services of the next packets.
#[verifier::external_body]
pub(crate) fn set_cdp_service_info(
    writer: &mut cdp_types::CDPWriter,
    info: Option<cdp_types::ServiceInfo>,
)
    ensures
        cdp_writer_view(*final(writer)) == (CdpWriterView {
            service_info: match info {
                Some(i) => Some(service_info_view(i)),
                None => None,
            },
            ..cdp_writer_view(*old(writer))
        }),
{
    writer.set_service_info(info);
}

/// `CDPWriter::flush` of `cdp_types`: what is to be written is forgotten. What is not is which of
/// the two fields is written next.
#[verifier::external_body]
pub(crate) fn flush_cdp_writer(writer: &mut cdp_types::CDPWriter)
    ensures
        cdp_writer_view(*final(writer)) == (CdpWriterView {
            captions: WriterView {
                output_padding: cdp_writer_view(*old(writer)).captions.output_padding,
                output_cea608_padding: cdp_writer_view(
                    *old(writer),
                ).captions.output_cea608_padding,
                last_was_field1: cdp_writer_view(*old(writer)).captions.last_was_field1,
                ..crate::dtvcc::empty_writer()
            },
            time_code: None,
            sequence: 0,
            service_info: None,
        }),
{
    writer.flush();
}

/// `CDPWriter::write` of `cdp_types`: the packet for the next frame. A packet that holds no more
/// services than a list can, and the captions of one frame, is short enough to be written.
#[verifier::external_body]
pub(crate) fn write_cdp(writer: &mut cdp_types::CDPWriter, framerate: u8) -> (r: Option<Vec<u8>>)
    requires
        is_cdp_framerate(framerate),
        cdp_writer_view(*old(writer)).service_info matches Some(info) ==> info.services.len()
            <= MAX_SERVICES,
    ensures
        r matches Some(data) && data@ == cdp_bytes(cdp_writer_view(*old(writer)), framerate),
        cdp_writer_view(*final(writer)) == (CdpWriterView {
            captions: crate::dtvcc::after_frame(
                cdp_writer_view(*old(writer)).captions,
                cdp_framerate(framerate).0,
                cdp_framerate(framerate).1,
            ),
            ..cdp_writer_view(*old(writer))
        }),
{
    let framerate = cdp_types::Framerate::from_id(framerate)?;
    let mut data = Vec::new();
    writer.write(framerate, &mut data).ok()?;
    Some(data)
}

/// `ServiceInfo::default` of `cdp_types`: a list without services, neither the first nor the last
/// part.
#[verifier::external_body]
pub(crate) fn new_service_info() -> (r: cdp_types::ServiceInfo)
    ensures
        service_info_view(r) == (ServiceInfoView {
            start: false,
            change: false,
            complete: false,
            services: Seq::<ServiceEntry>::empty(),
        }),
{
    cdp_types::ServiceInfo::default()
}

/// `ServiceInfo::set_start` of `cdp_types`: says whether this is the first part of the list.
#[verifier::external_body]
pub(crate) fn set_start(info: &mut cdp_types::ServiceInfo, start: bool)
    ensures
        service_info_view(*final(info)) == (ServiceInfoView {
            start,
            ..service_info_view(*old(info))
        }),
{
    info.set_start(start);
}

/// `ServiceInfo::set_complete` of `cdp_types`: says whether this is the last part of the list.
#[verifier::external_body]
pub(crate) fn set_complete(info: &mut cdp_types::ServiceInfo, complete: bool)
    ensures
        service_info_view(*final(info)) == (ServiceInfoView {
            complete,
            ..service_info_view(*old(info))
        }),
{
    info.set_complete(complete);
}

/// `ServiceInfo::add_service` of `cdp_types`: adds an entry behind the others, unless there are
/// as many as can be.
#[verifier::external_body]
pub(crate) fn add_service(info: &mut cdp_types::ServiceInfo, entry: ServiceEntry) -> (r: bool)
    ensures
        r == (service_info_view(*old(info)).services.len() < MAX_SERVICES),
        service_info_view(*final(info)) == if r {
            ServiceInfoView {
                services: service_info_view(*old(info)).services.push(entry),
                ..service_info_view(*old(info))
            }
        } else {
            service_info_view(*old(info))
        },
{
    let service = match entry.service {
        FieldOrService::Field(field) => cdp_types::FieldOrService::Field(field),
        FieldOrService::Service(d) => cdp_types::FieldOrService::Service(
            cdp_types::DigitalServiceEntry::new(d.service, d.easy_reader, d.wide_aspect_ratio),
        ),
    };
    info.add_service(cdp_types::ServiceEntry::new(entry.language, service)).is_ok()
}

} // verus!
