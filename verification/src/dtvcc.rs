//! DTVCC packets, the services in them, and the byte streams that carry them.
use cea708_types::tables;
use vstd::prelude::*;

verus! {

/// How many bytes the codes of a service block may take.
pub const MAX_SERVICE_LEN: usize = 31;

/// How many bytes a packet may take.
pub const MAX_PACKET_LEN: usize = 128;

#[verifier::external_type_specification]
#[verifier::external_body]
pub struct ExCode(tables::Code);

#[verifier::external_type_specification]
#[verifier::external_body]
pub struct ExService(cea708_types::Service);

#[verifier::external_type_specification]
#[verifier::external_body]
pub struct ExDTVCCPacket(cea708_types::DTVCCPacket);

#[verifier::external_type_specification]
#[verifier::external_body]
pub struct ExCCDataParser(cea708_types::CCDataParser);

#[verifier::external_type_specification]
#[verifier::external_body]
pub struct ExCCDataWriter(cea708_types::CCDataWriter);

/// The bytes that stand for a code in a service block.
pub uninterp spec fn code_bytes(code: tables::Code) -> Seq<u8>;

/// How many bytes of a service block a code is counted for.
pub uninterp spec fn code_len(code: tables::Code) -> nat;

/// Whether there are bytes for a code. A delay has none.
pub uninterp spec fn has_bytes(code: tables::Code) -> bool;

/// The character that a code stands for.
pub uninterp spec fn code_char(code: tables::Code) -> Option<char>;

/// The code that stands for a character.
pub uninterp spec fn char_code(c: char) -> Option<tables::Code>;

/// The codes that are found in bytes. There are none where the last one is cut off.
pub uninterp spec fn parsed_codes(bytes: Seq<u8>) -> Option<Seq<tables::Code>>;

/// The four bytes of the window attributes of a predefined style.
pub uninterp spec fn window_style(style: u8) -> Seq<u8>;

/// The two bytes of the pen attributes of a predefined style.
pub uninterp spec fn pen_style(style: u8) -> Seq<u8>;

/// The three bytes of the pen colors of a predefined style.
pub uninterp spec fn pen_style_color(style: u8) -> Seq<u8>;

/// A service block: the number of the service and the codes, in order.
pub struct ServiceView {
    pub number: u8,
    pub codes: Seq<tables::Code>,
}

/// A packet: its sequence number and the service blocks, in order.
pub struct PacketView {
    pub sequence_no: u8,
    pub services: Seq<ServiceView>,
}

/// What a service block holds.
pub uninterp spec fn service_view(service: cea708_types::Service) -> ServiceView;

/// What a packet holds.
pub uninterp spec fn packet_view(packet: cea708_types::DTVCCPacket) -> PacketView;

/// A pair of CEA-608 bytes and the field that it belongs to.
#[derive(Clone, Copy, Debug, PartialEq, Eq, Structural)]
pub struct Cea608Pair {
    /// Whether this is the first field.
    pub field1: bool,
    pub byte0: u8,
    pub byte1: u8,
}

/// What a parser holds.
pub struct ParserView {
    /// The packets that were found and not yet taken, the oldest one first.
    pub packets: Seq<PacketView>,
    /// The CEA-608 pairs of the bytes that were pushed last, if these are kept.
    pub cea608: Option<Seq<Cea608Pair>>,
    /// The bytes of a packet that is not complete.
    pub pending: Seq<u8>,
    /// Whether the beginning of a packet was seen.
    pub started: bool,
    /// How many bytes of the packet are to come.
    pub needed: nat,
}

/// What a writer holds.
pub struct WriterView {
    pub output_padding: bool,
    pub output_cea608_padding: bool,
    /// What is to be written, the oldest first.
    pub packets: Seq<PacketView>,
    pub field1: Seq<(u8, u8)>,
    pub field2: Seq<(u8, u8)>,
    /// The part of a packet that was left over.
    pub pending: Seq<u8>,
    /// Whether the last pair that was written belonged to the first field.
    pub last_was_field1: bool,
}

/// What a parser holds.
pub uninterp spec fn parser_view(parser: cea708_types::CCDataParser) -> ParserView;

/// What a parser holds once bytes were pushed into it. The packets that it found come behind those
/// that it held.
pub uninterp spec fn pushed(view: ParserView, data: Seq<u8>) -> ParserView;

/// What a writer holds.
pub uninterp spec fn writer_view(writer: cea708_types::CCDataWriter) -> WriterView;

/// The bytes that a writer puts out for a frame of a stream with the given framerate.
pub uninterp spec fn frame_bytes(view: WriterView, numer: u32, denom: u32) -> Seq<u8>;

/// What a writer holds once it has put out a frame.
pub uninterp spec fn after_frame(view: WriterView, numer: u32, denom: u32) -> WriterView;

/// What a new parser holds.
pub open spec fn empty_parser() -> ParserView {
    ParserView {
        packets: Seq::empty(),
        cea608: None,
        pending: Seq::empty(),
        started: false,
        needed: 0,
    }
}

/// What a new writer holds.
pub open spec fn empty_writer() -> WriterView {
    WriterView {
        output_padding: false,
        output_cea608_padding: false,
        packets: Seq::empty(),
        field1: Seq::empty(),
        field2: Seq::empty(),
        pending: Seq::empty(),
        last_was_field1: false,
    }
}

/// Whether there are bytes for each of the codes.
pub open spec fn all_have_bytes(codes: Seq<tables::Code>) -> bool {
    forall|i: int| 0 <= i < codes.len() ==> #[trigger] has_bytes(codes[i])
}

/// How many bytes codes are counted for.
pub open spec fn codes_len(codes: Seq<tables::Code>) -> nat
    decreases codes.len(),
{
    if codes.len() == 0 {
        0
    } else {
        codes_len(codes.drop_last()) + code_len(codes.last())
    }
}

/// How many bytes a service block takes, with its header.
pub open spec fn service_len(service: ServiceView) -> nat {
    if service.number == 0 || service.codes.len() == 0 {
        0
    } else {
        (if service.number >= 7 {
            2nat
        } else {
            1nat
        }) + codes_len(service.codes)
    }
}

/// How many bytes service blocks take.
pub open spec fn services_len(services: Seq<ServiceView>) -> nat
    decreases services.len(),
{
    if services.len() == 0 {
        0
    } else {
        services_len(services.drop_last()) + service_len(services.last())
    }
}

/// How many bytes a packet takes, with its header.
pub open spec fn packet_len(services: Seq<ServiceView>) -> nat {
    if services_len(services) > 0 {
        1 + services_len(services)
    } else {
        0
    }
}

/// Whether bytes are one control code of which no bit is unused.
pub open spec fn is_control(b: Seq<u8>) -> bool {
    ||| b.len() == 1 && (b[0] == 0x03 || b[0] == 0x08 || b[0] == 0x0c || b[0] == 0x0d || b[0]
        == 0x0e || 0x80 <= b[0] <= 0x87 || b[0] == 0x8f)
    ||| b.len() == 2 && 0x88 <= b[0] <= 0x8c
    ||| b.len() == 3 && b[0] == 0x90
    ||| b.len() == 4 && b[0] == 0x91 && b[3] < 0x40
    ||| b.len() == 3 && b[0] == 0x92 && b[1] < 0x10 && b[2] < 0x40
    ||| b.len() == 7 && 0x98 <= b[0] <= 0x9f && b[1] < 0x40 && b[5] < 0x40 && b[6] < 0x40
}

/// How many triples a caption packet says that it holds.
pub open spec fn triple_count(data: Seq<u8>) -> int {
    (data[0] & 0x1f) as int
}

/// Whether a parser looks at the triples of a caption packet at all.
pub open spec fn is_processed(data: Seq<u8>) -> bool {
    data.len() >= 5 && data[0] & 0x40 > 0 && triple_count(data) > 0
}

/// The kind of the given triple.
pub open spec fn triple_kind(data: Seq<u8>, i: int) -> int {
    (data[2 + 3 * i] & 3) as int
}

/// Whether the given triple is valid.
pub open spec fn triple_valid(data: Seq<u8>, i: int) -> bool {
    data[2 + 3 * i] & 4 == 4
}

/// Whether one of the first `n` triples belongs to a DTVCC packet.
pub open spec fn has_dtvcc(data: Seq<u8>, n: int) -> bool {
    exists|i: int| 0 <= i < n && #[trigger] triple_kind(data, i) >= 2
}

/// Whether a valid CEA-608 triple stands behind one that belongs to a DTVCC packet.
pub open spec fn is_misplaced(data: Seq<u8>, i: int) -> bool {
    triple_kind(data, i) < 2 && triple_valid(data, i) && has_dtvcc(data, i)
}

/// Whether a parser takes a caption packet: it is passed over, or its length is the one that it
/// says, and CEA-608 comes before DTVCC.
pub open spec fn can_push(data: Seq<u8>) -> bool {
    is_processed(data) ==> data.len() == 3 * triple_count(data) + 2 && forall|i: int|
        0 <= i < triple_count(data) ==> !#[trigger] is_misplaced(data, i)
}

/// The CEA-608 pairs of the first `n` triples.
pub open spec fn pairs_of(data: Seq<u8>, n: int) -> Seq<Cea608Pair>
    decreases n,
{
    if n <= 0 {
        Seq::empty()
    } else {
        let before = pairs_of(data, n - 1);
        if triple_valid(data, n - 1) && triple_kind(data, n - 1) < 2 && !has_dtvcc(data, n - 1) {
            before.push(
                Cea608Pair {
                    field1: triple_kind(data, n - 1) == 0,
                    byte0: data[3 * n],
                    byte1: data[3 * n + 1],
                },
            )
        } else {
            before
        }
    }
}

/// The CEA-608 pairs of a caption packet.
pub open spec fn cea608_of(data: Seq<u8>) -> Seq<Cea608Pair> {
    if is_processed(data) && data.len() == 3 * triple_count(data) + 2 {
        pairs_of(data, triple_count(data))
    } else {
        Seq::empty()
    }
}

/// What a writer holds once a CEA-608 pair was pushed into it. Padding is dropped.
pub open spec fn with_pair(view: WriterView, pair: Cea608Pair) -> WriterView {
    if pair.byte0 == 0x80 && pair.byte1 == 0x80 {
        view
    } else if pair.field1 {
        WriterView { field1: view.field1.push((pair.byte0, pair.byte1)), ..view }
    } else {
        WriterView { field2: view.field2.push((pair.byte0, pair.byte1)), ..view }
    }
}

/// What a writer holds once CEA-608 pairs were pushed into it.
pub open spec fn with_pairs(view: WriterView, pairs: Seq<Cea608Pair>) -> WriterView
    decreases pairs.len(),
{
    if pairs.len() == 0 {
        view
    } else {
        with_pair(with_pairs(view, pairs.drop_last()), pairs.last())
    }
}

/// Whether the number of triples per frame can be calculated from a framerate.
pub open spec fn is_framerate(numer: u32, denom: u32) -> bool {
    numer > 0 && (600 * denom + numer / 2) / (numer as int) <= u32::MAX
}

/// `Code::from_data` of `cea708_types`: the codes that stand in bytes. None of them is a delay. A
/// control code with all its unused bits zero is found alone, is counted for all its bytes and is
/// written as it was.
#[verifier::external_body]
pub(crate) fn parse_codes(bytes: &[u8]) -> (r: Option<Vec<tables::Code>>)
    ensures
        r is None <==> parsed_codes(bytes@) is None,
        r matches Some(codes) ==> parsed_codes(bytes@) == Some(codes@),
        r matches Some(codes) ==> forall|i: int|
            0 <= i < codes@.len() ==> #[trigger] has_bytes(codes@[i]),
        is_control(bytes@) ==> r is Some && r->0@.len() == 1 && code_bytes(r->0@[0]) == bytes@
            && code_len(r->0@[0]) == bytes@.len() && code_char(r->0@[0]) is None,
{
    tables::Code::from_data(bytes).ok()
}

/// Tells `Code::Delay` of `cea708_types` apart. It is the only code for which `Code::write` and
/// `Code::byte_len` have neither an entry in their table nor a case of their own.
#[verifier::external_body]
pub(crate) fn can_write(code: &tables::Code) -> (r: bool)
    ensures
        r == has_bytes(*code),
{
    match code {
        tables::Code::Delay(_) => false,
        _ => true,
    }
}

/// `Code::write` of `cea708_types`: the bytes of a code.
#[verifier::external_body]
pub(crate) fn write_code(code: &tables::Code) -> (r: Vec<u8>)
    requires
        has_bytes(*code),
    ensures
        r@ == code_bytes(*code),
{
    let mut bytes = Vec::new();
    let _ = code.write(&mut bytes);
    bytes
}

/// `Code::char` of `cea708_types`: the character of a code.
#[verifier::external_body]
pub(crate) fn char_of_code(code: &tables::Code) -> (r: Option<char>)
    ensures
        r == code_char(*code),
{
    code.char()
}

/// `Code::from_char` of `cea708_types`: the code of a character, which stands for it. It is one
/// that has bytes.
#[verifier::external_body]
pub(crate) fn code_of_char(c: char) -> (r: Option<tables::Code>)
    ensures
        r == char_code(c),
        r matches Some(code) ==> code_char(code) == Some(c) && has_bytes(code),
{
    tables::Code::from_char(c)
}

/// `Code::byte_len` of `cea708_types`: how many bytes of a service block a code is counted for.
#[verifier::external_body]
pub(crate) fn len_of_code(code: &tables::Code) -> (r: usize)
    requires
        has_bytes(*code),
    ensures
        r == code_len(*code),
{
    code.byte_len()
}

/// `Code::clone` of `cea708_types`, which copies all that a code holds.
#[verifier::external_body]
pub(crate) fn clone_code(code: &tables::Code) -> (r: tables::Code)
    ensures
        r == *code,
{
    code.clone()
}

/// `DefineWindowArgs::window_attributes` of `cea708_types`: the window attributes of a predefined
/// style. The byte is the one in which a window definition names its styles.
#[verifier::external_body]
pub(crate) fn predefined_window_attributes(styles: u8) -> (r: [u8; 4])
    requires
        styles < 64,
    ensures
        r@ == window_style(styles / 8),
{
    tables::DefineWindowArgs::from([0, 0, 0, 0, 0, styles]).window_attributes().into()
}

/// `DefineWindowArgs::pen_attributes` of `cea708_types`: the pen attributes of a predefined style.
#[verifier::external_body]
pub(crate) fn predefined_pen_attributes(style: u8) -> (r: [u8; 2])
    requires
        style < 8,
    ensures
        r@ == pen_style(style),
{
    tables::DefineWindowArgs::from([0, 0, 0, 0, 0, style]).pen_attributes().into()
}

/// `DefineWindowArgs::pen_color` of `cea708_types`: the pen colors of a predefined style.
#[verifier::external_body]
pub(crate) fn predefined_pen_color(style: u8) -> (r: [u8; 3])
    requires
        style < 8,
    ensures
        r@ == pen_style_color(style),
{
    tables::DefineWindowArgs::from([0, 0, 0, 0, 0, style]).pen_color().into()
}

/// `Service::new` of `cea708_types`: a service block without codes.
#[verifier::external_body]
pub(crate) fn new_service(number: u8) -> (r: cea708_types::Service)
    requires
        number < 64,
    ensures
        service_view(r) == (ServiceView { number, codes: Seq::empty() }),
{
    cea708_types::Service::new(number)
}

/// `Service::number` of `cea708_types`. It is that of the block, which is below 64.
#[verifier::external_body]
pub(crate) fn number_of_service(service: &cea708_types::Service) -> (r: u8)
    ensures
        r == service_view(*service).number,
        r < 64,
{
    service.number()
}

/// `Service::codes` of `cea708_types`. Each of them was parsed, or counted when it was added, so it
/// has bytes.
#[verifier::external_body]
pub(crate) fn codes_of_service(service: &cea708_types::Service) -> (r: &[tables::Code])
    ensures
        r@ == service_view(*service).codes,
        forall|i: int| 0 <= i < r@.len() ==> #[trigger] has_bytes(r@[i]),
{
    service.codes()
}

/// `Service::free_space` of `cea708_types`: how many bytes are left. Those that are taken never
/// exceed the limit.
#[verifier::external_body]
pub(crate) fn free_space_of_service(service: &cea708_types::Service) -> (r: usize)
    ensures
        r + codes_len(service_view(*service).codes) == MAX_SERVICE_LEN,
{
    service.free_space()
}

/// `Service::len` of `cea708_types`: how many bytes a block takes. Its codes take 31 at most.
#[verifier::external_body]
pub(crate) fn len_of_service(service: &cea708_types::Service) -> (r: usize)
    ensures
        r == service_len(service_view(*service)),
        r <= MAX_SERVICE_LEN + 2,
{
    service.len()
}

/// `Service::push_code` of `cea708_types`: adds a code behind the others where there is room for
/// it. The null service takes none.
#[verifier::external_body]
pub(crate) fn push_code(service: &mut cea708_types::Service, code: &tables::Code) -> (r: bool)
    requires
        has_bytes(*code),
    ensures
        r == (service_view(*old(service)).number != 0 && code_len(*code) + codes_len(
            service_view(*old(service)).codes,
        ) <= MAX_SERVICE_LEN),
        r ==> service_view(*final(service)) == (ServiceView {
            number: service_view(*old(service)).number,
            codes: service_view(*old(service)).codes.push(*code),
        }),
        !r ==> service_view(*final(service)) == service_view(*old(service)),
{
    service.push_code(code).is_ok()
}

/// `DTVCCPacket::new` of `cea708_types`: a packet without services.
#[verifier::external_body]
pub(crate) fn new_packet(sequence_no: u8) -> (r: cea708_types::DTVCCPacket)
    requires
        sequence_no < 4,
    ensures
        packet_view(r) == (PacketView { sequence_no, services: Seq::empty() }),
{
    cea708_types::DTVCCPacket::new(sequence_no)
}

/// `DTVCCPacket::services` of `cea708_types`.
#[verifier::external_body]
pub(crate) fn services_of_packet(packet: &cea708_types::DTVCCPacket) -> (r:
    &[cea708_types::Service])
    ensures
        r@.map_values(|s: cea708_types::Service| service_view(s)) == packet_view(*packet).services,
{
    packet.services()
}

/// `DTVCCPacket::push_service` of `cea708_types`: adds a service block behind the others where it
/// has codes and there is room for it.
#[verifier::external_body]
pub(crate) fn push_service(
    packet: &mut cea708_types::DTVCCPacket,
    service: cea708_types::Service,
) -> (r: bool)
    ensures
        r == (service_view(service).codes.len() > 0 && service_len(service_view(service))
            + packet_len(packet_view(*old(packet)).services) <= MAX_PACKET_LEN),
        r ==> packet_view(*final(packet)) == (PacketView {
            sequence_no: packet_view(*old(packet)).sequence_no,
            services: packet_view(*old(packet)).services.push(service_view(service)),
        }),
        !r ==> packet_view(*final(packet)) == packet_view(*old(packet)),
{
    packet.push_service(service).is_ok()
}

/// `DTVCCPacket::free_space` of `cea708_types`: how many bytes are left in a packet.
#[verifier::external_body]
pub(crate) fn free_space_of_packet(packet: &cea708_types::DTVCCPacket) -> (r: usize)
    requires
        packet_len(packet_view(*packet).services) <= MAX_PACKET_LEN,
    ensures
        r == MAX_PACKET_LEN - packet_len(packet_view(*packet).services),
{
    packet.free_space()
}

/// `CCDataParser::new` of `cea708_types`: a parser that holds nothing and keeps no CEA-608 pairs.
#[verifier::external_body]
pub(crate) fn new_parser() -> (r: cea708_types::CCDataParser)
    ensures
        parser_view(r) == empty_parser(),
{
    cea708_types::CCDataParser::new()
}

/// `CCDataParser::handle_cea608` of `cea708_types`: CEA-608 pairs are kept from now on.
#[verifier::external_body]
pub(crate) fn handle_cea608(parser: &mut cea708_types::CCDataParser)
    ensures
        parser_view(*final(parser)) == (ParserView {
            cea608: Some(Seq::<Cea608Pair>::empty()),
            ..parser_view(*old(parser))
        }),
{
    parser.handle_cea608();
}

/// `CCDataParser::push` of `cea708_types`: looks for packets in a caption packet. It keeps the
/// CEA-608 pairs of this caption packet in place of earlier ones. A caption packet that it does
/// not take changes nothing else.
#[verifier::external_body]
pub(crate) fn push_cc_data(parser: &mut cea708_types::CCDataParser, data: &[u8]) -> (r: bool)
    ensures
        r == can_push(data@),
        r ==> parser_view(*final(parser)) == pushed(parser_view(*old(parser)), data@),
        !r ==> parser_view(*final(parser)) == (ParserView {
            cea608: parser_view(*final(parser)).cea608,
            ..parser_view(*old(parser))
        }),
        parser_view(*final(parser)).cea608 == match parser_view(*old(parser)).cea608 {
            Some(_) => Some(cea608_of(data@)),
            None => None::<Seq<Cea608Pair>>,
        },
{
    parser.push(data).is_ok()
}

/// `CCDataParser::pop_packet` of `cea708_types`: takes the oldest packet.
#[verifier::external_body]
pub(crate) fn pop_packet(parser: &mut cea708_types::CCDataParser) -> (r: Option<
    cea708_types::DTVCCPacket,
>)
    ensures
        r is Some <==> parser_view(*old(parser)).packets.len() > 0,
        r matches Some(packet) ==> packet_view(packet) == parser_view(*old(parser)).packets[0]
            && parser_view(*final(parser)) == (ParserView {
            packets: parser_view(*old(parser)).packets.drop_first(),
            ..parser_view(*old(parser))
        }),
        r is None ==> parser_view(*final(parser)) == parser_view(*old(parser)),
{
    parser.pop_packet()
}

/// `CCDataParser::cea608` of `cea708_types`: the CEA-608 pairs that are kept, one for one.
#[verifier::external_body]
pub(crate) fn cea608_pairs(parser: &mut cea708_types::CCDataParser) -> (r: Option<Vec<Cea608Pair>>)
    ensures
        parser_view(*final(parser)) == parser_view(*old(parser)),
        r is None <==> parser_view(*old(parser)).cea608 is None,
        r matches Some(pairs) ==> parser_view(*old(parser)).cea608 == Some(pairs@),
{
    let pair = |p: &cea708_types::Cea608| match *p {
        cea708_types::Cea608::Field1(byte0, byte1) => Cea608Pair { field1: true, byte0, byte1 },
        cea708_types::Cea608::Field2(byte0, byte1) => Cea608Pair { field1: false, byte0, byte1 },
    };
    parser.cea608().map(|pairs| pairs.iter().map(pair).collect())
}

/// `CCDataParser::flush` of `cea708_types`: the parser is as a new one, which keeps no CEA-608
/// pairs.
#[verifier::external_body]
pub(crate) fn flush_parser(parser: &mut cea708_types::CCDataParser)
    ensures
        parser_view(*final(parser)) == empty_parser(),
{
    parser.flush();
}

/// `CCDataWriter::default` of `cea708_types`: a writer that holds nothing and writes no padding.
#[verifier::external_body]
pub(crate) fn new_writer() -> (r: cea708_types::CCDataWriter)
    ensures
        writer_view(r) == empty_writer(),
{
    cea708_types::CCDataWriter::default()
}

/// `CCDataWriter::set_output_padding` of `cea708_types`.
#[verifier::external_body]
pub(crate) fn set_output_padding(writer: &mut cea708_types::CCDataWriter, padding: bool)
    ensures
        writer_view(*final(writer)) == (WriterView {
            output_padding: padding,
            ..writer_view(*old(writer))
        }),
{
    writer.set_output_padding(padding);
}

/// `CCDataWriter::set_output_cea608_padding` of `cea708_types`.
#[verifier::external_body]
pub(crate) fn set_output_cea608_padding(writer: &mut cea708_types::CCDataWriter, padding: bool)
    ensures
        writer_view(*final(writer)) == (WriterView {
            output_cea608_padding: padding,
            ..writer_view(*old(writer))
        }),
{
    writer.set_output_cea608_padding(padding);
}

/// `CCDataWriter::push_packet` of `cea708_types`: the packet is written after those before it.
#[verifier::external_body]
pub(crate) fn push_packet(
    writer: &mut cea708_types::CCDataWriter,
    packet: cea708_types::DTVCCPacket,
)
    ensures
        writer_view(*final(writer)) == (WriterView {
            packets: writer_view(*old(writer)).packets.push(packet_view(packet)),
            ..writer_view(*old(writer))
        }),
{
    writer.push_packet(packet);
}

/// `CCDataWriter::push_cea608` of `cea708_types`: the pair is written after those of its field
/// before it. Padding is dropped.
#[verifier::external_body]
pub(crate) fn push_cea608(writer: &mut cea708_types::CCDataWriter, pair: Cea608Pair)
    ensures
        writer_view(*final(writer)) == with_pair(writer_view(*old(writer)), pair),
{
    writer.push_cea608(
        if pair.field1 {
            cea708_types::Cea608::Field1(pair.byte0, pair.byte1)
        } else {
            cea708_types::Cea608::Field2(pair.byte0, pair.byte1)
        },
    );
}

/// `CCDataWriter::write` of `cea708_types`: the caption packet for the next frame, with its header
/// of two bytes.
#[verifier::external_body]
pub(crate) fn write_frame(writer: &mut cea708_types::CCDataWriter, numer: u32, denom: u32) -> (r:
    Vec<u8>)
    requires
        is_framerate(numer, denom),
    ensures
        r@ == frame_bytes(writer_view(*old(writer)), numer, denom),
        r@.len() >= 2,
        writer_view(*final(writer)) == after_frame(writer_view(*old(writer)), numer, denom),
        writer_view(*final(writer)).output_padding == writer_view(*old(writer)).output_padding,
        writer_view(*final(writer)).output_cea608_padding == writer_view(
            *old(writer),
        ).output_cea608_padding,
{
    let mut data = Vec::new();
    let _ = writer.write(cea708_types::Framerate::new(numer, denom), &mut data);
    data
}

/// Pushes CEA-608 pairs.
pub(crate) fn push_all_cea608(writer: &mut cea708_types::CCDataWriter, pairs: &Vec<Cea608Pair>)
    ensures
        writer_view(*final(writer)) == with_pairs(writer_view(*old(writer)), pairs@),
{
    let mut i: usize = 0;
    assert(pairs@.take(0) =~= Seq::<Cea608Pair>::empty());
    while i < pairs.len()
        invariant
            i <= pairs@.len(),
            writer_view(*writer) == with_pairs(writer_view(*old(writer)), pairs@.take(i as int)),
        decreases pairs@.len() - i,
    {
        push_cea608(writer, pairs[i]);
        proof {
            assert(pairs@.take(i + 1).drop_last() =~= pairs@.take(i as int));
            assert(pairs@.take(i + 1).last() == pairs@[i as int]);
        }
        i += 1;
    }
    assert(pairs@.take(i as int) =~= pairs@);
}

/// Whether a parser takes a caption packet.
pub fn is_accepted(data: &[u8]) -> (r: bool)
    ensures
        r == can_push(data@),
{
    let len: usize = data.len();
    if len < 5 || data[0] & 0x40 == 0 {
        return true;
    }
    let count: usize = (data[0] & 0x1f) as usize;
    if count == 0 {
        return true;
    }
    proof {
        let b = data@[0];
        assert(b & 0x1f < 32) by (bit_vector);
    }
    if len != 3 * count + 2 {
        return false;
    }
    let mut i: usize = 0;
    let mut dtvcc: bool = false;
    while i < count
        invariant
            len == data@.len(),
            len == 3 * count + 2,
            i <= count,
            count == triple_count(data@),
            dtvcc == has_dtvcc(data@, i as int),
            forall|j: int| 0 <= j < i ==> !#[trigger] is_misplaced(data@, j),
            is_processed(data@),
        decreases count - i,
    {
        let head: u8 = data[2 + 3 * i];
        if head & 3 < 2 {
            if head & 4 == 4 && dtvcc {
                assert(is_misplaced(data@, i as int));
                return false;
            }
            assert(triple_kind(data@, i as int) < 2);
        } else {
            assert(triple_kind(data@, i as int) >= 2);
            dtvcc = true;
        }
        i += 1;
    }
    true
}

/// The bytes of captions with the header of a caption packet before them.
pub open spec fn with_header(captions: Seq<u8>) -> Seq<u8> {
    seq![(0xc0 + captions.len() / 3 % 32) as u8, 0xff] + captions
}

/// Puts the header of a caption packet before the bytes of captions.
pub fn add_header(captions: &[u8]) -> (r: Vec<u8>)
    ensures
        r@ == with_header(captions@),
{
    let mut data: Vec<u8> = Vec::new();
    data.push(0xc0 + (captions.len() / 3 % 32) as u8);
    data.push(0xff);
    crate::text::push_bytes(&mut data, captions);
    assert(data@ =~= with_header(captions@));
    data
}

} // verus!
