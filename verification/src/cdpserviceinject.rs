//! Tells the languages of captions in caption distribution packets.
use crate::cdp::{
    add_service, cea608_of_cdp, flush_cdp_parser, flush_cdp_writer, framerate_of_cdp,
    new_cdp_parser, new_cdp_writer, new_service_info, parse_cdp, pop_cdp_packet, push_cdp_cea608,
    push_cdp_packet, sequence_of_cdp, set_cdp_sequence, set_cdp_service_info, set_cdp_time_code,
    set_complete, set_start, time_code_of_cdp, write_cdp, DigitalServiceEntry, FieldOrService,
    ServiceEntry,
};
use crate::clock::FlowError;
use crate::dtvcc::Cea608Pair;
use vstd::prelude::*;

verus! {

/// What is said of a service: its number, where a negative one stands for a CEA-608 channel, and
/// its language.
#[derive(Clone, Debug)]
pub struct ServiceDescription {
    pub service: Option<i32>,
    pub language: Option<Vec<u8>>,
    pub easy_reader: Option<bool>,
    pub wide_aspect_ratio: Option<bool>,
}

/// What is said of a service.
pub struct DescriptionView {
    pub service: Option<i32>,
    pub language: Option<Seq<u8>>,
    pub easy_reader: Option<bool>,
    pub wide_aspect_ratio: Option<bool>,
}

impl View for ServiceDescription {
    type V = DescriptionView;

    open spec fn view(&self) -> DescriptionView {
        DescriptionView {
            service: self.service,
            language: match self.language {
                Some(l) => Some(l@),
                None => None,
            },
            easy_reader: self.easy_reader,
            wide_aspect_ratio: self.wide_aspect_ratio,
        }
    }
}

/// All descriptions, where there are any.
pub open spec fn description_views(list: Seq<Option<ServiceDescription>>) -> Seq<
    Option<DescriptionView>,
> {
    list.map_values(
        |d: Option<ServiceDescription>|
            match d {
                Some(d) => Some(d@),
                None => None,
            },
    )
}

/// Whether a description stands for an entry: it has a number and three letters.
pub open spec fn is_valid(description: Option<DescriptionView>) -> bool {
    &&& description matches Some(d)
    &&& d.service matches Some(id)
    &&& id != 0 && -4 <= id <= 63
    &&& d.language matches Some(l)
    &&& l.len() == 3
}

/// Whether an entry says what a description does.
pub open spec fn describes(entry: ServiceEntry, d: DescriptionView) -> bool {
    &&& entry.language@ == d.language->0
    &&& entry.service == if d.service->0 > 0 {
        FieldOrService::Service(
            DigitalServiceEntry {
                service: d.service->0 as u8,
                easy_reader: d.easy_reader == Some(true),
                wide_aspect_ratio: d.wide_aspect_ratio == Some(true),
            },
        )
    } else {
        FieldOrService::Field(d.service->0 == -1 || d.service->0 == -2)
    }
}

/// The descriptions that stand for entries, of the first `n`.
pub open spec fn valid_ones(list: Seq<Option<DescriptionView>>, n: int) -> Seq<DescriptionView>
    decreases n,
{
    if n <= 0 {
        Seq::empty()
    } else if is_valid(list[n - 1]) {
        valid_ones(list, n - 1).push(list[n - 1]->0)
    } else {
        valid_ones(list, n - 1)
    }
}

/// Whether entries say what descriptions do, one for one.
pub open spec fn all_describe(entries: Seq<ServiceEntry>, list: Seq<DescriptionView>) -> bool {
    &&& entries.len() == list.len()
    &&& forall|i: int|
        0 <= i < entries.len() ==> describes(#[trigger] entries[i], list[i])
}

/// The entry for a description, if it stands for one.
fn service_entry(description: &ServiceDescription) -> (r: Option<ServiceEntry>)
    ensures
        r is Some <==> is_valid(Some(description@)),
        r matches Some(entry) ==> describes(entry, description@),
{
    let id: i32 = match description.service {
        Some(id) => id,
        None => return None,
    };
    if id == 0 || id < -4 || id > 63 {
        return None;
    }
    let language: &Vec<u8> = match &description.language {
        Some(l) => l,
        None => return None,
    };
    if language.len() != 3 {
        return None;
    }
    let service: FieldOrService = if id > 0 {
        FieldOrService::Service(
            DigitalServiceEntry {
                service: id as u8,
                easy_reader: match description.easy_reader {
                    Some(b) => b,
                    None => false,
                },
                wide_aspect_ratio: match description.wide_aspect_ratio {
                    Some(b) => b,
                    None => false,
                },
            },
        )
    } else {
        FieldOrService::Field(id == -1 || id == -2)
    };
    let letters: [u8; 3] = [language[0], language[1], language[2]];
    assert(letters@ =~= language@);
    Some(ServiceEntry { language: letters, service })
}

/// The entries for descriptions. Those that stand for none are left out.
pub fn service_descriptor_from_array(list: &Vec<Option<ServiceDescription>>) -> (r: Vec<
    ServiceEntry,
>)
    ensures
        all_describe(
            r@,
            valid_ones(description_views(list@), list@.len() as int),
        ),
{
    let mut entries: Vec<ServiceEntry> = Vec::new();
    let ghost views = description_views(list@);
    let mut i: usize = 0;
    while i < list.len()
        invariant
            i <= list@.len(),
            views == description_views(list@),
            all_describe(entries@, valid_ones(views, i as int)),
        decreases list@.len() - i,
    {
        if let Some(description) = &list[i] {
            assert(views[i as int] == Some(description@));
            if let Some(entry) = service_entry(description) {
                entries.push(entry);
            }
        }
        i += 1;
    }
    entries
}

/// How many entries go into the next list.
pub open spec fn part_len(entries: Seq<ServiceEntry>) -> int {
    if entries.len() <= crate::cdp::MAX_SERVICES {
        entries.len() as int
    } else {
        crate::cdp::MAX_SERVICES as int
    }
}

/// The list of the next packet, and the entries that are left for the packets after it. What was
/// left comes first; else the whole list begins anew.
pub open spec fn next_list(descriptor: Seq<ServiceEntry>, pending: Seq<ServiceEntry>) -> (
    Option<crate::cdp::ServiceInfoView>,
    Seq<ServiceEntry>,
) {
    let entries = if pending.len() > 0 {
        pending
    } else {
        descriptor
    };
    let n = part_len(entries);
    if entries.len() == 0 {
        (None, pending)
    } else {
        (
            Some(
                crate::cdp::ServiceInfoView {
                    start: pending.len() == 0,
                    change: false,
                    complete: n == entries.len(),
                    services: entries.take(n),
                },
            ),
            entries.skip(n),
        )
    }
}

/// Tells the languages of captions.
pub struct CdpServiceInject {
    pub service_descriptor: Vec<ServiceEntry>,
    pub cdp_parser: cdp_types::CDPParser,
    pub cdp_writer: cdp_types::CDPWriter,
    pub pending_service_descriptor: Vec<ServiceEntry>,
}

/// Adds entries to a list, as many as fit. Says how many that are.
fn add_entries(info: &mut cdp_types::ServiceInfo, entries: &Vec<ServiceEntry>) -> (r: usize)
    requires
        crate::cdp::service_info_view(*old(info)).services.len() == 0,
    ensures
        r == part_len(entries@),
        crate::cdp::service_info_view(*final(info)) == (crate::cdp::ServiceInfoView {
            services: entries@.take(part_len(entries@)),
            ..crate::cdp::service_info_view(*old(info))
        }),
{
    let mut i: usize = 0;
    assert(crate::cdp::service_info_view(*info).services =~= entries@.take(0));
    while i < entries.len()
        invariant
            i <= entries@.len(),
            i <= crate::cdp::MAX_SERVICES,
            crate::cdp::service_info_view(*info) == (crate::cdp::ServiceInfoView {
                services: entries@.take(i as int),
                ..crate::cdp::service_info_view(*old(info))
            }),
        decreases entries@.len() - i,
    {
        if !add_service(info, entries[i]) {
            return i;
        }
        assert(entries@.take(i as int).push(entries@[i as int]) =~= entries@.take(i + 1));
        i += 1;
    }
    i
}

impl CdpServiceInject {
    /// Nothing came yet.
    pub fn new(service_descriptor: Vec<ServiceEntry>) -> (r: Self)
        ensures
            r.service_descriptor == service_descriptor,
            r.pending_service_descriptor@.len() == 0,
            crate::cdp::cdp_parser_view(r.cdp_parser) == crate::cdp::empty_cdp_parser(),
            crate::cdp::cdp_writer_view(r.cdp_writer) == crate::cdp::empty_cdp_writer(),
    {
        CdpServiceInject {
            service_descriptor,
            cdp_parser: new_cdp_parser(),
            cdp_writer: new_cdp_writer(),
            pending_service_descriptor: Vec::new(),
        }
    }

    /// Forgets what came.
    pub fn flush_stop(&mut self)
        ensures
            final(self).service_descriptor == old(self).service_descriptor,
            final(self).pending_service_descriptor@.len() == 0,
            crate::cdp::cdp_parser_view(final(self).cdp_parser)
                == crate::cdp::empty_cdp_parser(),
            crate::cdp::cdp_writer_view(final(self).cdp_writer) == (crate::cdp::CdpWriterView {
                captions: crate::dtvcc::WriterView {
                    packets: Seq::<crate::dtvcc::PacketView>::empty(),
                    field1: Seq::<(u8, u8)>::empty(),
                    field2: Seq::<(u8, u8)>::empty(),
                    pending: Seq::<u8>::empty(),
                    ..crate::cdp::cdp_writer_view(old(self).cdp_writer).captions
                },
                time_code: None,
                sequence: 0,
                service_info: None,
            }),
    {
        flush_cdp_parser(&mut self.cdp_parser);
        flush_cdp_writer(&mut self.cdp_writer);
        self.pending_service_descriptor = Vec::new();
    }

    /// The list of services for the next packet.
    fn next_info(&mut self) -> (r: Option<cdp_types::ServiceInfo>)
        ensures
            ({
                let (info, pending) = next_list(
                    old(self).service_descriptor@,
                    old(self).pending_service_descriptor@,
                );
                &&& final(self).pending_service_descriptor@ == pending
                &&& match r {
                    Some(i) => info == Some(crate::cdp::service_info_view(i)),
                    None => info is None,
                }
            }),
            final(self).service_descriptor == old(self).service_descriptor,
            final(self).cdp_parser == old(self).cdp_parser,
            final(self).cdp_writer == old(self).cdp_writer,
    {
        let mut info: cdp_types::ServiceInfo = new_service_info();
        if self.pending_service_descriptor.len() > 0 {
            let n: usize = add_entries(&mut info, &self.pending_service_descriptor);
            let left: Vec<ServiceEntry> = self.pending_service_descriptor.split_off(n);
            set_complete(&mut info, left.len() == 0);
            assert(left@ =~= old(self).pending_service_descriptor@.skip(n as int));
            self.pending_service_descriptor = left;
            Some(info)
        } else if self.service_descriptor.len() > 0 {
            set_start(&mut info, true);
            let n: usize = add_entries(&mut info, &self.service_descriptor);
            let mut i: usize = n;
            let mut left: Vec<ServiceEntry> = Vec::new();
            let ghost all = self.service_descriptor@;
            assert(left@ =~= all.subrange(n as int, n as int));
            while i < self.service_descriptor.len()
                invariant
                    n <= i <= self.service_descriptor@.len(),
                    all == self.service_descriptor@,
                    left@ == all.subrange(n as int, i as int),
                decreases self.service_descriptor@.len() - i,
            {
                left.push(self.service_descriptor[i]);
                i += 1;
                assert(left@ =~= all.subrange(n as int, i as int));
            }
            assert(left@ =~= all.skip(n as int));
            if left.len() == 0 {
                set_complete(&mut info, true);
            }
            self.pending_service_descriptor = left;
            Some(info)
        } else {
            None
        }
    }

    /// Moves the captions that came to what goes out.
    fn move_captions(&mut self)
        ensures
            ({
                let came = crate::cdp::cdp_parser_view(old(self).cdp_parser);
                &&& crate::cdp::cdp_writer_view(final(self).cdp_writer) == with_captions(
                    crate::cdp::cdp_writer_view(old(self).cdp_writer),
                    came.captions,
                )
                &&& crate::cdp::cdp_parser_view(final(self).cdp_parser) == without_packets(came)
            }),
            final(self).service_descriptor == old(self).service_descriptor,
            final(self).pending_service_descriptor == old(self).pending_service_descriptor,
    {
        let ghost came = crate::cdp::cdp_parser_view(self.cdp_parser);
        let ghost was = crate::cdp::cdp_writer_view(self.cdp_writer);
        let ghost packets = came.captions.packets;
        let ghost mut n: int = 0;
        assert(packets.skip(0) =~= packets);
        assert(was.captions.packets + packets.take(0) =~= was.captions.packets);
        let mut more: bool = true;
        while more
            invariant
                0 <= n <= packets.len(),
                packets == came.captions.packets,
                self.service_descriptor == old(self).service_descriptor,
                self.pending_service_descriptor == old(self).pending_service_descriptor,
                crate::cdp::cdp_parser_view(self.cdp_parser) == (crate::cdp::CdpParserView {
                    captions: crate::dtvcc::ParserView {
                        packets: packets.skip(n),
                        ..came.captions
                    },
                    ..came
                }),
                crate::cdp::cdp_writer_view(self.cdp_writer) == (crate::cdp::CdpWriterView {
                    captions: crate::dtvcc::WriterView {
                        packets: was.captions.packets + packets.take(n),
                        ..was.captions
                    },
                    ..was
                }),
                !more ==> n == packets.len(),
            decreases
                    (if more {
                        1int
                    } else {
                        0int
                    }),
                    packets.len() - n,
        {
            match pop_cdp_packet(&mut self.cdp_parser) {
                Some(packet) => {
                    assert(packets.skip(n)[0] == packets[n]);
                    assert(packets.skip(n).drop_first() =~= packets.skip(n + 1));
                    assert((was.captions.packets + packets.take(n)).push(packets[n])
                        =~= was.captions.packets + packets.take(n + 1));
                    push_cdp_packet(&mut self.cdp_writer, packet);
                    proof {
                        n = n + 1;
                    }
                },
                None => {
                    more = false;
                },
            }
        }
        assert(packets.skip(n) =~= Seq::<crate::dtvcc::PacketView>::empty());
        assert(packets.take(n) =~= packets);
        if let Some(pairs) = cea608_of_cdp(&mut self.cdp_parser) {
            self.push_pairs(&pairs);
        }
    }

    fn push_pairs(&mut self, pairs: &Vec<Cea608Pair>)
        ensures
            crate::cdp::cdp_writer_view(final(self).cdp_writer) == (crate::cdp::CdpWriterView {
                captions: crate::dtvcc::with_pairs(
                    crate::cdp::cdp_writer_view(old(self).cdp_writer).captions,
                    pairs@,
                ),
                ..crate::cdp::cdp_writer_view(old(self).cdp_writer)
            }),
            final(self).cdp_parser == old(self).cdp_parser,
            final(self).service_descriptor == old(self).service_descriptor,
            final(self).pending_service_descriptor == old(self).pending_service_descriptor,
    {
        let ghost was = crate::cdp::cdp_writer_view(self.cdp_writer);
        let mut i: usize = 0;
        assert(pairs@.take(0) =~= Seq::<Cea608Pair>::empty());
        while i < pairs.len()
            invariant
                i <= pairs@.len(),
                was == crate::cdp::cdp_writer_view(old(self).cdp_writer),
                self.cdp_parser == old(self).cdp_parser,
                self.service_descriptor == old(self).service_descriptor,
                self.pending_service_descriptor == old(self).pending_service_descriptor,
                crate::cdp::cdp_writer_view(self.cdp_writer) == (crate::cdp::CdpWriterView {
                    captions: crate::dtvcc::with_pairs(was.captions, pairs@.take(i as int)),
                    ..was
                }),
            decreases pairs@.len() - i,
        {
            push_cdp_cea608(&mut self.cdp_writer, pairs[i]);
            proof {
                assert(pairs@.take(i + 1).drop_last() =~= pairs@.take(i as int));
                assert(pairs@.take(i + 1).last() == pairs@[i as int]);
            }
            i += 1;
        }
        assert(pairs@.take(i as int) =~= pairs@);
    }

    /// What the writer holds before the next packet is written, if the parser holds the given.
    pub open spec fn ready(&self, came: crate::cdp::CdpParserView) -> crate::cdp::CdpWriterView {
        crate::cdp::CdpWriterView {
            time_code: came.time_code,
            sequence: came.sequence,
            service_info: next_list(
                self.service_descriptor@,
                self.pending_service_descriptor@,
            ).0,
            ..with_captions(crate::cdp::cdp_writer_view(self.cdp_writer), came.captions)
        }
    }

    /// Replaces a caption distribution packet: the captions are kept, and the list of services is
    /// the next one.
    pub fn transform_ip(&mut self, data: &[u8]) -> (r: Result<Vec<u8>, FlowError>)
        ensures
            ({
                let (taken, came) = crate::cdp::parsed_cdp(
                    crate::cdp::cdp_parser_view(old(self).cdp_parser),
                    data@,
                );
                let view = old(self).ready(came);
                let framerate = came.framerate->0;
                match r {
                    Err(e) => {
                        &&& !taken && e == FlowError::Error
                        &&& crate::cdp::cdp_parser_view(final(self).cdp_parser) == came
                        &&& final(self).cdp_writer == old(self).cdp_writer
                        &&& final(self).pending_service_descriptor == old(
                            self,
                        ).pending_service_descriptor
                    },
                    Ok(out) => {
                        &&& taken
                        &&& out@ == crate::cdp::cdp_bytes(view, framerate)
                        &&& crate::cdp::cdp_parser_view(final(self).cdp_parser)
                            == without_packets(came)
                        &&& crate::cdp::cdp_writer_view(final(self).cdp_writer) == (
                        crate::cdp::CdpWriterView {
                            captions: crate::dtvcc::after_frame(
                                view.captions,
                                crate::cdp::cdp_framerate(framerate).0,
                                crate::cdp::cdp_framerate(framerate).1,
                            ),
                            ..view
                        })
                        &&& final(self).pending_service_descriptor@ == next_list(
                            old(self).service_descriptor@,
                            old(self).pending_service_descriptor@,
                        ).1
                    },
                }
            }),
            final(self).service_descriptor == old(self).service_descriptor,
    {
        if !parse_cdp(&mut self.cdp_parser, data) {
            return Err(FlowError::Error);
        }
        let framerate: u8 = match framerate_of_cdp(&self.cdp_parser) {
            Some(f) => f,
            None => {
                assert(false);
                return Err(FlowError::Error);
            },
        };
        self.move_captions();
        set_cdp_time_code(&mut self.cdp_writer, time_code_of_cdp(&self.cdp_parser));
        set_cdp_sequence(&mut self.cdp_writer, sequence_of_cdp(&self.cdp_parser));
        let info: Option<cdp_types::ServiceInfo> = self.next_info();
        set_cdp_service_info(&mut self.cdp_writer, info);
        match write_cdp(&mut self.cdp_writer, framerate) {
            Some(out) => Ok(out),
            None => Err(FlowError::Error),
        }
    }
}

/// What a writer holds once captions came.
pub open spec fn with_captions(
    writer: crate::cdp::CdpWriterView,
    captions: crate::dtvcc::ParserView,
) -> crate::cdp::CdpWriterView {
    let packets = crate::dtvcc::WriterView {
        packets: writer.captions.packets + captions.packets,
        ..writer.captions
    };
    crate::cdp::CdpWriterView {
        captions: match captions.cea608 {
            Some(pairs) => crate::dtvcc::with_pairs(packets, pairs),
            None => packets,
        },
        ..writer
    }
}

/// What a parser holds once its packets were taken.
pub open spec fn without_packets(parser: crate::cdp::CdpParserView) -> crate::cdp::CdpParserView {
    crate::cdp::CdpParserView {
        captions: crate::dtvcc::ParserView {
            packets: Seq::<crate::dtvcc::PacketView>::empty(),
            ..parser.captions
        },
        ..parser
    }
}

/// No entry is lost or told twice: the entries of a packet and those that are left are the ones
/// that were to be told, in their order. The first packet of a list says so, and the last one too.
pub proof fn law_every_service_is_told(descriptor: Seq<ServiceEntry>, pending: Seq<ServiceEntry>)
    requires
        descriptor.len() > 0 || pending.len() > 0,
    ensures
        ({
            let (info, left) = next_list(descriptor, pending);
            &&& info matches Some(i) && i.services + left == if pending.len() > 0 {
                pending
            } else {
                descriptor
            }
            &&& (info->0).services.len() > 0
            &&& (info->0).services.len() <= crate::cdp::MAX_SERVICES
            &&& (info->0).start <==> pending.len() == 0
            &&& (info->0).complete <==> left.len() == 0
        }),
{
    let entries = if pending.len() > 0 {
        pending
    } else {
        descriptor
    };
    let n = part_len(entries);
    assert(entries.take(n) + entries.skip(n) =~= entries);
}

} // verus!
