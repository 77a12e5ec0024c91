//! Shows captions of digital television over video.
use crate::ccutils::{extract_cdp, CaptionType, ParseError};
use crate::cea608::{Field, Id};
use crate::cea608utils::Rectangle;
use crate::cea708utils::window::Dimensions;
use crate::cea708utils::{Cea708Renderer, ServiceOrChannel};
use crate::dtvcc::{
    add_header, cea608_pairs, flush_parser, handle_cea608, new_parser, number_of_service,
    pop_packet, push_cc_data, services_of_packet, Cea608Pair,
};
use cea708_types::{DTVCCPacket, Service};
use vstd::prelude::*;

verus! {

/// What is to be shown.
#[derive(Debug, Clone, Copy, PartialEq, Eq, Structural)]
pub struct Settings {
    /// Whether the choice was not looked at yet.
    pub changed: bool,
    /// The CEA-608 channel: -1 for the first one that comes, 0 for none.
    pub cea608_channel: i32,
    /// The service: -1 for the first one that comes, 0 for none.
    pub service: i32,
    pub timeout: Option<u64>,
}

impl Settings {
    /// Whether the numbers stand for something.
    pub open spec fn wf(&self) -> bool {
        &&& -1 <= self.cea608_channel <= 4
        &&& -1 <= self.service <= 31
    }
}

/// The stream with the given number.
pub open spec fn id_of(number: i32) -> Id {
    if number == 1 {
        Id::CC1
    } else if number == 2 {
        Id::CC2
    } else if number == 3 {
        Id::CC3
    } else {
        Id::CC4
    }
}

/// What a service number chooses, if something was chosen before.
pub open spec fn choose_service(service: i32, selected: Option<ServiceOrChannel>) -> Option<
    ServiceOrChannel,
> {
    if service == -1 {
        selected
    } else if service == 0 {
        match selected {
            Some(ServiceOrChannel::Service(_)) => None,
            _ => selected,
        }
    } else {
        Some(ServiceOrChannel::Service(service as u8))
    }
}

/// What a channel number chooses, if something was chosen before.
pub open spec fn choose_channel(channel: i32, selected: Option<ServiceOrChannel>) -> Option<
    ServiceOrChannel,
> {
    if channel == -1 {
        selected
    } else if channel == 0 {
        match selected {
            Some(ServiceOrChannel::Cea608Channel(_)) => None,
            _ => selected,
        }
    } else {
        Some(ServiceOrChannel::Cea608Channel(id_of(channel)))
    }
}

/// What the settings choose. A service comes before a channel.
pub open spec fn chosen(settings: Settings, selected: Option<ServiceOrChannel>) -> Option<
    ServiceOrChannel,
> {
    let service = choose_service(settings.service, selected);
    if service is None || settings.cea608_channel == 0 {
        choose_channel(settings.cea608_channel, service)
    } else {
        service
    }
}

/// What was chosen, and what is shown of it.
#[verifier::ext_equal]
pub struct Shown {
    pub selected: Option<ServiceOrChannel>,
    /// What the renderer takes.
    pub rendered: Option<ServiceOrChannel>,
    pub windows: crate::cea708utils::window::ServiceStateView,
    pub has_windows: bool,
    pub frame: crate::cea608utils::FrameView,
    pub decoder: crate::cea608::DecoderView,
    pub rectangle: Option<Rectangle>,
    pub composition: Option<Seq<Rectangle>>,
    pub last_cc_pts: Option<u64>,
}

impl Shown {
    /// Carries out a service block, if it is for the service that is shown. The first service that
    /// comes is chosen, if nothing was. There is no result where it cannot be carried out.
    pub open spec fn service(&self, service: crate::dtvcc::ServiceView, pts: u64) -> Option<Shown> {
        let own = Some(ServiceOrChannel::Service(service.number));
        let selected = match self.selected {
            Some(s) => Some(s),
            None => own,
        };
        if selected != own {
            Some(*self)
        } else {
            match crate::cea708utils::run_codes(
                self.windows,
                service.codes,
                service.codes.len() as int,
            ) {
                Some(windows) => Some(
                    Shown {
                        selected,
                        windows,
                        has_windows: self.has_windows || service.codes.len() > 0,
                        last_cc_pts: Some(pts),
                        ..*self
                    },
                ),
                None => None,
            }
        }
    }

    /// Carries out the first `n` service blocks.
    pub open spec fn services(
        &self,
        services: Seq<crate::dtvcc::ServiceView>,
        pts: u64,
        n: int,
    ) -> Option<Shown>
        decreases n,
    {
        if n <= 0 {
            Some(*self)
        } else {
            match self.services(services, pts, n - 1) {
                Some(s) => s.service(services[n - 1], pts),
                None => None,
            }
        }
    }

    /// Whether service blocks are looked at.
    pub open spec fn takes_services(&self, enabled: bool) -> bool {
        enabled && !(self.selected matches Some(ServiceOrChannel::Cea608Channel(_)))
    }

    /// Whether CEA-608 pairs are looked at.
    pub open spec fn takes_pairs(&self, enabled: bool) -> bool {
        enabled && !(self.selected matches Some(ServiceOrChannel::Service(_)))
    }

    /// Carries out the first `n` packets.
    pub open spec fn packets(
        &self,
        packets: Seq<crate::dtvcc::PacketView>,
        enabled: bool,
        pts: u64,
        n: int,
    ) -> Option<Shown>
        decreases n,
    {
        if n <= 0 {
            Some(*self)
        } else {
            match self.packets(packets, enabled, pts, n - 1) {
                Some(s) => if s.takes_services(enabled) {
                    let services = packets[n - 1].services;
                    s.services(services, pts, services.len() as int)
                } else {
                    Some(s)
                },
                None => None,
            }
        }
    }

    /// Carries out a CEA-608 pair, if it is for the field that is shown. The first channel that
    /// comes is chosen, if nothing was. There is no result where it cannot be carried out.
    pub open spec fn pair(&self, pair: Cea608Pair, pts: u64) -> Option<Shown> {
        let field = if pair.field1 {
            Field::One
        } else {
            Field::Two
        };
        let for_us = match self.rendered {
            Some(ServiceOrChannel::Cea608Channel(id)) => id.in_field() == field,
            Some(ServiceOrChannel::Service(_)) => false,
            None => true,
        };
        let is_pair = crate::cea608::odd_parity(pair.byte0) && crate::cea608::odd_parity(
            pair.byte1,
        );
        if !for_us || !is_pair {
            Some(*self)
        } else {
            let code = crate::cea608::decoded(self.decoder, pair.byte0, pair.byte1);
            let decoder = crate::cea608::after_pair(self.decoder, pair.byte0, pair.byte1);
            let frame = match code {
                Some(c) => self.frame.push_code(c),
                None => self.frame,
            };
            let changed = code is Some && self.frame.tuned(code->0).channel == Some(
                (code->0).channel,
            ) && self.frame.tuned(code->0).is_changed_by((code->0).command);
            if code is Some && !self.frame.takes(code->0) {
                None
            } else {
                Some(
                    Shown {
                        rendered: if self.rendered is None && frame.channel is Some {
                            Some(
                                ServiceOrChannel::Cea608Channel(
                                    crate::cea708utils::stream_id(field, frame.channel->0),
                                ),
                            )
                        } else {
                            self.rendered
                        },
                        frame,
                        decoder,
                        rectangle: if changed {
                            None
                        } else {
                            self.rectangle
                        },
                        composition: if changed {
                            None
                        } else {
                            self.composition
                        },
                        last_cc_pts: if changed {
                            Some(pts)
                        } else {
                            self.last_cc_pts
                        },
                        ..*self
                    },
                )
            }
        }
    }

    /// Carries out the first `n` CEA-608 pairs.
    pub open spec fn pairs(&self, pairs: Seq<Cea608Pair>, pts: u64, n: int) -> Option<Shown>
        decreases n,
    {
        if n <= 0 {
            Some(*self)
        } else {
            match self.pairs(pairs, pts, n - 1) {
                Some(s) => s.pair(pairs[n - 1], pts),
                None => None,
            }
        }
    }

    /// Carries out what a parser holds.
    pub open spec fn parsed(
        &self,
        parser: crate::dtvcc::ParserView,
        enabled_708: bool,
        enabled_608: bool,
        pts: u64,
    ) -> Option<Shown> {
        match self.packets(parser.packets, enabled_708, pts, parser.packets.len() as int) {
            Some(s) => match parser.cea608 {
                Some(pairs) => if s.takes_pairs(enabled_608) {
                    s.pairs(pairs, pts, pairs.len() as int)
                } else {
                    Some(s)
                },
                None => Some(s),
            },
            None => None,
        }
    }
}

/// What became of captions.
#[derive(Debug)]
pub enum Handled {
    /// They were carried out.
    Done,
    /// The caption distribution packet is none.
    Cdp(ParseError),
    /// The data is no caption data. What was kept of a packet is forgotten.
    Rejected,
    /// A byte is missing.
    Odd,
    /// There is no window to clear, or lines would have to roll off the top of the screen.
    Unsupported,
}

/// Captions over video.
pub struct Cea708Overlay {
    pub settings: Settings,
    pub selected: Option<ServiceOrChannel>,
    pub enabled_608: bool,
    pub enabled_708: bool,
    pub cc_data_parser: cea708_types::CCDataParser,
    pub cea708_renderer: Cea708Renderer,
    /// Whether what is shown is attached to the video frames instead of being drawn on them.
    pub attach: bool,
    pub last_cc_pts: Option<u64>,
}

impl Cea708Overlay {
    /// Whether the settings and the renderer are in order.
    pub open spec fn wf(&self) -> bool {
        &&& self.settings.wf()
        &&& self.cea708_renderer.wf()
    }

    /// What is shown.
    pub open spec fn shown(&self) -> Shown {
        Shown {
            selected: self.selected,
            rendered: self.cea708_renderer.selected,
            windows: self.cea708_renderer.windows(),
            has_windows: self.cea708_renderer.service is Some,
            frame: self.cea708_renderer.cea608.frame@,
            decoder: crate::cea608::decoder_view(self.cea708_renderer.cea608.state),
            rectangle: self.cea708_renderer.cea608.rectangle,
            composition: match self.cea708_renderer.composition {
                Some(c) => Some(c@),
                None => None,
            },
            last_cc_pts: self.last_cc_pts,
        }
    }

    /// Whether neither settings nor video differ.
    pub open spec fn same_settings(&self, other: Self) -> bool {
        &&& self.settings == other.settings
        &&& self.enabled_608 == other.enabled_608
        &&& self.enabled_708 == other.enabled_708
        &&& self.attach == other.attach
        &&& self.cea708_renderer.same_video(other.cea708_renderer)
        &&& self.cea708_renderer.cea608.same_video(other.cea708_renderer.cea608)
    }

    /// Whether nothing but the settings differs.
    pub open spec fn same_but_settings(&self, other: Self) -> bool {
        &&& self.selected == other.selected
        &&& self.enabled_608 == other.enabled_608
        &&& self.enabled_708 == other.enabled_708
        &&& self.cc_data_parser == other.cc_data_parser
        &&& self.cea708_renderer == other.cea708_renderer
        &&& self.attach == other.attach
        &&& self.last_cc_pts == other.last_cc_pts
    }

    /// Nothing is shown yet. The layout size is that of 32 by 15 characters without a video.
    pub fn new(no_video_layout: Dimensions) -> (r: Self)
        requires
            no_video_layout.w <= i32::MAX,
            no_video_layout.h <= i32::MAX,
        ensures
            r.wf(),
            r.settings == (Settings {
                changed: true,
                cea608_channel: -1i32,
                service: 1,
                timeout: None,
            }),
            r.selected is None,
            r.enabled_608,
            r.enabled_708,
            crate::dtvcc::parser_view(r.cc_data_parser) == (crate::dtvcc::ParserView {
                cea608: Some(Seq::<Cea608Pair>::empty()),
                ..crate::dtvcc::empty_parser()
            }),
            r.cea708_renderer.is_new(no_video_layout),
            !r.attach,
            r.last_cc_pts is None,
    {
        let mut cc_data_parser: cea708_types::CCDataParser = new_parser();
        handle_cea608(&mut cc_data_parser);
        Cea708Overlay {
            settings: Settings { changed: true, cea608_channel: -1, service: 1, timeout: None },
            selected: None,
            enabled_608: true,
            enabled_708: true,
            cc_data_parser,
            cea708_renderer: Cea708Renderer::new(no_video_layout),
            attach: false,
            last_cc_pts: None,
        }
    }

    /// Chooses what is shown, where the settings changed.
    pub fn check_service_channel(&mut self)
        requires
            old(self).wf(),
        ensures
            final(self).wf(),
            !final(self).settings.changed,
            !old(self).settings.changed ==> *final(self) == *old(self),
            old(self).settings.changed ==> {
                let selected = chosen(old(self).settings, old(self).selected);
                &&& final(self).settings == (Settings { changed: false, ..old(self).settings })
                &&& final(self).selected == selected
                &&& final(self).enabled_608 == (old(self).settings.cea608_channel != 0)
                &&& final(self).enabled_708 == (old(self).settings.service != 0)
                &&& old(self).cea708_renderer.switched(final(self).cea708_renderer, selected)
            },
            final(self).cc_data_parser == old(self).cc_data_parser,
            final(self).attach == old(self).attach,
            final(self).last_cc_pts == old(self).last_cc_pts,
    {
        if !self.settings.changed {
            return;
        }
        let service: i32 = self.settings.service;
        let channel: i32 = self.settings.cea608_channel;
        if service == 0 {
            if let Some(ServiceOrChannel::Service(_)) = self.selected {
                self.selected = None;
            }
        } else if service != -1 {
            self.selected = Some(ServiceOrChannel::Service(service as u8));
        }
        if self.selected.is_none() || channel == 0 {
            if channel == 0 {
                if let Some(ServiceOrChannel::Cea608Channel(_)) = self.selected {
                    self.selected = None;
                }
            } else if channel != -1 {
                self.selected = Some(
                    ServiceOrChannel::Cea608Channel(Id::from_value(channel as i8)),
                );
            }
        }
        self.enabled_608 = channel != 0;
        self.enabled_708 = service != 0;
        self.cea708_renderer.set_service_channel(self.selected);
        self.settings.changed = false;
    }

    /// Takes what was agreed on: whether what is shown can be attached, and the size of the video,
    /// with the size that 32 by 15 characters take in it.
    pub fn negotiate(
        &mut self,
        upstream_has_meta: bool,
        downstream_accepts_meta: bool,
        video: Dimensions,
        max_layout: Dimensions,
    )
        requires
            old(self).wf(),
            video.w <= i32::MAX,
            video.h <= i32::MAX,
            max_layout.w <= i32::MAX,
            max_layout.h <= i32::MAX,
        ensures
            final(self).wf(),
            final(self).attach == (upstream_has_meta || downstream_accepts_meta),
            old(self).cea708_renderer.resized(final(self).cea708_renderer, video, max_layout),
            final(self).settings == old(self).settings,
            final(self).selected == old(self).selected,
            final(self).enabled_608 == old(self).enabled_608,
            final(self).enabled_708 == old(self).enabled_708,
            final(self).cc_data_parser == old(self).cc_data_parser,
            final(self).last_cc_pts == old(self).last_cc_pts,
    {
        self.attach = upstream_has_meta || downstream_accepts_meta;
        self.cea708_renderer.set_video_size(video, max_layout);
    }

    /// Carries out a pair of CEA-608 bytes. Says whether that was possible.
    fn have_cea608(&mut self, pair: Cea608Pair, pts: u64) -> (r: bool)
        requires
            old(self).wf(),
        ensures
            final(self).wf(),
            final(self).same_settings(*old(self)),
            final(self).cc_data_parser == old(self).cc_data_parser,
            match old(self).shown().pair(pair, pts) {
                Some(s) => r && final(self).shown() == s,
                None => !r,
            },
    {
        let field: Field = if pair.field1 {
            Field::One
        } else {
            Field::Two
        };
        let bytes: [u8; 2] = [pair.byte0, pair.byte1];
        match self.cea708_renderer.push_cea608(field, bytes) {
            Some(Ok(changed)) => {
                if changed {
                    self.last_cc_pts = Some(pts);
                }
                true
            },
            Some(Err(_)) => true,
            None => false,
        }
    }

    fn have_pairs(&mut self, pairs: &Vec<Cea608Pair>, pts: u64) -> (r: bool)
        requires
            old(self).wf(),
        ensures
            final(self).wf(),
            final(self).same_settings(*old(self)),
            final(self).cc_data_parser == old(self).cc_data_parser,
            match old(self).shown().pairs(pairs@, pts, pairs@.len() as int) {
                Some(s) => r && final(self).shown() == s,
                None => !r,
            },
    {
        let ghost start = self.shown();
        let mut i: usize = 0;
        while i < pairs.len()
            invariant
                i <= pairs@.len(),
                self.wf(),
                self.same_settings(*old(self)),
                self.cc_data_parser == old(self).cc_data_parser,
                start == old(self).shown(),
                start.pairs(pairs@, pts, i as int) == Some(self.shown()),
            decreases pairs@.len() - i,
        {
            if !self.have_cea608(pairs[i], pts) {
                proof {
                    lemma_pairs_fail(start, pairs@, pts, i + 1, pairs@.len() as int);
                }
                return false;
            }
            i += 1;
        }
        true
    }

    fn have_service(&mut self, service: &Service, pts: u64) -> (r: bool)
        requires
            old(self).wf(),
        ensures
            final(self).wf(),
            final(self).same_settings(*old(self)),
            final(self).cc_data_parser == old(self).cc_data_parser,
            match old(self).shown().service(crate::dtvcc::service_view(*service), pts) {
                Some(s) => r && final(self).shown() == s,
                None => !r,
            },
    {
        let number: u8 = number_of_service(service);
        if self.selected.is_none() {
            self.selected = Some(ServiceOrChannel::Service(number));
        }
        let is_own: bool = match self.selected {
            Some(ServiceOrChannel::Service(n)) => n == number,
            _ => false,
        };
        if !is_own {
            return true;
        }
        if !self.cea708_renderer.push_service(service) {
            return false;
        }
        self.last_cc_pts = Some(pts);
        true
    }

    fn have_packet(&mut self, packet: &DTVCCPacket, pts: u64) -> (r: bool)
        requires
            old(self).wf(),
        ensures
            final(self).wf(),
            final(self).same_settings(*old(self)),
            final(self).cc_data_parser == old(self).cc_data_parser,
            ({
                let services = crate::dtvcc::packet_view(*packet).services;
                let start = old(self).shown();
                let all = if start.takes_services(old(self).enabled_708) {
                    start.services(services, pts, services.len() as int)
                } else {
                    Some(start)
                };
                match all {
                    Some(s) => r && final(self).shown() == s,
                    None => !r,
                }
            }),
    {
        let takes: bool = match self.selected {
            Some(ServiceOrChannel::Cea608Channel(_)) => false,
            _ => true,
        };
        if !self.enabled_708 || !takes {
            return true;
        }
        let ghost start = self.shown();
        let ghost views = crate::dtvcc::packet_view(*packet).services;
        let services: &[Service] = services_of_packet(packet);
        assert(views.len() == services@.len());
        let mut i: usize = 0;
        while i < services.len()
            invariant
                i <= services@.len(),
                views == services@.map_values(|s: Service| crate::dtvcc::service_view(s)),
                views == crate::dtvcc::packet_view(*packet).services,
                start.takes_services(old(self).enabled_708),
                self.wf(),
                self.same_settings(*old(self)),
                self.cc_data_parser == old(self).cc_data_parser,
                start == old(self).shown(),
                start.services(views, pts, i as int) == Some(self.shown()),
            decreases services@.len() - i,
        {
            assert(views[i as int] == crate::dtvcc::service_view(services@[i as int]));
            if !self.have_service(&services[i], pts) {
                proof {
                    lemma_services_fail(start, views, pts, i + 1, views.len() as int);
                }
                return false;
            }
            i += 1;
        }
        true
    }

    /// Carries out what the parser found. Says whether that was possible.
    fn handle_cc_data(&mut self, pts: u64) -> (r: bool)
        requires
            old(self).wf(),
        ensures
            final(self).wf(),
            final(self).same_settings(*old(self)),
            ({
                let parser = crate::dtvcc::parser_view(old(self).cc_data_parser);
                match old(self).shown().parsed(
                    parser,
                    old(self).enabled_708,
                    old(self).enabled_608,
                    pts,
                ) {
                    Some(s) => r && final(self).shown() == s && crate::dtvcc::parser_view(
                        final(self).cc_data_parser,
                    ) == (crate::dtvcc::ParserView {
                        packets: Seq::<crate::dtvcc::PacketView>::empty(),
                        ..parser
                    }),
                    None => !r,
                }
            }),
    {
        let ghost start = self.shown();
        let ghost parser = crate::dtvcc::parser_view(self.cc_data_parser);
        let ghost packets = parser.packets;
        let cea608: Option<Vec<Cea608Pair>> = cea608_pairs(&mut self.cc_data_parser);
        let ghost mut n: int = 0;
        assert(packets.skip(0) =~= packets);
        let mut more: bool = true;
        while more
            invariant
                0 <= n <= packets.len(),
                packets == parser.packets,
                parser == crate::dtvcc::parser_view(old(self).cc_data_parser),
                self.wf(),
                self.same_settings(*old(self)),
                start == old(self).shown(),
                crate::dtvcc::parser_view(self.cc_data_parser) == (crate::dtvcc::ParserView {
                    packets: packets.skip(n),
                    ..parser
                }),
                start.packets(packets, old(self).enabled_708, pts, n) == Some(self.shown()),
                !more ==> n == packets.len(),
            decreases
                    (if more {
                        1int
                    } else {
                        0int
                    }),
                    packets.len() - n,
        {
            match pop_packet(&mut self.cc_data_parser) {
                Some(packet) => {
                    assert(packets.skip(n)[0] == packets[n]);
                    assert(packets.skip(n).drop_first() =~= packets.skip(n + 1));
                    if !self.have_packet(&packet, pts) {
                        proof {
                            lemma_packets_fail(
                                start,
                                packets,
                                old(self).enabled_708,
                                pts,
                                n + 1,
                                packets.len() as int,
                            );
                        }
                        return false;
                    }
                    proof {
                        n = n + 1;
                    }
                },
                None => {
                    more = false;
                },
            }
        }
        assert(packets.skip(n) =~= Seq::<crate::dtvcc::PacketView>::empty());
        let takes: bool = match self.selected {
            Some(ServiceOrChannel::Service(_)) => false,
            _ => true,
        };
        match cea608 {
            Some(pairs) => if self.enabled_608 && takes {
                self.have_pairs(&pairs, pts)
            } else {
                true
            },
            None => true,
        }
    }

    fn push_cc_data(&mut self, data: &[u8], pts: u64) -> (r: Handled)
        requires
            old(self).wf(),
        ensures
            final(self).wf(),
            final(self).same_settings(*old(self)),
            old(self).took_cc_data(*final(self), data@, pts, r),
    {
        let cc_data: Vec<u8> = add_header(data);
        if push_cc_data(&mut self.cc_data_parser, cc_data.as_slice()) {
            if self.handle_cc_data(pts) {
                Handled::Done
            } else {
                Handled::Unsupported
            }
        } else {
            flush_parser(&mut self.cc_data_parser);
            Handled::Rejected
        }
    }

    /// Whether caption data leads to the given state and result.
    pub open spec fn took_cc_data(&self, after: Self, data: Seq<u8>, pts: u64, r: Handled) -> bool {
        let bytes = crate::dtvcc::with_header(data);
        let parser = crate::dtvcc::pushed(
            crate::dtvcc::parser_view(self.cc_data_parser),
            bytes,
        );
        let done = self.shown().parsed(parser, self.enabled_708, self.enabled_608, pts);
        if crate::dtvcc::can_push(bytes) {
            match done {
                Some(s) => r is Done && after.shown() == s && crate::dtvcc::parser_view(
                    after.cc_data_parser,
                ) == (crate::dtvcc::ParserView {
                    packets: Seq::<crate::dtvcc::PacketView>::empty(),
                    ..parser
                }),
                None => r is Unsupported,
            }
        } else {
            &&& r is Rejected
            &&& after.shown() == self.shown()
            &&& crate::dtvcc::parser_view(after.cc_data_parser) == crate::dtvcc::empty_parser()
        }
    }

    /// Whether CEA-608 pairs lead to the given state and result.
    pub open spec fn took_pairs(
        &self,
        after: Self,
        pairs: Seq<Cea608Pair>,
        pts: u64,
        r: Handled,
    ) -> bool {
        match self.shown().pairs(pairs, pts, pairs.len() as int) {
            Some(s) => r is Done && after.shown() == s && after.cc_data_parser
                == self.cc_data_parser,
            None => r is Unsupported,
        }
    }

    /// Carries out captions that come with a video frame.
    pub fn handle_captions(&mut self, kind: CaptionType, data: &[u8], pts: u64) -> (r: Handled)
        requires
            old(self).wf(),
        ensures
            final(self).wf(),
            final(self).same_settings(*old(self)),
            match kind {
                CaptionType::Cea708Cdp => match crate::ccutils::cdp_error(data@) {
                    Some(e) => (r matches Handled::Cdp(found) && found@ == e) && *final(self)
                        == *old(self),
                    None => old(self).took_cc_data(
                        *final(self),
                        crate::ccutils::cdp_cc_data(data@),
                        pts,
                        r,
                    ),
                },
                CaptionType::Cea708Raw => old(self).took_cc_data(*final(self), data@, pts, r),
                CaptionType::Cea608S3341a => old(self).took_pairs(
                    *final(self),
                    crate::cea608tocea708::triple_pairs(data@),
                    pts,
                    r,
                ),
                CaptionType::Cea608Raw => if data@.len() % 2 == 0 {
                    old(self).took_pairs(
                        *final(self),
                        crate::cea608tocea708::field_pairs(data@, true),
                        pts,
                        r,
                    )
                } else {
                    r is Odd && *final(self) == *old(self)
                },
                CaptionType::Other => r is Done && *final(self) == *old(self),
            },
    {
        match kind {
            CaptionType::Cea708Cdp => match extract_cdp(data) {
                Ok(captions) => self.push_cc_data(captions, pts),
                Err(e) => Handled::Cdp(e),
            },
            CaptionType::Cea708Raw => self.push_cc_data(data, pts),
            CaptionType::Cea608S3341a => {
                let pairs: Vec<Cea608Pair> = crate::cea608tocea708::read_triples(data);
                if self.have_pairs(&pairs, pts) {
                    Handled::Done
                } else {
                    Handled::Unsupported
                }
            },
            CaptionType::Cea608Raw => {
                if data.len() % 2 != 0 {
                    return Handled::Odd;
                }
                let pairs: Vec<Cea608Pair> = crate::cea608tocea708::read_pairs(data, true);
                if self.have_pairs(&pairs, pts) {
                    Handled::Done
                } else {
                    Handled::Unsupported
                }
            },
            CaptionType::Other => Handled::Done,
        }
    }

    /// Whether what is shown is too old at the given time.
    pub open spec fn is_timed_out(&self, pts: u64) -> bool {
        self.settings.timeout is Some && self.last_cc_pts is Some && pts - self.last_cc_pts->0
            > self.settings.timeout->0
    }

    /// Nothing is shown any more where nothing came for too long.
    pub fn check_timeout(&mut self, pts: u64)
        requires
            old(self).wf(),
        ensures
            final(self).wf(),
            final(self).shown() == if old(self).is_timed_out(pts) {
                Shown { composition: None, last_cc_pts: None, ..old(self).shown() }
            } else {
                old(self).shown()
            },
            final(self).same_settings(*old(self)),
            final(self).cc_data_parser == old(self).cc_data_parser,
    {
        if let Some(timeout) = self.settings.timeout {
            if let Some(last) = self.last_cc_pts {
                let interval: u64 = if pts >= last {
                    pts - last
                } else {
                    0
                };
                if interval > timeout {
                    self.cea708_renderer.clear_composition();
                    self.last_cc_pts = None;
                }
            }
        }
    }

    /// Forgets what is shown, and the video. What was chosen stays chosen.
    pub fn flush_stop(&mut self)
        requires
            old(self).wf(),
        ensures
            final(self).wf(),
            final(self).cea708_renderer.is_new(old(self).cea708_renderer.no_video_layout),
            final(self).settings == old(self).settings,
            final(self).selected == old(self).selected,
            final(self).enabled_608 == old(self).enabled_608,
            final(self).enabled_708 == old(self).enabled_708,
            final(self).cc_data_parser == old(self).cc_data_parser,
            final(self).attach == old(self).attach,
            final(self).last_cc_pts == old(self).last_cc_pts,
    {
        self.cea708_renderer = Cea708Renderer::new(self.cea708_renderer.no_video_layout);
    }

    /// Chooses a CEA-608 channel.
    pub fn set_cea608_channel(&mut self, channel: i32)
        requires
            old(self).wf(),
            -1 <= channel <= 4,
        ensures
            final(self).wf(),
            final(self).settings == (Settings {
                cea608_channel: channel,
                changed: old(self).settings.changed || channel != old(
                    self,
                ).settings.cea608_channel,
                ..old(self).settings
            }),
            final(self).same_but_settings(*old(self)),
    {
        if channel != self.settings.cea608_channel {
            self.settings.cea608_channel = channel;
            self.settings.changed = true;
        }
    }

    /// Chooses a service.
    pub fn set_service(&mut self, service: i32)
        requires
            old(self).wf(),
            -1 <= service <= 31,
        ensures
            final(self).wf(),
            final(self).settings == (Settings {
                service,
                changed: old(self).settings.changed || service != old(self).settings.service,
                ..old(self).settings
            }),
            final(self).same_but_settings(*old(self)),
    {
        if service != self.settings.service {
            self.settings.service = service;
            self.settings.changed = true;
        }
    }

    /// Chooses for how long text is shown. The highest number stands for any time.
    pub fn set_timeout(&mut self, timeout: u64)
        requires
            old(self).wf(),
        ensures
            final(self).wf(),
            final(self).settings == (Settings {
                timeout: if timeout == u64::MAX {
                    None
                } else {
                    Some(timeout)
                },
                ..old(self).settings
            }),
            final(self).same_but_settings(*old(self)),
    {
        self.settings.timeout = if timeout == u64::MAX {
            None
        } else {
            Some(timeout)
        };
    }
}

proof fn lemma_pairs_fail(start: Shown, pairs: Seq<Cea608Pair>, pts: u64, n: int, m: int)
    requires
        n <= m,
        start.pairs(pairs, pts, n) is None,
    ensures
        start.pairs(pairs, pts, m) is None,
    decreases m,
{
    if n < m {
        lemma_pairs_fail(start, pairs, pts, n, m - 1);
    }
}

proof fn lemma_services_fail(
    start: Shown,
    services: Seq<crate::dtvcc::ServiceView>,
    pts: u64,
    n: int,
    m: int,
)
    requires
        n <= m,
        start.services(services, pts, n) is None,
    ensures
        start.services(services, pts, m) is None,
    decreases m,
{
    if n < m {
        lemma_services_fail(start, services, pts, n, m - 1);
    }
}

proof fn lemma_packets_fail(
    start: Shown,
    packets: Seq<crate::dtvcc::PacketView>,
    enabled: bool,
    pts: u64,
    n: int,
    m: int,
)
    requires
        n <= m,
        start.packets(packets, enabled, pts, n) is None,
    ensures
        start.packets(packets, enabled, pts, m) is None,
    decreases m,
{
    if n < m {
        lemma_packets_fail(start, packets, enabled, pts, n, m - 1);
    }
}

/// A service that is chosen stays chosen: service blocks of others change nothing.
pub proof fn law_other_services_are_ignored(
    shown: Shown,
    service: crate::dtvcc::ServiceView,
    pts: u64,
)
    requires
        shown.selected matches Some(ServiceOrChannel::Service(n)) && n != service.number,
    ensures
        shown.service(service, pts) == Some(shown),
{
}

/// A channel is only chosen where no service is, or the channel was turned off.
pub proof fn law_service_comes_first(settings: Settings, selected: Option<ServiceOrChannel>)
    requires
        settings.wf(),
        settings.service > 0,
    ensures
        chosen(settings, selected) == Some(ServiceOrChannel::Service(settings.service as u8)),
{
}

/// What is turned off is not chosen.
pub proof fn law_off_is_off(settings: Settings, selected: Option<ServiceOrChannel>)
    requires
        settings.wf(),
    ensures
        settings.cea608_channel == 0 ==> !(chosen(settings, selected) matches Some(
            ServiceOrChannel::Cea608Channel(_),
        )),
        settings.service == 0 ==> !(chosen(settings, selected) matches Some(
            ServiceOrChannel::Service(_),
        )),
{
}

} // verus!
