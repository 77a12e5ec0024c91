use cdp_types::{CDPParser, CDPWriter};
use cea708_types::tables::Code;
use cea708_types::{CCDataWriter, DTVCCPacket, Framerate as CcFramerate, Service};
use closedcaption::ccutils::CaptionType;
use closedcaption::cdp::{DigitalServiceEntry, FieldOrService, ServiceEntry};
use closedcaption::cdpserviceinject::{
    service_descriptor_from_array, CdpServiceInject, ServiceDescription,
};
use closedcaption::cea608overlay::{CaptionError, Cea608Overlay};
use closedcaption::cea708::{Anchor, DefineWindowArgs};
use closedcaption::cea708overlay::{Cea708Overlay, Handled};
use closedcaption::cea708utils::window::Dimensions;
use closedcaption::cea708utils::{ServiceOrChannel, Source};
use closedcaption::clock::FlowError;

fn odd(b: u8) -> u8 {
    if b.count_ones() % 2 == 0 {
        b | 0x80
    } else {
        b
    }
}

#[test]
fn pairs_of_a_field_are_read() {
    let mut overlay = Cea608Overlay::new();
    let data = [0xfd, 1, 2, 0xfc, 3, 4, 0xfd, 5, 6, 0xfe, 7, 8, 0xfd, 9, 9];
    // the first field that comes is chosen, and CEA-708 captions end the list
    assert_eq!(overlay.read_captions(CaptionType::Cea708Raw, &data).unwrap(), vec![(1, 2), (5, 6)]);
    assert_eq!(overlay.selected_field, Some(1));
    let s334 = [0x80, 1, 2, 0x00, 3, 4];
    assert_eq!(overlay.read_captions(CaptionType::Cea608S3341a, &s334).unwrap(), vec![(3, 4)]);
    overlay.set_field(0);
    assert_eq!(overlay.read_captions(CaptionType::Cea608S3341a, &s334).unwrap(), vec![(1, 2)]);
    overlay.set_field(-1);
    assert_eq!(overlay.selected_field, None);
    assert_eq!(
        overlay.read_captions(CaptionType::Cea608Raw, &[1, 2, 3, 4]).unwrap(),
        vec![(1, 2), (3, 4)]
    );
    assert!(matches!(
        overlay.read_captions(CaptionType::Cea608Raw, &[1, 2, 3]),
        Err(CaptionError::Odd)
    ));
    assert!(matches!(
        overlay.read_captions(CaptionType::Cea708Cdp, &[1, 2, 3]),
        Err(CaptionError::Cdp(_))
    ));
    assert!(overlay.read_captions(CaptionType::Other, &[1, 2, 3]).unwrap().is_empty());
}

#[test]
fn display_times_out() {
    let mut overlay = Cea608Overlay::new();
    overlay.negotiate(false, true, 1280, 720, 640);
    assert!(overlay.attach);
    overlay.set_timeout(100);
    for pair in [[0x14, 0x29], [b'H', b'i']] {
        assert_eq!(overlay.push_pair([odd(pair[0]), odd(pair[1])], 50), Some(Ok(true)));
    }
    overlay.overlay(14, 300, 40);
    assert!(overlay.composition.is_some());
    overlay.check_timeout(150);
    assert!(overlay.composition.is_some());
    overlay.check_timeout(151);
    assert!(overlay.composition.is_none());
    // a display that does not change is kept
    assert_eq!(overlay.push_pair([0x80, 0x80], 160), Some(Ok(false)));
    overlay.flush_stop();
    assert_eq!(overlay.renderer.frame.get_text(), "");
}

fn captions(services: &[(u8, Vec<Code>)]) -> Vec<u8> {
    let mut packet = DTVCCPacket::new(0);
    for (number, codes) in services {
        let mut service = Service::new(*number);
        for code in codes.iter() {
            service.push_code(code).unwrap();
        }
        packet.push_service(service).unwrap();
    }
    let mut writer = CCDataWriter::default();
    writer.push_packet(packet);
    let mut data = Vec::new();
    writer.write(CcFramerate::new(30, 1), &mut data).unwrap();
    data.split_off(2)
}

fn window_with(text: &[Code]) -> Vec<Code> {
    let window = DefineWindowArgs {
        window_id: 0,
        priority: 0,
        anchor_point: Anchor::TopLeft,
        relative_positioning: true,
        anchor_vertical: 0,
        anchor_horizontal: 0,
        row_count: 1,
        column_count: 31,
        row_lock: false,
        column_lock: false,
        visible: true,
        window_style_id: 0,
        pen_style_id: 0,
    };
    let mut codes = Code::from_data(&window.to_bytes()).unwrap();
    codes.extend_from_slice(text);
    codes
}

fn shown_text(overlay: &Cea708Overlay) -> String {
    match &overlay.cea708_renderer.service {
        Some(service) => service
            .windows
            .iter()
            .flat_map(|w| w.lines.iter())
            .flat_map(|l| l.line.iter())
            .filter_map(|c| c.character)
            .collect(),
        None => String::new(),
    }
}

#[test]
fn chosen_service_is_shown() {
    let mut overlay = Cea708Overlay::new(Dimensions { w: 320, h: 240 });
    overlay.set_service(2);
    overlay.check_service_channel();
    assert_eq!(overlay.selected, Some(ServiceOrChannel::Service(2)));
    let data = captions(&[
        (1, window_with(&[Code::LatinCapitalA])),
        (2, window_with(&[Code::LatinCapitalB])),
    ]);
    assert!(matches!(
        overlay.handle_captions(CaptionType::Cea708Raw, &data, 5),
        Handled::Done
    ));
    assert_eq!(shown_text(&overlay), "B");
    assert!(matches!(overlay.cea708_renderer.generate_composition(), Source::Windows));
    overlay.flush_stop();
    assert_eq!(shown_text(&overlay), "");
}

#[test]
fn captions_are_found_by_themselves() {
    let mut overlay = Cea708Overlay::new(Dimensions { w: 320, h: 240 });
    overlay.negotiate(
        true,
        false,
        Dimensions { w: 320, h: 240 },
        Dimensions { w: 300, h: 200 },
    );
    assert!(overlay.attach);
    let data = captions(&[(3, window_with(&[Code::LatinCapitalA]))]);
    overlay.handle_captions(CaptionType::Cea708Raw, &data, 5);
    assert_eq!(shown_text(&overlay), "A");
    assert_eq!(overlay.selected, Some(ServiceOrChannel::Service(3)));
}

#[test]
fn video_moves_what_is_shown() {
    let mut overlay = Cea708Overlay::new(Dimensions { w: 320, h: 240 });
    overlay.negotiate(
        false,
        false,
        Dimensions { w: 1280, h: 720 },
        Dimensions { w: 640, h: 480 },
    );
    assert!(!overlay.attach);
    let cea608 = &overlay.cea708_renderer.cea608;
    assert_eq!((cea608.video_width, cea608.video_height), (1280, 720));
    assert_eq!(cea608.left_alignment, 448);
    assert!(cea608.black_background && cea608.rectangle.is_none());
    // the same size again changes nothing
    overlay.negotiate(
        true,
        false,
        Dimensions { w: 1280, h: 720 },
        Dimensions { w: 100, h: 100 },
    );
    assert_eq!(overlay.cea708_renderer.max_layout.w, 640);
    overlay.flush_stop();
    let cea608 = &overlay.cea708_renderer.cea608;
    assert_eq!((cea608.video_width, cea608.video_height, cea608.left_alignment), (0, 0, 0));
    assert!(cea608.black_background && cea608.rectangle.is_none());
    assert_eq!(overlay.cea708_renderer.max_layout.w, 320);
    assert!(overlay.attach);
}

#[test]
fn captions_can_be_turned_off() {
    let mut overlay = Cea708Overlay::new(Dimensions { w: 320, h: 240 });
    overlay.set_service(0);
    overlay.set_cea608_channel(0);
    overlay.check_service_channel();
    let data = captions(&[(1, window_with(&[Code::LatinCapitalA]))]);
    overlay.handle_captions(CaptionType::Cea708Raw, &data, 5);
    assert_eq!(shown_text(&overlay), "");
    assert_eq!(overlay.selected, None);
}

#[test]
fn unusable_captions_are_told() {
    let mut overlay = Cea708Overlay::new(Dimensions { w: 320, h: 240 });
    assert!(matches!(
        overlay.handle_captions(CaptionType::Cea708Cdp, &[1, 2], 0),
        Handled::Cdp(_)
    ));
    assert!(matches!(
        overlay.handle_captions(CaptionType::Cea608Raw, &[1], 0),
        Handled::Odd
    ));
    assert!(matches!(
        overlay.handle_captions(CaptionType::Other, &[1], 0),
        Handled::Done
    ));
}

fn cdp_with(text: &[Code]) -> Vec<u8> {
    let mut packet = DTVCCPacket::new(0);
    let mut service = Service::new(1);
    for code in text {
        service.push_code(code).unwrap();
    }
    packet.push_service(service).unwrap();
    let mut writer = CDPWriter::new();
    writer.push_packet(packet);
    writer.push_cea608(cea708_types::Cea608::Field1(0x94, 0x2c));
    writer.set_sequence_count(7);
    let mut data = Vec::new();
    writer.write(cdp_types::Framerate::from_id(4).unwrap(), &mut data).unwrap();
    data
}

fn description(service: i32, language: &[u8]) -> Option<ServiceDescription> {
    Some(ServiceDescription {
        service: Some(service),
        language: Some(language.to_vec()),
        easy_reader: Some(true),
        wide_aspect_ratio: None,
    })
}

#[test]
fn services_are_described() {
    let list = vec![
        description(1, b"eng"),
        None,
        description(2, b"engl"),
        description(-1, b"fra"),
        Some(ServiceDescription {
            service: None,
            language: None,
            easy_reader: None,
            wide_aspect_ratio: None,
        }),
    ];
    let entries = service_descriptor_from_array(&list);
    assert_eq!(entries.len(), 2);
    assert_eq!(entries[0].language, *b"eng");
    assert_eq!(
        entries[0].service,
        FieldOrService::Service(DigitalServiceEntry {
            service: 1,
            easy_reader: true,
            wide_aspect_ratio: false,
        })
    );
    assert_eq!(entries[1].service, FieldOrService::Field(true));
}

fn entry(service: u8) -> ServiceEntry {
    ServiceEntry {
        language: *b"eng",
        service: FieldOrService::Service(DigitalServiceEntry {
            service,
            easy_reader: false,
            wide_aspect_ratio: true,
        }),
    }
}

#[test]
fn services_are_told_and_captions_kept() {
    let mut inject = CdpServiceInject::new((1..=20).map(entry).collect());
    let mut told = Vec::new();
    for _ in 0..2 {
        let out = inject.transform_ip(&cdp_with(&[Code::LatinCapitalA])).unwrap();
        let mut parser = CDPParser::new();
        parser.parse(&out).unwrap();
        assert_eq!(parser.sequence(), 7);
        let info = parser.service_info().unwrap();
        for entry in info.services() {
            if let cdp_types::FieldOrService::Service(service) = entry.service() {
                assert_eq!(entry.language(), *b"eng");
                assert!(service.wide_aspect_ratio());
                told.push(service.service_no());
            }
        }
        let packet = parser.pop_packet().unwrap();
        assert_eq!(packet.services()[0].codes(), &[Code::LatinCapitalA]);
    }
    assert_eq!(told, (1..=20).collect::<Vec<u8>>());
    assert!(matches!(inject.transform_ip(&[1, 2, 3]), Err(FlowError::Error)));
    inject.flush_stop();
    assert!(inject.pending_service_descriptor.is_empty());
}
