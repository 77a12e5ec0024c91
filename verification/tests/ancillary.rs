use closedcaption::cctost2038anc::{CcToSt2038Anc, Format, Settings};
use closedcaption::clock::{FlowError, Framerate};
use closedcaption::st2038anc_utils::{convert_to_st2038_buffer, AncDataHeader};
use closedcaption::st2038ancdemux::{late_gap, AncDataId, Packet, St2038AncDemux};
use closedcaption::st2038ancmux::{
    merge, Action, Alignment, Head, OutBuffer, Output, St2038AncMux, Window, WORST_FRAME_TIME,
};
use closedcaption::st2038anctocc::St2038AncToCc;

const SECOND: u64 = 1_000_000_000;

fn packet(line: u16, offset: u16, did: u8, sdid: u8, payload: &[u8]) -> Vec<u8> {
    convert_to_st2038_buffer(false, line, offset, did, sdid, payload).unwrap()
}

#[test]
fn captions_need_a_format() {
    let mut converter = CcToSt2038Anc::new();
    assert!(matches!(converter.convert(&[1, 2, 3]), Err(FlowError::NotNegotiated)));
    assert!(!converter.set_media_type(b"text/x-raw"));
    assert_eq!(converter.format, None);
    assert!(converter.set_media_type(b"closedcaption/x-cea-608"));
    assert_eq!(converter.format, Some(Format::Cea608));
    assert!(converter.set_media_type(b"closedcaption/x-cea-708"));
    assert_eq!(converter.format, Some(Format::Cea708));
}

#[test]
fn captions_are_packed_and_unpacked() {
    let mut converter = CcToSt2038Anc::new();
    converter.set_media_type(b"closedcaption/x-cea-708");
    let mut data = converter.convert(&[0x96, 0x69, 0x00, 0xff]).unwrap();
    converter.set_media_type(b"closedcaption/x-cea-608");
    data.extend(packet(11, 0, 0x41, 0x05, &[7]));
    data.extend(converter.convert(&[0x80, 0x94, 0x20]).unwrap());
    data.push(0xff);

    let mut reader = St2038AncToCc::new();
    let first = reader.next(&data, 0).unwrap();
    assert_eq!(first.format, Format::Cea708);
    assert!(first.first);
    assert_eq!(first.payload, vec![0x96, 0x69, 0x00, 0xff]);
    let second = reader.next(&data, first.next).unwrap();
    assert_eq!(second.format, Format::Cea608);
    assert!(second.first);
    assert_eq!(second.payload, vec![0x80, 0x94, 0x20]);
    assert_eq!(second.next, data.len() - 1);
    assert!(reader.next(&data, second.next).is_none());
    // later captions of the same kind are not the first ones
    assert!(!reader.next(&data, 0).unwrap().first);
}

#[test]
fn captions_that_do_not_fit_are_refused() {
    let mut converter = CcToSt2038Anc::new();
    converter.set_media_type(b"closedcaption/x-cea-708");
    assert!(converter.convert(&[0; 255]).is_ok());
    assert!(matches!(converter.convert(&[0; 256]), Err(FlowError::Error)));
    converter.settings = Settings { c_not_y_channel: false, line_number: 2048, horizontal_offset: 0 };
    assert!(matches!(converter.convert(&[0]), Err(FlowError::Error)));
}

#[test]
fn place_of_captions_is_written() {
    let mut converter = CcToSt2038Anc::new();
    converter.set_media_type(b"closedcaption/x-cea-608");
    converter.settings = Settings { c_not_y_channel: true, line_number: 9, horizontal_offset: 0xfff };
    let header = AncDataHeader::from_slice(&converter.convert(&[1, 2, 3]).unwrap()).unwrap();
    assert!(header.c_not_y_channel_flag);
    assert_eq!(header.line_number, 9);
    assert_eq!(header.horizontal_offset, 0xfff);
    assert_eq!((header.did, header.sdid, header.data_count), (0x61, 0x02, 3));
}

#[test]
fn streams_have_names() {
    let data = packet(9, 300, 0x61, 0x0a, &[1]);
    let id = AncDataId::from(AncDataHeader::from_slice(&data).unwrap());
    assert_eq!(id.pad_name(), b"anc_61_0a_at_9_300".to_vec());
}

#[test]
fn packets_go_to_their_streams() {
    let mut data = packet(9, 0, 0x61, 0x01, &[1, 2]);
    let a = data.len();
    data.extend(packet(10, 0, 0x61, 0x02, &[3]));
    let b = data.len();
    data.extend(packet(9, 0, 0x61, 0x01, &[4]));
    let c = data.len();

    let mut demux = St2038AncDemux::new();
    assert_eq!(
        demux.next_packet(&data, 0, Some(5)),
        Some(Packet { start: 0, end: a, stream: 0, new_stream: true })
    );
    assert_eq!(
        demux.next_packet(&data, a, Some(6)),
        Some(Packet { start: a, end: b, stream: 1, new_stream: true })
    );
    assert_eq!(
        demux.next_packet(&data, b, Some(4)),
        Some(Packet { start: b, end: c, stream: 0, new_stream: false })
    );
    assert_eq!(demux.next_packet(&data, c, Some(7)), None);
    assert_eq!(demux.streams.len(), 2);
    assert_eq!(demux.streams[0].last_used, Some(5));
    assert_eq!(demux.next_packet(&[0xff, 0xff], 0, None), None);
}

#[test]
fn late_streams_are_moved_on() {
    let mut demux = St2038AncDemux::new();
    let data = packet(9, 0, 0x61, 0x01, &[1]);
    demux.next_packet(&data, 0, Some(SECOND));
    assert!(demux.late_streams(SECOND + SECOND / 2).is_empty());
    assert_eq!(demux.late_streams(SECOND + SECOND / 2 + 1), vec![0]);
    demux.advance(0, 2 * SECOND);
    assert!(demux.late_streams(2 * SECOND).is_empty());
    assert_eq!(late_gap(Some(3), 10), (3, Some(7)));
    assert_eq!(late_gap(Some(11), 10), (11, None));
    assert_eq!(late_gap(None, 10), (10, Some(0)));
}

#[test]
fn streams_are_looked_over_in_intervals() {
    let mut demux = St2038AncDemux::new();
    demux.check_inactivity(Some(20 * SECOND));
    assert_eq!(demux.last_inactivity_check, None);
    demux.stream_start();
    demux.check_inactivity(Some(9 * SECOND));
    assert_eq!(demux.last_inactivity_check, Some(0));
    demux.check_inactivity(Some(10 * SECOND));
    assert_eq!(demux.last_inactivity_check, Some(10 * SECOND));
    demux.flush_stop();
    assert_eq!(demux.last_inactivity_check, None);
}

#[test]
fn overlapping_packets_are_left_out() {
    // the latest input comes first, and of an input the latest buffer
    let pads = vec![
        vec![packet(9, 10, 0x61, 0x01, &[1; 10])],
        vec![
            packet(9, 15, 0x61, 0x02, &[2; 10]),
            packet(9, 24, 0x61, 0x03, &[3; 4]),
            packet(8, 0, 0x61, 0x04, &[4; 4]),
        ],
    ];
    let places: Vec<(u16, u16, usize, usize)> =
        merge(&pads).iter().map(|p| (p.line, p.offset, p.pad, p.buffer)).collect();
    assert_eq!(places, vec![(8, 0, 1, 2), (9, 10, 0, 0), (9, 24, 1, 1)]);
}

#[test]
fn packets_without_data_replace_each_other() {
    let pads = vec![
        vec![packet(9, 10, 0x61, 0x01, &[]), packet(9, 20, 0x61, 0x01, &[])],
        vec![packet(9, 10, 0x61, 0x02, &[]), packet(9, 10, 0x61, 0x03, &[])],
    ];
    let places: Vec<(u16, u16, usize, usize)> =
        merge(&pads).iter().map(|p| (p.line, p.offset, p.pad, p.buffer)).collect();
    assert_eq!(places, vec![(9, 10, 0, 0), (9, 20, 0, 1)]);
    let first = packet(9, 10, 0x61, 0x02, &[]);
    let second = packet(9, 10, 0x61, 0x03, &[]);
    let packets = merge(&vec![vec![[first.clone(), second].concat()]]);
    assert_eq!(packets.len(), 1);
    assert_eq!((packets[0].did, packets[0].sdid), (0x61, 0x03));
    assert_eq!(packets[0].from, first.len());
}

#[test]
fn latest_input_wins_without_data_of_the_same_kind() {
    let pads = vec![
        vec![packet(9, 10, 0x61, 0x01, &[])],
        vec![packet(9, 10, 0x61, 0x01, &[]), packet(9, 20, 0x61, 0x01, &[])],
    ];
    let places: Vec<(u16, u16, usize, usize)> =
        merge(&pads).iter().map(|p| (p.line, p.offset, p.pad, p.buffer)).collect();
    assert_eq!(places, vec![(9, 10, 1, 0), (9, 20, 1, 1)]);
}

#[test]
fn packet_without_data_stays_where_one_with_data_comes() {
    let pads = vec![vec![packet(9, 10, 0x61, 0x01, &[1])], vec![packet(9, 10, 0x61, 0x02, &[])]];
    let places: Vec<(u16, u16, usize, usize)> =
        merge(&pads).iter().map(|p| (p.line, p.offset, p.pad, p.buffer)).collect();
    assert_eq!(places, vec![(9, 10, 1, 0)]);
}

#[test]
fn packets_of_a_line_share_a_buffer() {
    let pads = vec![vec![
        packet(9, 0, 0x61, 0x01, &[1]),
        packet(9, 100, 0x61, 0x02, &[2]),
        packet(10, 0, 0x61, 0x02, &[2]),
    ]];
    let mut mux = St2038AncMux::new();
    let window = Window { start: 0, duration: 40, end: 40 };
    let timing = Some((0, 40));
    match mux.output(&pads, window, None) {
        Output::Buffers { packets, buffers } => {
            assert_eq!(packets.len(), 3);
            assert_eq!(
                buffers,
                vec![
                    OutBuffer { first: 0, end: 1, timing, marker: false },
                    OutBuffer { first: 1, end: 2, timing, marker: false },
                    OutBuffer { first: 2, end: 3, timing, marker: true },
                ]
            );
        }
        other => panic!("{other:?}"),
    }
    mux.negotiate(None, Some(b"line"));
    assert_eq!(mux.alignment, Alignment::Line);
    match mux.output(&pads, window, None) {
        Output::Buffers { buffers, .. } => assert_eq!(
            buffers,
            vec![
                OutBuffer { first: 0, end: 2, timing, marker: false },
                OutBuffer { first: 2, end: 3, timing, marker: true },
            ]
        ),
        other => panic!("{other:?}"),
    }
}

#[test]
fn no_packets_give_a_gap() {
    let mux = St2038AncMux::new();
    let window = Window { start: 10, duration: 0, end: 10 };
    match mux.output(&vec![vec![vec![0xff]]], window, Some(25)) {
        Output::Gap { start, duration } => assert_eq!((start, duration), (10, 15)),
        other => panic!("{other:?}"),
    }
}

#[test]
fn output_format_is_settled() {
    let mut mux = St2038AncMux::new();
    let settled = mux.negotiate(Some(Framerate { numer: 25, denom: 1 }), None);
    assert!(settled.add_alignment);
    assert_eq!(settled.min_latency, 40_000_000);
    assert_eq!(settled.max_latency, Some(40_000_000));
    let settled = mux.negotiate(None, Some(b"packet"));
    assert!(!settled.add_alignment);
    assert_eq!(settled.min_latency, WORST_FRAME_TIME);
    assert_eq!(settled.max_latency, None);
}

#[test]
fn inputs_are_collected_for_a_frame() {
    let mut mux = St2038AncMux::new();
    mux.negotiate(Some(Framerate { numer: 25, denom: 1 }), None);
    let window = mux.window(Some(SECOND), 0);
    assert_eq!(window.start, SECOND);
    assert_eq!(window.end, SECOND + 40_000_000);
    let heads = [
        Head::Buffer { running_time: SECOND },
        Head::Buffer { running_time: window.end },
        Head::Untimed,
        Head::Eos { queued: true },
    ];
    let collected = St2038AncMux::collect(&heads, window);
    assert_eq!(
        collected.actions,
        vec![Action::Queue, Action::Keep, Action::Discard, Action::Keep]
    );
    assert!(!collected.all_done);
    assert!(!collected.all_eos);
    assert_eq!(collected.min_next, Some(window.end));
    assert_eq!(St2038AncMux::ready(&collected, false), Err(FlowError::NeedData));
    assert_eq!(St2038AncMux::ready(&collected, true), Ok(()));

    let done = St2038AncMux::collect(&[Head::Eos { queued: false }], window);
    assert_eq!(St2038AncMux::ready(&done, false), Err(FlowError::Eos));
    assert_eq!(St2038AncMux::next_position(window, None, None), Some(window.end));
    let open = Window { start: 5, duration: 0, end: 5 };
    assert_eq!(St2038AncMux::next_position(open, Some(9), Some(5)), Some(9));
    assert_eq!(
        St2038AncMux::next_position(open, None, Some(5)),
        Some(5 + WORST_FRAME_TIME)
    );
}
