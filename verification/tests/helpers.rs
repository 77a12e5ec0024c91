use closedcaption::bits::write_fields;
use closedcaption::cea608::Id;
use closedcaption::cea608utils::Rectangle;
use closedcaption::cea708::{
    Anchor, DefineWindowArgs, ServiceCommand, SetPenLocationArgs,
};
use closedcaption::cea708utils::window::{Dimensions, ServiceState};
use closedcaption::cea708utils::{Cea708Renderer, ServiceOrChannel, Source};
use closedcaption::clock::{mul_div_ceil, mul_div_floor, mul_div_round, Framerate, Segment};
use closedcaption::jsontovtt::JsonToVtt;
use closedcaption::line_reader::LineReader;
use closedcaption::st2038anc_utils::{
    ancillary_meta, convert_to_st2038_buffer, to_st2038_with_10bit, AncData, PacketError,
};
use closedcaption::text::{
    hex_digit, parse_hex_byte, push_bytes, push_chars, push_dec, push_dec_chars, push_hex2,
    same_bytes, size_of_text,
};

#[test]
fn quotients_are_rounded() {
    assert_eq!(mul_div_floor(10, 3, 4), Some(7));
    assert_eq!(mul_div_round(10, 3, 4), Some(8));
    assert_eq!(mul_div_ceil(9, 3, 4), Some(7));
    assert_eq!(mul_div_round(9, 3, 4), Some(7));
    assert_eq!(mul_div_round(5, 1, 4), Some(1));
    // the product may be larger than the numbers
    assert_eq!(mul_div_floor(u64::MAX, 2, 4), Some(u64::MAX / 2));
    assert_eq!(mul_div_floor(u64::MAX, 2, 1), None);
    assert_eq!(mul_div_ceil(u64::MAX, 3, 2), None);
    assert_eq!(Framerate { numer: 30000, denom: 1001 }.frame_duration(), 33_366_667);
    assert_eq!(Framerate { numer: 25, denom: 1 }.frame_duration(), 40_000_000);
}

#[test]
fn numbers_are_written() {
    assert_eq!(hex_digit(b'a'), Some(10));
    assert_eq!(hex_digit(b'F'), Some(15));
    assert_eq!(hex_digit(b'g'), None);
    assert_eq!(parse_hex_byte(b"x4F", 1), Some(0x4f));
    assert_eq!(parse_hex_byte(b"x4", 1), None);
    let mut out = Vec::new();
    push_hex2(&mut out, 0xab, true);
    push_hex2(&mut out, 0xab, false);
    push_dec(&mut out, 42, 5);
    push_bytes(&mut out, b"!");
    assert_eq!(out, b"ABab00042!");
    assert!(same_bytes(&out, b"ABab00042!"));
    assert!(!same_bytes(&out, b"ABab00042"));
    let mut text = String::from("é");
    push_chars(&mut text, b"x");
    push_dec_chars(&mut text, 7, 2);
    assert_eq!(text, "éx07");
    assert_eq!(size_of_text(&text), 5);
}

#[test]
fn fields_are_written_as_bits() {
    assert_eq!(write_fields(&vec![(4, 0xa), (4, 0x5)]), (vec![0xa5], true));
    // the last byte is filled with ones
    assert_eq!(write_fields(&vec![(4, 1)]), (vec![0x1f], true));
    // a value that does not fit ends the writing, and a partial byte is lost
    assert_eq!(write_fields(&vec![(8, 0x12), (4, 16)]), (vec![0x12], false));
    assert_eq!(write_fields(&vec![(10, 0x3ff), (4, 16)]), (vec![0xff], false));
}

#[test]
fn packets_beside_frames_are_written_back() {
    let packet = convert_to_st2038_buffer(true, 9, 3, 0x61, 0x01, &[1, 2, 0xff]).unwrap();
    let meta = ancillary_meta(AncData::from_slice(&packet).unwrap());
    assert_eq!((meta.line, meta.offset, meta.c_not_y_channel), (9, 3, true));
    // 0x61 has three ones, 0x01 has one and 3 has two
    assert_eq!((meta.did, meta.sdid_block_number, meta.data_count), (0x161, 0x101, 0x203));
    let mut buffer = vec![7];
    assert!(to_st2038_with_10bit(&mut buffer, &meta).is_ok());
    assert_eq!(buffer[0], 7);
    assert_eq!(buffer[1..], packet[..]);
}

#[test]
fn packets_beside_frames_can_be_wrong() {
    let packet = convert_to_st2038_buffer(false, 9, 0, 0x61, 0x01, &[1]).unwrap();
    let mut meta = ancillary_meta(AncData::from_slice(&packet).unwrap());
    meta.data = vec![0; 256];
    let mut buffer = vec![7];
    assert_eq!(to_st2038_with_10bit(&mut buffer, &meta), Err(PacketError::TooLong));
    assert_eq!(buffer, vec![7]);
    meta.data = vec![1024];
    assert_eq!(to_st2038_with_10bit(&mut buffer, &meta), Err(PacketError::OutOfRange));
    // 60 bits come before the data
    assert_eq!(buffer.len(), 1 + 7);
}

#[test]
fn rest_of_a_line_can_be_drained() {
    let mut reader = LineReader::new();
    reader.push(b"one\ntw".to_vec());
    assert_eq!(reader.line_with_drain(false), Some(&b"one\n"[..]));
    assert_eq!(reader.line_with_drain(false), None);
    assert_eq!(reader.line_with_drain(true), Some(&b"tw"[..]));
    assert_eq!(reader.line_with_drain(true), None);
}

fn rectangle(x: i32) -> Rectangle {
    Rectangle { x, y: 1, width: 2, height: 3 }
}

#[test]
fn compositions_follow_the_choice() {
    let mut renderer = Cea708Renderer::new(Dimensions { w: 100, h: 100 });
    assert!(matches!(renderer.generate_composition(), Source::Nothing));
    renderer.set_service_channel(Some(ServiceOrChannel::Service(1)));
    // no block of the service came yet
    assert!(matches!(renderer.generate_composition(), Source::Nothing));
    renderer.compose_windows(vec![rectangle(1), rectangle(2)]);
    assert_eq!(renderer.composition, Some(vec![rectangle(1), rectangle(2)]));
    renderer.compose_windows(vec![]);
    assert_eq!(renderer.composition, None);
    renderer.set_service_channel(Some(ServiceOrChannel::Cea608Channel(Id::CC1)));
    assert!(matches!(renderer.generate_composition(), Source::Cea608));
    renderer.compose_cea608(Some(rectangle(3)));
    renderer.compose_cea608(None);
    assert_eq!(renderer.composition, Some(vec![rectangle(3)]));
    renderer.clear_composition();
    assert_eq!(renderer.composition, None);
    // without a choice nothing stays
    renderer.compose_cea608(Some(rectangle(3)));
    renderer.set_service_channel(None);
    assert!(matches!(renderer.generate_composition(), Source::Nothing));
    assert_eq!(renderer.composition, None);
}

#[test]
fn windows_need_their_lines_in_order() {
    let mut state = ServiceState::new(Dimensions { w: 100, h: 100 });
    state.handle_code(&ServiceCommand::DefineWindow(DefineWindowArgs {
        window_id: 0,
        priority: 0,
        anchor_point: Anchor::TopLeft,
        relative_positioning: false,
        anchor_vertical: 0,
        anchor_horizontal: 0,
        row_count: 3,
        column_count: 31,
        row_lock: true,
        column_lock: true,
        visible: true,
        window_style_id: 1,
        pen_style_id: 1,
    }));
    let at = |row| ServiceCommand::SetPenLocation(SetPenLocationArgs { row, column: 0 });
    state.handle_code(&at(1));
    state.handle_code(&ServiceCommand::Char('b'));
    assert!(state.windows[0].can_show());
    state.handle_code(&at(0));
    state.handle_code(&ServiceCommand::Char('a'));
    assert!(!state.windows[0].can_show());
    state.windows[0].place(10, 10);
    assert!(state.windows[0].can_show());
}

#[test]
fn gaps_are_cut_to_the_segment() {
    let mut vtt = JsonToVtt::new(None);
    vtt.segment = Segment { start: Some(10), stop: Some(20) };
    assert!(vtt.handle_gap(0, Some(5)).is_none());
    let gap = vtt.handle_gap(5, Some(10)).unwrap();
    assert_eq!((gap.pts, gap.duration), (10, Some(5)));
    // the header comes once
    let header = gap.header.unwrap();
    assert!(header.is_header);
    assert_eq!(header.pts, 10);
    assert!(header.data.starts_with("WEBVTT"));
    assert!(vtt.handle_gap(15, Some(1)).unwrap().header.is_none());
}
