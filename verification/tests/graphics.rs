use closedcaption::cdgconstants::{mask, CDG_COMMAND, CDG_HEIGHT, CDG_WIDTH};
use closedcaption::cdgdec::CdgDec;
use closedcaption::cdgparse::{
    bytes_to_time, convert, handle_frame, time_to_bytes, Converted, Format, ParseAction, Value,
};
use closedcaption::cdgtypefind::{
    cdg_packets_ratio, compute_probability, rate, window_offsets, TypeFindProbability,
};

const SECOND: u64 = 1_000_000_000;

fn packet(command: u8, data: &[u8]) -> Vec<u8> {
    let mut packet = vec![0; 24];
    // the two highest bits do not count
    packet[0] = 0xc0 | CDG_COMMAND;
    packet[1] = 0x40 | command;
    packet[4..4 + data.len()].copy_from_slice(data);
    packet
}

fn pixel(dec: &CdgDec, x: usize, y: usize) -> [u8; 4] {
    let stride = CDG_WIDTH as usize * 4;
    let mut plane = vec![0; stride * CDG_HEIGHT as usize];
    dec.draw(&mut plane, stride);
    let at = y * stride + 4 * x;
    [plane[at], plane[at + 1], plane[at + 2], plane[at + 3]]
}

#[test]
fn screen_is_cleared_to_a_color() {
    let mut dec = CdgDec::new();
    assert_eq!(pixel(&dec, 0, 0), [0, 0, 0, 255]);
    assert!(dec.handle_frame(&packet(1, &[1, 0])));
    assert_eq!(pixel(&dec, 0, 0), [0, 0, 0xaa, 255]);
    assert_eq!(pixel(&dec, 299, 215), [0, 0, 0xaa, 255]);
    dec.flush();
    assert_eq!(pixel(&dec, 0, 0), [0, 0, 0, 255]);
}

#[test]
fn colors_are_loaded() {
    let mut dec = CdgDec::new();
    // the first color becomes 0x8 red, 0x4 green and 0xf blue
    assert!(dec.handle_frame(&packet(30, &[0x21, 0x0f])));
    assert_eq!(pixel(&dec, 5, 5), [0x88, 0x44, 0xff, 255]);
    // a flush keeps the colors, the end does not
    dec.flush();
    assert_eq!(pixel(&dec, 5, 5), [0x88, 0x44, 0xff, 255]);
    dec.stop();
    assert_eq!(pixel(&dec, 5, 5), [0, 0, 0, 255]);
}

#[test]
fn tiles_are_drawn() {
    let mut dec = CdgDec::new();
    let mut data = [0; 16];
    data[1] = 1;
    data[2] = 2;
    data[3] = 3;
    data[4] = 0x20;
    assert!(dec.handle_frame(&packet(6, &data)));
    assert_eq!(pixel(&dec, 18, 24), [0, 0, 0xaa, 255]);
    assert_eq!(pixel(&dec, 19, 24), [0, 0, 0, 255]);
    assert_eq!(pixel(&dec, 18, 25), [0, 0, 0, 255]);
    // drawn over itself it is gone
    assert!(dec.handle_frame(&packet(38, &data)));
    assert_eq!(pixel(&dec, 18, 24), [0, 0, 0, 255]);
}

#[test]
fn other_packets_are_ignored() {
    let mut dec = CdgDec::new();
    assert!(!dec.handle_frame(&packet(63, &[])));
    assert!(!dec.handle_frame(&packet(1, &[1])[..23]));
    let mut other = packet(1, &[1]);
    other[0] = 8;
    assert!(!dec.handle_frame(&other));
    assert_eq!(pixel(&dec, 0, 0), [0, 0, 0, 255]);
}

#[test]
fn planes_may_be_padded_or_small() {
    let mut dec = CdgDec::new();
    dec.handle_frame(&packet(1, &[1, 0]));
    let mut plane = vec![7; 2 * 10];
    dec.draw(&mut plane, 10);
    assert_eq!(&plane[0..10], &[0, 0, 0xaa, 255, 0, 0, 0xaa, 255, 7, 7]);
}

#[test]
fn bytes_and_times_are_converted() {
    // 300 packets of 24 bytes in a second
    assert_eq!(bytes_to_time(7200), Some(SECOND));
    assert_eq!(time_to_bytes(2 * SECOND), 14400);
    assert_eq!(bytes_to_time(u64::MAX), None);
    assert!(matches!(
        convert(Value::Bytes(Some(7200)), Format::Time),
        Converted::Done(Value::Time(Some(SECOND)))
    ));
    assert!(matches!(
        convert(Value::Time(Some(SECOND)), Format::Bytes),
        Converted::Done(Value::Bytes(Some(7200)))
    ));
    assert!(matches!(
        convert(Value::Bytes(Some(u64::MAX)), Format::Time),
        Converted::Overflow
    ));
    assert!(matches!(convert(Value::Other, Format::Time), Converted::Unknown));
    assert_eq!(mask(0xff), 0x3f);
}

#[test]
fn packets_are_found_and_timed() {
    assert!(matches!(handle_frame(&[0, 1, 9, 1], 0), ParseAction::Skip(2)));
    assert!(matches!(handle_frame(&[0, 1], 0), ParseAction::Skip(2)));
    assert!(matches!(
        handle_frame(&packet(1, &[]), 7200),
        ParseAction::Frame { pts: SECOND, keyframe: true, header: false }
    ));
    assert!(matches!(
        handle_frame(&packet(31, &[]), 0),
        ParseAction::Frame { pts: 0, keyframe: false, header: true }
    ));
    assert!(matches!(handle_frame(&packet(6, &[]), u64::MAX), ParseAction::Overflow));
}

#[test]
fn files_are_recognised() {
    assert_eq!(cdg_packets_ratio(&vec![9, 0xc9, 0, 0], 24 * 8), 25);
    assert_eq!(rate(5), TypeFindProbability::Zero);
    assert_eq!(rate(6), TypeFindProbability::Possible);
    assert_eq!(rate(11), TypeFindProbability::Likely);
    assert_eq!(compute_probability(&vec![0, 7, 3]), TypeFindProbability::Possible);
    assert_eq!(compute_probability(&vec![0, 7, 30]), TypeFindProbability::Likely);
    assert_eq!(compute_probability(&vec![]), TypeFindProbability::Zero);
    assert_eq!(window_offsets(Some(7)), None);
    assert_eq!(window_offsets(Some(80)).unwrap(), vec![0, 10, 20, 30, 40, 50, 60, 70]);
    assert_eq!(window_offsets(Some(81)).unwrap().len(), 9);
    assert_eq!(window_offsets(None).unwrap()[1], 28800);
}
