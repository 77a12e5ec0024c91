use closedcaption::ccdetect::{CCDetect, CCFormat};
use closedcaption::ccutils::{extract_cdp, font_step, layout_size, FontStep, ParseErrorCode};
use closedcaption::clock::FlowError;

const SECOND: u64 = 1_000_000_000;

fn cdp(flags: u8, body: &[u8]) -> Vec<u8> {
    let mut data = vec![0x96, 0x69, 0, 0x4f, flags, 0x00, 0x01];
    data.extend_from_slice(body);
    data[2] = data.len() as u8;
    data
}

fn code_of(data: &[u8]) -> ParseErrorCode {
    extract_cdp(data).unwrap_err().code
}

#[test]
fn captions_are_taken_out_of_a_packet() {
    let data = cdp(0x43, &[0x72, 0xe2, 0xfc, 0x94, 0x20, 0xfe, 0x01, 0x02, 0x74, 0, 1, 0]);
    assert_eq!(extract_cdp(&data).unwrap(), &[0xfc, 0x94, 0x20, 0xfe, 0x01, 0x02]);
    // behind a timecode
    let data = cdp(0xc3, &[0x71, 0, 0, 0, 0, 0x72, 0xe1, 0xfc, 1, 2, 0x74, 0, 1, 0]);
    assert_eq!(extract_cdp(&data).unwrap(), &[0xfc, 1, 2]);
    // no captions
    assert!(extract_cdp(&cdp(0x03, &[0x74, 0, 1, 0])).unwrap().is_empty());
}

#[test]
fn broken_packets_are_refused() {
    assert_eq!(code_of(&[0x96, 0x69]), ParseErrorCode::WrongLength);
    let mut data = cdp(0x43, &[0x72, 0xe0, 0x74, 0, 1, 0]);
    data[0] = 0x97;
    assert_eq!(code_of(&data), ParseErrorCode::WrongMagicSequence);
    let mut data = cdp(0x43, &[0x72, 0xe0, 0x74, 0, 1, 0]);
    data[2] += 1;
    let error = extract_cdp(&data).unwrap_err();
    assert_eq!(error.code, ParseErrorCode::WrongLength);
    assert_eq!(
        error.to_text(),
        "WrongLength at byte 2: advertised cdp packet length 14 does not match length of data 13"
    );
    assert_eq!(code_of(&cdp(0xc3, &[0x71, 0, 0, 0])), ParseErrorCode::WrongLength);
    assert_eq!(
        code_of(&cdp(0xc3, &[0x71, 0, 0, 0, 0, 0x72])),
        ParseErrorCode::WrongLength
    );
    assert_eq!(
        code_of(&cdp(0x43, &[0x73, 0xe0, 0x74, 0, 1, 0])),
        ParseErrorCode::WrongMagicSequence
    );
    let error = extract_cdp(&cdp(0x43, &[0x72, 0x60, 0x74, 0, 1, 0])).unwrap_err();
    assert_eq!(error.code, ParseErrorCode::WrongMagicSequence);
    assert_eq!(
        error.to_text(),
        "WrongMagicSequence at byte 9: reserved bits are not 0xe0, found 60"
    );
    assert_eq!(code_of(&cdp(0x43, &[0x72, 0xe2, 0, 0, 0, 0])), ParseErrorCode::WrongLength);
}

#[test]
fn kinds_of_captions_are_told_apart() {
    let detect = CCDetect::new();
    let seen = detect.detect_cc_data(&[0xfc, 0x80, 0x80, 0xfe, 1, 2]).unwrap();
    assert!(!seen.cc608 && seen.cc708);
    let seen = detect.detect_cc_data(&[0xfc, 0x94, 0x20, 0xfa, 0, 0, 0xff]).unwrap();
    assert!(seen.cc608 && !seen.cc708);
    let error = detect.detect_cc_data(&[0xff, 1, 2, 0xfc, 0x94, 0x20]).unwrap_err();
    assert_eq!(error.code, ParseErrorCode::WrongLayout);
    assert_eq!(error.byte, 3);
    assert_eq!(CCFormat::from_name(b"cdp"), Some(CCFormat::Cc708Cdp));
    assert_eq!(CCFormat::from_name(b"cc_data"), Some(CCFormat::Cc708CcData));
    assert_eq!(CCFormat::from_name(b"raw"), None);
    let seen = detect.detect(CCFormat::Cc708Cdp, &cdp(0x43, &[0x72, 0xe1, 0xff, 1, 2])).unwrap();
    assert!(!seen.cc608 && seen.cc708);
}

#[test]
fn changes_are_told_after_a_while() {
    let with_708 = [0xff, 1, 2];
    let with_nothing = [0xfc, 0x80, 0x80];
    let mut detect = CCDetect::new();
    assert!(matches!(detect.handle_buffer(Some(0), &with_708), Err(FlowError::NotNegotiated)));
    detect.set_format(CCFormat::Cc708CcData);
    let report = detect.handle_buffer(Some(SECOND), &with_708).unwrap();
    assert!(report.changes.cc708 && !report.changes.cc608);
    assert!(detect.settings.cc708);
    // the captions are missing, but not for long enough
    let report = detect.handle_buffer(Some(11 * SECOND), &with_nothing).unwrap();
    assert!(!report.changes.cc708);
    assert!(detect.settings.cc708);
    let report = detect.handle_buffer(Some(11 * SECOND + 1), &with_nothing).unwrap();
    assert!(report.changes.cc708);
    assert!(!detect.settings.cc708);
    detect.stop();
    assert!(detect.state.is_none());
}

#[test]
fn broken_captions_are_no_captions() {
    let mut detect = CCDetect::new();
    detect.set_format(CCFormat::Cc708Cdp);
    let report = detect.handle_buffer(Some(SECOND), &[1, 2, 3]).unwrap();
    assert_eq!(report.error.unwrap().code, ParseErrorCode::WrongLength);
    assert!(!report.changes.cc608 && !report.changes.cc708);
    assert!(matches!(detect.handle_buffer(None, &[1, 2, 3]), Err(FlowError::Error)));
}

#[test]
fn font_grows_until_text_does_not_fit() {
    assert!(matches!(font_step(20, 1280 * 1024, 720 * 1024, 1280, 720), FontStep::Measure(21)));
    assert!(matches!(font_step(20, 1280 * 1024 + 1, 100, 1280, 720), FontStep::Use(19)));
    assert!(matches!(font_step(20, 100, 720 * 1024 + 1, 1280, 720), FontStep::Use(19)));
    assert_eq!(layout_size(2047, 720 * 1024), (1, 720));
}
