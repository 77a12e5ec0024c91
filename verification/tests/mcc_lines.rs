use closedcaption::mcc_parse::parser::{
    caption, comment, empty_line, header, metadata, time_code_rate, uuid, MccLine,
};
use closedcaption::parser_utils::{timecode, TimeCode};

#[test]
fn mcc_parser_test_timecode() {
    let input = b"11:12:13;14".as_slice();
    assert_eq!(
        timecode(input, 0),
        Some((
            TimeCode { hours: 11, minutes: 12, seconds: 13, frames: 14, drop_frame: true },
            input.len()
        ))
    );

    let input = b"11:12:13:14".as_slice();
    assert_eq!(
        timecode(input, 0),
        Some((
            TimeCode { hours: 11, minutes: 12, seconds: 13, frames: 14, drop_frame: false },
            input.len()
        ))
    );

    let input = b"11:12:13:14abcd".as_slice();
    let (value, at) = timecode(input, 0).unwrap();
    assert_eq!(
        value,
        TimeCode { hours: 11, minutes: 12, seconds: 13, frames: 14, drop_frame: false }
    );
    assert_eq!(&input[at..], b"abcd");

    let input = b"abcd11:12:13:14".as_slice();
    assert!(timecode(input, 0).is_none());
}

#[test]
fn mcc_parser_test_header() {
    let input = b"File Format=MacCaption_MCC V1.0".as_slice();
    assert_eq!(header(input), Some(MccLine::Header));

    let input = b"File Format=MacCaption_MCC V1.0\n".as_slice();
    assert_eq!(header(input), Some(MccLine::Header));

    let input = b"File Format=MacCaption_MCC V1.0\r\n".as_slice();
    assert_eq!(header(input), Some(MccLine::Header));

    let input = b"File Format=MacCaption_MCC V2.0\r\n".as_slice();
    assert_eq!(header(input), Some(MccLine::Header));

    let input = b"File Format=MacCaption_MCC V1.1".as_slice();
    assert!(header(input).is_none());
}

#[test]
fn mcc_parser_test_empty_line() {
    let input = b"".as_slice();
    assert_eq!(empty_line(input), Some(MccLine::Empty));

    let input = b"\n".as_slice();
    assert_eq!(empty_line(input), Some(MccLine::Empty));

    let input = b"\r\n".as_slice();
    assert_eq!(empty_line(input), Some(MccLine::Empty));

    let input = b" \r\n".as_slice();
    assert!(empty_line(input).is_none());
}

#[test]
fn mcc_parser_test_comment() {
    let input = b"// blabla".as_slice();
    assert_eq!(comment(input), Some(MccLine::Comment));

    let input = b"//\n".as_slice();
    assert_eq!(comment(input), Some(MccLine::Comment));

    let input = b"//".as_slice();
    assert_eq!(comment(input), Some(MccLine::Comment));

    let input = b" //".as_slice();
    assert!(comment(input).is_none());
}

#[test]
fn mcc_parser_test_uuid() {
    let input = b"UUID=1234".as_slice();
    assert_eq!(uuid(input), Some(MccLine::Uuid(b"1234".as_ref())));

    let input = b"UUID=1234\n".as_slice();
    assert_eq!(uuid(input), Some(MccLine::Uuid(b"1234".as_ref())));

    let input = b"UUID=1234\r\n".as_slice();
    assert_eq!(uuid(input), Some(MccLine::Uuid(b"1234".as_ref())));

    let input = b"UUID=".as_slice();
    assert!(uuid(input).is_none());

    let input = b"uUID=1234".as_slice();
    assert!(uuid(input).is_none());
}

#[test]
fn mcc_parser_test_time_code_rate() {
    let input = b"Time Code Rate=30".as_slice();
    assert_eq!(
        time_code_rate(input),
        Some(MccLine::TimeCodeRate(30, false))
    );

    let input = b"Time Code Rate=30DF".as_slice();
    assert_eq!(
        time_code_rate(input),
        Some(MccLine::TimeCodeRate(30, true))
    );

    let input = b"Time Code Rate=60".as_slice();
    assert_eq!(
        time_code_rate(input),
        Some(MccLine::TimeCodeRate(60, false))
    );

    let input = b"Time Code Rate=17F".as_slice();
    assert!(time_code_rate(input).is_none(),);

    let input = b"Time Code Rate=256".as_slice();
    assert!(time_code_rate(input).is_none(),);
}

#[test]
fn mcc_parser_test_metadata() {
    let input = b"Creation Date=Thursday, June 04, 2015".as_slice();
    assert_eq!(
        metadata(input),
        Some(MccLine::Metadata(
            b"Creation Date".as_ref(),
            b"Thursday, June 04, 2015".as_ref()
        ))
    );

    let input = b"Creation Date= ".as_slice();
    assert_eq!(
        metadata(input),
        Some(MccLine::Metadata(b"Creation Date".as_ref(), b" ".as_ref()),)
    );

    let input = b"Creation Date".as_slice();
    assert!(metadata(input).is_none());

    let input = b"Creation Date\n".as_slice();
    assert!(metadata(input).is_none());

    let input = b"Creation Date=".as_slice();
    assert!(metadata(input).is_none());

    let input = b"Creation Date=\n".as_slice();
    assert!(metadata(input).is_none());
}

#[test]
fn mcc_parser_test_caption() {
    let input = b"00:00:00:00\tT52S524F67ZZ72F4QROO7391UC13FFF74ZZAEB4".as_slice();
    assert_eq!(
        caption(input, true),
        Some(MccLine::Caption(
            TimeCode {
                hours: 0,
                minutes: 0,
                seconds: 0,
                frames: 0,
                drop_frame: false
            },
            Some(vec![
                0x61, 0x01, 0x52, 0x96, 0x69, 0x52, 0x4F, 0x67, 0x00, 0x00, 0x72, 0xF4, 0xFC,
                0x80, 0x80, 0xFD, 0x80, 0x80, 0xFA, 0x00, 0x00, 0xFA, 0x00, 0x00, 0xFA, 0x00,
                0x00, 0xFA, 0x00, 0x00, 0xFA, 0x00, 0x00, 0xFA, 0x00, 0x00, 0xFA, 0x00, 0x00,
                0xFA, 0x00, 0x00, 0xFA, 0x00, 0x00, 0xFA, 0x00, 0x00, 0xFA, 0x00, 0x00, 0xFA,
                0x00, 0x00, 0xFA, 0x00, 0x00, 0xFA, 0x00, 0x00, 0xFA, 0x00, 0x00, 0xFA, 0x00,
                0x00, 0xFA, 0x00, 0x00, 0xFA, 0x00, 0x00, 0x73, 0x91, 0xE1, 0x00, 0x00, 0x00,
                0xC1, 0x3F, 0xFF, 0x74, 0x00, 0x00, 0xAE, 0xB4
            ])
        ))
    );

    let input = b"00:00:00:00.0\tT52S524F67ZZ72F4QROO7391UC13FFF74ZZAEB4".as_slice();
    assert_eq!(
        caption(input, true),
        Some(MccLine::Caption(
            TimeCode {
                hours: 0,
                minutes: 0,
                seconds: 0,
                frames: 0,
                drop_frame: false
            },
            Some(vec![
                0x61, 0x01, 0x52, 0x96, 0x69, 0x52, 0x4F, 0x67, 0x00, 0x00, 0x72, 0xF4, 0xFC,
                0x80, 0x80, 0xFD, 0x80, 0x80, 0xFA, 0x00, 0x00, 0xFA, 0x00, 0x00, 0xFA, 0x00,
                0x00, 0xFA, 0x00, 0x00, 0xFA, 0x00, 0x00, 0xFA, 0x00, 0x00, 0xFA, 0x00, 0x00,
                0xFA, 0x00, 0x00, 0xFA, 0x00, 0x00, 0xFA, 0x00, 0x00, 0xFA, 0x00, 0x00, 0xFA,
                0x00, 0x00, 0xFA, 0x00, 0x00, 0xFA, 0x00, 0x00, 0xFA, 0x00, 0x00, 0xFA, 0x00,
                0x00, 0xFA, 0x00, 0x00, 0xFA, 0x00, 0x00, 0x73, 0x91, 0xE1, 0x00, 0x00, 0x00,
                0xC1, 0x3F, 0xFF, 0x74, 0x00, 0x00, 0xAE, 0xB4
            ])
        ))
    );

    let input = b"00:00:00:00.0,9\tT52S524F67ZZ72F4QROO7391UC13FFF74ZZAEB4".as_slice();
    assert_eq!(
        caption(input, true),
        Some(MccLine::Caption(
            TimeCode {
                hours: 0,
                minutes: 0,
                seconds: 0,
                frames: 0,
                drop_frame: false
            },
            Some(vec![
                0x61, 0x01, 0x52, 0x96, 0x69, 0x52, 0x4F, 0x67, 0x00, 0x00, 0x72, 0xF4, 0xFC,
                0x80, 0x80, 0xFD, 0x80, 0x80, 0xFA, 0x00, 0x00, 0xFA, 0x00, 0x00, 0xFA, 0x00,
                0x00, 0xFA, 0x00, 0x00, 0xFA, 0x00, 0x00, 0xFA, 0x00, 0x00, 0xFA, 0x00, 0x00,
                0xFA, 0x00, 0x00, 0xFA, 0x00, 0x00, 0xFA, 0x00, 0x00, 0xFA, 0x00, 0x00, 0xFA,
                0x00, 0x00, 0xFA, 0x00, 0x00, 0xFA, 0x00, 0x00, 0xFA, 0x00, 0x00, 0xFA, 0x00,
                0x00, 0xFA, 0x00, 0x00, 0xFA, 0x00, 0x00, 0x73, 0x91, 0xE1, 0x00, 0x00, 0x00,
                0xC1, 0x3F, 0xFF, 0x74, 0x00, 0x00, 0xAE, 0xB4
            ])
        ))
    );

    let input = b"Creation Date=\n".as_slice();
    assert!(caption(input, true).is_none());
}
