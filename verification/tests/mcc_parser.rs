use closedcaption::mcc_parse::parser::{
    caption, comment, empty_line, header, metadata, time_code_rate, uuid, MccLine, MccParser,
};
use closedcaption::parser_utils::TimeCode;

#[test]
fn parser_test_header() {
    let input = b"File Format=MacCaption_MCC V1.0".as_slice();
    assert_eq!(header(input), Some(MccLine::Header));

    let input = b"File Format=MacCaption_MCC V1.0\n".as_slice();
    assert_eq!(header(input), Some(MccLine::Header));

    let input = b"File Format=MacCaption_MCC V1.0\r\n".as_slice();
    assert_eq!(header(input), Some(MccLine::Header));

    let input = b"File Format=MacCaption_MCC V2.0\r\n".as_slice();
    assert_eq!(header(input), Some(MccLine::Header));

    let input = b"File Format=MacCaption_MCC V1.1".as_slice();
    assert!(header(input).is_none());
}

#[test]
fn parser_test_empty_line() {
    let input = b"".as_slice();
    assert_eq!(empty_line(input), Some(MccLine::Empty));

    let input = b"\n".as_slice();
    assert_eq!(empty_line(input), Some(MccLine::Empty));

    let input = b"\r\n".as_slice();
    assert_eq!(empty_line(input), Some(MccLine::Empty));

    let input = b" \r\n".as_slice();
    assert!(empty_line(input).is_none());
}

#[test]
fn parser_test_comment() {
    let input = b"// blabla".as_slice();
    assert_eq!(comment(input), Some(MccLine::Comment));

    let input = b"//\n".as_slice();
    assert_eq!(comment(input), Some(MccLine::Comment));

    let input = b"//".as_slice();
    assert_eq!(comment(input), Some(MccLine::Comment));

    let input = b" //".as_slice();
    assert!(comment(input).is_none());
}

#[test]
fn parser_test_uuid() {
    let input = b"UUID=1234".as_slice();
    assert_eq!(uuid(input), Some(MccLine::Uuid(b"1234".as_ref())));

    let input = b"UUID=1234\n".as_slice();
    assert_eq!(uuid(input), Some(MccLine::Uuid(b"1234".as_ref())));

    let input = b"UUID=1234\r\n".as_slice();
    assert_eq!(uuid(input), Some(MccLine::Uuid(b"1234".as_ref())));

    let input = b"UUID=".as_slice();
    assert!(uuid(input).is_none());

    let input = b"uUID=1234".as_slice();
    assert!(uuid(input).is_none());
}

#[test]
fn parser_test_time_code_rate() {
    let input = b"Time Code Rate=30".as_slice();
    assert_eq!(
        time_code_rate(input),
        Some(MccLine::TimeCodeRate(30, false))
    );

    let input = b"Time Code Rate=30DF".as_slice();
    assert_eq!(
        time_code_rate(input),
        Some(MccLine::TimeCodeRate(30, true))
    );

    let input = b"Time Code Rate=60".as_slice();
    assert_eq!(
        time_code_rate(input),
        Some(MccLine::TimeCodeRate(60, false))
    );

    let input = b"Time Code Rate=17F".as_slice();
    assert!(time_code_rate(input).is_none(),);

    let input = b"Time Code Rate=256".as_slice();
    assert!(time_code_rate(input).is_none(),);
}

#[test]
fn parser_test_metadata() {
    let input = b"Creation Date=Thursday, June 04, 2015".as_slice();
    assert_eq!(
        metadata(input),
        Some(MccLine::Metadata(
            b"Creation Date".as_ref(),
            b"Thursday, June 04, 2015".as_ref()
        ))
    );

    let input = b"Creation Date= ".as_slice();
    assert_eq!(
        metadata(input),
        Some(MccLine::Metadata(b"Creation Date".as_ref(), b" ".as_ref()),)
    );

    let input = b"Creation Date".as_slice();
    assert!(metadata(input).is_none());

    let input = b"Creation Date\n".as_slice();
    assert!(metadata(input).is_none());

    let input = b"Creation Date=".as_slice();
    assert!(metadata(input).is_none());

    let input = b"Creation Date=\n".as_slice();
    assert!(metadata(input).is_none());
}

#[test]
fn parser_test_caption() {
    let input = b"00:00:00:00\tT52S524F67ZZ72F4QROO7391UC13FFF74ZZAEB4".as_slice();
    assert_eq!(
        caption(input, true),
        Some(MccLine::Caption(
            TimeCode {
                hours: 0,
                minutes: 0,
                seconds: 0,
                frames: 0,
                drop_frame: false
            },
            Some(vec![
                0x61, 0x01, 0x52, 0x96, 0x69, 0x52, 0x4F, 0x67, 0x00, 0x00, 0x72, 0xF4, 0xFC,
                0x80, 0x80, 0xFD, 0x80, 0x80, 0xFA, 0x00, 0x00, 0xFA, 0x00, 0x00, 0xFA, 0x00,
                0x00, 0xFA, 0x00, 0x00, 0xFA, 0x00, 0x00, 0xFA, 0x00, 0x00, 0xFA, 0x00, 0x00,
                0xFA, 0x00, 0x00, 0xFA, 0x00, 0x00, 0xFA, 0x00, 0x00, 0xFA, 0x00, 0x00, 0xFA,
                0x00, 0x00, 0xFA, 0x00, 0x00, 0xFA, 0x00, 0x00, 0xFA, 0x00, 0x00, 0xFA, 0x00,
                0x00, 0xFA, 0x00, 0x00, 0xFA, 0x00, 0x00, 0x73, 0x91, 0xE1, 0x00, 0x00, 0x00,
                0xC1, 0x3F, 0xFF, 0x74, 0x00, 0x00, 0xAE, 0xB4
            ])
        ))
    );

    let input = b"00:00:00:00.0\tT52S524F67ZZ72F4QROO7391UC13FFF74ZZAEB4".as_slice();
    assert_eq!(
        caption(input, true),
        Some(MccLine::Caption(
            TimeCode {
                hours: 0,
                minutes: 0,
                seconds: 0,
                frames: 0,
                drop_frame: false
            },
            Some(vec![
                0x61, 0x01, 0x52, 0x96, 0x69, 0x52, 0x4F, 0x67, 0x00, 0x00, 0x72, 0xF4, 0xFC,
                0x80, 0x80, 0xFD, 0x80, 0x80, 0xFA, 0x00, 0x00, 0xFA, 0x00, 0x00, 0xFA, 0x00,
                0x00, 0xFA, 0x00, 0x00, 0xFA, 0x00, 0x00, 0xFA, 0x00, 0x00, 0xFA, 0x00, 0x00,
                0xFA, 0x00, 0x00, 0xFA, 0x00, 0x00, 0xFA, 0x00, 0x00, 0xFA, 0x00, 0x00, 0xFA,
                0x00, 0x00, 0xFA, 0x00, 0x00, 0xFA, 0x00, 0x00, 0xFA, 0x00, 0x00, 0xFA, 0x00,
                0x00, 0xFA, 0x00, 0x00, 0xFA, 0x00, 0x00, 0x73, 0x91, 0xE1, 0x00, 0x00, 0x00,
                0xC1, 0x3F, 0xFF, 0x74, 0x00, 0x00, 0xAE, 0xB4
            ])
        ))
    );

    let input = b"00:00:00:00.0,9\tT52S524F67ZZ72F4QROO7391UC13FFF74ZZAEB4".as_slice();
    assert_eq!(
        caption(input, true),
        Some(MccLine::Caption(
            TimeCode {
                hours: 0,
                minutes: 0,
                seconds: 0,
                frames: 0,
                drop_frame: false
            },
            Some(vec![
                0x61, 0x01, 0x52, 0x96, 0x69, 0x52, 0x4F, 0x67, 0x00, 0x00, 0x72, 0xF4, 0xFC,
                0x80, 0x80, 0xFD, 0x80, 0x80, 0xFA, 0x00, 0x00, 0xFA, 0x00, 0x00, 0xFA, 0x00,
                0x00, 0xFA, 0x00, 0x00, 0xFA, 0x00, 0x00, 0xFA, 0x00, 0x00, 0xFA, 0x00, 0x00,
                0xFA, 0x00, 0x00, 0xFA, 0x00, 0x00, 0xFA, 0x00, 0x00, 0xFA, 0x00, 0x00, 0xFA,
                0x00, 0x00, 0xFA, 0x00, 0x00, 0xFA, 0x00, 0x00, 0xFA, 0x00, 0x00, 0xFA, 0x00,
                0x00, 0xFA, 0x00, 0x00, 0xFA, 0x00, 0x00, 0x73, 0x91, 0xE1, 0x00, 0x00, 0x00,
                0xC1, 0x3F, 0xFF, 0x74, 0x00, 0x00, 0xAE, 0xB4
            ])
        ))
    );

    let input = b"Creation Date=\n".as_slice();
    assert!(caption(input, true).is_none());
}


#[test]
fn mcc_file_is_read_line_by_line() {
    let mut parser = MccParser::new();
    let lines: [(&[u8], MccLine); 9] = [
        (b"File Format=MacCaption_MCC V1.0\n", MccLine::Header),
        (b"\n", MccLine::Empty),
        (b"// comment\n", MccLine::Comment),
        (b"\n", MccLine::Empty),
        (
            b"UUID=CA8BC94D-9931-4EEE-812F-2D68FA74F287\n",
            MccLine::Uuid(b"CA8BC94D-9931-4EEE-812F-2D68FA74F287"),
        ),
        (
            b"Creation Program=Adobe Premiere Pro CC (Windows)\n",
            MccLine::Metadata(b"Creation Program", b"Adobe Premiere Pro CC (Windows)"),
        ),
        (b"Time Code Rate=30DF\n", MccLine::TimeCodeRate(30, true)),
        (b"\n", MccLine::Empty),
        (
            b"00:00:00;01\tT1\n",
            MccLine::Caption(
                TimeCode { hours: 0, minutes: 0, seconds: 0, frames: 1, drop_frame: true },
                None,
            ),
        ),
    ];
    for (i, (line, expected)) in lines.iter().enumerate() {
        let res = parser.parse_line(line, false);
        assert_eq!(res.as_ref().ok(), Some(expected), "line {}", i);
    }
}

#[test]
fn mcc_file_begins_with_its_header() {
    let mut parser = MccParser::new();
    assert!(parser.parse_line(b"\n", true).is_err());
    assert!(parser.parse_line(b"File Format=MacCaption_MCC V1.0\n", true).is_ok());
    parser.reset();
    assert!(parser.parse_line(b"\n", true).is_err());
}

#[test]
fn mcc_payload_stands_for_bytes() {
    match caption(b"01:02:03:04\tGZ1F\r\n", true) {
        Some(MccLine::Caption(_, Some(payload))) => {
            assert_eq!(payload, [0xfa, 0, 0, 0, 0x1f])
        }
        other => panic!("unexpected {:?}", other),
    }
    assert!(caption(b"01:02:03:04\tg\r\n", true).is_none());
}
