use closedcaption::parser_utils::TimeCode;
use closedcaption::scc_parse::parser::{caption, empty_line, header, SccLine, SccParser};

#[test]
fn test_header() {
    let input = b"Scenarist_SCC V1.0".as_slice();
    assert_eq!(header(input), Some(SccLine::Header));

    let input = b"Scenarist_SCC V1.0\n".as_slice();
    assert_eq!(header(input), Some(SccLine::Header));

    let input = b"Scenarist_SCC V1.0\r\n".as_slice();
    assert_eq!(header(input), Some(SccLine::Header));

    let input = b"Scenarist_SCC V1.1".as_slice();
    assert!(header(input).is_none());
}

#[test]
fn test_empty_line() {
    let input = b"".as_slice();
    assert_eq!(empty_line(input), Some(SccLine::Empty));

    let input = b"\n".as_slice();
    assert_eq!(empty_line(input), Some(SccLine::Empty));

    let input = b"\r\n".as_slice();
    assert_eq!(empty_line(input), Some(SccLine::Empty));

    let input = b" \r\n".as_slice();
    assert!(empty_line(input).is_none());
}

#[test]
fn test_caption() {
    let input = b"01:02:53:14\t94ae 94ae 9420 9420 947a 947a 97a2 97a2 a820 68ef f26e 2068 ef6e 6be9 6e67 2029 942c 942c 8080 8080 942f 942f".as_slice();
    assert_eq!(
        caption(input),
        Some(SccLine::Caption(
            TimeCode {
                hours: 1,
                minutes: 2,
                seconds: 53,
                frames: 14,
                drop_frame: false
            },
            vec![
                0x94, 0xae, 0x94, 0xae, 0x94, 0x20, 0x94, 0x20, 0x94, 0x7a, 0x94, 0x7a, 0x97,
                0xa2, 0x97, 0xa2, 0xa8, 0x20, 0x68, 0xef, 0xf2, 0x6e, 0x20, 0x68, 0xef, 0x6e,
                0x6b, 0xe9, 0x6e, 0x67, 0x20, 0x29, 0x94, 0x2c, 0x94, 0x2c, 0x80, 0x80, 0x80,
                0x80, 0x94, 0x2f, 0x94, 0x2f,
            ]
        ))
    );

    let input = b"01:02:55;14	942c 942c".as_slice();
    assert_eq!(
        caption(input),
        Some(SccLine::Caption(
            TimeCode {
                hours: 1,
                minutes: 2,
                seconds: 55,
                frames: 14,
                drop_frame: true
            },
            vec![0x94, 0x2c, 0x94, 0x2c]
        ))
    );

    let input = b"01:03:27:29	94ae 94ae 9420 9420 94f2 94f2 c845 d92c 2054 c845 5245 ae80 942c 942c 8080 8080 942f 942f".as_slice();
    assert_eq!(
        caption(input),
        Some(SccLine::Caption(
            TimeCode {
                hours: 1,
                minutes: 3,
                seconds: 27,
                frames: 29,
                drop_frame: false
            },
            vec![
                0x94, 0xae, 0x94, 0xae, 0x94, 0x20, 0x94, 0x20, 0x94, 0xf2, 0x94, 0xf2, 0xc8,
                0x45, 0xd9, 0x2c, 0x20, 0x54, 0xc8, 0x45, 0x52, 0x45, 0xae, 0x80, 0x94, 0x2c,
                0x94, 0x2c, 0x80, 0x80, 0x80, 0x80, 0x94, 0x2f, 0x94, 0x2f,
            ]
        ))
    );

    let input = b"00:00:00;00\t942c 942c".as_slice();
    assert_eq!(
        caption(input),
        Some(SccLine::Caption(
            TimeCode {
                hours: 0,
                minutes: 0,
                seconds: 00,
                frames: 00,
                drop_frame: true,
            },
            vec![0x94, 0x2c, 0x94, 0x2c],
        ))
    );

    let input = b"00:00:00;00\t942c 942c\r\n".as_slice();
    assert_eq!(
        caption(input),
        Some(SccLine::Caption(
            TimeCode {
                hours: 0,
                minutes: 0,
                seconds: 00,
                frames: 00,
                drop_frame: true,
            },
            vec![0x94, 0x2c, 0x94, 0x2c],
        ))
    );
}


#[test]
fn scc_file_is_read_line_by_line() {
    let mut parser = SccParser::new();
    assert_eq!(parser.parse_line(b"Scenarist_SCC V1.0\r\n").ok(), Some(SccLine::Header));
    assert_eq!(parser.parse_line(b"\r\n").ok(), Some(SccLine::Empty));
    assert_eq!(
        parser.parse_line(b"00:00:00:01\t942c\r\n").ok(),
        Some(SccLine::Caption(
            TimeCode { hours: 0, minutes: 0, seconds: 0, frames: 1, drop_frame: false },
            vec![0x94, 0x2c],
        ))
    );
    assert!(parser.parse_line(b"Scenarist_SCC V1.0\r\n").is_err());
}
