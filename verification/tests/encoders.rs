use closedcaption::clock::FlowError;
use closedcaption::mcc_enc::{
    encode_payload, format_version, generate_headers, is_st2038, CreationDate, Format, MccEnc,
    Settings,
};
use closedcaption::mcc_parse::parser::{MccLine, MccParser};
use closedcaption::scc_enc::{SccEnc, Timecode};
use closedcaption::scc_parse::parser::{SccLine, SccParser};
use closedcaption::st2038anc_utils::convert_to_st2038_buffer;

fn settings() -> Settings {
    Settings {
        uuid: Some("CA8BC94D-9931-4EEE-812F-2D68FA74F287".to_string()),
        creation_date: Some(CreationDate {
            year: 2015,
            month: 6,
            day: 4,
            hour: 13,
            minute: 48,
            second: 25,
            utc_offset: 3600,
        }),
    }
}

fn text(bytes: &[u8]) -> String {
    String::from_utf8(bytes.to_vec()).unwrap()
}

#[test]
fn headers_are_written() {
    let all = text(&generate_headers(&settings(), Some((30000, 1001))).unwrap());
    assert!(all.starts_with("File Format=MacCaption_MCC V1.0\r\n\r\n////"));
    assert!(all.ends_with(
        "UUID=CA8BC94D-9931-4EEE-812F-2D68FA74F287\r\n\
         Creation Program=GStreamer MCC Encoder 0.1.0\r\n\
         Creation Date=Thursday, June 04, 2015\r\n\
         Creation Time=13:48:25\r\n\
         Time Code Rate=30DF\r\n\r\n"
    ));
    let all = text(&generate_headers(&settings(), Some((60000, 1001))).unwrap());
    assert!(all.starts_with("File Format=MacCaption_MCC V2.0\r\n"));
    let all = text(&generate_headers(&settings(), Some((25, 1))).unwrap());
    assert!(all.ends_with("Time Code Rate=25\r\n\r\n"));
    assert_eq!(format_version(60000, 1001), 2);
    assert_eq!(format_version(30000, 1001), 1);
}

#[test]
fn headers_need_a_framerate_and_a_date() {
    assert!(matches!(generate_headers(&settings(), None), Err(FlowError::NotNegotiated)));
    let mut bad = settings();
    bad.creation_date = Some(CreationDate { month: 13, ..bad.creation_date.unwrap() });
    assert!(matches!(generate_headers(&bad, Some((25, 1))), Err(FlowError::Error)));
}

#[test]
fn missing_settings_are_made_up() {
    let none = Settings { uuid: None, creation_date: None };
    let first = text(&generate_headers(&none, Some((25, 1))).unwrap());
    let second = text(&generate_headers(&none, Some((25, 1))).unwrap());
    let uuid = |all: &str| {
        let at = all.find("UUID=").unwrap() + 5;
        all[at..at + 36].to_string()
    };
    for (i, c) in uuid(&first).chars().enumerate() {
        if [8, 13, 18, 23].contains(&i) {
            assert_eq!(c, '-');
        } else {
            assert!(c.is_ascii_digit() || ('A'..='F').contains(&c));
        }
        assert!(i != 14 || c == '4');
        assert!(i != 19 || "89AB".contains(c));
    }
    let value = |name: &str| first.lines().find_map(|l| l.strip_prefix(name)).unwrap();
    for stamp in [value("Creation Date="), value("Creation Time=")] {
        assert!(!stamp.is_empty() && stamp.chars().all(|c| (' '..='~').contains(&c)));
    }
    assert_ne!(uuid(&first), uuid(&second));
    assert!(first.contains("\r\nCreation Date="));
}

#[test]
fn current_moment_is_written_as_a_set_one() {
    let none = Settings { uuid: settings().uuid, creation_date: None };
    let all = text(&generate_headers(&none, Some((25, 1))).unwrap());
    let value = |name: &str| all.lines().find_map(|l| l.strip_prefix(name)).unwrap();
    let months = [
        "January",
        "February",
        "March",
        "April",
        "May",
        "June",
        "July",
        "August",
        "September",
        "October",
        "November",
        "December",
    ];
    let date: Vec<&str> = value("Creation Date=").split(", ").collect();
    let (month, day) = date[1].split_once(' ').unwrap();
    let time: Vec<u32> = value("Creation Time=").split(':').map(|n| n.parse().unwrap()).collect();
    let moment = CreationDate {
        year: date[2].parse().unwrap(),
        month: months.iter().position(|m| *m == month).unwrap() as u32 + 1,
        day: day.parse().unwrap(),
        hour: time[0],
        minute: time[1],
        second: time[2],
        utc_offset: 0,
    };
    let set = Settings { uuid: settings().uuid, creation_date: Some(moment) };
    assert_eq!(text(&generate_headers(&set, Some((25, 1))).unwrap()), all);
}

#[test]
fn payload_is_shortened_and_read_back() {
    let mut payload = vec![0x61, 0x01, 0x96, 0x69, 0x00, 0xe1, 0, 0, 0, 0xfb, 0x80, 0x80];
    payload.extend([0xfc, 0x80, 0x80, 0xfd, 0x80, 0x80, 0xab]);
    for _ in 0..11 {
        payload.extend([0xfa, 0, 0]);
    }
    let mut out = Vec::new();
    encode_payload(&mut out, &payload);
    assert_eq!(text(&out), "TSZUPQRABOH");

    let mut line = b"00:00:01:02\t".to_vec();
    line.extend(&out);
    line.extend(b"\r\n");
    let mut parser = MccParser::new_scan_captions();
    match parser.parse_line(&line, true) {
        Ok(MccLine::Caption(_, Some(data))) => assert_eq!(data, payload),
        other => panic!("{other:?}"),
    }
}

#[test]
fn captions_are_written_with_a_checksum() {
    let mut enc = MccEnc::new(false);
    let mut out = Vec::new();
    assert!(matches!(
        enc.generate_caption(Some(b"00:00:00:00"), &[1], &mut out),
        Err(FlowError::NotNegotiated)
    ));
    enc.set_format(Format::Cea608);
    let mut out = Vec::new();
    assert!(enc.generate_caption(Some(b"00:00:00:01"), &[0x80, 0x94, 0x2c], &mut out).is_ok());
    assert_eq!(text(&out), "00:00:00:01\t61020380942C40\r\n");
    enc.set_format(Format::Cea708Cdp);
    let mut out = Vec::new();
    assert!(enc.generate_caption(Some(b"00:00:00:01"), &[0x80, 0x80], &mut out).is_ok());
    assert_eq!(text(&out), "00:00:00:01\tT028080Z\r\n");
    let mut out = Vec::new();
    assert!(matches!(enc.generate_caption(None, &[0x80], &mut out), Err(FlowError::Error)));
    assert!(matches!(
        enc.generate_caption(Some(b"00:00:00:01"), &[0; 256], &mut out),
        Err(FlowError::Error)
    ));
}

#[test]
fn headers_come_once() {
    let mut enc = MccEnc::new(false);
    enc.set_format(Format::Cea608);
    let first = enc.encode(&settings(), Some((25, 1)), Some(b"00:00:00:00"), &[1, 2, 3]).unwrap();
    assert!(text(&first).starts_with("File Format"));
    assert!(text(&first).ends_with("\r\n00:00:00:00\t61020301020306\r\n"));
    let next = enc.encode(&settings(), Some((25, 1)), Some(b"00:00:00:01"), &[1, 2, 3]).unwrap();
    assert_eq!(text(&next), "00:00:00:01\t61020301020306\r\n");
}

#[test]
fn ancillary_packets_are_written_one_by_one() {
    let enc = MccEnc::new(true);
    let mut data = convert_to_st2038_buffer(false, 9, 0, 0x61, 0x02, &[1, 2]).unwrap();
    data.extend([0xff, 0xff]);
    let mut out = Vec::new();
    assert!(enc.generate_caption(Some(b"00:00:00:00"), &data, &mut out).is_ok());
    let line = text(&out);
    assert!(line.starts_with("00:00:00:00\t6102020102"));
    assert!(line.ends_with("\r\n"));
    assert!(matches!(
        enc.generate_caption(Some(b"00:00:00:00"), &[0, 1], &mut out),
        Err(FlowError::Error)
    ));
    assert!(!is_st2038(Some(b"1")));
    assert!(is_st2038(None));
}

#[test]
fn every_packet_gets_a_line_with_the_timecode() {
    let enc = MccEnc::new(true);
    let first = convert_to_st2038_buffer(false, 9, 0, 0x61, 0x02, &[1, 2]).unwrap();
    let second = convert_to_st2038_buffer(false, 9, 0, 0x61, 0x01, &[0xfa, 0, 0, 7]).unwrap();
    let mut apart = Vec::new();
    assert!(enc.generate_caption(Some(b"10:00:00;02"), &first, &mut apart).is_ok());
    assert!(enc.generate_caption(Some(b"10:00:00;02"), &second, &mut apart).is_ok());
    let mut both = first.clone();
    both.extend(&second);
    both.extend([0xff, 0xff, 0xff]);
    let mut out = Vec::new();
    assert!(enc.generate_caption(Some(b"10:00:00;02"), &both, &mut out).is_ok());
    assert_eq!(out, apart);
    let all = text(&out);
    let lines: Vec<&str> = all.split_inclusive('\n').collect();
    assert_eq!(lines.len(), 2);
    assert!(lines[0].starts_with("10:00:00;02\t6102020102"));
    assert!(lines[1].starts_with("10:00:00;02\tT04G07"));
    let mut parser = MccParser::new_scan_captions();
    for (line, data) in lines.iter().zip([&[1u8, 2][..], &[0xfa, 0, 0, 7]]) {
        match parser.parse_line(line.as_bytes(), true) {
            Ok(MccLine::Caption(tc, Some(payload))) => {
                assert!(tc.hours == 10 && tc.frames == 2 && tc.drop_frame);
                assert_eq!(&payload[3..payload.len() - 1], data);
            }
            other => panic!("{other:?}"),
        }
    }
}

#[test]
fn stuffing_alone_gives_no_line() {
    let enc = MccEnc::new(true);
    let mut out = Vec::new();
    assert!(enc.generate_caption(Some(b"00:00:00:00"), &[0xff; 8], &mut out).is_ok());
    assert!(enc.generate_caption(Some(b"00:00:00:00"), &[], &mut out).is_ok());
    assert!(out.is_empty());
    assert!(matches!(
        enc.generate_caption(None, &[0xff], &mut out),
        Err(FlowError::Error)
    ));
}

#[test]
fn headers_are_read_back() {
    let rates = [((30000, 1001), 30, true), ((60000, 1001), 60, true), ((25, 1), 25, false)];
    for (framerate, rate, drop_frame) in rates {
        let all = generate_headers(&settings(), Some(framerate)).unwrap();
        let mut parser = MccParser::new();
        let mut said = Vec::new();
        let lines: Vec<&[u8]> = all.split_inclusive(|b| *b == b'\n').collect();
        for line in &lines {
            said.push(parser.parse_line(line, true).unwrap());
        }
        let n = said.len();
        assert_eq!(said[0], MccLine::Header);
        assert_eq!(said[1], MccLine::Empty);
        assert!(said[2..n - 7].iter().all(|line| *line == MccLine::Comment));
        assert_eq!(said[n - 7], MccLine::Empty);
        assert_eq!(said[n - 6], MccLine::Uuid(b"CA8BC94D-9931-4EEE-812F-2D68FA74F287"));
        assert_eq!(
            said[n - 5],
            MccLine::Metadata(b"Creation Program", b"GStreamer MCC Encoder 0.1.0")
        );
        assert_eq!(
            said[n - 4],
            MccLine::Metadata(b"Creation Date", b"Thursday, June 04, 2015")
        );
        assert_eq!(said[n - 3], MccLine::Metadata(b"Creation Time", b"13:48:25"));
        assert_eq!(said[n - 2], MccLine::TimeCodeRate(rate, drop_frame));
        assert_eq!(said[n - 1], MccLine::Empty);
        assert!(matches!(
            parser.parse_line(b"00:00:00:00\tZ\r\n", true),
            Ok(MccLine::Caption(_, Some(_)))
        ));
    }
}

#[test]
fn captions_are_read_back() {
    let mut enc = MccEnc::new(false);
    for (format, id) in [(Format::Cea608, 0x02), (Format::Cea708Cdp, 0x01)] {
        enc.set_format(format);
        for data in [&[0x80u8, 0x94, 0x2c][..], &[0x96, 0x69, 0x01], &[]] {
            let mut out = Vec::new();
            assert!(enc.generate_caption(Some(b"01:02:03:04"), data, &mut out).is_ok());
            let mut expected = vec![0x61, id, data.len() as u8];
            expected.extend(data);
            expected.push(data.iter().fold(0u8, |sum, b| sum.wrapping_add(*b)));
            let mut parser = MccParser::new_scan_captions();
            match parser.parse_line(&out, true) {
                Ok(MccLine::Caption(tc, Some(payload))) => {
                    assert_eq!((tc.hours, tc.minutes, tc.seconds, tc.frames), (1, 2, 3, 4));
                    assert_eq!(payload, expected);
                }
                other => panic!("{other:?}"),
            }
        }
    }
}

#[test]
fn payloads_are_as_short_as_can_be() {
    for run in 1..30usize {
        let payload: Vec<u8> = [0xfa, 0, 0].repeat(run);
        let mut out = Vec::new();
        encode_payload(&mut out, &payload);
        assert_eq!(out.len(), run.div_ceil(9));
    }
    let mut out = Vec::new();
    encode_payload(&mut out, &[0xfa, 0x00, 0xfa, 0x00, 0x00, 0x61]);
    assert_eq!(text(&out), "FAZG61");
    for b in 0..=255u8 {
        let mut out = Vec::new();
        encode_payload(&mut out, &[b]);
        assert_eq!(out.len(), if b == 0 { 1 } else { 2 });
        assert!(out.iter().all(|c| matches!(c, b'0'..=b'9' | b'A'..=b'U' | b'Z')));
    }
    let mut out = Vec::new();
    encode_payload(&mut out, &[]);
    assert!(out.is_empty());
}

fn timecode(frame: u64) -> Option<Timecode> {
    Some(Timecode { text: format!("00:00:00:{frame:02}").into_bytes(), frame })
}

fn scc(output_padding: bool) -> SccEnc {
    let mut enc = SccEnc::new(output_padding);
    enc.framerate = Some((30, 1));
    enc.frames_per_day = 30 * 86400;
    enc
}

#[test]
fn lines_end_where_timecodes_jump() {
    let mut enc = scc(false);
    assert!(enc.generate_caption(&[0x94, 0x20], timecode(1), Some(5)).unwrap().is_none());
    assert!(enc.generate_caption(&[0x94, 0xae], timecode(2), Some(6)).unwrap().is_none());
    let line = enc.generate_caption(&[0x94, 0x2c], timecode(9), Some(7)).unwrap().unwrap();
    assert_eq!(
        text(&line.bytes),
        "Scenarist_SCC V1.0\r\n\r\n00:00:00:01\t9420 94ae\r\n\r\n"
    );
    assert_eq!(line.pts, Some(5));
    let last = enc.write_line().unwrap();
    assert_eq!(text(&last.bytes), "00:00:00:09\t942c\r\n\r\n");
    assert_eq!(last.pts, Some(7));
    assert!(enc.write_line().is_none());
}

#[test]
fn scc_files_are_read_back() {
    let mut enc = scc(false);
    assert!(enc.generate_caption(&[0x94, 0x20], timecode(1), Some(5)).unwrap().is_none());
    assert!(enc.generate_caption(&[0x94, 0xae], timecode(2), Some(6)).unwrap().is_none());
    let mut bytes = enc.write_line().unwrap().bytes;
    assert!(enc.generate_caption(&[0x94, 0x2c], timecode(9), Some(7)).unwrap().is_none());
    bytes.extend(enc.write_line().unwrap().bytes);
    let mut parser = SccParser::new();
    let mut said = Vec::new();
    for line in bytes.split_inclusive(|b| *b == b'\n') {
        said.push(parser.parse_line(line).unwrap());
    }
    assert_eq!(said.len(), 6);
    assert_eq!(said[0], SccLine::Header);
    assert!([1, 3, 5].iter().all(|i| said[*i] == SccLine::Empty));
    match (&said[2], &said[4]) {
        (SccLine::Caption(a, first), SccLine::Caption(b, second)) => {
            assert_eq!((a.frames, b.frames), (1, 9));
            assert_eq!(first, &vec![0x94, 0x20, 0x94, 0xae]);
            assert_eq!(second, &vec![0x94, 0x2c]);
        }
        other => panic!("{other:?}"),
    }
}

#[test]
fn lines_hold_sixteen_packets() {
    let mut enc = scc(false);
    for frame in 0..15 {
        let done = enc.generate_caption(&[0xc1, 0xc2], timecode(frame), Some(0)).unwrap();
        assert!(done.is_none());
    }
    let line = enc.generate_caption(&[0xc1, 0xc2], timecode(15), Some(0)).unwrap().unwrap();
    assert_eq!(text(&line.bytes).matches("c1c2").count(), 16);
    assert_eq!(line.duration, Some(533_333_333));
}

#[test]
fn padding_is_left_out_unless_wanted() {
    let mut enc = scc(false);
    assert!(enc.generate_caption(&[0x80, 0x80], timecode(0), None).unwrap().is_none());
    assert!(enc.write_line().is_none());
    let mut enc = scc(true);
    assert!(enc.generate_caption(&[0x80, 0x80], timecode(0), None).unwrap().is_none());
    let line = enc.write_line().unwrap();
    assert!(text(&line.bytes).ends_with("00:00:00:00\t8080\r\n\r\n"));
}

#[test]
fn packets_need_two_bytes_and_a_timecode() {
    let mut enc = scc(false);
    assert!(matches!(
        enc.generate_caption(&[0x94], timecode(0), None),
        Err(FlowError::Error)
    ));
    assert!(matches!(
        enc.generate_caption(&[0x94, 0x20], None, None),
        Err(FlowError::Error)
    ));
}
