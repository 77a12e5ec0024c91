use closedcaption::cea608::Cea608Mode;
use closedcaption::cea608tojson::{Action, Cea608ToJson};
use closedcaption::cea608tott::{Action as TtAction, Cea608ToTt, Format};
use closedcaption::cea608utils::TextStyle;
use closedcaption::clock::{push_time, split_time, FlowError};

const MS: u64 = 1_000_000;

fn odd(b: u8) -> u8 {
    if b.count_ones() % 2 == 0 {
        b | 0x80
    } else {
        b
    }
}

fn pairs(text: &str) -> Vec<[u8; 2]> {
    text.as_bytes().chunks(2).map(|p| [p[0], if p.len() > 1 { p[1] } else { 0 }]).collect()
}

fn feed(json: &mut Cea608ToJson, at: u64, pair: [u8; 2]) -> Action {
    json.sink_chain(Some(at), Some(MS), &[odd(pair[0]), odd(pair[1])]).unwrap()
}

#[test]
fn pop_on_lines_are_told_when_they_end() {
    let mut json = Cea608ToJson::new(false);
    assert!(matches!(feed(&mut json, 0, [0x14, 0x20]), Action::Pass));
    // the last row, an indent of four, then two more columns
    feed(&mut json, MS, [0x14, 0x72]);
    feed(&mut json, 2 * MS, [0x17, 0x22]);
    for pair in pairs("Hello!") {
        assert!(matches!(feed(&mut json, 3 * MS, pair), Action::Pass));
    }
    assert!(matches!(feed(&mut json, 10 * MS, [0x14, 0x2f]), Action::Pass));
    match feed(&mut json, 30 * MS, [0x14, 0x2c]) {
        Action::Output(out) => {
            assert_eq!(out.pts, Some(10 * MS));
            assert_eq!(out.duration, Some(21 * MS));
            assert_eq!(out.lines.mode, Some(Cea608Mode::PopOn));
            assert_eq!(out.lines.lines.len(), 1);
            let line = &out.lines.lines[0];
            assert_eq!(line.row, Some(14));
            assert_eq!(line.column, Some(6));
            assert_eq!(line.carriage_return, None);
            assert_eq!(line.chunks.len(), 1);
            assert_eq!(line.chunks[0].text, "Hello!");
            assert_eq!(line.chunks[0].style, TextStyle::White);
        }
        other => panic!("{other:?}"),
    }
}

#[test]
fn rolled_up_lines_are_told_one_by_one() {
    let mut json = Cea608ToJson::new(false);
    feed(&mut json, 0, [0x14, 0x25]);
    for pair in pairs("one!") {
        feed(&mut json, 5 * MS, pair);
    }
    match feed(&mut json, 9 * MS, [0x14, 0x2d]) {
        Action::Output(out) => {
            assert_eq!(out.pts, Some(5 * MS));
            assert_eq!(out.duration, Some(5 * MS));
            assert_eq!(out.lines.mode, Some(Cea608Mode::RollUp2));
            assert_eq!(out.lines.lines[0].chunks[0].text, "one!");
        }
        other => panic!("{other:?}"),
    }
    // the row is gone until a preamble or another mode comes
    let (first, second) = json.eos();
    assert!(first.is_none());
    assert!(second.is_none());
}

#[test]
fn unbuffered_text_goes_out_at_once() {
    let mut json = Cea608ToJson::new(true);
    match feed(&mut json, 7 * MS, [0x14, 0x25]) {
        Action::Gap { pts, duration } => assert_eq!((pts, duration), (7 * MS, MS)),
        other => panic!("{other:?}"),
    }
    match feed(&mut json, 8 * MS, [b'a', b'b']) {
        Action::Output(out) => {
            assert_eq!(out.pts, Some(8 * MS));
            assert_eq!(out.duration, Some(MS));
            assert_eq!(out.lines.lines[0].chunks[0].text, "ab");
        }
        other => panic!("{other:?}"),
    }
}

#[test]
fn styles_split_lines_into_chunks() {
    let mut json = Cea608ToJson::new(false);
    feed(&mut json, 0, [0x14, 0x29]);
    feed(&mut json, 0, [0x14, 0x70]);
    feed(&mut json, 0, [b'a', b'b']);
    // green from here on
    feed(&mut json, 0, [0x11, 0x22]);
    feed(&mut json, 0, [b'c', b'd']);
    let (pending, drained) = json.eos();
    assert!(pending.is_none());
    let lines = drained.unwrap().lines;
    let chunks = &lines.lines[0].chunks;
    assert_eq!(chunks.len(), 2);
    assert_eq!(chunks[0].style, TextStyle::White);
    assert_eq!(chunks[1].style, TextStyle::Green);
    let text: String = chunks.iter().map(|c| c.text.as_str()).collect();
    assert_eq!(text, "ab cd");
}

#[test]
fn json_needs_times() {
    let mut json = Cea608ToJson::new(false);
    assert!(matches!(json.sink_chain(None, Some(1), &[0x80, 0x80]), Err(FlowError::Error)));
    assert!(matches!(json.sink_chain(Some(1), None, &[0x80, 0x80]), Err(FlowError::Error)));
    assert!(matches!(json.sink_chain(Some(1), Some(1), &[0x80]), Ok(Action::Pass)));
}

#[test]
fn flush_forgets_text() {
    let mut json = Cea608ToJson::new(false);
    feed(&mut json, 0, [0x14, 0x29]);
    feed(&mut json, 0, [0x14, 0x70]);
    feed(&mut json, 0, [b'a', b'b']);
    json.flush();
    assert!(json.eos().1.is_none());
    assert_eq!(json.mode, None);
}

fn feed_tt(tt: &mut Cea608ToTt, at: u64, pair: [u8; 2]) -> TtAction {
    tt.sink_chain(Some(at), &[odd(pair[0]), odd(pair[1])]).unwrap()
}

#[test]
fn cues_are_written_when_they_end() {
    let mut tt = Cea608ToTt::new();
    assert!(tt.negotiate(b"application/x-subtitle-vtt"));
    assert_eq!(tt.format, Some(Format::Vtt));
    feed_tt(&mut tt, 0, [0x14, 0x20]);
    feed_tt(&mut tt, 0, [0x14, 0x70]);
    feed_tt(&mut tt, 0, [b'H', b'i']);
    assert!(matches!(feed_tt(&mut tt, 1_500 * MS, [0x14, 0x2f]), TtAction::Pass));
    match feed_tt(&mut tt, 3_725_042 * MS, [0x14, 0x2c]) {
        TtAction::Output(out) => {
            assert_eq!(out.header.unwrap().data, "WEBVTT\r\n\r\n");
            assert_eq!(out.buffer.pts, 1_500 * MS);
            assert_eq!(out.buffer.duration, Some(3_723_542 * MS));
            assert_eq!(
                out.buffer.data,
                "00:00:01.500 --> 01:02:05.042\r\nHi\r\n\r\n"
            );
        }
        other => panic!("{other:?}"),
    }
    assert_eq!(tt.index, 2);
    assert!(tt.eos().is_none());
}

#[test]
fn cues_are_numbered() {
    let mut tt = Cea608ToTt::new();
    assert!(tt.negotiate(b"application/x-subtitle"));
    feed_tt(&mut tt, 0, [0x14, 0x29]);
    feed_tt(&mut tt, 0, [0x14, 0x70]);
    feed_tt(&mut tt, 1000 * MS, [b'a', b'b']);
    match feed_tt(&mut tt, 2000 * MS, [b'c', b'd']) {
        TtAction::Output(out) => {
            assert!(out.header.is_none());
            assert_eq!(
                out.buffer.data,
                "1\r\n00:00:01,000 --> 00:00:02,000\r\nab\r\n\r\n"
            );
        }
        other => panic!("{other:?}"),
    }
    let last = tt.eos().unwrap();
    assert!(last.buffer.data.starts_with("2\r\n00:00:02,000 --> "));
    assert!(last.buffer.data.contains("abcd"));
}

#[test]
fn raw_text_has_no_frame() {
    let mut tt = Cea608ToTt::new();
    assert_eq!(Format::from_caps(b"text/x-raw"), Some(Format::Raw));
    assert_eq!(Format::from_caps(b"text/html"), None);
    assert!(tt.negotiate(b"text/x-raw"));
    feed_tt(&mut tt, 0, [0x14, 0x29]);
    feed_tt(&mut tt, 0, [0x14, 0x70]);
    feed_tt(&mut tt, 1000 * MS, [b'a', b'b']);
    match feed_tt(&mut tt, 2000 * MS, [0x14, 0x2c]) {
        TtAction::Output(out) => assert_eq!(out.buffer.data, "ab"),
        other => panic!("{other:?}"),
    }
}

#[test]
fn text_needs_a_format_and_times() {
    let mut tt = Cea608ToTt::new();
    assert!(matches!(
        tt.sink_chain(Some(0), &[0x80, 0x80]),
        Err(FlowError::NotNegotiated)
    ));
    tt.negotiate(b"text/x-raw");
    assert!(matches!(tt.sink_chain(None, &[0x80, 0x80]), Err(FlowError::Error)));
    assert!(matches!(tt.sink_chain(Some(0), &[0x80]), Ok(TtAction::Pass)));
}

#[test]
fn flush_forgets_cues() {
    let mut tt = Cea608ToTt::new();
    tt.negotiate(b"text/x-raw");
    feed_tt(&mut tt, 0, [0x14, 0x29]);
    feed_tt(&mut tt, 0, [0x14, 0x70]);
    feed_tt(&mut tt, 1000 * MS, [b'a', b'b']);
    tt.flush_stop();
    assert!(tt.eos().is_none());
}

#[test]
fn times_are_split() {
    assert_eq!(split_time(3_725_042 * MS + 999_999), (1, 2, 5, 42));
    let mut text = String::new();
    push_time(&mut text, 360_000_000 * MS, '.');
    assert_eq!(text, "100:00:00.000");
}
