use closedcaption::clock::{FlowError, Segment};
use closedcaption::jsontovtt::fku::{find_top, ForceKeyUnitRequest};
use closedcaption::jsontovtt::{clamp, FragmentEnd, JsonToVtt};
use closedcaption::cea608utils::TextStyle;
use closedcaption::ttutils::{Chunk, Line, Lines};

const SECOND: u64 = 1_000_000_000;

fn lines(text: &str) -> Lines {
    Lines {
        lines: vec![Line {
            column: None,
            row: None,
            chunks: vec![Chunk {
                style: TextStyle::White,
                underline: false,
                text: text.to_string(),
            }],
            carriage_return: None,
        }],
        mode: None,
        clear: None,
    }
}

#[test]
fn test_no_clamp() {
    let segment = Segment { start: Some(0), stop: None };
    assert_eq!(clamp(&segment, 0, Some(10)), Some((0, Some(10))));
}

#[test]
fn test_clamp_start() {
    let segment = Segment { start: Some(2), stop: None };
    assert_eq!(clamp(&segment, 0, Some(10)), Some((2, Some(8))));
}

#[test]
fn test_clamp_stop() {
    let segment = Segment { start: Some(0), stop: Some(7) };
    assert_eq!(clamp(&segment, 0, Some(10)), Some((0, Some(7))));
}

#[test]
fn test_clamp_start_stop() {
    let segment = Segment { start: Some(2), stop: Some(7) };
    assert_eq!(clamp(&segment, 0, Some(10)), Some((2, Some(5))));
}

#[test]
fn test_clamp_before() {
    let segment = Segment { start: Some(15), stop: None };
    assert_eq!(clamp(&segment, 0, Some(10)), None);
}

#[test]
fn test_clamp_after() {
    let segment = Segment { start: Some(0), stop: Some(10) };
    assert_eq!(clamp(&segment, 15, Some(10)), None);
}

#[test]
fn clamp_without_a_duration() {
    let segment = Segment { start: Some(2), stop: Some(7) };
    assert_eq!(clamp(&segment, 3, None), Some((3, None)));
    assert_eq!(clamp(&segment, 8, None), None);
}

#[test]
fn requests_need_a_running_time() {
    assert_eq!(ForceKeyUnitRequest::new_from_event(None, true, 1), None);
    assert_eq!(
        ForceKeyUnitRequest::new_from_event(Some(5), true, 1),
        Some(ForceKeyUnitRequest { running_time: 5, all_headers: true, count: 1 })
    );
}

#[test]
fn request_on_top_is_the_latest() {
    let at = |running_time: u64, all_headers: bool, count: u32| ForceKeyUnitRequest {
        running_time,
        all_headers,
        count,
    };
    let requests = vec![at(3, false, 0), at(9, false, 1), at(4, true, 2)];
    assert_eq!(find_top(&requests), 1);
}

#[test]
fn header_comes_first_and_once() {
    let mut vtt = JsonToVtt::new(None);
    let accepted = vtt.handle_buffer(Some(SECOND), Some(SECOND)).unwrap().unwrap();
    assert_eq!(accepted.pts, SECOND);
    assert_eq!(accepted.duration, Some(SECOND));
    let header = accepted.header.unwrap();
    assert!(header.is_header);
    assert!(header.data.starts_with("WEBVTT\n"));

    let accepted = vtt.handle_buffer(Some(2 * SECOND), Some(SECOND)).unwrap().unwrap();
    assert!(accepted.header.is_none());
}

#[test]
fn buffers_need_times() {
    let mut vtt = JsonToVtt::new(None);
    assert!(matches!(vtt.handle_buffer(None, Some(1)), Err(FlowError::Error)));
    assert!(matches!(vtt.handle_buffer(Some(1), None), Err(FlowError::Error)));
}

#[test]
fn cues_are_written_for_a_fragment() {
    let mut vtt = JsonToVtt::new(None);
    let accepted = vtt.handle_buffer(Some(SECOND), Some(3 * SECOND)).unwrap().unwrap();
    vtt.queue(lines("Hello"), accepted.pts, accepted.duration.unwrap(), Some(SECOND));
    vtt.finish(accepted.pts, accepted.duration);
    assert_eq!(vtt.pending_pts(), vec![SECOND]);

    vtt.handle_fku(ForceKeyUnitRequest::new_from_event(Some(2 * SECOND), true, 7).unwrap());
    let request = vtt.next_request(Some(4 * SECOND)).unwrap();
    assert_eq!(request.running_time, 2 * SECOND);
    let buffers = vtt
        .drain(
            FragmentEnd { running_time: Some(4 * SECOND), position: Some(2 * SECOND) },
            &vec![Some(SECOND)],
        )
        .unwrap();
    let all: String = buffers.iter().map(|b| b.data.as_str()).collect();
    assert!(all.contains("00:00:01.000 --> 00:00:02.000"));
    assert!(all.contains("Hello"));
    // the rest of the cue goes on
    assert_eq!(vtt.pending.len(), 1);
    assert_eq!(vtt.pending[0].pts, 2 * SECOND);
    assert_eq!(vtt.pending[0].duration, 3 * SECOND);
}
