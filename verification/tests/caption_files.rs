use closedcaption::caption_file::{
    check_seek, clip_bound, CapsKind, DurationScan, Event, Lines, PullState, Seek, SeekType,
};
use closedcaption::clock::{FlowError, Framerate, Segment};
use closedcaption::mcc_parse::{scan_timecodes, Format, MccParse, Step as MccStep};
use closedcaption::parser_utils::TimeCode;
use closedcaption::scc_parse::{
    correct_timecode, framerate_for, scan_captions, SccParse, Step as SccStep,
};

const FRAME: u64 = 33_333_333;

fn timecode(seconds: u32, frames: u32, drop_frame: bool) -> TimeCode {
    TimeCode { hours: 0, minutes: 0, seconds, frames, drop_frame }
}

fn mcc_file() -> Vec<u8> {
    b"File Format=MacCaption_MCC V1.0\r\n\
      \r\n\
      // a comment\r\n\
      \r\n\
      UUID=1234\r\n\
      Time Code Rate=30\r\n\
      \r\n\
      00:00:00:01\tT02010203\r\n\
      00:00:00:02\t6102030102030F\r\n\
      00:00:00:03\t61060101\r\n"
        .to_vec()
}

#[test]
fn lines_are_taken_over_bounds() {
    let mut lines = Lines::new();
    lines.push(b"on".to_vec());
    assert_eq!(lines.take(false), None);
    lines.push(b"e\ntwo".to_vec());
    assert_eq!(lines.take(false), Some(b"one\n".to_vec()));
    assert_eq!(lines.take(false), None);
    assert_eq!(lines.take(true), Some(b"two".to_vec()));
    assert_eq!(lines.take(true), None);
    lines.push(b"x".to_vec());
    lines.clear();
    assert_eq!(lines.take(true), None);
}

#[test]
fn no_bytes_change_nothing() {
    let mut lines = Lines::new();
    lines.push(Vec::new());
    assert_eq!(lines.take(true), None);
    lines.push(b"on".to_vec());
    lines.push(Vec::new());
    assert_eq!(lines.take(false), None);
    lines.push(b"e\n".to_vec());
    assert_eq!(lines.take(false), Some(b"one\n".to_vec()));
    lines.push(Vec::new());
    assert_eq!(lines.take(true), None);

    let mut mcc = MccParse::new(false);
    mcc.push(Vec::new());
    mcc.push(mcc_file());
    mcc.push(Vec::new());
    match mcc.handle_buffer(false, false) {
        MccStep::Caption { tc, .. } => assert_eq!(tc, timecode(0, 1, false)),
        other => panic!("{other:?}"),
    }

    let mut scc = SccParse::new();
    scc.push(Vec::new());
    scc.push(scc_file());
    scc.push(Vec::new());
    match scc.handle_buffer(false) {
        SccStep::Caption { tc, .. } => assert_eq!(tc, timecode(1, 0, false)),
        other => panic!("{other:?}"),
    }
}

#[test]
fn mcc_captions_come_out_with_their_times() {
    let mut mcc = MccParse::new(false);
    mcc.push(mcc_file());
    let (tc, data) = match mcc.handle_buffer(false, false) {
        MccStep::Caption { tc, data } => (tc, data),
        other => panic!("{other:?}"),
    };
    assert_eq!(tc, timecode(0, 1, false));
    assert_eq!(data, vec![0x61, 0x01, 0x02, 0x01, 0x02, 0x03]);
    assert_eq!(
        mcc.parse_timecode_rate(),
        Ok((Framerate { numer: 30, denom: 1 }, false))
    );
    let out = mcc.handle_line(tc, data, Some(FRAME)).unwrap();
    assert_eq!(
        out.events,
        vec![
            Event::Caps { kind: CapsKind::Cdp, framerate: Framerate { numer: 30, denom: 1 } },
            Event::Segment { seqnum: None },
        ]
    );
    assert_eq!(out.buffer.data, vec![1, 2]);
    assert_eq!(out.buffer.pts, FRAME);
    assert_eq!(out.buffer.duration, Some(FRAME + 1));
    assert!(!out.send_eos);
    assert_eq!(mcc.format, Some(Format::Cea708Cdp));

    // the format changes
    let (tc, data) = match mcc.handle_buffer(false, false) {
        MccStep::Caption { tc, data } => (tc, data),
        other => panic!("{other:?}"),
    };
    let out = mcc.handle_line(tc, data, Some(2 * FRAME)).unwrap();
    assert_eq!(
        out.events,
        vec![Event::Caps {
            kind: CapsKind::S334_1a,
            framerate: Framerate { numer: 30, denom: 1 }
        }]
    );
    assert_eq!(out.buffer.data, vec![1, 2, 3]);
    // other data is passed over
    assert!(matches!(mcc.handle_buffer(true, false), MccStep::Done));
}

#[test]
fn mcc_files_have_to_begin_with_their_header() {
    let mut mcc = MccParse::new(false);
    mcc.push(b"00:00:00:01\tT02010203\r\n".to_vec());
    assert!(matches!(mcc.handle_buffer(false, false), MccStep::Failed(FlowError::Error)));
}

#[test]
fn mcc_timecodes_fall_back() {
    let mut mcc = MccParse::new(false);
    mcc.push(mcc_file());
    let (tc, data) = match mcc.handle_buffer(false, false) {
        MccStep::Caption { tc, data } => (tc, data),
        other => panic!("{other:?}"),
    };
    // there is nothing to fall back to
    let mut other = MccParse::new(false);
    other.push(mcc_file());
    other.handle_buffer(false, false);
    assert!(matches!(
        other.handle_line(tc, vec![0x61, 0x01, 0x01, 0, 0], None),
        Err(FlowError::Error)
    ));
    mcc.handle_line(tc, data, Some(7)).unwrap();
    let (tc, data) = match mcc.handle_buffer(false, false) {
        MccStep::Caption { tc, data } => (tc, data),
        other => panic!("{other:?}"),
    };
    let out = mcc.handle_line(tc, data, None).unwrap();
    assert_eq!(out.buffer.timecode.timecode, timecode(0, 1, false));
    // times do not go back
    assert!(out.buffer.pts >= 7);
}

#[test]
fn mcc_seeks_skip_captions() {
    let mut mcc = MccParse::new(false);
    mcc.pull = Some(PullState { need_stream_start: true, offset: 0, duration: Some(10 * FRAME) });
    assert_eq!(mcc.next_block(), (0, false));
    assert_eq!(mcc.next_block(), (4096, false));
    let seek = Seek {
        flush: true,
        start_type: SeekType::Absolute,
        start: Some(2 * FRAME),
        stop_type: SeekType::Absolute,
        stop: Some(100 * FRAME),
        seqnum: 4,
    };
    assert_eq!(
        mcc.perform_seek(&seek),
        Some((Some(2 * FRAME), Some(10 * FRAME)))
    );
    assert_eq!(mcc.pull.unwrap().offset, 0);
    assert!(mcc.seeking);
    mcc.segment = Segment { start: Some(2 * FRAME), stop: Some(10 * FRAME) };
    mcc.push(mcc_file());
    let tc = match mcc.handle_buffer(false, false) {
        MccStep::Skipped { tc } => tc,
        other => panic!("{other:?}"),
    };
    assert_eq!(tc, timecode(0, 1, false));
    assert_eq!(mcc.handle_skipped_line(tc, Some(FRAME)), Ok(()));
    assert!(mcc.seeking);
    let tc = match mcc.handle_buffer(false, false) {
        MccStep::Skipped { tc } => tc,
        other => panic!("{other:?}"),
    };
    assert_eq!(mcc.handle_skipped_line(tc, Some(2 * FRAME)), Ok(()));
    assert!(!mcc.seeking);
    // that line is read again
    let (tc, data) = match mcc.handle_buffer(false, false) {
        MccStep::Caption { tc, data } => (tc, data),
        other => panic!("{other:?}"),
    };
    let out = mcc.handle_line(tc, data, Some(2 * FRAME)).unwrap();
    assert_eq!(out.events[0], Event::FlushStop { seqnum: Some(4) });
    assert_eq!(out.events[1], Event::StreamStart);
    assert!(out.buffer.discont);
    assert_eq!(out.buffer.data, vec![1, 2, 3]);
}

#[test]
fn mcc_rate_is_looked_for() {
    let mut mcc = MccParse::new(false);
    assert!(matches!(mcc.handle_buffer(true, true), MccStep::Failed(FlowError::Error)));
    assert_eq!(mcc.parse_timecode_rate(), Err(FlowError::Error));
    mcc.push(mcc_file());
    assert!(matches!(mcc.handle_buffer(true, true), MccStep::Done));
    assert_eq!(mcc.timecode_rate, Some((30, false)));
    // captions come next
    assert!(matches!(mcc.handle_buffer(true, true), MccStep::Failed(FlowError::Error)));
}

#[test]
fn files_end() {
    let mut mcc = MccParse::new(true);
    mcc.pull = Some(PullState { need_stream_start: false, offset: 0, duration: None });
    mcc.push(mcc_file());
    mcc.pending_events.push(17);
    while let MccStep::Caption { tc, data } = mcc.handle_buffer(false, false) {
        mcc.handle_line(tc, data, Some(FRAME)).unwrap();
    }
    assert!(matches!(mcc.handle_buffer(true, false), MccStep::Failed(FlowError::Eos)));
    assert_eq!(mcc.push_eos().unwrap(), vec![Event::Eos { seqnum: None }]);

    let mut scc = SccParse::new();
    scc.seeking = true;
    scc.pending_events.push(17);
    assert_eq!(
        scc.push_eos(),
        vec![
            Event::FlushStop { seqnum: None },
            Event::Segment { seqnum: None },
            Event::Deferred(17),
            Event::Eos { seqnum: None },
        ]
    );
}

#[test]
fn timecodes_are_found_at_the_end() {
    let file = mcc_file();
    let at = file.len() - 40;
    // blocks come in from the end on
    let blocks = vec![file[at..].to_vec(), file[..at].to_vec()];
    let found = scan_timecodes(&blocks);
    assert_eq!(found.last(), Some(&timecode(0, 3, false)));
    let mut scan = DurationScan { offset: 5000 };
    assert_eq!(scan.next_block(), (904, 4096));
    assert!(!scan.is_done(false));
    assert!(scan.is_done(true));
    assert_eq!(scan.next_block(), (0, 904));
    assert!(scan.is_done(false));
}

fn scc_file() -> Vec<u8> {
    b"Scenarist_SCC V1.0\r\n\r\n00:00:01:00\t9420 9420 94ad\r\n\r\n00:00:02:00\t942c\r\n".to_vec()
}

fn times(first: u64, n: u64) -> Vec<u64> {
    (0..n).map(|i| first + i * FRAME).collect()
}

#[test]
fn scc_pairs_come_one_by_one() {
    let mut scc = SccParse::new();
    scc.push(scc_file());
    let (tc, data) = match scc.handle_buffer(false) {
        SccStep::Caption { tc, data } => (tc, data),
        other => panic!("{other:?}"),
    };
    assert_eq!(tc, timecode(1, 0, false));
    assert_eq!(data.len(), 6);
    let counted = scc.handle_timecode(tc, Some(30 * FRAME)).unwrap();
    assert_eq!(counted.nsecs, 30 * FRAME);
    let out = scc.handle_line(tc, counted, data, &times(30 * FRAME, 5)).unwrap();
    assert_eq!(
        out.events,
        vec![
            Event::Caps { kind: CapsKind::Raw, framerate: Framerate { numer: 30, denom: 1 } },
            Event::Segment { seqnum: None },
        ]
    );
    assert_eq!(out.buffers.len(), 3);
    for (i, buffer) in out.buffers.iter().enumerate() {
        assert_eq!(buffer.pts, (30 + i as u64) * FRAME);
        assert_eq!(buffer.duration, Some(FRAME + 1));
        assert_eq!(buffer.timecode.frames, i as u64);
    }
    assert_eq!((out.buffers[2].byte0, out.buffers[2].byte1), (0x94, 0xad));
    assert!(!out.send_eos);
    assert_eq!(scc.last_timecode.unwrap().frames, 3);
    // a timecode that cannot be used is replaced by the last one
    let fallen = scc.handle_timecode(timecode(99, 0, false), None).unwrap();
    assert_eq!(fallen.nsecs, 33 * FRAME);
    assert!(matches!(
        SccParse::new().handle_timecode(timecode(99, 0, false), None),
        Err(FlowError::Error)
    ));
}

#[test]
fn scc_segments_are_kept_to() {
    let mut scc = SccParse::new();
    scc.pull = Some(PullState { need_stream_start: false, offset: 0, duration: None });
    let seek = Seek {
        flush: true,
        start_type: SeekType::Absolute,
        start: Some(32 * FRAME),
        stop_type: SeekType::Keep,
        stop: None,
        seqnum: 9,
    };
    assert!(scc.perform_seek(&seek).is_some());
    scc.segment = Segment { start: Some(32 * FRAME), stop: Some(33 * FRAME) };
    // a line that ends before the position
    let early = scc.handle_timecode(timecode(0, 0, false), Some(0)).unwrap();
    assert!(scc.handle_line(timecode(0, 0, false), early, vec![1, 2], &times(0, 3)).is_none());
    assert!(scc.seeking);
    let tc = timecode(1, 0, false);
    let counted = scc.handle_timecode(tc, Some(30 * FRAME)).unwrap();
    let out = scc
        .handle_line(tc, counted, vec![1, 2, 3, 4, 5, 6, 7, 8], &times(30 * FRAME, 6))
        .unwrap();
    assert_eq!(out.events[0], Event::FlushStop { seqnum: Some(9) });
    // the first pair ends before the segment, and the last one lies behind it
    let pairs: Vec<u8> = out.buffers.iter().map(|b| b.byte0).collect();
    assert_eq!(pairs, vec![3, 5]);
    assert!(out.send_eos);
}

#[test]
fn scc_timecodes_are_corrected() {
    let dropped = TimeCode { hours: 0, minutes: 1, seconds: 0, frames: 0, drop_frame: true };
    assert_eq!(correct_timecode(dropped).frames, 2);
    assert_eq!(correct_timecode(TimeCode { minutes: 10, ..dropped }).frames, 0);
    assert_eq!(correct_timecode(TimeCode { frames: 3, ..dropped }).frames, 3);
    assert_eq!(correct_timecode(TimeCode { drop_frame: false, ..dropped }).frames, 0);
    assert_eq!(framerate_for(&dropped), Framerate { numer: 30000, denom: 1001 });
}

#[test]
fn scc_lines_have_to_be_readable() {
    let mut scc = SccParse::new();
    scc.push(b"no header\r\n".to_vec());
    assert!(matches!(scc.handle_buffer(false), SccStep::Failed(FlowError::Error)));
    scc.flush();
    scc.push(scc_file());
    assert!(matches!(scc.handle_buffer(false), SccStep::Caption { .. }));
    assert!(matches!(scc.handle_buffer(false), SccStep::Caption { .. }));
    assert!(matches!(scc.handle_buffer(true), SccStep::Done));
}

#[test]
fn scc_captions_are_found_at_the_end() {
    let file = scc_file();
    let blocks = vec![file[50..].to_vec(), file[..50].to_vec()];
    let found = scan_captions(&blocks);
    assert_eq!(found.len(), 2);
    assert_eq!(found[1].tc, timecode(2, 0, false));
    assert_eq!(found[1].frames, 2);
    assert_eq!(found[0].frames, 4);
}

#[test]
fn seeks_are_checked() {
    let seek = Seek {
        flush: true,
        start_type: SeekType::Absolute,
        start: Some(1),
        stop_type: SeekType::Keep,
        stop: None,
        seqnum: 0,
    };
    assert!(check_seek(&seek));
    assert!(!check_seek(&Seek { flush: false, ..seek }));
    assert!(!check_seek(&Seek { start_type: SeekType::End, ..seek }));
    assert_eq!(clip_bound(SeekType::Absolute, Some(9), Some(5)), Some(5));
    assert_eq!(clip_bound(SeekType::Absolute, Some(9), None), Some(9));
}
