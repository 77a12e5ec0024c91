use closedcaption::parser_utils::{digits, digits_range, end_of_line, timecode, TimeCode};

#[test]
fn parser_utils_test_timecode() {
    let input = b"11:12:13;14".as_slice();
    assert_eq!(
        timecode(input, 0),
        Some((
            TimeCode { hours: 11, minutes: 12, seconds: 13, frames: 14, drop_frame: true },
            input.len()
        ))
    );

    let input = b"11:12:13:14".as_slice();
    assert_eq!(
        timecode(input, 0),
        Some((
            TimeCode { hours: 11, minutes: 12, seconds: 13, frames: 14, drop_frame: false },
            input.len()
        ))
    );

    let input = b"11:12:13:14abcd".as_slice();
    let (value, at) = timecode(input, 0).unwrap();
    assert_eq!(
        value,
        TimeCode { hours: 11, minutes: 12, seconds: 13, frames: 14, drop_frame: false }
    );
    assert_eq!(&input[at..], b"abcd");

    let input = b"abcd11:12:13:14".as_slice();
    assert!(timecode(input, 0).is_none());
}

#[test]
fn digits_end_at_the_first_other_byte() {
    assert_eq!(digits(b"x123y", 1), Some((123, 4)));
    assert_eq!(digits(b"x123y", 0), None);
    assert_eq!(digits(b"4294967295", 0), Some((4294967295, 10)));
    assert_eq!(digits(b"4294967296", 0), None);
}

#[test]
fn digits_range_has_bounds() {
    assert_eq!(digits_range(b"59:", 0, 0, 60), Some((59, 2)));
    assert_eq!(digits_range(b"60:", 0, 0, 60), None);
}

#[test]
fn lines_end_in_three_ways() {
    assert!(end_of_line(b"a", 1));
    assert!(end_of_line(b"a\n", 1));
    assert!(end_of_line(b"a\r\n", 1));
    assert!(!end_of_line(b"a\r", 1));
    assert!(!end_of_line(b"ab", 1));
}
