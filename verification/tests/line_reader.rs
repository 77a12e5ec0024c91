use closedcaption::line_reader::LineReader;

#[test]
fn test_single_buffer() {
    let mut r = LineReader::new();
    r.push(Vec::from(b"abcd\nefgh\nijkl\n".as_ref()));

    assert_eq!(r.line(), Some(b"abcd\n".as_ref()));
    assert_eq!(r.line(), Some(b"efgh\n".as_ref()));
    assert_eq!(r.line(), Some(b"ijkl\n".as_ref()));
    assert_eq!(r.line(), None);
}

#[test]
fn line_reader_test_empty_line() {
    let mut r = LineReader::new();
    r.push(Vec::from(b"abcd\nefgh\n\nijkl\n".as_ref()));

    assert_eq!(r.line(), Some(b"abcd\n".as_ref()));
    assert_eq!(r.line(), Some(b"efgh\n".as_ref()));
    assert_eq!(r.line(), Some(b"\n".as_ref()));
    assert_eq!(r.line(), Some(b"ijkl\n".as_ref()));
    assert_eq!(r.line(), None);
}

#[test]
fn test_multi_buffer_split() {
    let mut r = LineReader::new();
    r.push(Vec::from(b"abcd\nef".as_ref()));
    r.push(Vec::from(b"gh\nijkl\n".as_ref()));

    assert_eq!(r.line(), Some(b"abcd\n".as_ref()));
    assert_eq!(r.line(), Some(b"efgh\n".as_ref()));
    assert_eq!(r.line(), Some(b"ijkl\n".as_ref()));
    assert_eq!(r.line(), None);
}

#[test]
fn test_multi_buffer_split_2() {
    let mut r = LineReader::new();
    r.push(Vec::from(b"abcd\ne".as_ref()));
    r.push(Vec::from(b"f".as_ref()));
    r.push(Vec::from(b"g".as_ref()));
    r.push(Vec::from(b"h\nijkl\n".as_ref()));

    assert_eq!(r.line(), Some(b"abcd\n".as_ref()));
    assert_eq!(r.line(), Some(b"efgh\n".as_ref()));
    assert_eq!(r.line(), Some(b"ijkl\n".as_ref()));
    assert_eq!(r.line(), None);
}

#[test]
fn test_single_buffer_drain() {
    let mut r = LineReader::new();
    r.push(Vec::from(b"abcd\nefgh\nijkl".as_ref()));

    assert_eq!(r.line(), Some(b"abcd\n".as_ref()));
    assert_eq!(r.line(), Some(b"efgh\n".as_ref()));
    assert_eq!(r.line(), None);
    assert_eq!(r.line_or_drain(), Some(b"ijkl".as_ref()));
    assert_eq!(r.line_or_drain(), None);
}

#[test]
fn test_single_buffer_drain_multi_line() {
    let mut r = LineReader::new();
    r.push(Vec::from(b"abcd\nefgh\n".as_ref()));
    r.push(Vec::from(b"ijkl".as_ref()));

    assert_eq!(r.line(), Some(b"abcd\n".as_ref()));
    assert_eq!(r.line(), Some(b"efgh\n".as_ref()));
    assert_eq!(r.line(), None);
    assert_eq!(r.line_or_drain(), Some(b"ijkl".as_ref()));
    assert_eq!(r.line_or_drain(), None);
}

#[test]
fn test_single_buffer_drain_multi_line_2() {
    let mut r = LineReader::new();
    r.push(Vec::from(b"abcd\nefgh\ni".as_ref()));
    r.push(Vec::from(b"j".as_ref()));
    r.push(Vec::from(b"k".as_ref()));
    r.push(Vec::from(b"l".as_ref()));

    assert_eq!(r.line(), Some(b"abcd\n".as_ref()));
    assert_eq!(r.line(), Some(b"efgh\n".as_ref()));
    assert_eq!(r.line(), None);
    assert_eq!(r.line_or_drain(), Some(b"ijkl".as_ref()));
    assert_eq!(r.line_or_drain(), None);
}

#[test]
fn line_reader_clear_forgets_everything() {
    let mut r = LineReader::new();
    r.push(b"abcd\nef".to_vec());
    assert_eq!(r.line(), Some(b"abcd\n".as_ref()));
    r.clear();
    assert_eq!(r.line_or_drain(), None);
    r.push(b"gh\n".to_vec());
    assert_eq!(r.line(), Some(b"gh\n".as_ref()));
}

#[test]
fn line_reader_loses_no_byte() {
    let mut r = LineReader::new();
    r.push(b"a\nb".to_vec());
    r.push(b"c\n\nd".to_vec());
    r.push(b"e".to_vec());
    let mut all = Vec::new();
    while let Some(line) = r.line_or_drain() {
        all.extend_from_slice(line);
    }
    assert_eq!(all, b"a\nbc\n\nde");
}
