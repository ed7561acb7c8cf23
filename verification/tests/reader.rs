use json_validator::{UTF8Reader, UTF8ReaderResult};

fn text_of(result: UTF8ReaderResult) -> Option<String> {
    match result {
        UTF8ReaderResult::Text(s) => Some(s.to_string()),
        UTF8ReaderResult::OutOfBoundError(_) => None,
    }
}

fn left_of(result: UTF8ReaderResult) -> Option<usize> {
    match result {
        UTF8ReaderResult::Text(_) => None,
        UTF8ReaderResult::OutOfBoundError(left) => Some(left),
    }
}

#[test]
fn reader_of_empty_text_has_no_units() {
    let reader = UTF8Reader::new("");
    assert_eq!(reader.len(), 0);
    assert_eq!(text_of(reader.look_ahead(0, 0)), Some(String::new()));
    assert_eq!(left_of(reader.look_ahead(0, 1)), Some(0));
}

#[test]
fn reader_counts_ascii_units() {
    let reader = UTF8Reader::new("{\"a\": 1}");
    assert_eq!(reader.len(), 8);
}

#[test]
fn reader_joins_combining_marks_to_their_base() {
    // "e" with a combining acute accent, then "x": two units, three code points.
    let reader = UTF8Reader::new("e\u{301}x");
    assert_eq!(reader.len(), 2);
    assert_eq!(text_of(reader.look_ahead(0, 1)), Some("e\u{301}".to_string()));
    assert_eq!(text_of(reader.look_ahead(1, 1)), Some("x".to_string()));
}

#[test]
fn reader_keeps_carriage_return_and_line_feed_together() {
    let reader = UTF8Reader::new("a\r\nb");
    assert_eq!(reader.len(), 3);
    assert_eq!(text_of(reader.look_ahead(1, 1)), Some("\r\n".to_string()));
}

#[test]
fn reader_indexes_units_not_bytes() {
    let reader = UTF8Reader::new("\u{1F600}é\u{4E2D}z");
    assert_eq!(reader.len(), 4);
    assert_eq!(text_of(reader.look_ahead(0, 1)), Some("\u{1F600}".to_string()));
    assert_eq!(text_of(reader.look_ahead(1, 2)), Some("é\u{4E2D}".to_string()));
    assert_eq!(text_of(reader.look_ahead(3, 1)), Some("z".to_string()));
    assert_eq!(text_of(reader.look_ahead(0, 4)), Some("\u{1F600}é\u{4E2D}z".to_string()));
}

#[test]
fn look_ahead_gives_the_units_asked_for() {
    let reader = UTF8Reader::new("true,false");
    assert_eq!(text_of(reader.look_ahead(0, 4)), Some("true".to_string()));
    assert_eq!(text_of(reader.look_ahead(5, 5)), Some("false".to_string()));
    assert_eq!(text_of(reader.look_ahead(4, 1)), Some(",".to_string()));
    assert_eq!(text_of(reader.look_ahead(10, 0)), Some(String::new()));
}

#[test]
fn look_ahead_reports_how_many_units_are_left() {
    let reader = UTF8Reader::new("tru");
    assert_eq!(left_of(reader.look_ahead(0, 4)), Some(3));
    assert_eq!(left_of(reader.look_ahead(1, 4)), Some(2));
    assert_eq!(left_of(reader.look_ahead(3, 1)), Some(0));
}

#[test]
fn look_ahead_is_satisfied_exactly_up_to_the_end() {
    let reader = UTF8Reader::new("abcd");
    for index in 0..=4 {
        for width in 0..=5 {
            let result = reader.look_ahead(index, width);
            if index + width <= 4 {
                assert_eq!(text_of(result), Some("abcd"[index..index + width].to_string()));
            } else {
                assert_eq!(left_of(result), Some(4 - index));
            }
        }
    }
}

#[test]
fn look_ahead_behind_the_end_does_not_panic() {
    let reader = UTF8Reader::new("ab");
    assert_eq!(left_of(reader.look_ahead(3, 1)), Some(0));
    assert_eq!(left_of(reader.look_ahead(usize::MAX, 1)), Some(0));
    assert_eq!(left_of(reader.look_ahead(usize::MAX, usize::MAX)), Some(0));
    assert_eq!(left_of(reader.look_ahead(1, usize::MAX)), Some(1));
    assert_eq!(left_of(reader.look_ahead(0, 3)), Some(2));
}

#[test]
fn look_ahead_does_not_change_the_reader() {
    let reader = UTF8Reader::new("[1, 2]");
    let first = text_of(reader.look_ahead(1, 3));
    let second = text_of(reader.look_ahead(1, 3));
    assert_eq!(first, second);
    assert_eq!(reader.len(), 6);
}
