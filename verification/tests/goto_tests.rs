use ogedit::goto::{parse_filename_goto, validate_goto_point, Point};

fn parse(s: &str) -> (&str, Option<Point>) {
    let (len, goto) = parse_filename_goto(s.as_bytes());
    (&s[..len], goto)
}

#[test]
fn test_parse_last_numbers() {
    assert_eq!(parse("123"), ("123", None));
    assert_eq!(parse("abc"), ("abc", None));
    assert_eq!(parse(":123"), (":123", None));
    assert_eq!(parse("abc:123"), ("abc", Some(Point { x: 0, y: 122 })));
    assert_eq!(parse("45:123"), ("45", Some(Point { x: 0, y: 122 })));
    assert_eq!(parse(":45:123"), (":45", Some(Point { x: 0, y: 122 })));
    assert_eq!(parse("abc:45:123"), ("abc", Some(Point { x: 122, y: 44 })));
    assert_eq!(parse("abc:def:123"), ("abc:def", Some(Point { x: 0, y: 122 })));
    assert_eq!(parse("1:2:3"), ("1", Some(Point { x: 2, y: 1 })));
    assert_eq!(parse("::3"), (":", Some(Point { x: 0, y: 2 })));
    assert_eq!(parse("1::3"), ("1:", Some(Point { x: 0, y: 2 })));
    assert_eq!(parse(""), ("", None));
    assert_eq!(parse(":"), (":", None));
    assert_eq!(parse("::"), ("::", None));
    assert_eq!(parse("a:1"), ("a", Some(Point { x: 0, y: 0 })));
    assert_eq!(parse("1:a"), ("1:a", None));
    assert_eq!(parse("file.txt:10"), ("file.txt", Some(Point { x: 0, y: 9 })));
    assert_eq!(parse("file.txt:10:5"), ("file.txt", Some(Point { x: 4, y: 9 })));
}

#[test]
fn parse_goto_zero_and_overflow() {
    // Line 0 is taken as the first line.
    assert_eq!(parse("a:0"), ("a", Some(Point { x: 0, y: 0 })));
    // A number too large for a coordinate is no number.
    assert_eq!(parse("a:99999999999999999999999"), ("a:99999999999999999999999", None));
    // A column that is not a number leaves the line alone.
    assert_eq!(parse("a:x:7"), ("a:x", Some(Point { x: 0, y: 6 })));
}

#[test]
fn validate_goto_line_and_column() {
    assert_eq!(validate_goto_point("12:5").unwrap(), Point { x: 4, y: 11 });
    // Without a column, the column is "0" and becomes -1.
    assert_eq!(validate_goto_point("12").unwrap(), Point { x: -1, y: 11 });
    // Signs are read as `str::parse` reads them.
    assert_eq!(validate_goto_point("+3:-2").unwrap(), Point { x: -3, y: 2 });
    assert_eq!(
        validate_goto_point("-9223372036854775808").unwrap(),
        Point { x: -1, y: isize::MIN }
    );
}

#[test]
fn validate_goto_rejects_non_numbers() {
    assert!(validate_goto_point("").is_err());
    assert!(validate_goto_point("abc").is_err());
    assert!(validate_goto_point("1:x").is_err());
    assert!(validate_goto_point("1:2:3").is_err());
    assert!(validate_goto_point(" 1").is_err());
    assert!(validate_goto_point("-").is_err());
}
