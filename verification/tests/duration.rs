use csvtool::duration::DurationParser;

#[test]
fn test_duration_parser() {
    let tests = [
        ("0:00", Some((0, 0))),
        ("1:00", Some((1, 0))),
        ("0:30", Some((0, 30))),
        ("0:0", Some((0, 0))),
        ("1.23", None),
        ("0.00", None),
    ];
    let parser = DurationParser::new();

    for (input, expected) in tests {
        let actual = parser.parse_duration(input);
        assert_eq!(actual, expected);
    }
}

#[test]
fn test_duration_parser_first_match_only() {
    let parser = DurationParser::new();
    assert_eq!(parser.parse_duration("1:2:3"), Some((1, 2)));
    assert_eq!(parser.parse_duration("12a3:4"), Some((3, 4)));
    assert_eq!(parser.parse_duration("abc 10:30 xyz"), Some((10, 30)));
    assert_eq!(parser.parse_duration("  7:45  "), Some((7, 45)));
}

#[test]
fn test_duration_parser_rejects_colonless_text() {
    let parser = DurationParser::new();
    assert_eq!(parser.parse_duration(""), None);
    assert_eq!(parser.parse_duration("abc"), None);
    assert_eq!(parser.parse_duration(":30"), None);
    assert_eq!(parser.parse_duration("5:"), None);
    assert_eq!(parser.parse_duration("a:b"), None);
}

#[test]
fn test_duration_parser_oversized_run_reads_as_zero() {
    let parser = DurationParser::new();
    let actual = parser.parse_duration("99999999999999999999999999:5");
    assert_eq!(actual, Some((0, 5)));
}
