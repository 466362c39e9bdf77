use csvtool::text::{format_total, trim_cell, usize_to_string};

#[test]
fn test_trim_cell_strips_surrounding_whitespace() {
    assert_eq!(trim_cell("  a b  "), "a b");
    assert_eq!(trim_cell("\t7:45\r\n"), "7:45");
    assert_eq!(trim_cell("plain"), "plain");
    assert_eq!(trim_cell(""), "");
    assert_eq!(trim_cell("   "), "");
}

#[test]
fn test_usize_to_string() {
    assert_eq!(usize_to_string(0), "0");
    assert_eq!(usize_to_string(7), "7");
    assert_eq!(usize_to_string(60), "60");
    assert_eq!(usize_to_string(1234), "1234");
}

#[test]
fn test_format_total() {
    assert_eq!(format_total(0), "0:00");
    assert_eq!(format_total(255), "4:15");
    assert_eq!(format_total(75), "1:15");
    assert_eq!(format_total(609), "10:09");
    assert_eq!(format_total(59), "0:59");
    assert_eq!(format_total(60), "1:00");
}
