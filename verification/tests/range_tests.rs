use pdf2other::range::PageRangeError;
use pdf2other::range::parse_page_range;

#[test]
fn simple_dash_range() {
    assert_eq!(parse_page_range("1-5").unwrap(), vec![1, 2, 3, 4, 5]);
}

#[test]
fn simple_dotdot_range() {
    assert_eq!(parse_page_range("1..5").unwrap(), vec![1, 2, 3, 4, 5]);
}

#[test]
fn single_page_range() {
    assert_eq!(parse_page_range("7-7").unwrap(), vec![7]);
    assert_eq!(parse_page_range("7..7").unwrap(), vec![7]);
}

#[test]
fn surrounding_whitespace_is_trimmed() {
    assert_eq!(parse_page_range("  2-4  ").unwrap(), vec![2, 3, 4]);
    assert_eq!(parse_page_range("\t2 .. 4\n").unwrap(), vec![2, 3, 4]);
    assert_eq!(parse_page_range(" 2 - 4 ").unwrap(), vec![2, 3, 4]);
}

#[test]
fn dotdot_is_preferred_over_dash() {
    // A string holding both separators splits on "..": here into
    // "1-2" and "3", and the left part is then not a number.
    assert_eq!(
        parse_page_range("1-2..3").unwrap_err(),
        PageRangeError::InvalidPageNumber
    );
}

#[test]
fn no_separator_is_format_error() {
    assert_eq!(parse_page_range("abc").unwrap_err(), PageRangeError::InvalidFormat);
    assert_eq!(parse_page_range("15").unwrap_err(), PageRangeError::InvalidFormat);
    assert_eq!(parse_page_range("").unwrap_err(), PageRangeError::InvalidFormat);
    assert_eq!(parse_page_range("   ").unwrap_err(), PageRangeError::InvalidFormat);
}

#[test]
fn three_parts_is_format_error() {
    assert_eq!(parse_page_range("1-2-3").unwrap_err(), PageRangeError::InvalidFormat);
    assert_eq!(parse_page_range("1..2..3").unwrap_err(), PageRangeError::InvalidFormat);
}

#[test]
fn empty_part_is_format_error() {
    assert_eq!(parse_page_range("-5").unwrap_err(), PageRangeError::InvalidFormat);
    assert_eq!(parse_page_range("5-").unwrap_err(), PageRangeError::InvalidFormat);
    assert_eq!(parse_page_range("..5").unwrap_err(), PageRangeError::InvalidFormat);
    assert_eq!(parse_page_range(" - ").unwrap_err(), PageRangeError::InvalidFormat);
}

#[test]
fn zero_page_is_value_error() {
    assert_eq!(parse_page_range("0-3").unwrap_err(), PageRangeError::InvalidPageNumber);
    assert_eq!(parse_page_range("1-0").unwrap_err(), PageRangeError::InvalidPageNumber);
    assert_eq!(parse_page_range("0..0").unwrap_err(), PageRangeError::InvalidPageNumber);
}

#[test]
fn non_numeric_part_is_value_error() {
    assert_eq!(parse_page_range("abc-5").unwrap_err(), PageRangeError::InvalidPageNumber);
    assert_eq!(parse_page_range("1-x").unwrap_err(), PageRangeError::InvalidPageNumber);
    assert_eq!(parse_page_range("1.5-2").unwrap_err(), PageRangeError::InvalidPageNumber);
}

#[test]
fn overflowing_number_is_value_error() {
    assert_eq!(
        parse_page_range("1-99999999999999999999").unwrap_err(),
        PageRangeError::InvalidPageNumber
    );
}

#[test]
fn reversed_range_is_order_error() {
    assert_eq!(parse_page_range("5-1").unwrap_err(), PageRangeError::EmptyRange);
    assert_eq!(parse_page_range("9..2").unwrap_err(), PageRangeError::EmptyRange);
}

#[test]
fn largest_page_number_parses() {
    assert_eq!(parse_page_range("4294967295-4294967295").unwrap(), vec![u32::MAX]);
}

#[test]
fn error_messages() {
    assert_eq!(
        PageRangeError::InvalidFormat.message(),
        "Invalid page range format. Use 1-5 or 1..5."
    );
    assert_eq!(
        PageRangeError::InvalidPageNumber.message(),
        "Invalid page number. Page numbers must be greater than 0."
    );
    assert_eq!(
        PageRangeError::EmptyRange.message(),
        "Invalid page range. The start page must not be greater than the end page."
    );
}
