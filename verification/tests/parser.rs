use flightdata::parse::{parse_i16_field, parse_u64_field, parse_line, split_fields, ParsedLine};
use flightdata::sample::RawFlightData;

fn sample_of(line: &[u8]) -> RawFlightData {
    match parse_line(line) {
        ParsedLine::Sample(d) => d,
        other => panic!("expected a sample, got {:?}", other),
    }
}

#[test]
fn seven_fields_parse_positionally() {
    let d = sample_of(b"100, 200, 300, 10, 20, 30, 12345\n");
    assert_eq!(d.ac_x, 100);
    assert_eq!(d.ac_y, 200);
    assert_eq!(d.ac_z, 300);
    assert_eq!(d.gy_x, 10);
    assert_eq!(d.gy_y, 20);
    assert_eq!(d.gy_z, 30);
    assert_eq!(d.dt, 12345);
}

#[test]
fn bare_comma_separator_is_rejected() {
    // The separator is the literal ", "; a line without the space does
    // not split into seven fields.
    assert!(matches!(parse_line(b"1,2,3,4,5,6,7\n"), ParsedLine::Rejected));
}

#[test]
fn five_fields_are_rejected() {
    assert!(matches!(parse_line(b"1, 2, 3, 4, 5\n"), ParsedLine::Rejected));
}

#[test]
fn eight_fields_are_rejected() {
    assert!(matches!(
        parse_line(b"1, 2, 3, 4, 5, 6, 7, 8\n"),
        ParsedLine::Rejected
    ));
}

#[test]
fn debug_line_surfaces_payload() {
    match parse_line(b"DBG sensor warmup\n") {
        ParsedLine::DebugLine(p) => assert_eq!(p, b" sensor warmup".to_vec()),
        other => panic!("expected a debug line, got {:?}", other),
    }
}

#[test]
fn debug_line_with_crlf_and_empty_payload() {
    match parse_line(b"DBG\r\n") {
        ParsedLine::DebugLine(p) => assert_eq!(p, Vec::<u8>::new()),
        other => panic!("expected a debug line, got {:?}", other),
    }
}

#[test]
fn fields_are_trimmed() {
    let d = sample_of(b" 1, 2 , 3, 4, 5, 6, 7\r\n");
    assert_eq!(d.ac_x, 1);
    assert_eq!(d.ac_y, 2);
    assert_eq!(d.ac_z, 3);
    assert_eq!(d.dt, 7);
}

#[test]
fn axis_bounds_are_sixteen_bit() {
    let d = sample_of(b"32767, -32768, 0, 0, 0, 0, 1\n");
    assert_eq!(d.ac_x, 32767);
    assert_eq!(d.ac_y, -32768);
    assert!(matches!(
        parse_line(b"32768, 0, 0, 0, 0, 0, 1\n"),
        ParsedLine::Rejected
    ));
    assert!(matches!(
        parse_line(b"-32769, 0, 0, 0, 0, 0, 1\n"),
        ParsedLine::Rejected
    ));
}

#[test]
fn unparseable_dt_rejects_the_line() {
    assert!(matches!(
        parse_line(b"1, 2, 3, 4, 5, 6, x\n"),
        ParsedLine::Rejected
    ));
    assert!(matches!(
        parse_line(b"1, 2, 3, 4, 5, 6, -7\n"),
        ParsedLine::Rejected
    ));
}

#[test]
fn dt_bounds_are_sixty_four_bit() {
    let d = sample_of(b"0, 0, 0, 0, 0, 0, 18446744073709551615\n");
    assert_eq!(d.dt, u64::MAX);
    assert!(matches!(
        parse_line(b"0, 0, 0, 0, 0, 0, 18446744073709551616\n"),
        ParsedLine::Rejected
    ));
}

#[test]
fn empty_and_garbage_lines_are_rejected() {
    assert!(matches!(parse_line(b""), ParsedLine::Rejected));
    assert!(matches!(parse_line(b"\n"), ParsedLine::Rejected));
    assert!(matches!(parse_line(b"hello world\n"), ParsedLine::Rejected));
}

#[test]
fn field_parsers_follow_the_decimal_grammar() {
    assert_eq!(parse_i16_field(b" -123 "), Some(-123));
    assert_eq!(parse_i16_field(b"+45"), Some(45));
    assert_eq!(parse_i16_field(b"32768"), None);
    assert_eq!(parse_i16_field(b"-32768"), Some(-32768));
    assert_eq!(parse_i16_field(b""), None);
    assert_eq!(parse_i16_field(b"-"), None);
    assert_eq!(parse_i16_field(b"1 2"), None);
    assert_eq!(parse_u64_field(b"0"), Some(0));
    assert_eq!(parse_u64_field(b"+7 "), Some(7));
    assert_eq!(parse_u64_field(b"-7"), None);
    assert_eq!(parse_u64_field(b"9999999999999999999999"), None);
}

#[test]
fn split_is_on_the_exact_two_byte_separator() {
    let fields = split_fields(b"a, b,c, ");
    let views: Vec<&[u8]> = fields.iter().map(|f| f.as_slice()).collect();
    assert_eq!(views, vec![&b"a"[..], &b"b,c"[..], &b""[..]]);
}
