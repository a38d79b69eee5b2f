use os1k::printf::{check_args, render, Arg, Printf};

fn fmt_str(f: &[u8], args: &[Arg]) -> Vec<u8> {
    assert!(check_args(f, args));
    render(f, args)
}

#[test]
fn decimal_zero() {
    assert_eq!(fmt_str(b"%d\0", &[Arg::Int(0)]), b"0".to_vec());
}

#[test]
fn decimal_negative() {
    assert_eq!(fmt_str(b"%d\0", &[Arg::Int(-5)]), b"-5".to_vec());
}

#[test]
fn decimal_positive() {
    assert_eq!(fmt_str(b"%d\0", &[Arg::Int(123)]), b"123".to_vec());
}

#[test]
fn decimal_powers_of_ten_keep_inner_zeros() {
    assert_eq!(fmt_str(b"%d\0", &[Arg::Int(10)]), b"10".to_vec());
    assert_eq!(fmt_str(b"%d\0", &[Arg::Int(1000000000)]), b"1000000000".to_vec());
    assert_eq!(fmt_str(b"%d\0", &[Arg::Int(-100)]), b"-100".to_vec());
}

#[test]
fn decimal_extremes() {
    assert_eq!(fmt_str(b"%d\0", &[Arg::Int(i32::MAX)]), b"2147483647".to_vec());
    assert_eq!(fmt_str(b"%d\0", &[Arg::Int(-i32::MAX)]), b"-2147483647".to_vec());
}

#[test]
fn hex_zero() {
    assert_eq!(fmt_str(b"%x\0", &[Arg::Hex(0)]), b"0".to_vec());
}

#[test]
fn hex_small() {
    assert_eq!(fmt_str(b"%x\0", &[Arg::Hex(0x1f)]), b"1f".to_vec());
}

#[test]
fn hex_lowercase_no_leading_zeros() {
    assert_eq!(fmt_str(b"%x\0", &[Arg::Hex(0xabcdef)]), b"abcdef".to_vec());
    assert_eq!(fmt_str(b"%x\0", &[Arg::Hex(0x100)]), b"100".to_vec());
}

#[test]
fn hex_scans_seven_nibbles_only() {
    assert_eq!(fmt_str(b"%x\0", &[Arg::Hex(0x0fff_ffff)]), b"fffffff".to_vec());
    assert_eq!(fmt_str(b"%x\0", &[Arg::Hex(0x1234_5678)]), b"2345678".to_vec());
    assert_eq!(fmt_str(b"%x\0", &[Arg::Hex(0x1000_0000)]), b"".to_vec());
}

#[test]
fn percent_escape() {
    assert_eq!(fmt_str(b"%%\0", &[]), b"%".to_vec());
}

#[test]
fn trailing_percent_ends_output() {
    assert_eq!(fmt_str(b"ab%\0zz", &[]), b"ab".to_vec());
    assert_eq!(fmt_str(b"ab%", &[]), b"ab".to_vec());
}

#[test]
fn unknown_directive_is_literal() {
    assert_eq!(fmt_str(b"%q\0", &[]), b"q".to_vec());
    assert_eq!(fmt_str(b"%q%d\0", &[Arg::Int(7)]), b"q7".to_vec());
}

#[test]
fn string_argument_stops_at_its_terminator() {
    assert_eq!(fmt_str(b"%s\0", &[Arg::Str(b"hi\0")]), b"hi".to_vec());
    assert_eq!(fmt_str(b"%s\0", &[Arg::Str(b"hi\0there")]), b"hi".to_vec());
    assert_eq!(fmt_str(b"[%s]\0", &[Arg::Str(b"\0")]), b"[]".to_vec());
}

#[test]
fn format_string_stops_at_its_terminator() {
    assert_eq!(fmt_str(b"ab\0cd", &[]), b"ab".to_vec());
    assert_eq!(fmt_str(b"\0", &[]), b"".to_vec());
    assert_eq!(fmt_str(b"", &[]), b"".to_vec());
}

#[test]
fn arguments_consumed_in_order() {
    let args = [Arg::Str(b"x=\0"), Arg::Int(-42), Arg::Hex(0xbeef)];
    assert_eq!(fmt_str(b"%s%d, %x!\n\0", &args), b"x=-42, beef!\n".to_vec());
}

#[test]
fn check_args_rejects_mismatches() {
    assert!(!check_args(b"%d\0", &[Arg::Hex(1)]));
    assert!(!check_args(b"%s\0", &[Arg::Int(1)]));
    assert!(!check_args(b"%x\0", &[Arg::Str(b"a\0")]));
    assert!(!check_args(b"%d %d\0", &[Arg::Int(1)]));
    assert!(!check_args(b"%d\0", &[Arg::Int(i32::MIN)]));
    assert!(check_args(b"%d\0%d", &[Arg::Int(1)]));
    assert!(check_args(b"%q%%\0", &[]));
}

#[test]
fn printf_streams_bytes_then_stops() {
    let args = [Arg::Int(-7)];
    let mut p = Printf::new(b"a%d\0", &args);
    assert_eq!(p.next_byte(), Some(b'a'));
    assert_eq!(p.next_byte(), Some(b'-'));
    assert_eq!(p.next_byte(), Some(b'7'));
    assert_eq!(p.next_byte(), None);
    assert_eq!(p.next_byte(), None);
}
