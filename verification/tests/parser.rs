use memory_map::{MemoryRegion, ParseError};

fn parse(line: &str) -> Result<MemoryRegion, ParseError> {
    MemoryRegion::from_str(line)
}

#[test]
fn parses_a_full_line() {
    let region = parse("00400000-00401000 r-xp 00000000 08:01 123  /bin/example").unwrap();
    assert_eq!(region.start, 0x400000);
    assert_eq!(region.end, 0x401000);
    assert_eq!(region.size, 0x1000);
    assert!(region.attributes.readable);
    assert!(!region.attributes.writable);
    assert!(region.attributes.executable);
    assert!(region.attributes.private);
    assert!(region.attributes.allocated);
    assert_eq!(region.file_name, Some("/bin/example".to_string()));
}

#[test]
fn size_is_end_minus_start() {
    let lines = [
        "1000-2000 rw-p",
        "0-1 ---p",
        "7ffd1c3e5000-7ffd1c406000 rw-p 00000000 00:00 0 [stack]",
        "0-ffffffffffffffff r--s",
    ];
    for line in lines {
        let region = parse(line).unwrap();
        assert_eq!(region.size, region.end - region.start);
        assert!(region.size > 0);
    }
}

#[test]
fn largest_address_is_read() {
    let region = parse("0-ffffffffffffffff r--s").unwrap();
    assert_eq!(region.end, u64::MAX);
    assert_eq!(region.size, u64::MAX);
}

#[test]
fn flags_rwxp_grant_everything() {
    let a = parse("1000-2000 rwxp").unwrap().attributes;
    assert!(a.readable && a.writable && a.executable && a.private && a.allocated);
}

#[test]
fn flags_r_p_grant_reading_and_private_only() {
    let a = parse("1000-2000 r--p").unwrap().attributes;
    assert!(a.readable);
    assert!(!a.writable);
    assert!(!a.executable);
    assert!(a.private);
    assert!(a.allocated);
}

#[test]
fn flags_count_by_position_only() {
    // Every letter is there, but only `x` and `p` stand in their own place.
    let a = parse("1000-2000 wrxp").unwrap().attributes;
    assert!(!a.readable);
    assert!(!a.writable);
    assert!(a.executable);
    assert!(a.private);
    let a = parse("1000-2000 pxwr").unwrap().attributes;
    assert!(!a.readable && !a.writable && !a.executable && !a.private);
    assert!(a.allocated);
}

#[test]
fn any_other_character_leaves_a_flag_unset() {
    let a = parse("1000-2000 RWXP").unwrap().attributes;
    assert!(!a.readable && !a.writable && !a.executable && !a.private);
    let a = parse("1000-2000 r?xs").unwrap().attributes;
    assert!(a.readable && !a.writable && a.executable && !a.private);
}

#[test]
fn flags_are_counted_in_characters() {
    let a = parse("1000-2000 \u{e9}w-p").unwrap().attributes;
    assert!(!a.readable && a.writable && !a.executable && a.private);
    assert_eq!(parse("1000-2000 \u{e9}--").unwrap_err(), ParseError::InvalidAttributes);
}

#[test]
fn flags_of_another_length_are_rejected() {
    assert_eq!(parse("1000-2000 rwx").unwrap_err(), ParseError::InvalidAttributes);
    assert_eq!(parse("1000-2000 rwxpp").unwrap_err(), ParseError::InvalidAttributes);
    assert_eq!(parse("1000-2000 r").unwrap_err(), ParseError::InvalidAttributes);
    assert_eq!(
        parse("1000-2000 rw-p- 00000000 08:01 1 /x").unwrap_err(),
        ParseError::InvalidAttributes
    );
}

#[test]
fn garbage_is_invalid_format() {
    assert_eq!(parse("garbage").unwrap_err(), ParseError::InvalidFormat);
}

#[test]
fn fewer_than_two_fields_is_invalid_format() {
    assert_eq!(parse("").unwrap_err(), ParseError::InvalidFormat);
    assert_eq!(parse("   \t  ").unwrap_err(), ParseError::InvalidFormat);
    assert_eq!(parse("1000-2000").unwrap_err(), ParseError::InvalidFormat);
    assert_eq!(parse("  1000-2000  ").unwrap_err(), ParseError::InvalidFormat);
}

#[test]
fn field_without_dash_is_invalid_address() {
    assert_eq!(parse("10002000 rwxp").unwrap_err(), ParseError::InvalidAddress);
    assert_eq!(parse("garbage more").unwrap_err(), ParseError::InvalidAddress);
}

#[test]
fn halves_that_are_not_hex_are_invalid_address() {
    assert_eq!(parse("10g0-2000 rwxp").unwrap_err(), ParseError::InvalidAddress);
    assert_eq!(parse("1000-20z0 rwxp").unwrap_err(), ParseError::InvalidAddress);
    assert_eq!(parse("-2000 rwxp").unwrap_err(), ParseError::InvalidAddress);
    assert_eq!(parse("1000- rwxp").unwrap_err(), ParseError::InvalidAddress);
    assert_eq!(parse("- rwxp").unwrap_err(), ParseError::InvalidAddress);
    assert_eq!(parse("0x1000-0x2000 rwxp").unwrap_err(), ParseError::InvalidAddress);
    assert_eq!(parse("+-2000 rwxp").unwrap_err(), ParseError::InvalidAddress);
    assert_eq!(parse("1_000-2000 rwxp").unwrap_err(), ParseError::InvalidAddress);
}

#[test]
fn address_beyond_64_bits_is_invalid_address() {
    assert_eq!(parse("0-10000000000000000 rwxp").unwrap_err(), ParseError::InvalidAddress);
    assert_eq!(parse("fffffffffffffffff-1 rwxp").unwrap_err(), ParseError::InvalidAddress);
    // Leading zeros do not count.
    let region = parse("0-0000000000000000000000ff rwxp").unwrap();
    assert_eq!(region.end, 0xff);
}

#[test]
fn hex_digits_of_either_case_and_a_plus_sign_are_read() {
    let region = parse("ABCdef-ABCDF0 rwxp").unwrap();
    assert_eq!(region.start, 0xabcdef);
    assert_eq!(region.end, 0xabcdf0);
    assert_eq!(region.size, 1);
    let region = parse("+10-+20 rwxp").unwrap();
    assert_eq!((region.start, region.end), (0x10, 0x20));
}

#[test]
fn second_dash_is_invalid_address() {
    assert_eq!(parse("1-2-3 rwxp").unwrap_err(), ParseError::InvalidAddress);
    assert_eq!(parse("1-2-zz rwxp").unwrap_err(), ParseError::InvalidAddress);
    assert_eq!(parse("1-2- rwxp").unwrap_err(), ParseError::InvalidAddress);
    assert_eq!(parse("1--2 rwxp").unwrap_err(), ParseError::InvalidAddress);
    assert_eq!(parse("--2 rwxp").unwrap_err(), ParseError::InvalidAddress);
}

#[test]
fn empty_range_is_invalid_range() {
    assert_eq!(parse("1000-1000 rwxp").unwrap_err(), ParseError::InvalidRange);
    assert_eq!(parse("0-0 rwxp").unwrap_err(), ParseError::InvalidRange);
}

#[test]
fn backward_range_is_invalid_range() {
    assert_eq!(parse("2000-1000 rwxp").unwrap_err(), ParseError::InvalidRange);
    assert_eq!(parse("1-0 ---p").unwrap_err(), ParseError::InvalidRange);
}

#[test]
fn first_failing_condition_is_reported() {
    // Address before attributes, attributes before range.
    assert_eq!(parse("zz-1 rw").unwrap_err(), ParseError::InvalidAddress);
    assert_eq!(parse("2-1 rw").unwrap_err(), ParseError::InvalidAttributes);
    assert_eq!(parse("2-1 rw-p").unwrap_err(), ParseError::InvalidRange);
}

#[test]
fn file_name_is_the_sixth_field() {
    let region = parse("1000-2000 rw-p 00000000 08:01 123").unwrap();
    assert_eq!(region.file_name, None);
    let region = parse("1000-2000 rw-p").unwrap();
    assert_eq!(region.file_name, None);
    let region = parse("1000-2000 rw-p 00000000 08:01 123 [heap]").unwrap();
    assert_eq!(region.file_name, Some("[heap]".to_string()));
}

#[test]
fn file_name_ends_at_whitespace() {
    let region = parse("1000-2000 rw-p 0 08:01 1 /tmp/with space (deleted)").unwrap();
    assert_eq!(region.file_name, Some("/tmp/with".to_string()));
}

#[test]
fn file_name_may_hold_any_characters() {
    let region = parse("1000-2000 rw-p 0 08:01 1 /tmp/caf\u{e9}-\u{65e5}\u{672c}").unwrap();
    assert_eq!(region.file_name, Some("/tmp/caf\u{e9}-\u{65e5}\u{672c}".to_string()));
}

#[test]
fn ignored_fields_are_not_checked() {
    let region = parse("1000-2000 rw-p not valid !!! name").unwrap();
    assert_eq!(region.file_name, Some("name".to_string()));
}

#[test]
fn any_whitespace_separates_fields() {
    let region = parse("\t1000-2000\t\trw-p\u{a0}0\u{2003}1 2\u{3000}/x\r\n").unwrap();
    assert_eq!((region.start, region.end), (0x1000, 0x2000));
    assert!(region.attributes.readable && region.attributes.writable);
    assert_eq!(region.file_name, Some("/x".to_string()));
}

#[test]
fn parsed_regions_are_always_allocated() {
    assert!(parse("1000-2000 ----").unwrap().attributes.allocated);
}

#[test]
fn parse_through_the_standard_trait() {
    let region: MemoryRegion = "1000-2000 r-xp".parse().unwrap();
    assert_eq!((region.start, region.end, region.size), (0x1000, 0x2000, 0x1000));
    let failed: Result<MemoryRegion, ParseError> = "garbage".parse();
    assert_eq!(failed.unwrap_err(), ParseError::InvalidFormat);
}

#[test]
fn errors_describe_themselves() {
    assert_eq!(ParseError::InvalidFormat.message(), "Invalid input format");
    assert_eq!(ParseError::InvalidAddress.message(), "Invalid address");
    assert_eq!(ParseError::InvalidAttributes.message(), "Invalid memory attributes");
    assert_eq!(ParseError::InvalidRange.message(), "Invalid address range");
}

#[test]
fn clone_keeps_every_field() {
    let region = parse("1000-2000 rw-p 0 08:01 1 /lib/x.so").unwrap();
    let copy = region.clone();
    assert_eq!(copy, region);
    assert_eq!(copy.file_name, Some("/lib/x.so".to_string()));
}
