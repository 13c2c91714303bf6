use process_memory::region::{parse_maps, Mode, ParseError, VirtMemoryPage};

fn parse(line: &str) -> VirtMemoryPage {
    match VirtMemoryPage::from_line(line) {
        Ok(p) => p,
        Err(e) => panic!("{line:?} was rejected: {e:?}"),
    }
}

#[test]
fn parses_anonymous_region() {
    let p = parse("7f00-7f10 rw-p 00000000 00:00 0");
    assert_eq!(p.from, 0x7f00);
    assert_eq!(p.to, 0x7f10);
    assert_eq!(p.mode, Mode { read: true, write: true, execute: false });
    assert_eq!(p.file_path, "");
}

#[test]
fn parses_path_with_spaces_rejoined() {
    let p = parse("1000-2000 r-xs 0 08:01 1234   /tmp/my   file (deleted)");
    assert_eq!(p.mode, Mode { read: true, write: false, execute: true });
    assert_eq!(p.file_path, "/tmp/my file (deleted)");
}

#[test]
fn parses_pseudo_name_and_upper_hex() {
    let p = parse("55AB-55Cd ---p 0 00:00 0 [heap]");
    assert_eq!(p.from, 0x55ab);
    assert_eq!(p.to, 0x55cd);
    assert_eq!(p.mode, Mode { read: false, write: false, execute: false });
    assert_eq!(p.file_path, "[heap]");
}

#[test]
fn parses_full_64_bit_addresses() {
    let p = parse("fffffffffffffffe-ffffffffffffffff rwxp 0 00:00 0 [vsyscall]");
    assert_eq!(p.from, u64::MAX - 1);
    assert_eq!(p.to, u64::MAX);
    assert_eq!(p.mode, Mode { read: true, write: true, execute: true });
}

#[test]
fn rejects_lines_with_fewer_than_five_fields() {
    assert_eq!(VirtMemoryPage::from_line("1000-2000 rw-p 0 00:00").err(), Some(ParseError::TooFewFields));
    assert_eq!(VirtMemoryPage::from_line("   ").err(), Some(ParseError::TooFewFields));
    assert_eq!(VirtMemoryPage::from_line("1000-2000").err(), Some(ParseError::TooFewFields));
}

#[test]
fn rejects_unknown_permission_character() {
    assert_eq!(VirtMemoryPage::from_line("1000-2000 rwzp 0 00:00 0").err(), Some(ParseError::BadPermission));
}

#[test]
fn permission_error_comes_before_range_error() {
    assert_eq!(VirtMemoryPage::from_line("zz rwq 0 00:00 0").err(), Some(ParseError::BadPermission));
}

#[test]
fn rejects_range_without_exactly_one_dash() {
    assert_eq!(VirtMemoryPage::from_line("10002000 rw-p 0 00:00 0").err(), Some(ParseError::BadRange));
    assert_eq!(VirtMemoryPage::from_line("1000-2000-3000 rw-p 0 00:00 0").err(), Some(ParseError::BadRange));
}

#[test]
fn rejects_non_hex_or_oversized_addresses() {
    assert_eq!(VirtMemoryPage::from_line("10g0-2000 rw-p 0 00:00 0").err(), Some(ParseError::BadAddress));
    assert_eq!(VirtMemoryPage::from_line("-2000 rw-p 0 00:00 0").err(), Some(ParseError::BadAddress));
    assert_eq!(VirtMemoryPage::from_line("+1000-2000 rw-p 0 00:00 0").err(), Some(ParseError::BadAddress));
    assert_eq!(
        VirtMemoryPage::from_line("1000-10000000000000000 rw-p 0 00:00 0").err(),
        Some(ParseError::BadAddress)
    );
}

#[test]
fn rejects_range_that_does_not_grow() {
    assert_eq!(VirtMemoryPage::from_line("2000-1000 rw-p 0 00:00 0").err(), Some(ParseError::EmptyRange));
    assert_eq!(VirtMemoryPage::from_line("2000-2000 rw-p 0 00:00 0").err(), Some(ParseError::EmptyRange));
}

#[test]
fn parse_maps_skips_empty_lines() {
    let pages = parse_maps("1000-2000 rw-p 0 00:00 0\n\n2000-3000 r--p 0 00:00 0 /lib/x\n").unwrap();
    assert_eq!(pages.len(), 2);
    assert_eq!(pages[0].from, 0x1000);
    assert_eq!(pages[1].file_path, "/lib/x");
    assert_eq!(parse_maps("").unwrap().len(), 0);
}

#[test]
fn parse_maps_reports_first_bad_line() {
    let r = parse_maps("1000-2000 rw-p 0 00:00 0\n2000-3000 rq-p 0 00:00 0\nbad\n");
    assert_eq!(r.err(), Some(ParseError::BadPermission));
}

#[test]
fn fields_split_on_unicode_whitespace() {
    let p = parse("1000-2000\u{a0}rw-p\t0\u{2003}00:00 0 a\u{3000}b");
    assert_eq!(p.from, 0x1000);
    assert_eq!(p.mode, Mode { read: true, write: true, execute: false });
    assert_eq!(p.file_path, "a b");
}
