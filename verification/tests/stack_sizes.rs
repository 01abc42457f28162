use std::collections::BTreeMap;
use stack_usage::correlate::correlate;
use stack_usage::lookup::find_function;
use stack_usage::stack_sizes::decode_stack_sizes;
use stack_usage::symtab::process_symtab_exec;
use stack_usage::{AnalysisError, Function, Section, Symbol, SymbolKind};

fn malformed(offset: usize) -> AnalysisError {
    AnalysisError::MalformedInput { section: Section::StackSizes, offset }
}

fn functions_at<'a>(addresses: &[u64]) -> BTreeMap<u64, Function<'a>> {
    let symbols: Vec<Symbol<'a>> = addresses
        .iter()
        .map(|address| Symbol {
            kind: SymbolKind::Function,
            address: *address,
            size: 4,
            name: Some("f"),
        })
        .collect();
    process_symtab_exec(&symbols).unwrap().1
}

#[test]
fn an_empty_section_holds_no_record() {
    assert_eq!(decode_stack_sizes(&[], true), Ok(vec![]));
    assert_eq!(decode_stack_sizes(&[], false), Ok(vec![]));
}

#[test]
fn a_record_with_a_narrow_address() {
    let data = [0x01, 0x10, 0x00, 0x00, 24];
    assert_eq!(decode_stack_sizes(&data, true), Ok(vec![(0x1001, 24)]));
}

#[test]
fn a_record_with_a_wide_address() {
    let data = [0x08, 0x07, 0x06, 0x05, 0x04, 0x03, 0x02, 0x01, 0x7f];
    assert_eq!(decode_stack_sizes(&data, false), Ok(vec![(0x0102_0304_0506_0708, 127)]));
}

#[test]
fn addresses_are_little_endian() {
    let data = [0x78, 0x56, 0x34, 0x12, 0];
    assert_eq!(decode_stack_sizes(&data, true), Ok(vec![(0x1234_5678, 0)]));
    let data = [0xff, 0xff, 0xff, 0xff, 1];
    assert_eq!(decode_stack_sizes(&data, true), Ok(vec![(0xffff_ffff, 1)]));
}

#[test]
fn stack_sizes_are_unsigned_leb128() {
    let data = [0, 0, 0, 0, 0xe5, 0x8e, 0x26];
    assert_eq!(decode_stack_sizes(&data, true), Ok(vec![(0, 624485)]));
    let data = [0, 0, 0, 0, 0x80, 0x01];
    assert_eq!(decode_stack_sizes(&data, true), Ok(vec![(0, 128)]));
    let data = [0, 0, 0, 0, 0x80, 0x00];
    assert_eq!(decode_stack_sizes(&data, true), Ok(vec![(0, 0)]));
}

#[test]
fn decoding_agrees_with_the_encoder() {
    for value in [0u64, 1, 127, 128, 300, 16383, 16384, 1 << 35, u64::MAX - 1, u64::MAX] {
        let mut data = vec![0x10, 0x20, 0x30, 0x40];
        leb128::write::unsigned(&mut data, value).unwrap();
        assert_eq!(decode_stack_sizes(&data, true), Ok(vec![(0x4030_2010, value)]));
    }
}

#[test]
fn records_come_in_the_order_of_the_section() {
    let data = [
        0x00, 0x20, 0x00, 0x00, 0x10, //
        0x00, 0x10, 0x00, 0x00, 0x80, 0x02, //
        0x00, 0x30, 0x00, 0x00, 0x00,
    ];
    assert_eq!(
        decode_stack_sizes(&data, true),
        Ok(vec![(0x2000, 16), (0x1000, 256), (0x3000, 0)])
    );
}

#[test]
fn the_largest_stack_size() {
    let mut data = vec![0u8; 8];
    data.extend_from_slice(&[0xff, 0xff, 0xff, 0xff, 0xff, 0xff, 0xff, 0xff, 0xff, 0x01]);
    assert_eq!(decode_stack_sizes(&data, false), Ok(vec![(0, u64::MAX)]));
}

#[test]
fn a_stack_size_over_64_bits_is_malformed() {
    let mut data = vec![0u8; 4];
    data.extend_from_slice(&[0xff, 0xff, 0xff, 0xff, 0xff, 0xff, 0xff, 0xff, 0xff, 0x02]);
    assert_eq!(decode_stack_sizes(&data, true), Err(malformed(0)));
}

#[test]
fn a_stack_size_of_eleven_bytes_is_malformed() {
    let mut data = vec![0u8; 4];
    data.extend_from_slice(&[0x80, 0x80, 0x80, 0x80, 0x80, 0x80, 0x80, 0x80, 0x80, 0x80, 0x00]);
    assert_eq!(decode_stack_sizes(&data, true), Err(malformed(0)));
}

#[test]
fn a_stack_size_of_ten_bytes_is_read() {
    let mut data = vec![0u8; 4];
    data.extend_from_slice(&[0x80, 0x80, 0x80, 0x80, 0x80, 0x80, 0x80, 0x80, 0x80, 0x00, 0x07]);
    assert_eq!(decode_stack_sizes(&data, true), Err(malformed(14)));
    data.extend_from_slice(&[0, 0, 0, 5]);
    assert_eq!(decode_stack_sizes(&data, true), Ok(vec![(0, 0), (7, 5)]));
}

#[test]
fn a_truncated_address_is_malformed() {
    assert_eq!(decode_stack_sizes(&[1], true), Err(malformed(0)));
    assert_eq!(decode_stack_sizes(&[1, 2, 3], true), Err(malformed(0)));
    assert_eq!(decode_stack_sizes(&[1, 2, 3, 4, 5, 6, 7], false), Err(malformed(0)));
}

#[test]
fn a_missing_stack_size_is_malformed() {
    assert_eq!(decode_stack_sizes(&[1, 2, 3, 4], true), Err(malformed(0)));
    assert_eq!(decode_stack_sizes(&[1, 2, 3, 4, 5, 6, 7, 8], false), Err(malformed(0)));
}

#[test]
fn a_truncated_stack_size_is_malformed() {
    let data = [0x00, 0x10, 0x00, 0x00, 0x80];
    assert_eq!(decode_stack_sizes(&data, true), Err(malformed(0)));
    let data = [0x00, 0x10, 0x00, 0x00, 0xff, 0xff];
    assert_eq!(decode_stack_sizes(&data, true), Err(malformed(0)));
}

#[test]
fn the_error_names_the_start_of_the_record() {
    let data = [0x00, 0x10, 0x00, 0x00, 0x18, 0x00, 0x20, 0x00, 0x00, 0x80];
    assert_eq!(decode_stack_sizes(&data, true), Err(malformed(5)));
    let data = [0x00, 0x10, 0x00, 0x00, 0x98, 0x01, 0x00, 0x20];
    assert_eq!(decode_stack_sizes(&data, true), Err(malformed(6)));
}

#[test]
fn a_narrow_section_read_as_wide_is_malformed() {
    let data = [0x00, 0x10, 0x00, 0x00, 0x18];
    assert_eq!(decode_stack_sizes(&data, false), Err(malformed(0)));
}

#[test]
fn lookup_tries_the_odd_address_first() {
    let defined = functions_at(&[0x100, 0x101, 0x200, 0x301]);
    assert_eq!(find_function(&defined, 0x100), Some(0x101));
    assert_eq!(find_function(&defined, 0x101), Some(0x101));
    assert_eq!(find_function(&defined, 0x200), Some(0x200));
    assert_eq!(find_function(&defined, 0x201), Some(0x200));
    assert_eq!(find_function(&defined, 0x300), Some(0x301));
    assert_eq!(find_function(&defined, 0x301), Some(0x301));
    assert_eq!(find_function(&defined, 0x102), None);
    assert_eq!(find_function(&defined, 0xff), None);
    assert_eq!(find_function(&defined, 0), None);
    assert_eq!(find_function(&defined, u64::MAX), None);
}

#[test]
fn lookup_at_the_ends_of_the_address_space() {
    let defined = functions_at(&[1, u64::MAX - 1]);
    assert_eq!(find_function(&defined, 0), Some(1));
    assert_eq!(find_function(&defined, 1), Some(1));
    assert_eq!(find_function(&defined, u64::MAX), Some(u64::MAX - 1));
    assert_eq!(find_function(&defined, u64::MAX - 1), Some(u64::MAX - 1));
}

#[test]
fn a_record_below_an_odd_address_reaches_the_function() {
    let mut defined = functions_at(&[0x1001]);
    correlate(&mut defined, &[(0x1000, 24)]);
    assert_eq!(defined[&0x1001].stack(), Some(24));
}

#[test]
fn a_record_above_an_even_address_reaches_the_function() {
    let mut defined = functions_at(&[0x1000]);
    correlate(&mut defined, &[(0x1001, 24)]);
    assert_eq!(defined[&0x1000].stack(), Some(24));
}

#[test]
fn a_record_at_the_address_reaches_the_function() {
    let mut defined = functions_at(&[0x1000, 0x2001]);
    correlate(&mut defined, &[(0x2001, 8), (0x1000, 16)]);
    assert_eq!(defined[&0x1000].stack(), Some(16));
    assert_eq!(defined[&0x2001].stack(), Some(8));
}

#[test]
fn a_record_prefers_the_function_at_the_odd_address() {
    let mut defined = functions_at(&[0x1000, 0x1001]);
    correlate(&mut defined, &[(0x1000, 24)]);
    assert_eq!(defined[&0x1001].stack(), Some(24));
    assert_eq!(defined[&0x1000].stack(), None);
}

#[test]
fn a_record_of_no_function_changes_nothing() {
    let mut with = functions_at(&[0x1000, 0x2000]);
    let mut without = functions_at(&[0x1000, 0x2000]);
    correlate(&mut with, &[(0x1000, 4), (0x3000, 99), (0x2000, 8), (0x1002, 7)]);
    correlate(&mut without, &[(0x1000, 4), (0x2000, 8)]);
    assert_eq!(with.len(), 2);
    for address in [0x1000u64, 0x2000] {
        assert_eq!(with[&address].stack(), without[&address].stack());
        assert_eq!(with[&address].names(), without[&address].names());
        assert_eq!(with[&address].size(), without[&address].size());
    }
    assert_eq!(with[&0x1000].stack(), Some(4));
    assert_eq!(with[&0x2000].stack(), Some(8));
}

#[test]
fn a_function_without_a_record_has_no_stack_size() {
    let mut defined = functions_at(&[0x1000, 0x2000]);
    correlate(&mut defined, &[(0x2000, 0)]);
    assert_eq!(defined[&0x1000].stack(), None);
    assert_eq!(defined[&0x2000].stack(), Some(0));
}

#[test]
fn the_first_record_of_a_function_wins() {
    let mut defined = functions_at(&[0x1000]);
    correlate(&mut defined, &[(0x1001, 24), (0x1000, 48), (0x1001, 96)]);
    assert_eq!(defined[&0x1000].stack(), Some(24));
}

#[test]
fn no_record_changes_nothing() {
    let mut defined = functions_at(&[0x1000]);
    correlate(&mut defined, &[]);
    assert_eq!(defined[&0x1000].stack(), None);
    assert_eq!(defined[&0x1000].names(), &["f"]);
}
