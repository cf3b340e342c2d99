use gecko_codes::cursor::{get_and_seek, get_code_address, resolve, WordCursor};
use gecko_codes::gecko::{
    convert_from_gecko_code_values, from_84_94, render_string_bytes, GeckoCodeConversionError,
};

const SEP: &str = "\n\n// ---\n\n";

fn decode(words: &[u32]) -> String {
    match convert_from_gecko_code_values(words) {
        Ok(text) => text,
        Err(e) => panic!("decoding failed: {}", e.message()),
    }
}

#[test]
fn empty_code_is_empty() {
    assert!(matches!(convert_from_gecko_code_values(&[]), Err(GeckoCodeConversionError::Empty)));
}

#[test]
fn odd_length_code_is_malformed() {
    assert!(matches!(
        convert_from_gecko_code_values(&[0x04001040]),
        Err(GeckoCodeConversionError::Malformed)
    ));
    assert!(matches!(
        convert_from_gecko_code_values(&[0x04001040, 0x00000001, 0x04001040]),
        Err(GeckoCodeConversionError::Malformed)
    ));
}

#[test]
fn resolve_masks_and_offsets() {
    assert_eq!(resolve(0x04001040, false), 0x80001040);
    assert_eq!(resolve(0x05001040, true), 0x81001040);
    assert_eq!(resolve(0xFFFFFFFF, false), 0x80FFFFFF);
    assert_eq!(resolve(0xFFFFFFFF, true), 0x81FFFFFF);
}

#[test]
fn write_32_mentions_address_and_value() {
    let text = decode(&[0x04001040, 0x00000001]);
    assert!(text.contains("0x80001040"));
    assert!(text.contains("0x00000001"));
    assert_eq!(
        text,
        format!(
            "// - Constant 32-bit RAM Write -\n// Target address: 0x80001040\n// Value: 0x00000001{}",
            SEP
        )
    );
}

#[test]
fn odd_tag_uses_larger_address() {
    let text = decode(&[0x05001040, 0xDEADBEEF]);
    assert!(text.contains("// Target address: 0x81001040\n"));
    assert!(text.contains("// Value: 0xDEADBEEF"));
}

#[test]
fn create_branch_mentions_address_and_target() {
    let text = decode(&[0xC6000100, 0x80001234]);
    assert_eq!(
        text,
        format!("// - Create a Branch -\n// Target address: 0x80000100\n// Branch to: 0x80001234\n{}", SEP)
    );
}

#[test]
fn unsupported_tag_is_invalid_type() {
    match convert_from_gecko_code_values(&[0x99000000, 0x00000000]) {
        Err(GeckoCodeConversionError::InvalidType { line_number, value }) => {
            assert_eq!(line_number, 1);
            assert_eq!(value, 0x99000000);
        }
        _ => panic!("expected InvalidType"),
    }
}

#[test]
fn unsupported_tag_after_a_record_counts_pairs() {
    match convert_from_gecko_code_values(&[0x04001040, 0x00000001, 0x00001000, 0x00000002]) {
        Err(GeckoCodeConversionError::InvalidType { line_number, value }) => {
            assert_eq!(line_number, 2);
            assert_eq!(value, 0x00001000);
        }
        _ => panic!("expected InvalidType"),
    }
}

#[test]
fn supported_records_decode_to_text() {
    let text = decode(&[0x04001040, 0x00000001, 0xC6000100, 0x80001234]);
    assert!(!text.is_empty());
    assert_eq!(text.matches(SEP).count(), 2);
    assert!(text.starts_with("// - Constant 32-bit RAM Write -\n"));
}

#[test]
fn fill_16_shows_range_and_value() {
    let text = decode(&[0x02001000, 0x0003ABCD]);
    assert_eq!(
        text,
        format!(
            "// - Constant 16-bit RAM Fill -\n// Range: 0x80001000 to 0x80001004\n// Value: 0xABCD{}",
            SEP
        )
    );
    let larger = decode(&[0x03001000, 0xFFFF0001]);
    assert!(larger.contains("// Range: 0x81001000 to 0x81011000\n"));
    assert!(larger.contains("// Value: 0x0001"));
}

#[test]
fn set_and_load_register() {
    assert_eq!(decode(&[0x80000005, 0x12345678]), format!("// gr5 = 0x12345678{}", SEP));
    assert_eq!(
        decode(&[0x820000FF, 0x00000010]),
        format!("// - Load value 0x00000010 into register 255{}", SEP)
    );
}

#[test]
fn store_register_modes() {
    assert_eq!(
        decode(&[0x84100023, 0x80001234]),
        format!(
            "// - Store register 3 starting at address 0x80001234 with 3 consecutive written 2-byte values -{}",
            SEP
        )
    );
    assert!(decode(&[0x84110023, 0x80001234]).contains("0x80001234 + ba with"));
    assert!(decode(&[0x94200FF0, 0x00000010]).contains(
        "starting at address 0x00000010 + po with 256 consecutive written 4-byte values -"
    ));
}

#[test]
fn store_register_bad_size_selector_is_parse_error() {
    match convert_from_gecko_code_values(&[0x84300000, 0x80001234]) {
        Err(GeckoCodeConversionError::ParseError { reason }) => {
            assert!(reason.contains("Invalid T type"));
        }
        _ => panic!("expected ParseError"),
    }
}

#[test]
fn store_register_other_mode_uses_the_address_alone() {
    assert_eq!(
        decode(&[0x84020000, 0x80001000]),
        format!(
            "// - Store register 0 starting at address 0x80001000 with 1 consecutive written 1-byte values -{}",
            SEP
        )
    );
}

#[test]
fn store_register_with_other_tag_is_parse_error() {
    let words = [0x85000000u32, 0x80001234];
    let mut cursor = WordCursor::new(&words);
    assert!(matches!(from_84_94(&mut cursor), Err(GeckoCodeConversionError::ParseError { .. })));
}

#[test]
fn string_write_with_final_zero_is_quoted() {
    let text = decode(&[0x06001000, 0x00000006, 0x48656C6C, 0x6F000000]);
    assert_eq!(
        text,
        format!(
            "// - String RAM Write - \n// Target address: 0x80001000\n// String contents: \"Hello\0\"\n{}",
            SEP
        )
    );
}

#[test]
fn string_write_without_zero_is_byte_list() {
    let text = decode(&[0x06001000, 0x00000005, 0x41424344, 0x45464748]);
    assert!(text.contains("// Byte contents:\n// [0x41, 0x42, 0x43, 0x44, 0x45]"));
    assert!(!text.contains("String contents"));
}

#[test]
fn string_write_with_inner_zero_is_byte_list() {
    let text = decode(&[0x06001000, 0x00000008, 0x41004300, 0x44454600]);
    assert!(text.contains("// Byte contents:\n// [0x41, 0x00, 0x43, 0x00, 0x44, 0x45, 0x46, 0x00]"));
}

#[test]
fn string_write_with_invalid_text_is_byte_list() {
    let text = decode(&[0x06001000, 0x00000005, 0xFFFEFDFC, 0x00000000]);
    assert!(text.contains("// Byte contents:\n// [0xFF, 0xFE, 0xFD, 0xFC, 0x00]"));
}

#[test]
fn byte_list_breaks_every_eight_bytes() {
    let bytes: Vec<u8> = (1..=10).collect();
    assert_eq!(
        render_string_bytes(&bytes),
        "// Byte contents:\n// [0x01, 0x02, 0x03, 0x04, 0x05, 0x06, 0x07, 0x08, \n// 0x09, 0x0A]"
    );
    assert_eq!(render_string_bytes(&vec![0x68, 0x69, 0]), "// String contents: \"hi\0\"\n");
    assert_eq!(render_string_bytes(&Vec::new()), "// Byte contents:\n// [");
}

#[test]
fn string_write_past_the_end_is_truncated() {
    assert!(matches!(
        convert_from_gecko_code_values(&[0x06000000, 0x00000010]),
        Err(GeckoCodeConversionError::Truncated)
    ));
}

#[test]
fn execute_assembly_stops_at_blr() {
    let text = decode(&[0xC0000000, 0x00000002, 0x38600001, 0x4E800020]);
    assert_eq!(
        text,
        format!(
            "// - Execute Assembly - \n// Target address: 0x80000000\n\nli r3, 0x1\nblr\n{}",
            SEP
        )
    );
    let first = decode(&[0xC0000000, 0x00000001, 0x4E800020, 0x00000000]);
    assert!(first.ends_with("\n\nblr\n\n\n// ---\n\n"));
}

#[test]
fn execute_assembly_with_too_many_lines_is_truncated() {
    assert!(matches!(
        convert_from_gecko_code_values(&[0xC0000000, 0x00000005, 0x38600001, 0x38800002]),
        Err(GeckoCodeConversionError::Truncated)
    ));
}

#[test]
fn insert_assembly_stops_at_nop_in_second_place() {
    let text = decode(&[0xC2001000, 0x00000001, 0x38600001, 0x60000000, 0x04001040, 0x00000001]);
    assert!(text.starts_with(
        "// - Insert Assembly -\n// Target address: 0x80001000\n\nli r3, 0x1\n\n\n// ---\n\n"
    ));
    assert!(text.contains("// Target address: 0x80001040"));
}

#[test]
fn insert_assembly_stops_at_nop_and_zero() {
    let text = decode(&[0xC3001000, 0x00000002, 0x38600001, 0x38800002, 0x60000000, 0x00000000]);
    assert_eq!(
        text,
        format!(
            "// - Insert Assembly -\n// Target address: 0x81001000\n\nli r3, 0x1\nli r4, 0x2\n{}",
            SEP
        )
    );
}

#[test]
fn insert_assembly_without_terminator_runs_to_the_end() {
    let text = decode(&[0xC2001000, 0x00000009, 0x38600001, 0x38800002]);
    assert!(text.ends_with("li r3, 0x1\nli r4, 0x2\n\n\n// ---\n\n"));
}

#[test]
fn cursor_reads_until_the_end() {
    let words = [0x04001040u32, 7];
    let mut cursor = WordCursor::new(&words);
    assert_eq!(cursor.remaining(), 2);
    assert_eq!(get_code_address(&mut cursor, false).ok(), Some(0x80001040));
    assert_eq!(cursor.position(), 1);
    assert_eq!(get_and_seek(&mut cursor).ok(), Some(7));
    assert_eq!(cursor.remaining(), 0);
    assert!(matches!(get_and_seek(&mut cursor), Err(GeckoCodeConversionError::Truncated)));
    assert_eq!(cursor.position(), 2);
}

#[test]
fn error_messages() {
    let e = GeckoCodeConversionError::InvalidType { line_number: 12, value: 0x99000000 };
    assert_eq!(e.message(), "Invalid gecko code type. Line number: 12, found value: 0x99000000");
    assert_eq!(GeckoCodeConversionError::Empty.message(), "Empty gecko code");
    assert_eq!(GeckoCodeConversionError::Malformed.message(), "Malformed gecko code");
}
