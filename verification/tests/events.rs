use yson::formatter::{indent, write_byte_list, Formatter, PrettyFormatter, TextFormatter};
use yson::number::{push_digits, signed_bytes, unsigned_bytes};

fn text(bytes: Vec<u8>) -> String {
    String::from_utf8(bytes).unwrap()
}

#[test]
fn compact_scalar_events() {
    let mut f = TextFormatter;
    let mut w: Vec<u8> = Vec::new();
    f.write_null(&mut w).unwrap();
    f.write_bool(&mut w, true).unwrap();
    f.write_bool(&mut w, false).unwrap();
    assert_eq!(text(w), "#%true%false");
}

#[test]
fn compact_signed_widths() {
    let mut f = TextFormatter;
    let mut w: Vec<u8> = Vec::new();
    f.write_i8(&mut w, i8::MIN).unwrap();
    w.push(b' ');
    f.write_i16(&mut w, i16::MAX).unwrap();
    w.push(b' ');
    f.write_i32(&mut w, -1).unwrap();
    w.push(b' ');
    f.write_i64(&mut w, 0).unwrap();
    w.push(b' ');
    f.write_i128(&mut w, i128::MIN).unwrap();
    w.push(b' ');
    f.write_i128(&mut w, i128::MAX).unwrap();
    assert_eq!(
        text(w),
        format!("-128 32767 -1 0 {} {}", i128::MIN, i128::MAX)
    );
}

#[test]
fn compact_unsigned_widths() {
    let mut f = TextFormatter;
    let mut w: Vec<u8> = Vec::new();
    f.write_u8(&mut w, u8::MAX).unwrap();
    w.push(b' ');
    f.write_u16(&mut w, 0).unwrap();
    w.push(b' ');
    f.write_u32(&mut w, u32::MAX).unwrap();
    w.push(b' ');
    f.write_u64(&mut w, 10).unwrap();
    w.push(b' ');
    f.write_u128(&mut w, u128::MAX).unwrap();
    assert_eq!(
        text(w),
        format!("255u 0u {}u 10u {}u", u32::MAX, u128::MAX)
    );
}

#[test]
fn compact_text_events() {
    let mut f = TextFormatter;
    let mut w: Vec<u8> = Vec::new();
    f.write_number_str(&mut w, "12.5e3").unwrap();
    f.begin_string(&mut w).unwrap();
    f.write_string_fragment(&mut w, "a\"").unwrap();
    f.write_string_fragment(&mut w, "b").unwrap();
    f.end_string(&mut w).unwrap();
    f.write_raw_fragment(&mut w, "<raw>").unwrap();
    assert_eq!(text(w), "12.5e3\"a\"b\"<raw>");
}

#[test]
fn compact_structure_events() {
    let mut f = TextFormatter;
    let mut w: Vec<u8> = Vec::new();
    f.begin_attributes(&mut w).unwrap();
    f.end_attributes(&mut w).unwrap();
    f.begin_list(&mut w).unwrap();
    f.begin_list_value(&mut w, true).unwrap();
    f.end_list_value(&mut w).unwrap();
    f.begin_list_value(&mut w, false).unwrap();
    f.end_list_value(&mut w).unwrap();
    f.end_list(&mut w).unwrap();
    f.begin_map(&mut w).unwrap();
    f.begin_map_key(&mut w, true).unwrap();
    f.end_map_key(&mut w).unwrap();
    f.begin_map_value(&mut w).unwrap();
    f.end_map_value(&mut w).unwrap();
    f.begin_map_key(&mut w, false).unwrap();
    f.end_map_key(&mut w).unwrap();
    f.begin_map_value(&mut w).unwrap();
    f.end_map_value(&mut w).unwrap();
    f.end_map(&mut w).unwrap();
    assert_eq!(text(w), "<>[;]{=;=}");
}

#[test]
fn byte_list_is_a_list_of_unsigned_integers() {
    let mut f = TextFormatter;
    let mut w: Vec<u8> = Vec::new();
    write_byte_list(&mut f, &mut w, &[1, 2, 255]).unwrap();
    assert_eq!(text(w), "[1u;2u;255u]");

    let mut w: Vec<u8> = Vec::new();
    write_byte_list(&mut f, &mut w, &[]).unwrap();
    assert_eq!(text(w), "[]");

    let mut p = PrettyFormatter::new();
    let mut w: Vec<u8> = Vec::new();
    write_byte_list(&mut p, &mut w, &[0, 7]).unwrap();
    assert_eq!(text(w), "[\n  0u;\n  7u\n]");
    assert_eq!(p.current_indent, 0);
}

#[test]
fn pretty_events_keep_the_counters() {
    let mut f = PrettyFormatter::with_indent(b"..");
    let mut w: Vec<u8> = Vec::new();
    f.begin_map(&mut w).unwrap();
    assert_eq!(f.current_indent, 1);
    assert!(!f.has_value);
    f.begin_map_key(&mut w, true).unwrap();
    f.end_map_key(&mut w).unwrap();
    f.begin_map_value(&mut w).unwrap();
    f.begin_list(&mut w).unwrap();
    assert_eq!(f.current_indent, 2);
    f.end_list(&mut w).unwrap();
    assert_eq!(f.current_indent, 1);
    assert!(!f.has_value);
    f.end_map_value(&mut w).unwrap();
    assert!(f.has_value);
    f.begin_map_key(&mut w, false).unwrap();
    f.end_map_value(&mut w).unwrap();
    f.end_map(&mut w).unwrap();
    assert_eq!(f.current_indent, 0);
    assert_eq!(text(w), "{\n.. = [];\n..\n}");
}

#[test]
fn pretty_attribute_block_ends_with_a_space() {
    let mut f = PrettyFormatter::new();
    let mut w: Vec<u8> = Vec::new();
    f.begin_attributes(&mut w).unwrap();
    f.begin_map_key(&mut w, true).unwrap();
    f.end_map_value(&mut w).unwrap();
    f.end_attributes(&mut w).unwrap();
    assert_eq!(text(w), "<\n  \n> ");
}

#[test]
fn indent_repeats_the_unit() {
    let mut w: Vec<u8> = vec![b'|'];
    indent(&mut w, 0, b"ab").unwrap();
    assert_eq!(w, b"|");
    indent(&mut w, 3, b"ab").unwrap();
    assert_eq!(w, b"|ababab");
    indent(&mut w, 5, b"").unwrap();
    assert_eq!(w, b"|ababab");
}

#[test]
fn digits_of_numbers() {
    let mut out: Vec<u8> = vec![b'x'];
    push_digits(&mut out, 0);
    push_digits(&mut out, 1203);
    assert_eq!(out, b"x01203");
    assert_eq!(signed_bytes(0), b"0");
    assert_eq!(signed_bytes(-1), b"-1");
    assert_eq!(signed_bytes(1234567890), b"1234567890");
    assert_eq!(signed_bytes(i128::MIN), format!("{}", i128::MIN).as_bytes());
    assert_eq!(unsigned_bytes(0), b"0u");
    assert_eq!(unsigned_bytes(90), b"90u");
    assert_eq!(unsigned_bytes(u128::MAX), format!("{}u", u128::MAX).as_bytes());
}
