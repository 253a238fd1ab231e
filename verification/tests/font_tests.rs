use railreader2::fonts::{
    decode_string, extract_hex_values, glyph_name_to_unicode, mac_roman_char, mac_roman_table,
    parse_to_unicode_cmap, win_ansi_char, win_ansi_table, PdfEncoding,
};
use std::collections::HashMap;

#[test]
fn test_winansi_encoding() {
    let table = win_ansi_table();
    assert_eq!(table[&65], 'A');
    assert_eq!(table[&32], ' ');
    assert_eq!(table[&128], '\u{20AC}');
}

#[test]
fn test_decode_string_winansi() {
    let decoded = decode_string(b"Hello", &PdfEncoding::WinAnsi);
    let text: String = decoded.iter().map(|(c, _)| c).collect();
    assert_eq!(text, "Hello");
}

#[test]
fn test_tounicode_cmap_parse() {
    let cmap = b"beginbfchar\n<0041> <0042>\nendbfchar\n";
    let map = parse_to_unicode_cmap(cmap);
    assert_eq!(map.get(&0x0041), Some(&'B'));
}

#[test]
fn test_winansi_typographic_bytes() {
    assert_eq!(win_ansi_char(151), '\u{2014}');
    assert_eq!(win_ansi_char(200), 200 as char);
    assert_eq!(win_ansi_char(65), 'A');
    let table = win_ansi_table();
    assert_eq!(table[&151], '\u{2014}');
    assert_eq!(table[&140], '\u{0152}');
    assert!(!table.contains_key(&141));
    assert!(!table.contains_key(&31));
}

#[test]
fn test_mac_roman() {
    assert_eq!(mac_roman_char(65), 'A');
    assert_eq!(mac_roman_char(200), 200 as char);
    let table = mac_roman_table();
    assert_eq!(table[&128], '\u{00C4}');
    assert_eq!(table[&153], '\u{00F4}');
    assert!(!table.contains_key(&154));
}

#[test]
fn test_decode_identity_pairs_and_odd_byte() {
    let decoded = decode_string(&[0x00, 0x41, 0x00, 0x42, 0x43], &PdfEncoding::Identity);
    assert_eq!(decoded, vec![('A', 0x41), ('B', 0x42), ('C', 0x43)]);
}

#[test]
fn test_decode_identity_surrogate_replaced() {
    let decoded = decode_string(&[0xD8, 0x00], &PdfEncoding::Identity);
    assert_eq!(decoded, vec![('\u{FFFD}', 0xD800)]);
}

#[test]
fn test_decode_tounicode_two_byte_heuristic() {
    let mut m: HashMap<u16, char> = HashMap::new();
    m.insert(0x0102, 'x');
    m.insert(0x0304, 'y');
    let decoded = decode_string(&[0x01, 0x02, 0x03, 0x04], &PdfEncoding::ToUnicode(m));
    assert_eq!(decoded, vec![('x', 0x0102), ('y', 0x0304)]);
}

#[test]
fn test_decode_tounicode_single_byte_fallback() {
    let mut m: HashMap<u16, char> = HashMap::new();
    m.insert(0x41, 'Z');
    let decoded = decode_string(b"AB", &PdfEncoding::ToUnicode(m));
    assert_eq!(decoded, vec![('Z', 0x41), ('B', 0x42)]);
}

#[test]
fn test_decode_custom_table() {
    let mut t: HashMap<u8, char> = HashMap::new();
    t.insert(1, 'q');
    let decoded = decode_string(&[1, 65], &PdfEncoding::Custom(t));
    assert_eq!(decoded, vec![('q', 1), ('A', 65)]);
}

#[test]
fn test_extract_hex_values_basic() {
    assert_eq!(extract_hex_values(b"<0041> <FFFF>"), vec![0x41, 0xFFFF]);
}

#[test]
fn test_extract_hex_values_skips_bad_groups() {
    // an empty group, an overflowing group, and an unterminated bracket
    assert_eq!(extract_hex_values(b"<> <10041> <0042> <12"), vec![0x42]);
}

#[test]
fn test_cmap_bfrange() {
    let cmap = b"beginbfrange\n<0010> <0012> <0061>\nendbfrange\n";
    let map = parse_to_unicode_cmap(cmap);
    assert_eq!(map.get(&0x10), Some(&'a'));
    assert_eq!(map.get(&0x11), Some(&'b'));
    assert_eq!(map.get(&0x12), Some(&'c'));
    assert_eq!(map.get(&0x13), None);
}

#[test]
fn test_cmap_mixed_sections() {
    let cmap = b"beginbfchar <0001> <0041> endbfchar beginbfchar <0002> <0042> endbfchar";
    let map = parse_to_unicode_cmap(cmap);
    assert_eq!(map.get(&1), Some(&'A'));
    assert_eq!(map.get(&2), Some(&'B'));
    assert_eq!(map.len(), 2);
}

#[test]
fn test_glyph_names() {
    assert_eq!(glyph_name_to_unicode(b"uni0041"), Some('A'));
    assert_eq!(glyph_name_to_unicode(b"uni20AC"), Some('\u{20AC}'));
    assert_eq!(glyph_name_to_unicode(b"uniD800"), None); // surrogate
    assert_eq!(glyph_name_to_unicode(b"space"), Some(' '));
    assert_eq!(glyph_name_to_unicode(b"emdash"), Some('\u{2014}'));
    assert_eq!(glyph_name_to_unicode(b"hyphen"), Some('-'));
    assert_eq!(glyph_name_to_unicode(b"Q"), Some('Q'));
    assert_eq!(glyph_name_to_unicode(&[0xC3]), None); // lone high byte
    assert_eq!(glyph_name_to_unicode(b"unizz"), None); // bad hex, unmatched
    assert_eq!(glyph_name_to_unicode(b"notaglyph"), None);
}
