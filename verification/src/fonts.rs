//! Text-string decoding for the page's fonts: single-byte encodings
//! (WinAnsi, MacRoman, custom difference tables), two-byte identity
//! encoding, and ToUnicode character maps parsed from embedded streams.

use vstd::prelude::*;
use std::collections::HashMap;

verus! {

broadcast use vstd::std_specs::hash::group_hash_axioms;

/// How byte strings of one font decode to Unicode.
#[derive(Clone, Debug)]
pub enum PdfEncoding {
    WinAnsi,
    MacRoman,
    Identity,
    ToUnicode(HashMap<u16, char>),
    Custom(HashMap<u8, char>),
}

/// WinAnsi decoding of one byte: ASCII and Latin-1 ranges map to
/// themselves; the common typographic code points of the 128..160 range
/// map to their Unicode equivalents; anything else falls back to the byte.
pub open spec fn spec_win_ansi_char(b: u8) -> char {
    if 32 <= b <= 126 {
        b as char
    } else if 160 <= b {
        b as char
    } else if b == 128 {
        '\u{20AC}'
    } else if b == 145 {
        '\u{2018}'
    } else if b == 146 {
        '\u{2019}'
    } else if b == 147 {
        '\u{201C}'
    } else if b == 148 {
        '\u{201D}'
    } else if b == 149 {
        '\u{2022}'
    } else if b == 150 {
        '\u{2013}'
    } else if b == 151 {
        '\u{2014}'
    } else {
        b as char
    }
}

/// Decodes one byte as WinAnsi.
pub fn win_ansi_char(b: u8) -> (r: char)
    ensures
        r == spec_win_ansi_char(b),
{
    if 32 <= b && b <= 126 {
        return b as char;
    }
    if 160 <= b {
        return b as char;
    }
    match b {
        128 => '\u{20AC}',
        145 => '\u{2018}',
        146 => '\u{2019}',
        147 => '\u{201C}',
        148 => '\u{201D}',
        149 => '\u{2022}',
        150 => '\u{2013}',
        151 => '\u{2014}',
        _ => b as char,
    }
}

/// MacRoman decoding of one byte: ASCII maps to itself; unmapped bytes
/// fall back to the byte value.
pub open spec fn spec_mac_roman_char(b: u8) -> char {
    b as char
}

/// Decodes one byte as MacRoman.
pub fn mac_roman_char(b: u8) -> (r: char)
    ensures
        r == spec_mac_roman_char(b),
{
    if 32 <= b && b <= 126 {
        return b as char;
    }
    b as char
}

/// A 16-bit code as a character: the code point itself outside the
/// surrogate range, the replacement character inside it.
pub open spec fn spec_u16_char(code: u16) -> char {
    if 0xD800 <= code <= 0xDFFF {
        '\u{FFFD}'
    } else {
        code as char
    }
}

/// Relies on char::from_u32: `Some` exactly for Unicode scalar values
/// (everything except surrogates up to 0x10FFFF), holding that code point.
#[verifier::external_body]
fn char_from_u32(v: u32) -> (r: Option<char>)
    ensures
        r == (if v < 0xD800 || (0xE000 <= v <= 0x10FFFF) {
            Option::Some(v as char)
        } else {
            Option::<char>::None
        }),
{
    char::from_u32(v)
}

/// Two-byte identity decoding: big-endian byte pairs are the codes, with
/// a trailing odd byte taken alone.
pub open spec fn spec_decode_identity(bytes: Seq<u8>) -> Seq<(char, u16)>
    decreases bytes.len(),
{
    if bytes.len() >= 2 {
        let code = (bytes[0] * 256 + bytes[1]) as u16;
        seq![(spec_u16_char(code), code)] + spec_decode_identity(bytes.skip(2))
    } else if bytes.len() == 1 {
        let code = bytes[0] as u16;
        seq![(spec_u16_char(code), code)]
    } else {
        Seq::empty()
    }
}

/// Two-byte ToUnicode decoding: each big-endian pair is looked up in the
/// map, unmapped codes become the replacement character, and a trailing
/// odd byte is dropped.
pub open spec fn spec_decode_two_byte(bytes: Seq<u8>, m: Map<u16, char>) -> Seq<(char, u16)>
    decreases bytes.len(),
{
    if bytes.len() >= 2 {
        let code = (bytes[0] * 256 + bytes[1]) as u16;
        let ch = if m.dom().contains(code) { m[code] } else { '\u{FFFD}' };
        seq![(ch, code)] + spec_decode_two_byte(bytes.skip(2), m)
    } else {
        Seq::empty()
    }
}

/// What `decode_string` returns for each encoding: pairs of the decoded
/// character and the original code (for width lookup).  A ToUnicode font
/// decodes two-byte codes when its map knows the string's first pair, and
/// single bytes otherwise.
pub open spec fn spec_decode_string(bytes: Seq<u8>, encoding: PdfEncoding) -> Seq<(char, u16)> {
    match encoding {
        PdfEncoding::WinAnsi => Seq::new(bytes.len(),
            |i: int| (spec_win_ansi_char(bytes[i]), bytes[i] as u16)),
        PdfEncoding::MacRoman => Seq::new(bytes.len(),
            |i: int| (spec_mac_roman_char(bytes[i]), bytes[i] as u16)),
        PdfEncoding::Identity => spec_decode_identity(bytes),
        PdfEncoding::ToUnicode(m) => {
            if bytes.len() >= 2 && m@.dom().contains((bytes[0] * 256 + bytes[1]) as u16) {
                spec_decode_two_byte(bytes, m@)
            } else {
                Seq::new(bytes.len(), |i: int| {
                    let code = bytes[i] as u16;
                    let ch = if m@.dom().contains(code) { m@[code] } else { bytes[i] as char };
                    (ch, code)
                })
            }
        },
        PdfEncoding::Custom(t) => Seq::new(bytes.len(), |i: int| {
            let ch = if t@.dom().contains(bytes[i]) { t@[bytes[i]] } else { bytes[i] as char };
            (ch, bytes[i] as u16)
        }),
    }
}

/// Decodes a text string under the given encoding into pairs of the
/// Unicode character and the original character code.
#[verifier::loop_isolation(false)]
#[verifier::rlimit(40)]
pub fn decode_string(bytes: &[u8], encoding: &PdfEncoding) -> (r: Vec<(char, u16)>)
    ensures
        r@ == spec_decode_string(bytes@, *encoding),
{
    let n = bytes.len();
    match encoding {
        PdfEncoding::WinAnsi => {
            let mut out: Vec<(char, u16)> = Vec::new();
            let mut i: usize = 0;
            while i < n
                invariant
                    i <= n,
                    out@.len() == i,
                    forall|t: int| 0 <= t < i
                        ==> #[trigger] out@[t] == (spec_win_ansi_char(bytes@[t]), bytes@[t] as u16),
                decreases n - i,
            {
                let b = bytes[i];
                out.push((win_ansi_char(b), b as u16));
                i = i + 1;
            }
            proof {
                assert(out@ =~= spec_decode_string(bytes@, *encoding));
            }
            out
        },
        PdfEncoding::MacRoman => {
            let mut out: Vec<(char, u16)> = Vec::new();
            let mut i: usize = 0;
            while i < n
                invariant
                    i <= n,
                    out@.len() == i,
                    forall|t: int| 0 <= t < i
                        ==> #[trigger] out@[t] == (spec_mac_roman_char(bytes@[t]), bytes@[t] as u16),
                decreases n - i,
            {
                let b = bytes[i];
                out.push((mac_roman_char(b), b as u16));
                i = i + 1;
            }
            proof {
                assert(out@ =~= spec_decode_string(bytes@, *encoding));
            }
            out
        },
        PdfEncoding::Identity => {
            let mut out: Vec<(char, u16)> = Vec::new();
            let mut i: usize = 0;
            proof {
                assert(bytes@.skip(0) =~= bytes@);
                assert(Seq::<(char, u16)>::empty() + spec_decode_identity(bytes@)
                    =~= spec_decode_identity(bytes@));
            }
            while i + 1 < n
                invariant
                    i <= n,
                    i % 2 == 0,
                    out@.len() * 2 == i,
                    spec_decode_identity(bytes@) =~= out@ + spec_decode_identity(bytes@.skip(i as int)),
                decreases n - i,
            {
                let code: u16 = (bytes[i] as u16) * 256 + (bytes[i + 1] as u16);
                let ch = match char_from_u32(code as u32) {
                    Some(c) => c,
                    None => '\u{FFFD}',
                };
                proof {
                    assert(bytes@.skip(i as int)[0] == bytes@[i as int]);
                    assert(bytes@.skip(i as int)[1] == bytes@[i + 1]);
                    assert(bytes@.skip(i as int).skip(2) =~= bytes@.skip(i + 2));
                    assert(ch == spec_u16_char(code));
                    assert((out@ + seq![(ch, code)]) + spec_decode_identity(bytes@.skip(i + 2))
                        =~= out@ + (seq![(ch, code)] + spec_decode_identity(bytes@.skip(i + 2))));
                }
                out.push((ch, code));
                i = i + 2;
            }
            if i < n {
                let code: u16 = bytes[i] as u16;
                let ch = match char_from_u32(code as u32) {
                    Some(c) => c,
                    None => '\u{FFFD}',
                };
                proof {
                    let tail = bytes@.skip(i as int);
                    assert(tail.len() == 1);
                    assert(tail[0] == bytes@[i as int]);
                    assert(ch == spec_u16_char(code));
                    assert(code == tail[0] as u16);
                    assert(spec_decode_identity(tail) == seq![(spec_u16_char(code), code)]);
                    assert(spec_decode_identity(tail) =~= seq![(ch, code)]);
                }
                out.push((ch, code));
                proof {
                    assert(out@ =~= spec_decode_identity(bytes@));
                }
            } else {
                proof {
                    assert(spec_decode_identity(bytes@.skip(i as int)) =~= Seq::<(char, u16)>::empty());
                    assert(out@ =~= spec_decode_identity(bytes@));
                }
            }
            out
        },
        PdfEncoding::ToUnicode(m) => {
            let two_byte = if n >= 2 {
                let test_code: u16 = (bytes[0] as u16) * 256 + (bytes[1] as u16);
                m.contains_key(&test_code)
            } else {
                false
            };
            if two_byte {
                let mut out: Vec<(char, u16)> = Vec::new();
                let mut i: usize = 0;
                proof {
                    assert(bytes@.skip(0) =~= bytes@);
                    assert(Seq::<(char, u16)>::empty() + spec_decode_two_byte(bytes@, m@)
                        =~= spec_decode_two_byte(bytes@, m@));
                }
                while i + 1 < n
                    invariant
                        i <= n,
                        i % 2 == 0,
                        out@.len() * 2 == i,
                        spec_decode_two_byte(bytes@, m@)
                            =~= out@ + spec_decode_two_byte(bytes@.skip(i as int), m@),
                    decreases n - i,
                {
                    let code: u16 = (bytes[i] as u16) * 256 + (bytes[i + 1] as u16);
                    let ch = match m.get(&code) {
                        Some(c) => *c,
                        None => '\u{FFFD}',
                    };
                    proof {
                        assert(bytes@.skip(i as int)[0] == bytes@[i as int]);
                        assert(bytes@.skip(i as int)[1] == bytes@[i + 1]);
                        assert(bytes@.skip(i as int).skip(2) =~= bytes@.skip(i + 2));
                        assert((out@ + seq![(ch, code)]) + spec_decode_two_byte(bytes@.skip(i + 2), m@)
                            =~= out@ + (seq![(ch, code)] + spec_decode_two_byte(bytes@.skip(i + 2), m@)));
                    }
                    out.push((ch, code));
                    i = i + 2;
                }
                proof {
                    assert(spec_decode_two_byte(bytes@.skip(i as int), m@)
                        =~= Seq::<(char, u16)>::empty());
                    assert(out@ =~= spec_decode_two_byte(bytes@, m@));
                }
                out
            } else {
                let mut out: Vec<(char, u16)> = Vec::new();
                let mut i: usize = 0;
                while i < n
                    invariant
                        i <= n,
                        out@.len() == i,
                        forall|t: int| 0 <= t < i
                            ==> #[trigger] out@[t] == {
                                let code = bytes@[t] as u16;
                                let ch = if m@.dom().contains(code) { m@[code] } else { bytes@[t] as char };
                                (ch, code)
                            },
                    decreases n - i,
                {
                    let b = bytes[i];
                    let code: u16 = b as u16;
                    let ch = match m.get(&code) {
                        Some(c) => *c,
                        None => b as char,
                    };
                    out.push((ch, code));
                    i = i + 1;
                }
                proof {
                    assert(out@ =~= spec_decode_string(bytes@, *encoding));
                }
                out
            }
        },
        PdfEncoding::Custom(t) => {
            let mut out: Vec<(char, u16)> = Vec::new();
            let mut i: usize = 0;
            while i < n
                invariant
                    i <= n,
                    out@.len() == i,
                    forall|k: int| 0 <= k < i
                        ==> #[trigger] out@[k] == {
                            let ch = if t@.dom().contains(bytes@[k]) { t@[bytes@[k]] } else { bytes@[k] as char };
                            (ch, bytes@[k] as u16)
                        },
                decreases n - i,
            {
                let b = bytes[i];
                let ch = match t.get(&b) {
                    Some(c) => *c,
                    None => b as char,
                };
                out.push((ch, b as u16));
                i = i + 1;
            }
            proof {
                assert(out@ =~= spec_decode_string(bytes@, *encoding));
            }
            out
        },
    }
}

/// The bytes the WinAnsi table maps: ASCII, Latin-1, and the defined
/// typographic codes of the 128..160 range.
pub open spec fn spec_win_ansi_defined(b: u8) -> bool {
    (32 <= b <= 126) || b == 128 || (130 <= b <= 140) || b == 142
        || (145 <= b <= 156) || b == 158 || b == 159 || 160 <= b
}

/// The character the WinAnsi table assigns to a defined byte.
pub open spec fn spec_win_ansi_table_char(b: u8) -> char {
    if 32 <= b <= 126 {
        b as char
    } else if 160 <= b {
        b as char
    } else if b == 128 { '\u{20AC}' }
    else if b == 130 { '\u{201A}' }
    else if b == 131 { '\u{0192}' }
    else if b == 132 { '\u{201E}' }
    else if b == 133 { '\u{2026}' }
    else if b == 134 { '\u{2020}' }
    else if b == 135 { '\u{2021}' }
    else if b == 136 { '\u{02C6}' }
    else if b == 137 { '\u{2030}' }
    else if b == 138 { '\u{0160}' }
    else if b == 139 { '\u{2039}' }
    else if b == 140 { '\u{0152}' }
    else if b == 142 { '\u{017D}' }
    else if b == 145 { '\u{2018}' }
    else if b == 146 { '\u{2019}' }
    else if b == 147 { '\u{201C}' }
    else if b == 148 { '\u{201D}' }
    else if b == 149 { '\u{2022}' }
    else if b == 150 { '\u{2013}' }
    else if b == 151 { '\u{2014}' }
    else if b == 152 { '\u{02DC}' }
    else if b == 153 { '\u{2122}' }
    else if b == 154 { '\u{0161}' }
    else if b == 155 { '\u{203A}' }
    else if b == 156 { '\u{0153}' }
    else if b == 158 { '\u{017E}' }
    else { '\u{0178}' }
}

/// Builds the full WinAnsi byte-to-character table.
#[verifier::loop_isolation(false)]
#[verifier::rlimit(30)]
pub fn win_ansi_table() -> (r: HashMap<u8, char>)
    ensures
        forall|b: u8| r@.dom().contains(b) == spec_win_ansi_defined(b),
        forall|b: u8| spec_win_ansi_defined(b)
            ==> #[trigger] r@[b] == spec_win_ansi_table_char(b),
{
    let mut m: HashMap<u8, char> = HashMap::new();
    let mut b: u8 = 32;
    while b <= 126
        invariant
            32 <= b <= 127,
            forall|c: u8| m@.dom().contains(c) == (32 <= c < b),
            forall|c: u8| 32 <= c < b ==> #[trigger] m@[c] == c as char,
        decreases 127 - b,
    {
        m.insert(b, b as char);
        b = b + 1;
    }
    m.insert(128, '\u{20AC}');
    m.insert(130, '\u{201A}');
    m.insert(131, '\u{0192}');
    m.insert(132, '\u{201E}');
    m.insert(133, '\u{2026}');
    m.insert(134, '\u{2020}');
    m.insert(135, '\u{2021}');
    m.insert(136, '\u{02C6}');
    m.insert(137, '\u{2030}');
    m.insert(138, '\u{0160}');
    m.insert(139, '\u{2039}');
    m.insert(140, '\u{0152}');
    m.insert(142, '\u{017D}');
    m.insert(145, '\u{2018}');
    m.insert(146, '\u{2019}');
    m.insert(147, '\u{201C}');
    m.insert(148, '\u{201D}');
    m.insert(149, '\u{2022}');
    m.insert(150, '\u{2013}');
    m.insert(151, '\u{2014}');
    m.insert(152, '\u{02DC}');
    m.insert(153, '\u{2122}');
    m.insert(154, '\u{0161}');
    m.insert(155, '\u{203A}');
    m.insert(156, '\u{0153}');
    m.insert(158, '\u{017E}');
    m.insert(159, '\u{0178}');
    proof {
        assert forall|d: u8| m@.dom().contains(d)
            == (spec_win_ansi_defined(d) && d < 160) by {}
        assert forall|d: u8| m@.dom().contains(d)
            implies #[trigger] m@[d] == spec_win_ansi_table_char(d) by {}
    }
    let mut c: u32 = 160;
    while c <= 255
        invariant
            160 <= c <= 256,
            forall|d: u8| m@.dom().contains(d)
                == (spec_win_ansi_defined(d) && (d < 160 || d < c)),
            forall|d: u8| m@.dom().contains(d)
                ==> #[trigger] m@[d] == spec_win_ansi_table_char(d),
        decreases 256 - c,
    {
        let d = c as u8;
        m.insert(d, d as char);
        c = c + 1;
    }
    m
}

/// The bytes the MacRoman table maps: ASCII plus the first 26 high codes.
pub open spec fn spec_mac_roman_defined(b: u8) -> bool {
    (32 <= b <= 126) || (128 <= b <= 153)
}

/// The character the MacRoman table assigns to a defined byte: ASCII maps
/// to itself; the high codes map to the accented Latin letters of the
/// MacRoman layout.
pub open spec fn spec_mac_roman_table_char(b: u8) -> char {
    if 32 <= b <= 126 { b as char }
    else if b == 128 { '\u{00C4}' }
    else if b == 129 { '\u{00C5}' }
    else if b == 130 { '\u{00C7}' }
    else if b == 131 { '\u{00C9}' }
    else if b == 132 { '\u{00D1}' }
    else if b == 133 { '\u{00D6}' }
    else if b == 134 { '\u{00DC}' }
    else if b == 135 { '\u{00E1}' }
    else if b == 136 { '\u{00E0}' }
    else if b == 137 { '\u{00E2}' }
    else if b == 138 { '\u{00E4}' }
    else if b == 139 { '\u{00E3}' }
    else if b == 140 { '\u{00E5}' }
    else if b == 141 { '\u{00E7}' }
    else if b == 142 { '\u{00E9}' }
    else if b == 143 { '\u{00E8}' }
    else if b == 144 { '\u{00EA}' }
    else if b == 145 { '\u{00EB}' }
    else if b == 146 { '\u{00ED}' }
    else if b == 147 { '\u{00EC}' }
    else if b == 148 { '\u{00EE}' }
    else if b == 149 { '\u{00EF}' }
    else if b == 150 { '\u{00F1}' }
    else if b == 151 { '\u{00F3}' }
    else if b == 152 { '\u{00F2}' }
    else { '\u{00F4}' }
}

/// Builds the abbreviated MacRoman byte-to-character table.
#[verifier::loop_isolation(false)]
#[verifier::rlimit(30)]
pub fn mac_roman_table() -> (r: HashMap<u8, char>)
    ensures
        forall|b: u8| r@.dom().contains(b) == spec_mac_roman_defined(b),
        forall|b: u8| spec_mac_roman_defined(b)
            ==> #[trigger] r@[b] == spec_mac_roman_table_char(b),
{
    let mut m: HashMap<u8, char> = HashMap::new();
    let mut b: u8 = 32;
    while b <= 126
        invariant
            32 <= b <= 127,
            forall|c: u8| m@.dom().contains(c) == (32 <= c < b),
            forall|c: u8| 32 <= c < b ==> #[trigger] m@[c] == c as char,
        decreases 127 - b,
    {
        m.insert(b, b as char);
        b = b + 1;
    }
    m.insert(128, '\u{00C4}');
    m.insert(129, '\u{00C5}');
    m.insert(130, '\u{00C7}');
    m.insert(131, '\u{00C9}');
    m.insert(132, '\u{00D1}');
    m.insert(133, '\u{00D6}');
    m.insert(134, '\u{00DC}');
    m.insert(135, '\u{00E1}');
    m.insert(136, '\u{00E0}');
    m.insert(137, '\u{00E2}');
    m.insert(138, '\u{00E4}');
    m.insert(139, '\u{00E3}');
    m.insert(140, '\u{00E5}');
    m.insert(141, '\u{00E7}');
    m.insert(142, '\u{00E9}');
    m.insert(143, '\u{00E8}');
    m.insert(144, '\u{00EA}');
    m.insert(145, '\u{00EB}');
    m.insert(146, '\u{00ED}');
    m.insert(147, '\u{00EC}');
    m.insert(148, '\u{00EE}');
    m.insert(149, '\u{00EF}');
    m.insert(150, '\u{00F1}');
    m.insert(151, '\u{00F3}');
    m.insert(152, '\u{00F2}');
    m.insert(153, '\u{00F4}');
    m
}

/// ASCII hexadecimal digit.
pub open spec fn spec_is_hex_digit(b: u8) -> bool {
    (48 <= b <= 57) || (65 <= b <= 70) || (97 <= b <= 102)
}

/// Value of an ASCII hexadecimal digit.
pub open spec fn spec_hex_digit_val(b: u8) -> int {
    if 48 <= b <= 57 {
        b - 48
    } else if 65 <= b <= 70 {
        b - 55
    } else {
        b - 87
    }
}

/// Parses the hex digits among `s[i..end]` as one number, ignoring
/// non-digit bytes: `Some` when at least one digit occurs and the value
/// fits 16 bits.  `val` saturates at `0x10000` once the value overflows.
pub open spec fn spec_hex_parse(s: Seq<u8>, i: int, end: int, got: bool, val: int) -> Option<u16>
    decreases end - i,
{
    if i >= end || i >= s.len() {
        if got && val <= 0xFFFF {
            Option::Some(val as u16)
        } else {
            Option::None
        }
    } else if spec_is_hex_digit(s[i]) {
        let nv = if val * 16 + spec_hex_digit_val(s[i]) > 0xFFFF {
            0x10000int
        } else {
            val * 16 + spec_hex_digit_val(s[i])
        };
        spec_hex_parse(s, i + 1, end, true, nv)
    } else {
        spec_hex_parse(s, i + 1, end, got, val)
    }
}

/// First position of byte `b` in `s[from..end]`.
pub open spec fn spec_find_byte(s: Seq<u8>, b: u8, from: int, end: int) -> Option<int>
    decreases end - from,
{
    if from >= end || from >= s.len() || from < 0 {
        Option::None
    } else if s[from] == b {
        Option::Some(from)
    } else {
        spec_find_byte(s, b, from + 1, end)
    }
}

/// The 16-bit values of the `<...>` bracket groups of `s[i..end]`,
/// appended to `acc`: each group's hex digits are collected and parsed,
/// groups without digits or past 16 bits are skipped, and an unterminated
/// `<` is skipped as an ordinary byte.
pub open spec fn spec_extract_hex(s: Seq<u8>, i: int, end: int, acc: Seq<u16>) -> Seq<u16>
    decreases end - i,
        via spec_extract_hex_decreases
{
    if i >= end || i >= s.len() || i < 0 {
        acc
    } else if s[i] == 60 {
        match spec_find_byte(s, 62, i + 1, end) {
            Option::Some(j) => {
                let acc2 = match spec_hex_parse(s, i + 1, j, false, 0) {
                    Option::Some(v) => acc.push(v),
                    Option::None => acc,
                };
                spec_extract_hex(s, j + 1, end, acc2)
            },
            Option::None => spec_extract_hex(s, i + 1, end, acc),
        }
    } else {
        spec_extract_hex(s, i + 1, end, acc)
    }
}

/// A found byte position lies between the search start and the end.
pub proof fn lemma_find_byte_range(s: Seq<u8>, b: u8, from: int, end: int)
    ensures
        match spec_find_byte(s, b, from, end) {
            Option::Some(j) => from <= j < end && j < s.len(),
            Option::None => true,
        },
    decreases end - from,
{
    if 0 <= from < s.len() && from < end && s[from] != b {
        lemma_find_byte_range(s, b, from + 1, end);
    }
}

#[via_fn]
proof fn spec_extract_hex_decreases(s: Seq<u8>, i: int, end: int, acc: Seq<u16>) {
    lemma_find_byte_range(s, 62, i + 1, end);
}

/// Finds the first `>` in `text[from..end]`.
#[verifier::loop_isolation(false)]
fn find_byte_gt(text: &[u8], from: usize, end: usize) -> (r: Option<usize>)
    requires
        end <= text@.len(),
    ensures
        match r {
            Option::Some(j) => spec_find_byte(text@, 62, from as int, end as int)
                == Option::Some(j as int) && from <= j < end,
            Option::None => spec_find_byte(text@, 62, from as int, end as int) is None,
        },
{
    let mut i: usize = from;
    while i < end
        invariant
            from <= i,
            spec_find_byte(text@, 62, from as int, end as int)
                == spec_find_byte(text@, 62, i as int, end as int),
        decreases end - i,
    {
        if text[i] == 62 {
            return Some(i);
        }
        i = i + 1;
    }
    None
}

/// Extracts the bracketed 16-bit hex values of `text[start..end]`, in
/// order.
#[verifier::loop_isolation(false)]
fn extract_hex_range(text: &[u8], start: usize, end: usize) -> (r: Vec<u16>)
    requires
        start <= end <= text@.len(),
    ensures
        r@ == spec_extract_hex(text@, start as int, end as int, Seq::empty()),
{
    let n = end;
    let mut out: Vec<u16> = Vec::new();
    let mut i: usize = start;
    while i < n
        invariant
            i <= n,
            n == end <= text@.len(),
            spec_extract_hex(text@, start as int, end as int, Seq::empty())
                == spec_extract_hex(text@, i as int, end as int, out@),
        decreases n - i,
    {
        if text[i] == 60 {
            match find_byte_gt(text, i + 1, end) {
                Some(j) => {
                    // collect the hex digits of text[i+1..j]
                    let mut got = false;
                    let mut val: u32 = 0;
                    let mut k: usize = i + 1;
                    while k < j
                        invariant
                            i + 1 <= k <= j < end,
                            end <= text@.len(),
                            val <= 0x10000,
                            spec_hex_parse(text@, i + 1, j as int, false, 0)
                                == spec_hex_parse(text@, k as int, j as int, got, val as int),
                        decreases j - k,
                    {
                        let b = text[k];
                        let is_digit = (48 <= b && b <= 57) || (65 <= b && b <= 70)
                            || (97 <= b && b <= 102);
                        if is_digit {
                            let d: u32 = if 48 <= b && b <= 57 {
                                (b - 48) as u32
                            } else if 65 <= b && b <= 70 {
                                (b - 55) as u32
                            } else {
                                (b - 87) as u32
                            };
                            let nv = val * 16 + d;
                            val = if nv > 0xFFFF { 0x10000 } else { nv };
                            got = true;
                        }
                        k = k + 1;
                    }
                    if got && val <= 0xFFFF {
                        out.push(val as u16);
                    }
                    i = j + 1;
                },
                None => {
                    i = i + 1;
                },
            }
        } else {
            i = i + 1;
        }
    }
    proof {
        assert(spec_extract_hex(text@, i as int, end as int, out@) == out@);
    }
    out
}

/// Extracts the bracketed 16-bit hex values of a byte string, in order.
pub fn extract_hex_values(text: &[u8]) -> (r: Vec<u16>)
    ensures
        r@ == spec_extract_hex(text@, 0, text@.len() as int, Seq::empty()),
{
    extract_hex_range(text, 0, text.len())
}

/// The keyword `beginbfchar`.
pub open spec fn spec_kw_beginbfchar() -> Seq<u8> {
    seq![98u8, 101, 103, 105, 110, 98, 102, 99, 104, 97, 114]
}

/// The keyword `endbfchar`.
pub open spec fn spec_kw_endbfchar() -> Seq<u8> {
    seq![101u8, 110, 100, 98, 102, 99, 104, 97, 114]
}

/// The keyword `beginbfrange`.
pub open spec fn spec_kw_beginbfrange() -> Seq<u8> {
    seq![98u8, 101, 103, 105, 110, 98, 102, 114, 97, 110, 103, 101]
}

/// The keyword `endbfrange`.
pub open spec fn spec_kw_endbfrange() -> Seq<u8> {
    seq![101u8, 110, 100, 98, 102, 114, 97, 110, 103, 101]
}

/// First position at or after `from` where `pat` occurs in `s`.
pub open spec fn spec_find_sub(s: Seq<u8>, pat: Seq<u8>, from: int) -> Option<int>
    decreases s.len() - from,
{
    if from < 0 || pat.len() == 0 || from + pat.len() > s.len() {
        Option::None
    } else if s.subrange(from, from + pat.len() as int) == pat {
        Option::Some(from)
    } else {
        spec_find_sub(s, pat, from + 1)
    }
}

/// A found occurrence lies within the string.
pub proof fn lemma_find_sub_range(s: Seq<u8>, pat: Seq<u8>, from: int)
    ensures
        match spec_find_sub(s, pat, from) {
            Option::Some(j) => from <= j && j + pat.len() <= s.len(),
            Option::None => true,
        },
    decreases s.len() - from,
{
    if !(from < 0 || pat.len() == 0 || from + pat.len() > s.len())
        && s.subrange(from, from + pat.len() as int) != pat {
        lemma_find_sub_range(s, pat, from + 1);
    }
}

/// Inserts the `<src> <dst>` pairs of a `bfchar` section: destination
/// codes in the surrogate range are skipped, a trailing unpaired value is
/// dropped.
pub open spec fn spec_add_bfchar_pairs(vals: Seq<u16>, m: Map<u16, char>) -> Map<u16, char>
    decreases vals.len(),
{
    if vals.len() >= 2 {
        let m2 = if 0xD800 <= vals[1] <= 0xDFFF {
            m
        } else {
            m.insert(vals[0], vals[1] as char)
        };
        spec_add_bfchar_pairs(vals.skip(2), m2)
    } else {
        m
    }
}

/// Inserts one `bfrange` run: each code of `[code, end_code]` maps to the
/// destination advanced by its offset from `start` (wrapping at 16 bits);
/// surrogate destinations are skipped.
pub open spec fn spec_add_range(code: int, end_code: int, start: int, dst: int, m: Map<u16, char>) -> Map<u16, char>
    decreases end_code - code + 1,
{
    if code > end_code || code > 0xFFFF || code < 0 {
        m
    } else {
        let u = (dst + (code - start)) % 0x10000;
        let m2 = if 0xD800 <= u <= 0xDFFF {
            m
        } else {
            m.insert(code as u16, (u as u32) as char)
        };
        spec_add_range(code + 1, end_code, start, dst, m2)
    }
}

/// Inserts the `<start> <end> <dst>` triples of a `bfrange` section; an
/// incomplete trailing triple is dropped.
pub open spec fn spec_add_bfrange_triples(vals: Seq<u16>, m: Map<u16, char>) -> Map<u16, char>
    decreases vals.len(),
{
    if vals.len() >= 3 {
        let m2 = spec_add_range(vals[0] as int, vals[1] as int, vals[0] as int, vals[2] as int, m);
        spec_add_bfrange_triples(vals.skip(3), m2)
    } else {
        m
    }
}

/// Folds every `beginbfchar .. endbfchar` section of `s[from..]` into `m`.
pub open spec fn spec_scan_bfchar(s: Seq<u8>, from: int, m: Map<u16, char>) -> Map<u16, char>
    decreases s.len() - from,
        via spec_scan_bfchar_decreases
{
    match spec_find_sub(s, spec_kw_beginbfchar(), from) {
        Option::None => m,
        Option::Some(st) => {
            let cs = st + 11;
            let ce = match spec_find_sub(s, spec_kw_endbfchar(), cs) {
                Option::Some(e) => e,
                Option::None => s.len() as int,
            };
            let vals = spec_extract_hex(s, cs, ce, Seq::empty());
            spec_scan_bfchar(s, ce, spec_add_bfchar_pairs(vals, m))
        },
    }
}

#[via_fn]
proof fn spec_scan_bfchar_decreases(s: Seq<u8>, from: int, m: Map<u16, char>) {
    lemma_find_sub_range(s, spec_kw_beginbfchar(), from);
    if spec_find_sub(s, spec_kw_beginbfchar(), from) is Some {
        let st = spec_find_sub(s, spec_kw_beginbfchar(), from)->Some_0;
        lemma_find_sub_range(s, spec_kw_endbfchar(), st + 11);
    }
}

/// Folds every `beginbfrange .. endbfrange` section of `s[from..]` into `m`.
pub open spec fn spec_scan_bfrange(s: Seq<u8>, from: int, m: Map<u16, char>) -> Map<u16, char>
    decreases s.len() - from,
        via spec_scan_bfrange_decreases
{
    match spec_find_sub(s, spec_kw_beginbfrange(), from) {
        Option::None => m,
        Option::Some(st) => {
            let cs = st + 12;
            let ce = match spec_find_sub(s, spec_kw_endbfrange(), cs) {
                Option::Some(e) => e,
                Option::None => s.len() as int,
            };
            let vals = spec_extract_hex(s, cs, ce, Seq::empty());
            spec_scan_bfrange(s, ce, spec_add_bfrange_triples(vals, m))
        },
    }
}

#[via_fn]
proof fn spec_scan_bfrange_decreases(s: Seq<u8>, from: int, m: Map<u16, char>) {
    lemma_find_sub_range(s, spec_kw_beginbfrange(), from);
    if spec_find_sub(s, spec_kw_beginbfrange(), from) is Some {
        let st = spec_find_sub(s, spec_kw_beginbfrange(), from)->Some_0;
        lemma_find_sub_range(s, spec_kw_endbfrange(), st + 12);
    }
}

/// The character map a ToUnicode stream describes: all `bfchar` sections
/// first, then all `bfrange` sections.
pub open spec fn spec_parse_cmap(s: Seq<u8>) -> Map<u16, char> {
    spec_scan_bfrange(s, 0, spec_scan_bfchar(s, 0, Map::empty()))
}

/// Finds the first occurrence of `pat` in `text` at or after `from`.
#[verifier::loop_isolation(false)]
fn find_sub(text: &[u8], pat: &Vec<u8>, from: usize) -> (r: Option<usize>)
    requires
        pat@.len() >= 1,
    ensures
        match r {
            Option::Some(j) => spec_find_sub(text@, pat@, from as int) == Option::Some(j as int)
                && from <= j && j + pat@.len() <= text@.len(),
            Option::None => spec_find_sub(text@, pat@, from as int) is None,
        },
{
    let n = text.len();
    let pl = pat.len();
    if pl > n {
        return None;
    }
    let mut i: usize = from;
    while i <= n - pl
        invariant
            from <= i,
            pl == pat@.len() >= 1,
            pl <= n,
            n == text@.len(),
            spec_find_sub(text@, pat@, from as int) == spec_find_sub(text@, pat@, i as int),
        decreases n - i,
    {
        let mut k: usize = 0;
        let mut ok = true;
        while k < pl
            invariant
                i + pl <= n,
                pl == pat@.len(),
                n == text@.len(),
                k <= pl,
                !ok ==> k == pl,
                ok ==> (forall|t: int| 0 <= t < k ==> text@[i + t] == pat@[t]),
                ok || text@.subrange(i as int, i + pl) != pat@,
            decreases pl - k,
        {
            if text[i + k] != pat[k] {
                proof {
                    if text@.subrange(i as int, i + pl) == pat@ {
                        assert(text@.subrange(i as int, i + pl)[k as int] == pat@[k as int]);
                        assert(false);
                    }
                }
                ok = false;
                k = pl;
            } else {
                proof {
                    assert forall|t: int| 0 <= t < k + 1 implies text@[i + t] == pat@[t] by {
                        if t == k {
                            assert(text@[i + k] == pat@[k as int]);
                        }
                    }
                }
                k = k + 1;
            }
        }
        if ok {
            proof {
                assert(text@.subrange(i as int, i + pl) =~= pat@);
            }
            return Some(i);
        }
        i = i + 1;
    }
    proof {
        if spec_find_sub(text@, pat@, i as int) is Some {
            lemma_find_sub_range(text@, pat@, i as int);
        }
    }
    None
}

/// Parses the `bfchar` and `bfrange` sections of a ToUnicode character
/// map stream into a code-to-character table.
#[verifier::loop_isolation(false)]
#[verifier::rlimit(40)]
pub fn parse_to_unicode_cmap(data: &[u8]) -> (r: HashMap<u16, char>)
    ensures
        r@ == spec_parse_cmap(data@),
{
    let n = data.len();
    let mut begin_char: Vec<u8> = Vec::new();
    begin_char.push(98); begin_char.push(101); begin_char.push(103); begin_char.push(105);
    begin_char.push(110); begin_char.push(98); begin_char.push(102); begin_char.push(99);
    begin_char.push(104); begin_char.push(97); begin_char.push(114);
    let mut end_char: Vec<u8> = Vec::new();
    end_char.push(101); end_char.push(110); end_char.push(100); end_char.push(98);
    end_char.push(102); end_char.push(99); end_char.push(104); end_char.push(97);
    end_char.push(114);
    let mut begin_range: Vec<u8> = Vec::new();
    begin_range.push(98); begin_range.push(101); begin_range.push(103); begin_range.push(105);
    begin_range.push(110); begin_range.push(98); begin_range.push(102); begin_range.push(114);
    begin_range.push(97); begin_range.push(110); begin_range.push(103); begin_range.push(101);
    let mut end_range: Vec<u8> = Vec::new();
    end_range.push(101); end_range.push(110); end_range.push(100); end_range.push(98);
    end_range.push(102); end_range.push(114); end_range.push(97); end_range.push(110);
    end_range.push(103); end_range.push(101);
    proof {
        assert(begin_char@ =~= spec_kw_beginbfchar());
        assert(end_char@ =~= spec_kw_endbfchar());
        assert(begin_range@ =~= spec_kw_beginbfrange());
        assert(end_range@ =~= spec_kw_endbfrange());
    }

    let mut m: HashMap<u16, char> = HashMap::new();
    let mut from: usize = 0;
    let mut done = false;
    while !done
        invariant
            from <= n,
            n == data@.len(),
            begin_char@ == spec_kw_beginbfchar(),
            end_char@ == spec_kw_endbfchar(),
            spec_scan_bfchar(data@, 0, Map::empty())
                == (if done { m@ } else { spec_scan_bfchar(data@, from as int, m@) }),
        decreases n - from, (if done { 0int } else { 1int }),
    {
        match find_sub(data, &begin_char, from) {
            None => {
                done = true;
            },
            Some(st) => {
                let cs = st + 11;
                let ce = match find_sub(data, &end_char, cs) {
                    Some(e) => e,
                    None => n,
                };
                let vals = extract_hex_range(data, cs, ce);
                let ghost m_entry = m@;
                proof {
                    assert(vals@.skip(0) =~= vals@);
                }
                let mut p: usize = 0;
                while p < vals.len() && vals.len() - p > 1
                    invariant
                        p <= vals@.len(),
                        spec_add_bfchar_pairs(vals@, m_entry)
                            == spec_add_bfchar_pairs(vals@.skip(p as int), m@),
                    decreases vals@.len() - p,
                {
                    let v0 = vals[p];
                    let v1 = vals[p + 1];
                    proof {
                        assert(vals@.skip(p as int)[0] == vals@[p as int]);
                        assert(vals@.skip(p as int)[1] == vals@[p + 1]);
                        assert(vals@.skip(p as int).skip(2) =~= vals@.skip(p + 2));
                    }
                    if !(0xD800 <= v1 && v1 <= 0xDFFF) {
                        match char_from_u32(v1 as u32) {
                            Some(c) => {
                                m.insert(v0, c);
                            },
                            None => {
                                proof {
                                    assert(false);
                                }
                            },
                        }
                    }
                    p = p + 2;
                }
                proof {
                    assert(vals@.skip(p as int).len() < 2);
                    assert(spec_add_bfchar_pairs(vals@.skip(p as int), m@) == m@);
                }
                from = ce;
            },
        }
    }

    proof {
        assert(spec_parse_cmap(data@) == spec_scan_bfrange(data@, 0, m@));
    }
    let mut from2: usize = 0;
    let mut done2 = false;
    while !done2
        invariant
            from2 <= n,
            n == data@.len(),
            begin_range@ == spec_kw_beginbfrange(),
            end_range@ == spec_kw_endbfrange(),
            spec_parse_cmap(data@)
                == (if done2 { m@ } else { spec_scan_bfrange(data@, from2 as int, m@) }),
        decreases n - from2, (if done2 { 0int } else { 1int }),
    {
        match find_sub(data, &begin_range, from2) {
            None => {
                done2 = true;
            },
            Some(st) => {
                let cs = st + 12;
                let ce = match find_sub(data, &end_range, cs) {
                    Some(e) => e,
                    None => n,
                };
                let vals = extract_hex_range(data, cs, ce);
                let ghost m_entry = m@;
                proof {
                    assert(vals@.skip(0) =~= vals@);
                }
                let mut p: usize = 0;
                while p < vals.len() && vals.len() - p > 2
                    invariant
                        p <= vals@.len(),
                        spec_add_bfrange_triples(vals@, m_entry)
                            == spec_add_bfrange_triples(vals@.skip(p as int), m@),
                    decreases vals@.len() - p,
                {
                    let rs = vals[p];
                    let re = vals[p + 1];
                    let dst = vals[p + 2];
                    proof {
                        assert(vals@.skip(p as int)[0] == vals@[p as int]);
                        assert(vals@.skip(p as int)[1] == vals@[p + 1]);
                        assert(vals@.skip(p as int)[2] == vals@[p + 2]);
                        assert(vals@.skip(p as int).skip(3) =~= vals@.skip(p + 3));
                    }
                    let ghost m_run = m@;
                    let mut code: u32 = rs as u32;
                    while code <= re as u32
                        invariant
                            rs as u32 <= code,
                            code <= re as u32 + 1 || code == rs as u32,
                            spec_add_range(rs as int, re as int, rs as int, dst as int, m_run)
                                == spec_add_range(code as int, re as int, rs as int, dst as int, m@),
                        decreases re as int + 1 - code,
                    {
                        let u: u32 = ((dst as u32) + (code - (rs as u32))) % 0x10000;
                        if !(0xD800 <= u && u <= 0xDFFF) {
                            match char_from_u32(u) {
                                Some(c) => {
                                    m.insert(code as u16, c);
                                },
                                None => {
                                    proof {
                                        assert(false);
                                    }
                                },
                            }
                        }
                        code = code + 1;
                    }
                    p = p + 3;
                }
                proof {
                    assert(vals@.skip(p as int).len() < 3);
                    assert(spec_add_bfrange_triples(vals@.skip(p as int), m@) == m@);
                }
                from2 = ce;
            },
        }
    }
    m
}


/// Parses a whole hexadecimal numeral as the hex-radix integer parser of
/// std reads it: an optional sign, then at least one hex digit, rejecting
/// any other byte, values past 32 bits, and negative values other than
/// zero.  `val` saturates once the value overflows.
pub open spec fn spec_parse_hex_u32(s: Seq<u8>, i: int, got: bool, val: int, neg: bool) -> Option<u32>
    decreases s.len() - i,
{
    if i >= s.len() || i < 0 {
        if got && val <= u32::MAX && (!neg || val == 0) {
            Option::Some(val as u32)
        } else {
            Option::None
        }
    } else if spec_is_hex_digit(s[i]) {
        let nv = if val * 16 + spec_hex_digit_val(s[i]) > u32::MAX {
            0x1_0000_0000int
        } else {
            val * 16 + spec_hex_digit_val(s[i])
        };
        spec_parse_hex_u32(s, i + 1, true, nv, neg)
    } else {
        Option::None
    }
}

/// The numeral with its optional leading sign stripped.
pub open spec fn spec_parse_hex_u32_signed(s: Seq<u8>) -> Option<u32> {
    if s.len() > 0 && s[0] == 43 {
        spec_parse_hex_u32(s, 1, false, 0, false)
    } else if s.len() > 0 && s[0] == 45 {
        spec_parse_hex_u32(s, 1, false, 0, true)
    } else {
        spec_parse_hex_u32(s, 0, false, 0, false)
    }
}

/// The abbreviated Adobe glyph-name table.
pub open spec fn spec_glyph_table_lookup(name: Seq<u8>) -> Option<char> {
    if false {
        Option::None
    } else if name == seq![115u8, 112u8, 97u8, 99u8, 101u8] {
        Option::Some(' ')
    } else if name == seq![101u8, 120u8, 99u8, 108u8, 97u8, 109u8] {
        Option::Some('!')
    } else if name == seq![113u8, 117u8, 111u8, 116u8, 101u8, 100u8, 98u8, 108u8] {
        Option::Some('"')
    } else if name == seq![110u8, 117u8, 109u8, 98u8, 101u8, 114u8, 115u8, 105u8, 103u8, 110u8] {
        Option::Some('#')
    } else if name == seq![100u8, 111u8, 108u8, 108u8, 97u8, 114u8] {
        Option::Some('$')
    } else if name == seq![112u8, 101u8, 114u8, 99u8, 101u8, 110u8, 116u8] {
        Option::Some('%')
    } else if name == seq![97u8, 109u8, 112u8, 101u8, 114u8, 115u8, 97u8, 110u8, 100u8] {
        Option::Some('&')
    } else if name == seq![113u8, 117u8, 111u8, 116u8, 101u8, 115u8, 105u8, 110u8, 103u8, 108u8, 101u8] {
        Option::Some('\'')
    } else if name == seq![112u8, 97u8, 114u8, 101u8, 110u8, 108u8, 101u8, 102u8, 116u8] {
        Option::Some('(')
    } else if name == seq![112u8, 97u8, 114u8, 101u8, 110u8, 114u8, 105u8, 103u8, 104u8, 116u8] {
        Option::Some(')')
    } else if name == seq![97u8, 115u8, 116u8, 101u8, 114u8, 105u8, 115u8, 107u8] {
        Option::Some('*')
    } else if name == seq![112u8, 108u8, 117u8, 115u8] {
        Option::Some('+')
    } else if name == seq![99u8, 111u8, 109u8, 109u8, 97u8] {
        Option::Some(',')
    } else if name == seq![104u8, 121u8, 112u8, 104u8, 101u8, 110u8] {
        Option::Some('-')
    } else if name == seq![109u8, 105u8, 110u8, 117u8, 115u8] {
        Option::Some('-')
    } else if name == seq![112u8, 101u8, 114u8, 105u8, 111u8, 100u8] {
        Option::Some('.')
    } else if name == seq![115u8, 108u8, 97u8, 115u8, 104u8] {
        Option::Some('/')
    } else if name == seq![122u8, 101u8, 114u8, 111u8] {
        Option::Some('0')
    } else if name == seq![111u8, 110u8, 101u8] {
        Option::Some('1')
    } else if name == seq![116u8, 119u8, 111u8] {
        Option::Some('2')
    } else if name == seq![116u8, 104u8, 114u8, 101u8, 101u8] {
        Option::Some('3')
    } else if name == seq![102u8, 111u8, 117u8, 114u8] {
        Option::Some('4')
    } else if name == seq![102u8, 105u8, 118u8, 101u8] {
        Option::Some('5')
    } else if name == seq![115u8, 105u8, 120u8] {
        Option::Some('6')
    } else if name == seq![115u8, 101u8, 118u8, 101u8, 110u8] {
        Option::Some('7')
    } else if name == seq![101u8, 105u8, 103u8, 104u8, 116u8] {
        Option::Some('8')
    } else if name == seq![110u8, 105u8, 110u8, 101u8] {
        Option::Some('9')
    } else if name == seq![99u8, 111u8, 108u8, 111u8, 110u8] {
        Option::Some(':')
    } else if name == seq![115u8, 101u8, 109u8, 105u8, 99u8, 111u8, 108u8, 111u8, 110u8] {
        Option::Some(';')
    } else if name == seq![108u8, 101u8, 115u8, 115u8] {
        Option::Some('<')
    } else if name == seq![101u8, 113u8, 117u8, 97u8, 108u8] {
        Option::Some('=')
    } else if name == seq![103u8, 114u8, 101u8, 97u8, 116u8, 101u8, 114u8] {
        Option::Some('>')
    } else if name == seq![113u8, 117u8, 101u8, 115u8, 116u8, 105u8, 111u8, 110u8] {
        Option::Some('?')
    } else if name == seq![97u8, 116u8] {
        Option::Some('@')
    } else if name == seq![98u8, 114u8, 97u8, 99u8, 107u8, 101u8, 116u8, 108u8, 101u8, 102u8, 116u8] {
        Option::Some('[')
    } else if name == seq![98u8, 97u8, 99u8, 107u8, 115u8, 108u8, 97u8, 115u8, 104u8] {
        Option::Some('\\')
    } else if name == seq![98u8, 114u8, 97u8, 99u8, 107u8, 101u8, 116u8, 114u8, 105u8, 103u8, 104u8, 116u8] {
        Option::Some(']')
    } else if name == seq![97u8, 115u8, 99u8, 105u8, 105u8, 99u8, 105u8, 114u8, 99u8, 117u8, 109u8] {
        Option::Some('^')
    } else if name == seq![117u8, 110u8, 100u8, 101u8, 114u8, 115u8, 99u8, 111u8, 114u8, 101u8] {
        Option::Some('_')
    } else if name == seq![103u8, 114u8, 97u8, 118u8, 101u8] {
        Option::Some('`')
    } else if name == seq![98u8, 114u8, 97u8, 99u8, 101u8, 108u8, 101u8, 102u8, 116u8] {
        Option::Some('{')
    } else if name == seq![98u8, 97u8, 114u8] {
        Option::Some('|')
    } else if name == seq![98u8, 114u8, 97u8, 99u8, 101u8, 114u8, 105u8, 103u8, 104u8, 116u8] {
        Option::Some('}')
    } else if name == seq![97u8, 115u8, 99u8, 105u8, 105u8, 116u8, 105u8, 108u8, 100u8, 101u8] {
        Option::Some('~')
    } else if name == seq![98u8, 117u8, 108u8, 108u8, 101u8, 116u8] {
        Option::Some('\u{2022}')
    } else if name == seq![101u8, 110u8, 100u8, 97u8, 115u8, 104u8] {
        Option::Some('\u{2013}')
    } else if name == seq![101u8, 109u8, 100u8, 97u8, 115u8, 104u8] {
        Option::Some('\u{2014}')
    } else if name == seq![113u8, 117u8, 111u8, 116u8, 101u8, 100u8, 98u8, 108u8, 108u8, 101u8, 102u8, 116u8] {
        Option::Some('\u{201C}')
    } else if name == seq![113u8, 117u8, 111u8, 116u8, 101u8, 100u8, 98u8, 108u8, 114u8, 105u8, 103u8, 104u8, 116u8] {
        Option::Some('\u{201D}')
    } else if name == seq![113u8, 117u8, 111u8, 116u8, 101u8, 108u8, 101u8, 102u8, 116u8] {
        Option::Some('\u{2018}')
    } else if name == seq![113u8, 117u8, 111u8, 116u8, 101u8, 114u8, 105u8, 103u8, 104u8, 116u8] {
        Option::Some('\u{2019}')
    } else if name == seq![102u8, 105u8] {
        Option::Some('\u{FB01}')
    } else if name == seq![102u8, 108u8] {
        Option::Some('\u{FB02}')
    } else if name == seq![101u8, 108u8, 108u8, 105u8, 112u8, 115u8, 105u8, 115u8] {
        Option::Some('\u{2026}')
    } else if name == seq![100u8, 97u8, 103u8, 103u8, 101u8, 114u8] {
        Option::Some('\u{2020}')
    } else if name == seq![100u8, 97u8, 103u8, 103u8, 101u8, 114u8, 100u8, 98u8, 108u8] {
        Option::Some('\u{2021}')
    } else if name == seq![116u8, 114u8, 97u8, 100u8, 101u8, 109u8, 97u8, 114u8, 107u8] {
        Option::Some('\u{2122}')
    } else if name == seq![99u8, 111u8, 112u8, 121u8, 114u8, 105u8, 103u8, 104u8, 116u8] {
        Option::Some('\u{00A9}')
    } else if name == seq![114u8, 101u8, 103u8, 105u8, 115u8, 116u8, 101u8, 114u8, 101u8, 100u8] {
        Option::Some('\u{00AE}')
    } else if name == seq![100u8, 101u8, 103u8, 114u8, 101u8, 101u8] {
        Option::Some('\u{00B0}')
    } else if name.len() == 1 && name[0] < 0x80 {
        Option::Some(name[0] as char)
    } else {
        Option::None
    }
}

/// The Unicode character a glyph name stands for: `uniXXXX` names give the
/// scalar value of their hex digits; known Adobe glyph names give their
/// table entry; a single ASCII byte gives itself; everything else is
/// unknown.
pub open spec fn spec_glyph_name_to_unicode(name: Seq<u8>) -> Option<char> {
    if name.len() >= 3 && name[0] == 117 && name[1] == 110 && name[2] == 105
        && spec_parse_hex_u32_signed(name.skip(3)) is Some {
        let v = spec_parse_hex_u32_signed(name.skip(3))->Some_0;
        if v < 0xD800 || (0xE000 <= v <= 0x10FFFF) {
            Option::Some(v as char)
        } else {
            Option::None
        }
    } else {
        spec_glyph_table_lookup(name)
    }
}

/// Parses the hex numeral of a `uniXXXX` glyph name.
#[verifier::loop_isolation(false)]
fn parse_hex_u32_signed(s: &[u8]) -> (r: Option<u32>)
    ensures
        r == spec_parse_hex_u32_signed(s@),
{
    let n = s.len();
    let mut i: usize = 0;
    let mut neg = false;
    if n > 0 && s[0] == 43 {
        i = 1;
    } else if n > 0 && s[0] == 45 {
        i = 1;
        neg = true;
    }
    let ghost start = i as int;
    let mut got = false;
    let mut val: u64 = 0;
    while i < n
        invariant
            start <= i <= n,
            val <= 0x1_0000_0000,
            spec_parse_hex_u32_signed(s@)
                == spec_parse_hex_u32(s@, i as int, got, val as int, neg),
        decreases n - i,
    {
        let b = s[i];
        let is_digit = (48 <= b && b <= 57) || (65 <= b && b <= 70) || (97 <= b && b <= 102);
        if !is_digit {
            return None;
        }
        let d: u64 = if 48 <= b && b <= 57 {
            (b - 48) as u64
        } else if 65 <= b && b <= 70 {
            (b - 55) as u64
        } else {
            (b - 87) as u64
        };
        let nv = val * 16 + d;
        val = if nv > u32::MAX as u64 { 0x1_0000_0000 } else { nv };
        got = true;
        i = i + 1;
    }
    if got && val <= u32::MAX as u64 && (!neg || val == 0) {
        Some(val as u32)
    } else {
        None
    }
}

/// Maps a glyph name to the Unicode character it stands for.
#[verifier::loop_isolation(false)]
#[verifier::rlimit(100)]
pub fn glyph_name_to_unicode(name: &[u8]) -> (r: Option<char>)
    ensures
        r == spec_glyph_name_to_unicode(name@),
{
    if name.len() >= 3 && name[0] == 117 && name[1] == 110 && name[2] == 105 {
        let mut suffix: Vec<u8> = Vec::new();
        let mut k: usize = 3;
        while k < name.len()
            invariant
                3 <= k <= name@.len(),
                suffix@.len() == k - 3,
                forall|t: int| 0 <= t < suffix@.len() ==> #[trigger] suffix@[t] == name@[t + 3],
            decreases name@.len() - k,
        {
            suffix.push(name[k]);
            k = k + 1;
        }
        proof {
            assert(suffix@ =~= name@.skip(3));
        }
        match parse_hex_u32_signed(suffix.as_slice()) {
            Some(v) => {
                return char_from_u32(v);
            },
            None => {},
        }
    }
    glyph_table_lookup(name)
}

/// Looks a name up in the abbreviated Adobe glyph-name table.
#[verifier::rlimit(100)]
fn glyph_table_lookup(name: &[u8]) -> (r: Option<char>)
    ensures
        r == spec_glyph_table_lookup(name@),
{
    if name.len() == 5 && name[0] == 115 && name[1] == 112 && name[2] == 97 && name[3] == 99 && name[4] == 101 {
        proof { assert(name@ =~= seq![115u8, 112u8, 97u8, 99u8, 101u8]); }
        return Some(' ');
    }
    proof { assert(name@ != seq![115u8, 112u8, 97u8, 99u8, 101u8]); }
    if name.len() == 6 && name[0] == 101 && name[1] == 120 && name[2] == 99 && name[3] == 108 && name[4] == 97 && name[5] == 109 {
        proof { assert(name@ =~= seq![101u8, 120u8, 99u8, 108u8, 97u8, 109u8]); }
        return Some('!');
    }
    proof { assert(name@ != seq![101u8, 120u8, 99u8, 108u8, 97u8, 109u8]); }
    if name.len() == 8 && name[0] == 113 && name[1] == 117 && name[2] == 111 && name[3] == 116 && name[4] == 101 && name[5] == 100 && name[6] == 98 && name[7] == 108 {
        proof { assert(name@ =~= seq![113u8, 117u8, 111u8, 116u8, 101u8, 100u8, 98u8, 108u8]); }
        return Some('"');
    }
    proof { assert(name@ != seq![113u8, 117u8, 111u8, 116u8, 101u8, 100u8, 98u8, 108u8]); }
    if name.len() == 10 && name[0] == 110 && name[1] == 117 && name[2] == 109 && name[3] == 98 && name[4] == 101 && name[5] == 114 && name[6] == 115 && name[7] == 105 && name[8] == 103 && name[9] == 110 {
        proof { assert(name@ =~= seq![110u8, 117u8, 109u8, 98u8, 101u8, 114u8, 115u8, 105u8, 103u8, 110u8]); }
        return Some('#');
    }
    proof { assert(name@ != seq![110u8, 117u8, 109u8, 98u8, 101u8, 114u8, 115u8, 105u8, 103u8, 110u8]); }
    if name.len() == 6 && name[0] == 100 && name[1] == 111 && name[2] == 108 && name[3] == 108 && name[4] == 97 && name[5] == 114 {
        proof { assert(name@ =~= seq![100u8, 111u8, 108u8, 108u8, 97u8, 114u8]); }
        return Some('$');
    }
    proof { assert(name@ != seq![100u8, 111u8, 108u8, 108u8, 97u8, 114u8]); }
    if name.len() == 7 && name[0] == 112 && name[1] == 101 && name[2] == 114 && name[3] == 99 && name[4] == 101 && name[5] == 110 && name[6] == 116 {
        proof { assert(name@ =~= seq![112u8, 101u8, 114u8, 99u8, 101u8, 110u8, 116u8]); }
        return Some('%');
    }
    proof { assert(name@ != seq![112u8, 101u8, 114u8, 99u8, 101u8, 110u8, 116u8]); }
    if name.len() == 9 && name[0] == 97 && name[1] == 109 && name[2] == 112 && name[3] == 101 && name[4] == 114 && name[5] == 115 && name[6] == 97 && name[7] == 110 && name[8] == 100 {
        proof { assert(name@ =~= seq![97u8, 109u8, 112u8, 101u8, 114u8, 115u8, 97u8, 110u8, 100u8]); }
        return Some('&');
    }
    proof { assert(name@ != seq![97u8, 109u8, 112u8, 101u8, 114u8, 115u8, 97u8, 110u8, 100u8]); }
    if name.len() == 11 && name[0] == 113 && name[1] == 117 && name[2] == 111 && name[3] == 116 && name[4] == 101 && name[5] == 115 && name[6] == 105 && name[7] == 110 && name[8] == 103 && name[9] == 108 && name[10] == 101 {
        proof { assert(name@ =~= seq![113u8, 117u8, 111u8, 116u8, 101u8, 115u8, 105u8, 110u8, 103u8, 108u8, 101u8]); }
        return Some('\'');
    }
    proof { assert(name@ != seq![113u8, 117u8, 111u8, 116u8, 101u8, 115u8, 105u8, 110u8, 103u8, 108u8, 101u8]); }
    if name.len() == 9 && name[0] == 112 && name[1] == 97 && name[2] == 114 && name[3] == 101 && name[4] == 110 && name[5] == 108 && name[6] == 101 && name[7] == 102 && name[8] == 116 {
        proof { assert(name@ =~= seq![112u8, 97u8, 114u8, 101u8, 110u8, 108u8, 101u8, 102u8, 116u8]); }
        return Some('(');
    }
    proof { assert(name@ != seq![112u8, 97u8, 114u8, 101u8, 110u8, 108u8, 101u8, 102u8, 116u8]); }
    if name.len() == 10 && name[0] == 112 && name[1] == 97 && name[2] == 114 && name[3] == 101 && name[4] == 110 && name[5] == 114 && name[6] == 105 && name[7] == 103 && name[8] == 104 && name[9] == 116 {
        proof { assert(name@ =~= seq![112u8, 97u8, 114u8, 101u8, 110u8, 114u8, 105u8, 103u8, 104u8, 116u8]); }
        return Some(')');
    }
    proof { assert(name@ != seq![112u8, 97u8, 114u8, 101u8, 110u8, 114u8, 105u8, 103u8, 104u8, 116u8]); }
    if name.len() == 8 && name[0] == 97 && name[1] == 115 && name[2] == 116 && name[3] == 101 && name[4] == 114 && name[5] == 105 && name[6] == 115 && name[7] == 107 {
        proof { assert(name@ =~= seq![97u8, 115u8, 116u8, 101u8, 114u8, 105u8, 115u8, 107u8]); }
        return Some('*');
    }
    proof { assert(name@ != seq![97u8, 115u8, 116u8, 101u8, 114u8, 105u8, 115u8, 107u8]); }
    if name.len() == 4 && name[0] == 112 && name[1] == 108 && name[2] == 117 && name[3] == 115 {
        proof { assert(name@ =~= seq![112u8, 108u8, 117u8, 115u8]); }
        return Some('+');
    }
    proof { assert(name@ != seq![112u8, 108u8, 117u8, 115u8]); }
    if name.len() == 5 && name[0] == 99 && name[1] == 111 && name[2] == 109 && name[3] == 109 && name[4] == 97 {
        proof { assert(name@ =~= seq![99u8, 111u8, 109u8, 109u8, 97u8]); }
        return Some(',');
    }
    proof { assert(name@ != seq![99u8, 111u8, 109u8, 109u8, 97u8]); }
    if name.len() == 6 && name[0] == 104 && name[1] == 121 && name[2] == 112 && name[3] == 104 && name[4] == 101 && name[5] == 110 {
        proof { assert(name@ =~= seq![104u8, 121u8, 112u8, 104u8, 101u8, 110u8]); }
        return Some('-');
    }
    proof { assert(name@ != seq![104u8, 121u8, 112u8, 104u8, 101u8, 110u8]); }
    if name.len() == 5 && name[0] == 109 && name[1] == 105 && name[2] == 110 && name[3] == 117 && name[4] == 115 {
        proof { assert(name@ =~= seq![109u8, 105u8, 110u8, 117u8, 115u8]); }
        return Some('-');
    }
    proof { assert(name@ != seq![109u8, 105u8, 110u8, 117u8, 115u8]); }
    if name.len() == 6 && name[0] == 112 && name[1] == 101 && name[2] == 114 && name[3] == 105 && name[4] == 111 && name[5] == 100 {
        proof { assert(name@ =~= seq![112u8, 101u8, 114u8, 105u8, 111u8, 100u8]); }
        return Some('.');
    }
    proof { assert(name@ != seq![112u8, 101u8, 114u8, 105u8, 111u8, 100u8]); }
    if name.len() == 5 && name[0] == 115 && name[1] == 108 && name[2] == 97 && name[3] == 115 && name[4] == 104 {
        proof { assert(name@ =~= seq![115u8, 108u8, 97u8, 115u8, 104u8]); }
        return Some('/');
    }
    proof { assert(name@ != seq![115u8, 108u8, 97u8, 115u8, 104u8]); }
    if name.len() == 4 && name[0] == 122 && name[1] == 101 && name[2] == 114 && name[3] == 111 {
        proof { assert(name@ =~= seq![122u8, 101u8, 114u8, 111u8]); }
        return Some('0');
    }
    proof { assert(name@ != seq![122u8, 101u8, 114u8, 111u8]); }
    if name.len() == 3 && name[0] == 111 && name[1] == 110 && name[2] == 101 {
        proof { assert(name@ =~= seq![111u8, 110u8, 101u8]); }
        return Some('1');
    }
    proof { assert(name@ != seq![111u8, 110u8, 101u8]); }
    if name.len() == 3 && name[0] == 116 && name[1] == 119 && name[2] == 111 {
        proof { assert(name@ =~= seq![116u8, 119u8, 111u8]); }
        return Some('2');
    }
    proof { assert(name@ != seq![116u8, 119u8, 111u8]); }
    if name.len() == 5 && name[0] == 116 && name[1] == 104 && name[2] == 114 && name[3] == 101 && name[4] == 101 {
        proof { assert(name@ =~= seq![116u8, 104u8, 114u8, 101u8, 101u8]); }
        return Some('3');
    }
    proof { assert(name@ != seq![116u8, 104u8, 114u8, 101u8, 101u8]); }
    if name.len() == 4 && name[0] == 102 && name[1] == 111 && name[2] == 117 && name[3] == 114 {
        proof { assert(name@ =~= seq![102u8, 111u8, 117u8, 114u8]); }
        return Some('4');
    }
    proof { assert(name@ != seq![102u8, 111u8, 117u8, 114u8]); }
    if name.len() == 4 && name[0] == 102 && name[1] == 105 && name[2] == 118 && name[3] == 101 {
        proof { assert(name@ =~= seq![102u8, 105u8, 118u8, 101u8]); }
        return Some('5');
    }
    proof { assert(name@ != seq![102u8, 105u8, 118u8, 101u8]); }
    if name.len() == 3 && name[0] == 115 && name[1] == 105 && name[2] == 120 {
        proof { assert(name@ =~= seq![115u8, 105u8, 120u8]); }
        return Some('6');
    }
    proof { assert(name@ != seq![115u8, 105u8, 120u8]); }
    if name.len() == 5 && name[0] == 115 && name[1] == 101 && name[2] == 118 && name[3] == 101 && name[4] == 110 {
        proof { assert(name@ =~= seq![115u8, 101u8, 118u8, 101u8, 110u8]); }
        return Some('7');
    }
    proof { assert(name@ != seq![115u8, 101u8, 118u8, 101u8, 110u8]); }
    if name.len() == 5 && name[0] == 101 && name[1] == 105 && name[2] == 103 && name[3] == 104 && name[4] == 116 {
        proof { assert(name@ =~= seq![101u8, 105u8, 103u8, 104u8, 116u8]); }
        return Some('8');
    }
    proof { assert(name@ != seq![101u8, 105u8, 103u8, 104u8, 116u8]); }
    if name.len() == 4 && name[0] == 110 && name[1] == 105 && name[2] == 110 && name[3] == 101 {
        proof { assert(name@ =~= seq![110u8, 105u8, 110u8, 101u8]); }
        return Some('9');
    }
    proof { assert(name@ != seq![110u8, 105u8, 110u8, 101u8]); }
    if name.len() == 5 && name[0] == 99 && name[1] == 111 && name[2] == 108 && name[3] == 111 && name[4] == 110 {
        proof { assert(name@ =~= seq![99u8, 111u8, 108u8, 111u8, 110u8]); }
        return Some(':');
    }
    proof { assert(name@ != seq![99u8, 111u8, 108u8, 111u8, 110u8]); }
    if name.len() == 9 && name[0] == 115 && name[1] == 101 && name[2] == 109 && name[3] == 105 && name[4] == 99 && name[5] == 111 && name[6] == 108 && name[7] == 111 && name[8] == 110 {
        proof { assert(name@ =~= seq![115u8, 101u8, 109u8, 105u8, 99u8, 111u8, 108u8, 111u8, 110u8]); }
        return Some(';');
    }
    proof { assert(name@ != seq![115u8, 101u8, 109u8, 105u8, 99u8, 111u8, 108u8, 111u8, 110u8]); }
    if name.len() == 4 && name[0] == 108 && name[1] == 101 && name[2] == 115 && name[3] == 115 {
        proof { assert(name@ =~= seq![108u8, 101u8, 115u8, 115u8]); }
        return Some('<');
    }
    proof { assert(name@ != seq![108u8, 101u8, 115u8, 115u8]); }
    if name.len() == 5 && name[0] == 101 && name[1] == 113 && name[2] == 117 && name[3] == 97 && name[4] == 108 {
        proof { assert(name@ =~= seq![101u8, 113u8, 117u8, 97u8, 108u8]); }
        return Some('=');
    }
    proof { assert(name@ != seq![101u8, 113u8, 117u8, 97u8, 108u8]); }
    if name.len() == 7 && name[0] == 103 && name[1] == 114 && name[2] == 101 && name[3] == 97 && name[4] == 116 && name[5] == 101 && name[6] == 114 {
        proof { assert(name@ =~= seq![103u8, 114u8, 101u8, 97u8, 116u8, 101u8, 114u8]); }
        return Some('>');
    }
    proof { assert(name@ != seq![103u8, 114u8, 101u8, 97u8, 116u8, 101u8, 114u8]); }
    if name.len() == 8 && name[0] == 113 && name[1] == 117 && name[2] == 101 && name[3] == 115 && name[4] == 116 && name[5] == 105 && name[6] == 111 && name[7] == 110 {
        proof { assert(name@ =~= seq![113u8, 117u8, 101u8, 115u8, 116u8, 105u8, 111u8, 110u8]); }
        return Some('?');
    }
    proof { assert(name@ != seq![113u8, 117u8, 101u8, 115u8, 116u8, 105u8, 111u8, 110u8]); }
    if name.len() == 2 && name[0] == 97 && name[1] == 116 {
        proof { assert(name@ =~= seq![97u8, 116u8]); }
        return Some('@');
    }
    proof { assert(name@ != seq![97u8, 116u8]); }
    if name.len() == 11 && name[0] == 98 && name[1] == 114 && name[2] == 97 && name[3] == 99 && name[4] == 107 && name[5] == 101 && name[6] == 116 && name[7] == 108 && name[8] == 101 && name[9] == 102 && name[10] == 116 {
        proof { assert(name@ =~= seq![98u8, 114u8, 97u8, 99u8, 107u8, 101u8, 116u8, 108u8, 101u8, 102u8, 116u8]); }
        return Some('[');
    }
    proof { assert(name@ != seq![98u8, 114u8, 97u8, 99u8, 107u8, 101u8, 116u8, 108u8, 101u8, 102u8, 116u8]); }
    if name.len() == 9 && name[0] == 98 && name[1] == 97 && name[2] == 99 && name[3] == 107 && name[4] == 115 && name[5] == 108 && name[6] == 97 && name[7] == 115 && name[8] == 104 {
        proof { assert(name@ =~= seq![98u8, 97u8, 99u8, 107u8, 115u8, 108u8, 97u8, 115u8, 104u8]); }
        return Some('\\');
    }
    proof { assert(name@ != seq![98u8, 97u8, 99u8, 107u8, 115u8, 108u8, 97u8, 115u8, 104u8]); }
    if name.len() == 12 && name[0] == 98 && name[1] == 114 && name[2] == 97 && name[3] == 99 && name[4] == 107 && name[5] == 101 && name[6] == 116 && name[7] == 114 && name[8] == 105 && name[9] == 103 && name[10] == 104 && name[11] == 116 {
        proof { assert(name@ =~= seq![98u8, 114u8, 97u8, 99u8, 107u8, 101u8, 116u8, 114u8, 105u8, 103u8, 104u8, 116u8]); }
        return Some(']');
    }
    proof { assert(name@ != seq![98u8, 114u8, 97u8, 99u8, 107u8, 101u8, 116u8, 114u8, 105u8, 103u8, 104u8, 116u8]); }
    if name.len() == 11 && name[0] == 97 && name[1] == 115 && name[2] == 99 && name[3] == 105 && name[4] == 105 && name[5] == 99 && name[6] == 105 && name[7] == 114 && name[8] == 99 && name[9] == 117 && name[10] == 109 {
        proof { assert(name@ =~= seq![97u8, 115u8, 99u8, 105u8, 105u8, 99u8, 105u8, 114u8, 99u8, 117u8, 109u8]); }
        return Some('^');
    }
    proof { assert(name@ != seq![97u8, 115u8, 99u8, 105u8, 105u8, 99u8, 105u8, 114u8, 99u8, 117u8, 109u8]); }
    if name.len() == 10 && name[0] == 117 && name[1] == 110 && name[2] == 100 && name[3] == 101 && name[4] == 114 && name[5] == 115 && name[6] == 99 && name[7] == 111 && name[8] == 114 && name[9] == 101 {
        proof { assert(name@ =~= seq![117u8, 110u8, 100u8, 101u8, 114u8, 115u8, 99u8, 111u8, 114u8, 101u8]); }
        return Some('_');
    }
    proof { assert(name@ != seq![117u8, 110u8, 100u8, 101u8, 114u8, 115u8, 99u8, 111u8, 114u8, 101u8]); }
    if name.len() == 5 && name[0] == 103 && name[1] == 114 && name[2] == 97 && name[3] == 118 && name[4] == 101 {
        proof { assert(name@ =~= seq![103u8, 114u8, 97u8, 118u8, 101u8]); }
        return Some('`');
    }
    proof { assert(name@ != seq![103u8, 114u8, 97u8, 118u8, 101u8]); }
    if name.len() == 9 && name[0] == 98 && name[1] == 114 && name[2] == 97 && name[3] == 99 && name[4] == 101 && name[5] == 108 && name[6] == 101 && name[7] == 102 && name[8] == 116 {
        proof { assert(name@ =~= seq![98u8, 114u8, 97u8, 99u8, 101u8, 108u8, 101u8, 102u8, 116u8]); }
        return Some('{');
    }
    proof { assert(name@ != seq![98u8, 114u8, 97u8, 99u8, 101u8, 108u8, 101u8, 102u8, 116u8]); }
    if name.len() == 3 && name[0] == 98 && name[1] == 97 && name[2] == 114 {
        proof { assert(name@ =~= seq![98u8, 97u8, 114u8]); }
        return Some('|');
    }
    proof { assert(name@ != seq![98u8, 97u8, 114u8]); }
    if name.len() == 10 && name[0] == 98 && name[1] == 114 && name[2] == 97 && name[3] == 99 && name[4] == 101 && name[5] == 114 && name[6] == 105 && name[7] == 103 && name[8] == 104 && name[9] == 116 {
        proof { assert(name@ =~= seq![98u8, 114u8, 97u8, 99u8, 101u8, 114u8, 105u8, 103u8, 104u8, 116u8]); }
        return Some('}');
    }
    proof { assert(name@ != seq![98u8, 114u8, 97u8, 99u8, 101u8, 114u8, 105u8, 103u8, 104u8, 116u8]); }
    if name.len() == 10 && name[0] == 97 && name[1] == 115 && name[2] == 99 && name[3] == 105 && name[4] == 105 && name[5] == 116 && name[6] == 105 && name[7] == 108 && name[8] == 100 && name[9] == 101 {
        proof { assert(name@ =~= seq![97u8, 115u8, 99u8, 105u8, 105u8, 116u8, 105u8, 108u8, 100u8, 101u8]); }
        return Some('~');
    }
    proof { assert(name@ != seq![97u8, 115u8, 99u8, 105u8, 105u8, 116u8, 105u8, 108u8, 100u8, 101u8]); }
    if name.len() == 6 && name[0] == 98 && name[1] == 117 && name[2] == 108 && name[3] == 108 && name[4] == 101 && name[5] == 116 {
        proof { assert(name@ =~= seq![98u8, 117u8, 108u8, 108u8, 101u8, 116u8]); }
        return Some('\u{2022}');
    }
    proof { assert(name@ != seq![98u8, 117u8, 108u8, 108u8, 101u8, 116u8]); }
    if name.len() == 6 && name[0] == 101 && name[1] == 110 && name[2] == 100 && name[3] == 97 && name[4] == 115 && name[5] == 104 {
        proof { assert(name@ =~= seq![101u8, 110u8, 100u8, 97u8, 115u8, 104u8]); }
        return Some('\u{2013}');
    }
    proof { assert(name@ != seq![101u8, 110u8, 100u8, 97u8, 115u8, 104u8]); }
    if name.len() == 6 && name[0] == 101 && name[1] == 109 && name[2] == 100 && name[3] == 97 && name[4] == 115 && name[5] == 104 {
        proof { assert(name@ =~= seq![101u8, 109u8, 100u8, 97u8, 115u8, 104u8]); }
        return Some('\u{2014}');
    }
    proof { assert(name@ != seq![101u8, 109u8, 100u8, 97u8, 115u8, 104u8]); }
    if name.len() == 12 && name[0] == 113 && name[1] == 117 && name[2] == 111 && name[3] == 116 && name[4] == 101 && name[5] == 100 && name[6] == 98 && name[7] == 108 && name[8] == 108 && name[9] == 101 && name[10] == 102 && name[11] == 116 {
        proof { assert(name@ =~= seq![113u8, 117u8, 111u8, 116u8, 101u8, 100u8, 98u8, 108u8, 108u8, 101u8, 102u8, 116u8]); }
        return Some('\u{201C}');
    }
    proof { assert(name@ != seq![113u8, 117u8, 111u8, 116u8, 101u8, 100u8, 98u8, 108u8, 108u8, 101u8, 102u8, 116u8]); }
    if name.len() == 13 && name[0] == 113 && name[1] == 117 && name[2] == 111 && name[3] == 116 && name[4] == 101 && name[5] == 100 && name[6] == 98 && name[7] == 108 && name[8] == 114 && name[9] == 105 && name[10] == 103 && name[11] == 104 && name[12] == 116 {
        proof { assert(name@ =~= seq![113u8, 117u8, 111u8, 116u8, 101u8, 100u8, 98u8, 108u8, 114u8, 105u8, 103u8, 104u8, 116u8]); }
        return Some('\u{201D}');
    }
    proof { assert(name@ != seq![113u8, 117u8, 111u8, 116u8, 101u8, 100u8, 98u8, 108u8, 114u8, 105u8, 103u8, 104u8, 116u8]); }
    if name.len() == 9 && name[0] == 113 && name[1] == 117 && name[2] == 111 && name[3] == 116 && name[4] == 101 && name[5] == 108 && name[6] == 101 && name[7] == 102 && name[8] == 116 {
        proof { assert(name@ =~= seq![113u8, 117u8, 111u8, 116u8, 101u8, 108u8, 101u8, 102u8, 116u8]); }
        return Some('\u{2018}');
    }
    proof { assert(name@ != seq![113u8, 117u8, 111u8, 116u8, 101u8, 108u8, 101u8, 102u8, 116u8]); }
    if name.len() == 10 && name[0] == 113 && name[1] == 117 && name[2] == 111 && name[3] == 116 && name[4] == 101 && name[5] == 114 && name[6] == 105 && name[7] == 103 && name[8] == 104 && name[9] == 116 {
        proof { assert(name@ =~= seq![113u8, 117u8, 111u8, 116u8, 101u8, 114u8, 105u8, 103u8, 104u8, 116u8]); }
        return Some('\u{2019}');
    }
    proof { assert(name@ != seq![113u8, 117u8, 111u8, 116u8, 101u8, 114u8, 105u8, 103u8, 104u8, 116u8]); }
    if name.len() == 2 && name[0] == 102 && name[1] == 105 {
        proof { assert(name@ =~= seq![102u8, 105u8]); }
        return Some('\u{FB01}');
    }
    proof { assert(name@ != seq![102u8, 105u8]); }
    if name.len() == 2 && name[0] == 102 && name[1] == 108 {
        proof { assert(name@ =~= seq![102u8, 108u8]); }
        return Some('\u{FB02}');
    }
    proof { assert(name@ != seq![102u8, 108u8]); }
    if name.len() == 8 && name[0] == 101 && name[1] == 108 && name[2] == 108 && name[3] == 105 && name[4] == 112 && name[5] == 115 && name[6] == 105 && name[7] == 115 {
        proof { assert(name@ =~= seq![101u8, 108u8, 108u8, 105u8, 112u8, 115u8, 105u8, 115u8]); }
        return Some('\u{2026}');
    }
    proof { assert(name@ != seq![101u8, 108u8, 108u8, 105u8, 112u8, 115u8, 105u8, 115u8]); }
    if name.len() == 6 && name[0] == 100 && name[1] == 97 && name[2] == 103 && name[3] == 103 && name[4] == 101 && name[5] == 114 {
        proof { assert(name@ =~= seq![100u8, 97u8, 103u8, 103u8, 101u8, 114u8]); }
        return Some('\u{2020}');
    }
    proof { assert(name@ != seq![100u8, 97u8, 103u8, 103u8, 101u8, 114u8]); }
    if name.len() == 9 && name[0] == 100 && name[1] == 97 && name[2] == 103 && name[3] == 103 && name[4] == 101 && name[5] == 114 && name[6] == 100 && name[7] == 98 && name[8] == 108 {
        proof { assert(name@ =~= seq![100u8, 97u8, 103u8, 103u8, 101u8, 114u8, 100u8, 98u8, 108u8]); }
        return Some('\u{2021}');
    }
    proof { assert(name@ != seq![100u8, 97u8, 103u8, 103u8, 101u8, 114u8, 100u8, 98u8, 108u8]); }
    if name.len() == 9 && name[0] == 116 && name[1] == 114 && name[2] == 97 && name[3] == 100 && name[4] == 101 && name[5] == 109 && name[6] == 97 && name[7] == 114 && name[8] == 107 {
        proof { assert(name@ =~= seq![116u8, 114u8, 97u8, 100u8, 101u8, 109u8, 97u8, 114u8, 107u8]); }
        return Some('\u{2122}');
    }
    proof { assert(name@ != seq![116u8, 114u8, 97u8, 100u8, 101u8, 109u8, 97u8, 114u8, 107u8]); }
    if name.len() == 9 && name[0] == 99 && name[1] == 111 && name[2] == 112 && name[3] == 121 && name[4] == 114 && name[5] == 105 && name[6] == 103 && name[7] == 104 && name[8] == 116 {
        proof { assert(name@ =~= seq![99u8, 111u8, 112u8, 121u8, 114u8, 105u8, 103u8, 104u8, 116u8]); }
        return Some('\u{00A9}');
    }
    proof { assert(name@ != seq![99u8, 111u8, 112u8, 121u8, 114u8, 105u8, 103u8, 104u8, 116u8]); }
    if name.len() == 10 && name[0] == 114 && name[1] == 101 && name[2] == 103 && name[3] == 105 && name[4] == 115 && name[5] == 116 && name[6] == 101 && name[7] == 114 && name[8] == 101 && name[9] == 100 {
        proof { assert(name@ =~= seq![114u8, 101u8, 103u8, 105u8, 115u8, 116u8, 101u8, 114u8, 101u8, 100u8]); }
        return Some('\u{00AE}');
    }
    proof { assert(name@ != seq![114u8, 101u8, 103u8, 105u8, 115u8, 116u8, 101u8, 114u8, 101u8, 100u8]); }
    if name.len() == 6 && name[0] == 100 && name[1] == 101 && name[2] == 103 && name[3] == 114 && name[4] == 101 && name[5] == 101 {
        proof { assert(name@ =~= seq![100u8, 101u8, 103u8, 114u8, 101u8, 101u8]); }
        return Some('\u{00B0}');
    }
    proof { assert(name@ != seq![100u8, 101u8, 103u8, 114u8, 101u8, 101u8]); }
    if name.len() == 1 && name[0] < 0x80 {
        return Some(name[0] as char);
    }
    None
}

} // verus!
