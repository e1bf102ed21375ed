use wubrag::text::{
    blank_line_pieces, char_substring, char_table, is_whitespace, str_equals, trimmed_bounds,
};

fn pieces(s: &str) -> Vec<String> {
    let (chars, _) = char_table(s);
    blank_line_pieces(&chars).iter().map(|(a, b)| chars[*a..*b].iter().collect()).collect()
}

#[test]
fn split_matches_str_split() {
    for s in ["", "a", "\n", "\n\n", "\n\n\n", "a\n\nb", "a\n\n\nb", "\n\n\n\n", "x\n\ny\n\n", "a\nb"] {
        let expected: Vec<String> = s.split("\n\n").map(|p| p.to_string()).collect();
        assert_eq!(pieces(s), expected, "splitting {:?}", s);
    }
}

#[test]
fn split_then_join_gives_back_the_text() {
    for s in ["a\n\n\nb", "\n\n\n", "x\n\ny\n\n", "\u{e9}\n\n\u{1f600}"] {
        assert_eq!(pieces(s).join("\n\n"), s);
    }
}

#[test]
fn trimming_matches_str_trim() {
    for s in ["", "  ", " a ", "\u{a0}a b\u{2028}", "\u{85}x\u{200a}", "abc"] {
        let (chars, offsets) = char_table(s);
        let (k, m) = trimmed_bounds(&chars, 0, chars.len());
        assert_eq!(char_substring(s, &offsets, k, m), s.trim(), "trimming {:?}", s);
    }
}

#[test]
fn whitespace_matches_char_is_whitespace() {
    for u in 0u32..0x3100 {
        if let Some(c) = char::from_u32(u) {
            assert_eq!(is_whitespace(c), c.is_whitespace(), "{:x}", u);
        }
    }
}

#[test]
fn char_table_offsets_are_byte_offsets() {
    let s = "a\u{e9}\u{20ac}\u{1f600}";
    let (chars, offsets) = char_table(s);
    assert_eq!(chars, vec!['a', '\u{e9}', '\u{20ac}', '\u{1f600}']);
    assert_eq!(offsets, vec![0, 1, 3, 6, 10]);
    assert_eq!(char_substring(s, &offsets, 1, 3), "\u{e9}\u{20ac}");
}

#[test]
fn string_equality() {
    assert!(str_equals("rs", "rs"));
    assert!(!str_equals("rs", "r"));
    assert!(!str_equals("rs", "rt"));
    assert!(str_equals("", ""));
}
