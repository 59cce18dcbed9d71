use viewer::text::{
    decode_utf8_line, equals_chars, is_whitespace, nth_token_range, parse_usize_range,
    starts_with_chars, trimmed,
};

fn chars(s: &str) -> Vec<char> {
    s.chars().collect()
}

#[test]
fn white_space_is_unicode_white_space() {
    for c in [' ', '\t', '\n', '\u{0b}', '\u{0c}', '\r', '\u{85}', '\u{a0}', '\u{2000}', '\u{3000}'] {
        assert!(is_whitespace(c));
        assert_eq!(is_whitespace(c), c.is_whitespace());
    }
    for c in ['a', '0', '_', '\u{200b}', '\u{feff}'] {
        assert!(!is_whitespace(c));
        assert_eq!(is_whitespace(c), c.is_whitespace());
    }
}

#[test]
fn trims_like_str_trim() {
    for s in ["", "   ", "  a b  ", "\u{a0}x\u{3000}", "end_header\r\n", "x"] {
        let t: String = trimmed(&chars(s)).into_iter().collect();
        assert_eq!(t, s.trim());
    }
}

#[test]
fn tokens_like_split_whitespace() {
    for s in ["element vertex 5", "  a\t\tb  c ", "one", "", "a b"] {
        let cs = chars(s);
        for n in 0..4 {
            let expected = s.split_whitespace().nth(n);
            let got = nth_token_range(&cs, n).map(|(a, b)| cs[a..b].iter().collect::<String>());
            assert_eq!(got.as_deref(), expected);
        }
    }
}

#[test]
fn parses_like_str_parse() {
    for s in ["0", "42", "+7", "007", "", "+", "-1", "1.0", " 1", "18446744073709551615", "18446744073709551616"] {
        let cs = chars(s);
        assert_eq!(parse_usize_range(&cs, 0, cs.len()), s.parse::<usize>().ok());
    }
}

#[test]
fn prefixes_and_equality() {
    assert!(starts_with_chars(&chars("property float x"), &['p', 'r', 'o']));
    assert!(!starts_with_chars(&chars("pr"), &['p', 'r', 'o']));
    assert!(equals_chars(&chars("ab"), &['a', 'b']));
    assert!(!equals_chars(&chars("abc"), &['a', 'b']));
}

#[test]
fn decodes_utf8() {
    assert_eq!(decode_utf8_line("caf\u{e9}\n".as_bytes()), Some(chars("caf\u{e9}\n")));
    assert_eq!(decode_utf8_line(&[0x61, 0xc3]), None);
    assert_eq!(decode_utf8_line(&[0xed, 0xa0, 0x80]), None);
}

#[test]
fn white_space_agrees_with_std_on_every_char() {
    for c in (0u32..=0x10ffff).filter_map(char::from_u32) {
        assert_eq!(is_whitespace(c), c.is_whitespace(), "{:x}", c as u32);
    }
}

#[test]
fn trim_and_tokens_agree_with_std_on_mixed_space() {
    let pieces = ["a", " ", "\u{a0}", "\u{2028}", "bc", "\t", "\u{200b}", "+12", "\r\n"];
    for i in 0..pieces.len() {
        for j in 0..pieces.len() {
            for k in 0..pieces.len() {
                let s = format!("{}{}{}{}", pieces[i], pieces[j], pieces[k], pieces[i]);
                let cs = chars(&s);
                let t: String = trimmed(&cs).into_iter().collect();
                assert_eq!(t, s.trim());
                for n in 0..3 {
                    let got = nth_token_range(&cs, n).map(|(a, b)| cs[a..b].iter().collect::<String>());
                    assert_eq!(got.as_deref(), s.split_whitespace().nth(n));
                }
            }
        }
    }
}
