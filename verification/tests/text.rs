use my_game::text::{chars_of, parse_u8, split_chars, trim_bounds};

fn chars(s: &str) -> Vec<char> {
    chars_of(s)
}

#[test]
fn parses_u8_like_std() {
    for s in ["0", "7", "+7", "255", "256", "-1", "+", "-", "", " 1", "1 ", "007", "1a", "99999999999", "٣"] {
        assert_eq!(parse_u8(&chars(s)), s.parse::<u8>().ok(), "{s:?}");
    }
}

#[test]
fn trims_like_std() {
    for s in ["  a b \t", "", "   ", "\u{3000}x\u{85}", "x", "\r\n1,2\r"] {
        let c = chars(s);
        let (a, b) = trim_bounds(&c);
        let trimmed: String = c[a..b].iter().collect();
        assert_eq!(trimmed, s.trim(), "{s:?}");
    }
}

#[test]
fn splits_like_std() {
    for s in ["a,b", "", ",", "a,,b,", "x"] {
        let pieces: Vec<String> =
            split_chars(&chars(s), ',').iter().map(|p| p.iter().collect()).collect();
        let expected: Vec<String> = s.split(',').map(|p| p.to_string()).collect();
        assert_eq!(pieces, expected, "{s:?}");
    }
}

#[test]
fn chars_of_keeps_order() {
    assert_eq!(chars_of("héllo"), vec!['h', 'é', 'l', 'l', 'o']);
}
