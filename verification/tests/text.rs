use netti::text::{
    chars_of, find_char, is_whitespace, match_prefix, spells, split_lines, string_of, to_lower,
};

fn chars(s: &str) -> Vec<char> {
    s.chars().collect()
}

fn lines(s: &str) -> Vec<String> {
    let text = chars(s);
    split_lines(&text).into_iter().map(|line| line.iter().collect()).collect()
}

#[test]
fn white_space_is_what_std_calls_white_space() {
    for n in 0..=0x10FFFFu32 {
        if let Some(c) = char::from_u32(n) {
            assert_eq!(is_whitespace(c), c.is_whitespace(), "U+{:04X}", n);
        }
    }
}

#[test]
fn white_space_examples() {
    for c in [' ', '\t', '\n', '\r', '\u{b}', '\u{c}', '\u{85}', '\u{a0}', '\u{3000}'] {
        assert!(is_whitespace(c));
    }
    for c in ['a', '#', '\\', '"', '\u{8}', '\u{e}', '\u{1f}', '\u{200b}', '\u{feff}'] {
        assert!(!is_whitespace(c));
    }
}

#[test]
fn lowering_is_ascii_lowering() {
    for n in 0..=0x10FFFFu32 {
        if let Some(c) = char::from_u32(n) {
            assert_eq!(to_lower(c), c.to_ascii_lowercase(), "U+{:04X}", n);
        }
    }
}

#[test]
fn lowering_examples() {
    assert_eq!(to_lower('A'), 'a');
    assert_eq!(to_lower('Z'), 'z');
    assert_eq!(to_lower('m'), 'm');
    assert_eq!(to_lower('@'), '@');
    assert_eq!(to_lower('['), '[');
    assert_eq!(to_lower('_'), '_');
    assert_eq!(to_lower('É'), 'É');
    assert_eq!(to_lower('\u{212a}'), '\u{212a}');
}

#[test]
fn characters_of_a_string() {
    assert_eq!(chars_of(""), Vec::<char>::new());
    assert_eq!(chars_of("abc"), vec!['a', 'b', 'c']);
    assert_eq!(chars_of("é=日本"), vec!['é', '=', '日', '本']);
}

#[test]
fn string_of_characters() {
    assert_eq!(string_of(&[]), "");
    assert_eq!(string_of(&['a', 'b', 'c']), "abc");
    assert_eq!(string_of(&['é', '=', '日', '本']), "é=日本");
    assert_eq!(string_of(&chars_of("round trip")), "round trip");
}

#[test]
fn find_char_finds_the_first() {
    let text = chars("a=b=c");
    assert_eq!(find_char(&text, '=', 0), 1);
    assert_eq!(find_char(&text, '=', 1), 1);
    assert_eq!(find_char(&text, '=', 2), 3);
    assert_eq!(find_char(&text, '=', 4), 5);
    assert_eq!(find_char(&text, '=', 5), 5);
    assert_eq!(find_char(&text, 'x', 0), 5);
    assert_eq!(find_char(&[], 'x', 0), 0);
}

#[test]
fn prefixes() {
    assert_eq!(match_prefix(&chars("Interface=x"), "Interface"), Some(9));
    assert_eq!(match_prefix(&chars("Interface"), "Interface"), Some(9));
    assert_eq!(match_prefix(&chars("Interfac"), "Interface"), None);
    assert_eq!(match_prefix(&chars("interface=x"), "Interface"), None);
    assert_eq!(match_prefix(&chars("anything"), ""), Some(0));
    assert_eq!(match_prefix(&chars(""), ""), Some(0));
    assert_eq!(match_prefix(&chars(""), "a"), None);
    assert_eq!(match_prefix(&chars("éa"), "é"), Some(1));
}

#[test]
fn spelling_ignores_ascii_case() {
    assert!(spells(&chars("Wireless"), "wireless"));
    assert!(spells(&chars("WIRELESS"), "wireless"));
    assert!(spells(&chars("wireless"), "wireless"));
    assert!(spells(&chars(""), ""));
    assert!(!spells(&chars("wireles"), "wireless"));
    assert!(!spells(&chars("wirelesss"), "wireless"));
    assert!(!spells(&chars("wireless"), "Wireless"));
    assert!(!spells(&chars(""), "a"));
    assert!(!spells(&chars("a"), ""));
}

#[test]
fn lines_end_at_line_feeds() {
    assert_eq!(lines("a\nb\nc"), ["a", "b", "c"]);
    assert_eq!(lines("a\nb\nc\n"), ["a", "b", "c"]);
    assert_eq!(lines("a"), ["a"]);
    assert_eq!(lines(""), Vec::<String>::new());
    assert_eq!(lines("\n"), [""]);
    assert_eq!(lines("\n\n"), ["", ""]);
    assert_eq!(lines("a\n\nb"), ["a", "", "b"]);
    assert_eq!(lines("\na"), ["", "a"]);
}

#[test]
fn lines_end_at_carriage_return_and_line_feed() {
    assert_eq!(lines("a\r\nb\r\n"), ["a", "b"]);
    assert_eq!(lines("a\r\nb"), ["a", "b"]);
    assert_eq!(lines("\r\n"), [""]);
    assert_eq!(lines("a\r\r\nb"), ["a\r", "b"]);
    assert_eq!(lines("a\rb\nc"), ["a\rb", "c"]);
    assert_eq!(lines("a\n\rb"), ["a", "\rb"]);
}

#[test]
fn lines_are_the_lines_of_std() {
    let pieces = ["a", "bc", "\n", "\r", "\r\n", " ", "=", "é"];
    let mut texts: Vec<String> = vec![String::new()];
    for _ in 0..4 {
        let mut longer = Vec::new();
        for text in &texts {
            for piece in pieces {
                longer.push(format!("{}{}", text, piece));
            }
        }
        texts.extend(longer);
    }
    for text in &texts {
        let expected: Vec<String> = text.lines().map(|line| line.to_string()).collect();
        assert_eq!(lines(text), expected, "{:?}", text);
    }
}
