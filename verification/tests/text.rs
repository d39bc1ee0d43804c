use guards::text::{
    chars_of, eq_ignoring_case, parse_hex_digit, parse_u32, push_decimal, split_chars,
    split_lines, split_str, str_eq, sub_chars, to_ascii_lower,
};

fn chars(s: &str) -> Vec<char> {
    s.chars().collect()
}

fn strings(parts: Vec<Vec<char>>) -> Vec<String> {
    parts.into_iter().map(|p| p.into_iter().collect()).collect()
}

fn decimal(n: u32) -> String {
    let mut out = String::new();
    push_decimal(&mut out, n);
    out
}

#[test]
fn chars_of_keeps_every_character() {
    assert_eq!(chars_of(""), chars(""));
    assert_eq!(chars_of("abc"), vec!['a', 'b', 'c']);
    assert_eq!(chars_of("héé\n"), vec!['h', 'é', 'é', '\n']);
}

#[test]
fn sub_chars_cuts_a_range() {
    let v = chars("hello");
    assert_eq!(sub_chars(&v, 1, 3), vec!['e', 'l']);
    assert_eq!(sub_chars(&v, 0, 5), v);
    assert_eq!(sub_chars(&v, 2, 2), vec![]);
    assert_eq!(sub_chars(&v, 5, 5), vec![]);
}

#[test]
fn str_eq_compares_characters() {
    assert!(str_eq("", ""));
    assert!(str_eq("join", "join"));
    assert!(!str_eq("join", "joint"));
    assert!(!str_eq("join", "joiN"));
    assert!(!str_eq("join", ""));
}

#[test]
fn numbers_are_read_from_digits() {
    assert_eq!(parse_u32(&chars("0")), Some(0));
    assert_eq!(parse_u32(&chars("7")), Some(7));
    assert_eq!(parse_u32(&chars("42")), Some(42));
    assert_eq!(parse_u32(&chars("0042")), Some(42));
    assert_eq!(parse_u32(&chars("4294967295")), Some(u32::MAX));
    assert_eq!(parse_u32(&chars("0000000000004294967295")), Some(u32::MAX));
}

#[test]
fn other_text_is_no_number() {
    for text in [
        "",
        " ",
        "+1",
        "-1",
        "1 ",
        " 1",
        "1a",
        "a1",
        "1.0",
        "0x10",
        "4294967296",
        "4294967300",
        "42949672950",
        "99999999999999999999999999",
        "١٢",
    ] {
        assert_eq!(parse_u32(&chars(text)), None, "{text:?}");
    }
}

#[test]
fn numbers_are_written_without_leading_zeros() {
    assert_eq!(decimal(0), "0");
    assert_eq!(decimal(9), "9");
    assert_eq!(decimal(10), "10");
    assert_eq!(decimal(105), "105");
    assert_eq!(decimal(4294967295), "4294967295");
    let mut out = String::from("n=");
    push_decimal(&mut out, 1200);
    assert_eq!(out, "n=1200");
}

#[test]
fn written_numbers_read_back() {
    for n in [0, 1, 9, 10, 99, 100, 12345, 1000000, u32::MAX - 1, u32::MAX] {
        assert_eq!(parse_u32(&chars(&decimal(n))), Some(n));
    }
}

#[test]
fn hex_digits_in_both_cases() {
    for (i, c) in "0123456789abcdef".chars().enumerate() {
        assert_eq!(parse_hex_digit(c), Some(i as u8));
    }
    for (i, c) in "ABCDEF".chars().enumerate() {
        assert_eq!(parse_hex_digit(c), Some(10 + i as u8));
    }
    for c in ['g', 'G', ' ', '/', ':', '@', '`', 'x', '\n', 'é', '٣'] {
        assert_eq!(parse_hex_digit(c), None, "{c:?}");
    }
}

#[test]
fn only_ascii_capitals_are_lowered() {
    assert_eq!(to_ascii_lower('A'), 'a');
    assert_eq!(to_ascii_lower('Z'), 'z');
    assert_eq!(to_ascii_lower('a'), 'a');
    assert_eq!(to_ascii_lower('@'), '@');
    assert_eq!(to_ascii_lower('['), '[');
    assert_eq!(to_ascii_lower('5'), '5');
    assert_eq!(to_ascii_lower('É'), 'É');
}

#[test]
fn comparison_ignores_ascii_case() {
    assert!(eq_ignoring_case(&chars("Purple"), &chars("pURPLE")));
    assert!(eq_ignoring_case(&chars(""), &chars("")));
    assert!(!eq_ignoring_case(&chars("purple"), &chars("purpl")));
    assert!(!eq_ignoring_case(&chars("purple"), &chars("purplf")));
    assert!(!eq_ignoring_case(&chars("é"), &chars("É")));
}

#[test]
fn split_cuts_at_every_separator() {
    assert_eq!(split_str("a b c", ' '), vec!["a", "b", "c"]);
    assert_eq!(split_str("abc", ' '), vec!["abc"]);
    assert_eq!(split_str("", ' '), vec![""]);
    assert_eq!(split_str(" ", ' '), vec!["", ""]);
    assert_eq!(split_str("a  b", ' '), vec!["a", "", "b"]);
    assert_eq!(split_str(" a ", ' '), vec!["", "a", ""]);
    assert_eq!(split_str("é è", ' '), vec!["é", "è"]);
    assert_eq!(strings(split_chars(&chars("x,y,,z"), ',')), vec!["x", "y", "", "z"]);
    assert_eq!(strings(split_chars(&chars(""), ',')), vec![""]);
}

#[test]
fn split_agrees_with_std() {
    for text in ["", " ", "a", "a b", "join purple", "  two  spaces  ", "move w (1,2) (3,4)"] {
        let expected: Vec<String> = text.split(' ').map(String::from).collect();
        assert_eq!(split_str(text, ' '), expected, "{text:?}");
        assert_eq!(strings(split_chars(&chars(text), ' ')), expected, "{text:?}");
    }
}

#[test]
fn lines_agree_with_std() {
    for text in [
        "",
        "\n",
        "\n\n",
        "a",
        "a\n",
        "a\nb",
        "a\nb\n",
        "a\r\nb\r\n",
        "a\r\nb",
        "a\rb\n",
        "a\r",
        "a\n\r",
        "\r\n",
        "a\r\r\n",
        "a\n\nb\n",
        "00\n00\n\n",
    ] {
        let expected: Vec<String> = text.lines().map(String::from).collect();
        assert_eq!(strings(split_lines(&chars(text))), expected, "{text:?}");
    }
}
