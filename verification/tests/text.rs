use spd::text::{
    chars_eq, chars_of, contains_chars, decimal_string, hex_lower_string, last_segment_of,
    split_lines, split_whitespace, starts_with_chars, str_eq, string_of,
};

fn words_of(s: &str) -> Vec<String> {
    let cs = chars_of(s);
    split_whitespace(&cs).iter().map(|w| w.iter().collect()).collect()
}

fn lines_of(s: &str) -> Vec<String> {
    let cs = chars_of(s);
    split_lines(&cs).iter().map(|w| w.iter().collect()).collect()
}

#[test]
fn decimal_renders_like_display() {
    assert_eq!(decimal_string(0), "0");
    assert_eq!(decimal_string(7), "7");
    assert_eq!(decimal_string(10), "10");
    assert_eq!(decimal_string(1234567890), "1234567890");
    assert_eq!(decimal_string(u64::MAX), u64::MAX.to_string());
}

#[test]
fn hex_renders_two_lowercase_digits_per_byte() {
    assert_eq!(hex_lower_string(&[10, 20, 30]), "0a141e");
    assert_eq!(hex_lower_string(&[]), "");
    assert_eq!(hex_lower_string(&[0, 255, 0xab]), "00ffab");
}

#[test]
fn whitespace_split_matches_std() {
    for s in [
        "",
        "   ",
        "tcp   LISTEN 0      128          0.0.0.0:22        0.0.0.0:*",
        "\ta  b\n c\r\n",
        "x\u{3000}y\u{a0}z\u{85}w",
        "  lead and trail  ",
    ] {
        let expected: Vec<String> = s.split_whitespace().map(|w| w.to_string()).collect();
        assert_eq!(words_of(s), expected, "input {:?}", s);
    }
}

#[test]
fn line_split_matches_std() {
    for s in [
        "",
        "\n",
        "foo\nbar\n\r\nbaz\r",
        "one line",
        "a\r\nb\r\n",
        "a\rb\n\nc",
        "\n\n",
    ] {
        let expected: Vec<String> = s.lines().map(|w| w.to_string()).collect();
        assert_eq!(lines_of(s), expected, "input {:?}", s);
    }
}

#[test]
fn substring_and_prefix_tests() {
    let s = chars_of("sshd[12]: Accepted password");
    assert!(contains_chars(&s, &chars_of("Accepted")));
    assert!(!contains_chars(&s, &chars_of("accepted")));
    assert!(contains_chars(&s, &chars_of("")));
    assert!(!contains_chars(&chars_of("ab"), &chars_of("abc")));
    assert!(starts_with_chars(&s, &chars_of("sshd[")));
    assert!(!starts_with_chars(&chars_of("ssh"), &chars_of("sshd[")));
}

#[test]
fn last_segment_is_split_last() {
    for w in ["0.0.0.0:22", "[::]:443", "*:*", "nocolon", "", "trailing:"] {
        let expected = w.split(':').last().unwrap().to_string();
        let got: String = last_segment_of(&chars_of(w), ':').iter().collect();
        assert_eq!(got, expected, "input {:?}", w);
    }
}

#[test]
fn character_conversions_round_trip() {
    let s = "Пользователь: a\u{3000}b";
    let cs = chars_of(s);
    assert_eq!(cs.len(), s.chars().count());
    assert_eq!(string_of(&cs), s);
    assert!(chars_eq(&cs, &chars_of(s)));
    assert!(!chars_eq(&cs, &chars_of("x")));
    assert!(str_eq("abc", "abc"));
    assert!(!str_eq("abc", "abd"));
    assert!(!str_eq("abc", "ab"));
}
