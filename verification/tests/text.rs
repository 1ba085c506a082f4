use bastion_dashboard::text::{
    chars_of, contains_str, ends_with_str, equals_str, find_exec, leading_spaces_exec, parse_u16_exec, parse_u32_exec,
    push_decimal, split_lines, split_words, starts_with_exec, string_of,
};

fn cs(s: &str) -> Vec<char> {
    s.chars().collect()
}

fn strs(v: Vec<Vec<char>>) -> Vec<String> {
    v.into_iter().map(|w| w.into_iter().collect()).collect()
}

#[test]
fn lines_split_like_str_lines() {
    for text in ["a\r\nb\n\nc\r", "", "\n", "x\n", "one", "a\r\rb\r\n\r\n", "\r\n\n\r"] {
        let want: Vec<String> = text.lines().map(|l| l.to_string()).collect();
        assert_eq!(strs(split_lines(&cs(text))), want, "{:?}", text);
    }
}

#[test]
fn words_split_like_split_whitespace() {
    for text in ["  a b\t c ", "", "   ", "x", "a\u{a0}b\u{3000}c\u{2003}d", "\u{85}z\u{200b}y"] {
        let want: Vec<String> = text.split_whitespace().map(|w| w.to_string()).collect();
        assert_eq!(strs(split_words(&cs(text))), want, "{:?}", text);
    }
}

#[test]
fn unsigned_parsing_like_str_parse() {
    for text in ["0", "+42", "", "+", "-1", "4294967295", "4294967296", "007", "1a", " 1", "99999999999999999999999"] {
        assert_eq!(parse_u32_exec(&cs(text)), text.parse::<u32>().ok(), "{:?}", text);
        assert_eq!(parse_u16_exec(&cs(text)), text.parse::<u16>().ok(), "{:?}", text);
    }
    assert_eq!(parse_u16_exec(&cs("65535")), Some(65535));
    assert_eq!(parse_u16_exec(&cs("65536")), None);
}

#[test]
fn decimal_numerals() {
    for n in [0u64, 7, 10, 22, 65535, 4294967295, u64::MAX] {
        let mut s = String::from("x=");
        push_decimal(&mut s, n);
        assert_eq!(s, format!("x={}", n));
    }
}

#[test]
fn search_and_prefixes() {
    let hay = cs("abc sshd: bastion sshd:");
    assert_eq!(find_exec(&hay, &cs("sshd:")), Some(4));
    assert_eq!(find_exec(&hay, &cs("nope")), None);
    assert_eq!(find_exec(&cs("ab"), &cs("abc")), None);
    assert!(contains_str(&hay, "bastion"));
    assert!(!contains_str(&hay, "[priv]"));
    assert!(starts_with_exec(&cs("LISTEN 0"), &cs("LISTEN")));
    assert!(!starts_with_exec(&cs("LIST"), &cs("LISTEN")));
    assert_eq!(leading_spaces_exec(&cs(" \t LISTEN")), 3);
}

#[test]
fn strings_and_chars_round_trip() {
    let text = "héllo wörld";
    assert_eq!(chars_of(text), cs(text));
    assert_eq!(string_of(&cs(text)), text);
}

#[test]
fn suffixes_and_equality() {
    assert!(ends_with_str(&cs("/usr/bin/ssh"), "/ssh"));
    assert!(!ends_with_str(&cs("/usr/bin/ssh-agent"), "/ssh"));
    assert!(!ends_with_str(&cs("sh"), "/ssh"));
    assert!(equals_str(&cs("ssh"), "ssh"));
    assert!(!equals_str(&cs("sshd"), "ssh"));
    assert!(!equals_str(&cs(""), "ssh"));
}
