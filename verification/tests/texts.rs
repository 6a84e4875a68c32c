use ferrite::ip::{format_socket_addr, parse_socket_addr};
use ferrite::order::sorted_unique;
use ferrite::text::{
    chars_of, find_text, format_decimal, is_control, is_whitespace, parse_number, parse_unsigned, split_lines, split_on,
    split_words, string_of, to_lower, to_upper, trimmed,
};

fn all_chars() -> Vec<char> {
    (0..=0x10ffff_u32).filter_map(char::from_u32).collect()
}

#[test]
fn characters_are_classified_as_in_the_standard() {
    for c in all_chars() {
        assert_eq!(is_whitespace(c), c.is_whitespace(), "{c:?}");
        assert_eq!(is_control(c), c.is_control(), "{c:?}");
    }
}

#[test]
fn trimming_and_splitting_agree_with_the_standard() {
    for s in [
        "",
        " a ",
        "\u{2003}x y\u{a0}",
        "a\r\nb\n\nc",
        "a\r\n",
        "\n",
        "one  two\tthree",
        "a,b,,c",
        "x\r",
    ] {
        let cs = chars_of(s);
        assert_eq!(string_of(trimmed(&cs)), s.trim());
        let lines: Vec<String> = split_lines(&cs).iter().map(|l| string_of(l)).collect();
        assert_eq!(lines, s.lines().collect::<Vec<&str>>());
        let words: Vec<String> = split_words(&cs).iter().map(|l| string_of(l)).collect();
        assert_eq!(words, s.split_whitespace().collect::<Vec<&str>>());
        let parts: Vec<String> = split_on(&cs, ',').iter().map(|l| string_of(l)).collect();
        assert_eq!(parts, s.split(',').collect::<Vec<&str>>());
        assert_eq!(string_of(&to_lower(&cs)), s.to_ascii_lowercase());
        assert_eq!(string_of(&to_upper(&cs)), s.to_ascii_uppercase());
        assert_eq!(find_text(&cs, "b"), s.find('b'));
    }
}

#[test]
fn numbers_are_read_and_written() {
    for n in [0, 1, 9, 10, 255, 65535, u64::MAX] {
        let text = format_decimal(n);
        assert_eq!(string_of(&text), n.to_string());
        assert_eq!(parse_number(&text, 10, u64::MAX), Some(n));
    }
    assert_eq!(parse_number(&chars_of("18446744073709551616"), 10, u64::MAX), None);
    assert_eq!(parse_number(&chars_of("fF"), 16, 255), Some(255));
    assert_eq!(parse_number(&chars_of("100"), 16, 255), None);
    assert_eq!(parse_number(&chars_of(""), 10, 255), None);
    assert_eq!(parse_unsigned(&chars_of("+5"), 10), Some(5));
    assert_eq!(parse_unsigned(&chars_of("+"), 10), None);
    assert_eq!(parse_unsigned(&chars_of("-5"), 10), None);
}

#[test]
fn socket_addresses_read_back() {
    for s in ["127.0.0.1:53", "0.0.0.0:0", "[::1]:8080", "[2001:db8::1]:443"] {
        assert_eq!(format_socket_addr(&parse_socket_addr(s).unwrap()), s);
    }
    assert!(parse_socket_addr("127.0.0.1").is_none());
    assert!(parse_socket_addr("::1:53").is_none());
    assert!(parse_socket_addr("127.0.0.1:65536").is_none());
}

#[test]
fn names_are_sorted_by_their_bytes() {
    let v = |items: &[&str]| items.iter().map(|s| s.to_string()).collect::<Vec<String>>();
    let sorted = sorted_unique(v(&["b", "a", "\u{e4}", "b", "A", ""]));
    assert_eq!(sorted, v(&["", "A", "a", "b", "\u{e4}"]));
}
