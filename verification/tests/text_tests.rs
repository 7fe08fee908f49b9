use security_api::fmt::{pad_left_chars, zero_padded_chars, zero_padded_string};
use security_api::text::{
    chars_eq, chars_of, html_decode, lex_less_chars, parse_i32, parse_u32, replace_chars,
    starts_with_chars, trim_chars,
};

fn chars(s: &str) -> Vec<char> {
    s.chars().collect()
}

fn text(v: &[char]) -> String {
    v.iter().collect()
}

#[test]
fn html_decode_entities_and_asterisks() {
    assert_eq!(html_decode("a &amp; b &lt;c&gt; *x＊"), "a & b <c> x");
    assert_eq!(html_decode("&quot;q&quot; &apos;s&apos;"), "\"q\" 's'");
}

#[test]
fn html_decode_decodes_amp_before_others() {
    // `&amp;lt;` becomes `&lt;` first and then `<`, in the order the entities are replaced.
    assert_eq!(html_decode("&amp;lt;"), "<");
}

#[test]
fn html_decode_law_no_asterisks_and_not_longer() {
    for input in ["**", "a*b＊c", "&amp;&amp;*", "", "plain"] {
        let out = html_decode(input);
        assert!(!out.contains('*'));
        assert!(!out.contains('＊'));
        assert!(out.chars().count() <= input.chars().count());
    }
}

#[test]
fn replace_chars_left_to_right_without_overlap() {
    assert_eq!(text(&replace_chars(&chars("aaaa"), &chars("aa"), &chars("b"))), "bb");
    assert_eq!(text(&replace_chars(&chars("aaa"), &chars("aa"), &chars("b"))), "ba");
    assert_eq!(text(&replace_chars(&chars("1,234,567"), &chars(","), &chars(""))), "1234567");
    assert_eq!(text(&replace_chars(&chars("abc"), &chars(""), &chars("x"))), "abc");
}

#[test]
fn trim_chars_removes_unicode_white_space() {
    assert_eq!(text(&trim_chars(&chars(" \t 113/05/02 \n"))), "113/05/02");
    assert_eq!(text(&trim_chars(&chars("\u{3000}x\u{a0}"))), "x");
    assert_eq!(text(&trim_chars(&chars("   "))), "");
}

#[test]
fn prefix_equality_and_order() {
    assert!(starts_with_chars(&chars("113/05/02"), &chars("113/05")));
    assert!(!starts_with_chars(&chars("113"), &chars("113/05")));
    assert!(chars_eq(&chars("上市"), &chars_of("上市")));
    assert!(lex_less_chars(&chars("20240516"), &chars("20240517")));
    assert!(!lex_less_chars(&chars("20240517"), &chars("20240517")));
    assert!(lex_less_chars(&chars("2024"), &chars("20240101")));
    assert!(!lex_less_chars(&chars("3"), &chars("20240101")));
}

#[test]
fn parse_u32_follows_from_str() {
    assert_eq!(parse_u32(&chars("2024")), Some(2024));
    assert_eq!(parse_u32(&chars("+7")), Some(7));
    assert_eq!(parse_u32(&chars("0005")), Some(5));
    assert_eq!(parse_u32(&chars("4294967295")), Some(u32::MAX));
    assert_eq!(parse_u32(&chars("4294967296")), None);
    assert_eq!(parse_u32(&chars("")), None);
    assert_eq!(parse_u32(&chars("+")), None);
    assert_eq!(parse_u32(&chars("-1")), None);
    assert_eq!(parse_u32(&chars("12a")), None);
}

#[test]
fn parse_i32_follows_from_str() {
    assert_eq!(parse_i32(&chars("-2147483648")), Some(i32::MIN));
    assert_eq!(parse_i32(&chars("2147483647")), Some(i32::MAX));
    assert_eq!(parse_i32(&chars("2147483648")), None);
    assert_eq!(parse_i32(&chars("-0")), Some(0));
    assert_eq!(parse_i32(&chars("05")), Some(5));
    assert_eq!(parse_i32(&chars("-")), None);
}

#[test]
fn zero_padding_matches_format() {
    assert_eq!(zero_padded_string(5, 2), format!("{:02}", 5));
    assert_eq!(zero_padded_string(113, 4), format!("{:04}", 113));
    assert_eq!(zero_padded_string(-12, 4), format!("{:04}", -12));
    assert_eq!(zero_padded_string(12345, 2), format!("{:02}", 12345));
    assert_eq!(zero_padded_string(42, 13), format!("{:013}", 42));
    assert_eq!(zero_padded_string(i64::MIN, 0), format!("{}", i64::MIN));
    assert_eq!(text(&zero_padded_chars(0, 0)), "0");
    assert_eq!(text(&pad_left_chars(&chars("113/05/02"), '0', 10)), format!("{:0>10}", "113/05/02"));
    assert_eq!(text(&pad_left_chars(&chars("月平均"), '0', 5)), format!("{:0>5}", "月平均"));
}

#[test]
fn zero_padded_reads_back_law() {
    for (n, w) in [(0i64, 2usize), (7, 2), (2024, 4), (5, 13), (2147483647, 0)] {
        let s = zero_padded_string(n, w);
        assert_eq!(parse_u32(&chars(&s)), Some(n as u32));
        assert_eq!(parse_i32(&chars(&s)), Some(n as i32));
    }
}
