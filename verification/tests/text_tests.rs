use wallpaper_engine::text::{
    chars_eq_str, chars_less, chars_of, lines_of_chars, push_decimal, push_signed_decimal, split_chars, string_of,
};

fn strings(v: Vec<Vec<char>>) -> Vec<String> {
    v.into_iter().map(|c| c.into_iter().collect()).collect()
}

#[test]
fn lines_like_str_lines() {
    for text in ["", "a", "a\n", "a\nb", "\n", "a\r\nb\r\n", "a\n\nb\r", "x\r"] {
        let got = strings(lines_of_chars(&chars_of(text)));
        let want: Vec<String> = text.lines().map(|l| l.to_string()).collect();
        assert_eq!(got, want, "text {:?}", text);
    }
}

#[test]
fn split_like_str_split() {
    for text in ["", ":", "a:b", "a::b:", "abc"] {
        let got = strings(split_chars(&chars_of(text), ':'));
        let want: Vec<String> = text.split(':').map(|l| l.to_string()).collect();
        assert_eq!(got, want);
    }
}

#[test]
fn decimals() {
    let mut s = String::new();
    push_decimal(&mut s, 0);
    s.push(' ');
    push_decimal(&mut s, 1234567890);
    s.push(' ');
    push_signed_decimal(&mut s, -42);
    s.push(' ');
    push_signed_decimal(&mut s, i64::MIN);
    assert_eq!(s, format!("0 1234567890 -42 {}", i64::MIN));
}

#[test]
fn comparisons() {
    assert!(chars_eq_str(&chars_of("héllo"), "héllo"));
    assert!(!chars_eq_str(&chars_of("hello"), "hell"));
    assert!(chars_less(&chars_of("ab"), &chars_of("b")));
    assert!(chars_less(&chars_of("a"), &chars_of("ab")));
    assert!(!chars_less(&chars_of("b"), &chars_of("b")));
    assert_eq!("Z" < "a", chars_less(&chars_of("Z"), &chars_of("a")));
    assert_eq!(string_of(&chars_of("é€")), "é€");
}
