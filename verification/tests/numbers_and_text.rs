use stompers::number::{decimal_of, read_decimal};
use stompers::text::{append_chars, chars_of, find_char, replace, same_text, string_of};

fn chars(s: &str) -> Vec<char> {
    s.chars().collect()
}

#[test]
fn decimal_of_numbers() {
    assert_eq!(decimal_of(0), "0");
    assert_eq!(decimal_of(7), "7");
    assert_eq!(decimal_of(10), "10");
    assert_eq!(decimal_of(11), "11");
    assert_eq!(decimal_of(1024), "1024");
    assert_eq!(decimal_of(9_007_199_254_740_993), "9007199254740993");
    assert_eq!(decimal_of(u64::MAX), "18446744073709551615");
}

#[test]
fn read_decimal_numbers() {
    assert_eq!(read_decimal(&chars("0")), Some(0));
    assert_eq!(read_decimal(&chars("42")), Some(42));
    assert_eq!(read_decimal(&chars("007")), Some(7));
    assert_eq!(read_decimal(&chars("18446744073709551615")), Some(u64::MAX));
}

#[test]
fn read_decimal_refuses() {
    assert_eq!(read_decimal(&chars("")), None);
    assert_eq!(read_decimal(&chars("-1")), None);
    assert_eq!(read_decimal(&chars("+1")), None);
    assert_eq!(read_decimal(&chars(" 1")), None);
    assert_eq!(read_decimal(&chars("1a")), None);
    assert_eq!(read_decimal(&chars("a1")), None);
    assert_eq!(read_decimal(&chars("18446744073709551616")), None);
    assert_eq!(read_decimal(&chars("99999999999999999999999")), None);
    assert_eq!(read_decimal(&chars("184467440737095516150")), None);
}

#[test]
fn read_decimal_takes_back_decimal_of() {
    for n in [0u64, 1, 9, 10, 99, 100, 12345, u64::MAX - 1, u64::MAX] {
        assert_eq!(read_decimal(&chars_of(&decimal_of(n))), Some(n));
    }
}

#[test]
fn chars_and_strings() {
    assert_eq!(chars_of("h\u{e9}llo"), vec!['h', '\u{e9}', 'l', 'l', 'o']);
    assert_eq!(chars_of(""), Vec::<char>::new());
    assert_eq!(string_of(&vec!['a', '\u{1F600}', 'b']), "a\u{1F600}b");
    assert_eq!(string_of(&Vec::new()), "");
}

#[test]
fn append_to_characters() {
    let mut v = chars("abc");
    append_chars(&mut v, &chars("de"));
    assert_eq!(v, chars("abcde"));
    append_chars(&mut v, &Vec::new());
    assert_eq!(v, chars("abcde"));
}

#[test]
fn find_char_positions() {
    let v = chars("a:b:c");
    assert_eq!(find_char(&v, ':', 0), 1);
    assert_eq!(find_char(&v, ':', 1), 1);
    assert_eq!(find_char(&v, ':', 2), 3);
    assert_eq!(find_char(&v, ':', 4), 5);
    assert_eq!(find_char(&v, ':', 5), 5);
    assert_eq!(find_char(&v, ':', 9), 5);
    assert_eq!(find_char(&v, 'x', 0), 5);
}

#[test]
fn same_text_compares_characters() {
    assert!(same_text(&chars("abc"), "abc"));
    assert!(same_text(&chars(""), ""));
    assert!(!same_text(&chars("abc"), "abd"));
    assert!(!same_text(&chars("abc"), "ab"));
    assert!(!same_text(&chars("ab"), "abc"));
    assert!(same_text(&chars("h\u{e9}"), "h\u{e9}"));
}

#[test]
fn replace_like_std() {
    let cases = [
        ("", "a", "b"),
        ("aaa", "a", "bb"),
        ("aaa", "aa", "b"),
        ("aaaa", "aa", "b"),
        ("abcabc", "bc", ""),
        ("abcabc", "", "x"),
        ("\\\\\\c", "\\c", ":"),
        ("x\\\\y", "\\\\", "\\"),
        ("ababa", "aba", "-"),
        ("no match", "zz", "y"),
    ];
    for (s, pat, to) in cases {
        let want: String = if pat.is_empty() { s.to_string() } else { s.replace(pat, to) };
        assert_eq!(string_of(&replace(&chars(s), &chars(pat), &chars(to))), want);
    }
}
