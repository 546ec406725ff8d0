use nrrd_rs::decimal::{parse_signed, parse_unsigned, push_int, push_nat};
use nrrd_rs::header_defs::quoted::parse_quoted;
use nrrd_rs::header_defs::{DType, Dimension, HeaderDef, Labels};
use nrrd_rs::listing::ListError;
use nrrd_rs::parse_list_input;
use nrrd_rs::keyvalues::text_less;
use nrrd_rs::text::{
    char_is_blank, char_is_space, chars_of, find, joined, lines_of, lowered, split_blank,
    starts_with, trimmed,
};

fn chars(s: &str) -> Vec<char> {
    s.chars().collect()
}

fn text(v: &Vec<char>) -> String {
    v.iter().collect()
}

#[test]
fn white_space_is_what_std_takes_for_it() {
    for u in 0..=0x3100u32 {
        if let Some(c) = char::from_u32(u) {
            assert_eq!(char_is_space(c), c.is_whitespace(), "{:x}", u);
            assert_eq!(char_is_blank(c), c.is_ascii_whitespace(), "{:x}", u);
        }
    }
}

#[test]
fn trimming_and_splitting_as_std_does() {
    for s in ["", " ", "a", "  a b  ", "\t a\u{a0}", "\u{3000}x y\u{2003}", "a\u{b}b", "\n\r x \r\n", "a\u{c}b c"] {
        assert_eq!(text(&trimmed(&chars(s))), s.trim(), "{:?}", s);
        let words: Vec<String> = split_blank(&chars(s)).iter().map(text).collect();
        let expected: Vec<String> = s.split_ascii_whitespace().map(|w| w.to_string()).collect();
        assert_eq!(words, expected, "{:?}", s);
        assert_eq!(text(&lowered(&chars(s))), s.to_ascii_lowercase());
    }
    assert_eq!(text(&lowered(&chars("AbC-3D Ä"))), "abc-3d Ä");
    assert_eq!(chars_of("héllo"), chars("héllo"));
}

#[test]
fn lines_as_std_gives_them() {
    for s in ["", "a", "a\n", "a\nb", "a\r\nb\r\n", "\n", "\n\n", "a\n\nb", "a\r", "a\rb\n", "\r\n", "a\r\r\n", "x\n\r"] {
        let expected: Vec<String> = s.lines().map(|l| l.to_string()).collect();
        assert_eq!(lines_of(s), expected, "{:?}", s);
    }
}

#[test]
fn searching_and_joining() {
    assert!(starts_with(&chars("dimension: 3"), &chars("dimension: ")));
    assert!(starts_with(&chars("abc"), &chars("")));
    assert!(!starts_with(&chars("ab"), &chars("abc")));
    assert_eq!(find(&chars("key:=value:=x"), &chars(":=")), Some(3));
    assert_eq!(find(&chars("key"), &chars(":=")), None);
    assert_eq!(find(&chars("aab"), &chars("ab")), Some(1));
    assert_eq!(find(&chars(""), &chars("")), None);
    let items = vec![chars("a"), chars(""), chars("bc")];
    assert_eq!(text(&joined(&items, ", ")), "a, , bc");
    assert_eq!(text(&joined(&vec![], ", ")), "");
    assert_eq!(text(&joined(&vec![chars("x")], ", ")), "x");
}

#[test]
fn unsigned_decimals_as_std_reads_them() {
    for s in ["0", "7", "+7", "007", "255", "256", "-1", "", "+", "1a", " 1", "1 ", "+-1", "18446744073709551615", "18446744073709551616", "000000000000000000000000000001"] {
        assert_eq!(parse_unsigned(&chars(s), u64::MAX), s.parse::<u64>().ok(), "{:?}", s);
        assert_eq!(parse_unsigned(&chars(s), 255), s.parse::<u8>().ok().map(|x| x as u64), "{:?}", s);
    }
    assert_eq!(parse_unsigned(&chars("5"), 4), None);
    assert_eq!(parse_unsigned(&chars("4"), 4), Some(4));
    assert_eq!(parse_unsigned(&chars("0"), 0), Some(0));
}

#[test]
fn signed_decimals_as_std_reads_them() {
    for s in ["0", "-0", "+0", "7", "-7", "+7", "--7", "-+7", "-", "", "2147483647", "2147483648", "-2147483648", "-2147483649", "9223372036854775807", "9223372036854775808", "-9223372036854775808", "-9223372036854775809", "1e3"] {
        assert_eq!(parse_signed(&chars(s), i64::MIN, i64::MAX), s.parse::<i64>().ok(), "{:?}", s);
        assert_eq!(
            parse_signed(&chars(s), i32::MIN as i64, i32::MAX as i64),
            s.parse::<i32>().ok().map(|x| x as i64),
            "{:?}",
            s
        );
    }
}

#[test]
fn decimals_as_std_writes_them() {
    for n in [0u64, 1, 9, 10, 99, 100, 12345, u32::MAX as u64, u64::MAX] {
        let mut out = chars("n=");
        push_nat(&mut out, n);
        assert_eq!(text(&out), format!("n={}", n));
    }
    for i in [0i64, 1, -1, 10, -10, i32::MIN as i64, i64::MAX, i64::MIN] {
        let mut out = Vec::new();
        push_int(&mut out, i);
        assert_eq!(text(&out), i.to_string());
    }
}

#[test]
fn order_of_texts_is_that_of_strings() {
    let samples = ["", "a", "ab", "b", "B", "aa", "é", "z", "zz", "a b", "\u{10000}", "\u{ffff}"];
    for a in samples {
        for b in samples {
            assert_eq!(text_less(&chars(a), &chars(b)), a < b, "{:?} {:?}", a, b);
        }
    }
}

#[test]
fn prefixes_match_as_anchored_patterns() {
    let pattern = regex::RegexSet::new(Dimension::patterns().iter().map(|p| format!("^{}", p))).unwrap();
    for s in ["dimension: 3", "dimension:3", " dimension: 3", "dimension: ", "Dimension: 3", "", "space dimension: 3", "dimension: dimension: 3"] {
        assert_eq!(Dimension::matches(s), pattern.is_match(s), "{:?}", s);
    }
}

#[test]
fn quoted_texts_agree_with_their_pattern() {
    let pattern = regex::Regex::new(r#""([^"]+)""#).unwrap();
    for s in [
        "", "\"x\"", "\"x\" \"y\"", "\"x\"\"y\"", "\"\"", "\"\" \"x\"", "\"\"\"x\"", "\"a", "a\"",
        "x \"a b\" y \"c\"", "\"a\" \"", "\"\"\"\"", "\" \"", "'x'", "\"a\"b\"c\"", "\"é\" \"\u{3000}\"",
    ] {
        let expected: Vec<String> = pattern
            .find_iter(s)
            .map(|m| m.as_str()[1..m.as_str().len() - 1].to_string())
            .collect();
        assert_eq!(parse_quoted(&chars(s)), expected, "{:?}", s);
        let line = format!("labels: {}", s);
        let by_field: Vec<String> = pattern
            .find_iter(s.trim())
            .map(|m| m.as_str()[1..m.as_str().len() - 1].to_string())
            .collect();
        assert_eq!(Labels::from_str(&line).unwrap().labels(), &by_field, "{:?}", s);
    }
}

#[test]
fn lists_of_numbers() {
    assert_eq!(parse_list_input("[128, 128 64]", '[', ']'), Ok(vec![128, 128, 64]));
    assert_eq!(parse_list_input("dims = (1,2,,3) and more)", '(', ')'), Ok(vec![1, 2, 3]));
    assert_eq!(parse_list_input("[]", '[', ']'), Ok(vec![]));
    assert_eq!(parse_list_input("[ +7\t]", '[', ']'), Ok(vec![7]));
    assert_eq!(parse_list_input("1 2 3", '[', ']'), Err(ListError::MissingOpen));
    assert_eq!(parse_list_input("[1 2 3", '[', ']'), Err(ListError::MissingClose));
    assert_eq!(parse_list_input("]1 2 3[", '[', ']'), Err(ListError::MissingClose));
    assert_eq!(parse_list_input("[1 x 3]", '[', ']'), Err(ListError::BadItem(1)));
    assert_eq!(parse_list_input("[1 2 -3]", '[', ']'), Err(ListError::BadItem(2)));
    assert_eq!(parse_list_input("[1.5]", '[', ']'), Err(ListError::BadItem(0)));
    assert_eq!(parse_list_input("|1|2|", '|', '|'), Ok(vec![1]));
}

#[test]
fn type_names_on_their_own() {
    assert_eq!(DType::new("ushort"), Some(DType::uint16));
    assert_eq!(DType::new(" double "), Some(DType::double));
    assert_eq!(DType::new("real"), None);
}
