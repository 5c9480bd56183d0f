use linmon::number::{parse_i128, parse_i64, push_decimal};
use linmon::text::{
    contains, is_whitespace, push_chars, same_chars, split_lines, split_whitespace, starts_with,
    to_chars, to_string,
};

fn chars(s: &str) -> Vec<char> {
    s.chars().collect()
}

fn strings(v: Vec<Vec<char>>) -> Vec<String> {
    v.into_iter().map(|t| t.into_iter().collect()).collect()
}

#[test]
fn whitespace_is_what_the_standard_library_takes_for_it() {
    for u in 0..=0x10ffffu32 {
        if let Some(c) = char::from_u32(u) {
            assert_eq!(is_whitespace(c), c.is_whitespace(), "U+{:04X}", u);
        }
    }
}

#[test]
fn characters_and_strings_convert_both_ways() {
    for s in ["", "a", "tmux: client", "\u{e9}t\u{e9} \u{1f600}\n"] {
        assert_eq!(to_chars(s), chars(s));
        assert_eq!(to_string(&chars(s)), s);
    }
    let mut s = String::from("ab");
    push_chars(&mut s, &chars("cd"));
    assert_eq!(s, "abcd");
}

#[test]
fn fields_are_the_runs_between_whitespace() {
    for s in [
        "",
        " ",
        "a",
        " a ",
        "a b",
        "a  b\tc\n",
        "\u{3000}x\u{85}y\u{2003}z",
        "1 (tmux: client) S 0",
        "  lead and trail  ",
        "a\u{200b}b",
    ] {
        let want: Vec<String> = s.split_whitespace().map(|t| t.to_string()).collect();
        assert_eq!(strings(split_whitespace(&chars(s))), want, "{:?}", s);
    }
    assert_eq!(strings(split_whitespace(&chars("a  b\tc\n"))), vec!["a", "b", "c"]);
}

#[test]
fn lines_end_at_line_feeds() {
    for s in [
        "",
        "\n",
        "a",
        "a\n",
        "a\nb",
        "a\n\nb\n",
        "a\r\nb\r\n",
        "a\r",
        "\r\n",
        "a\r\r\n",
        "\n\n",
        "a b c\n d e f ",
    ] {
        let want: Vec<String> = s.lines().map(|t| t.to_string()).collect();
        assert_eq!(strings(split_lines(&chars(s))), want, "{:?}", s);
    }
    assert_eq!(strings(split_lines(&chars("a\r\n\nb"))), vec!["a", "", "b"]);
}

#[test]
fn prefixes_and_parts_are_found() {
    assert!(starts_with(&chars("/dev/sda"), &chars("/dev/")));
    assert!(starts_with(&chars("/dev/"), &chars("/dev/")));
    assert!(starts_with(&chars("abc"), &chars("")));
    assert!(!starts_with(&chars("/dev"), &chars("/dev/")));
    assert!(!starts_with(&chars("x/dev/"), &chars("/dev/")));
    assert!(contains(&chars("udev"), &chars("dev")));
    assert!(contains(&chars("dev"), &chars("dev")));
    assert!(contains(&chars("/dev/sda"), &chars("dev")));
    assert!(contains(&chars("abc"), &chars("")));
    assert!(contains(&chars(""), &chars("")));
    assert!(!contains(&chars("de"), &chars("dev")));
    assert!(!contains(&chars("dexv"), &chars("dev")));
    assert!(!contains(&chars(""), &chars("dev")));
    assert!(same_chars(&chars("abc"), &chars("abc")));
    assert!(!same_chars(&chars("abc"), &chars("abd")));
    assert!(!same_chars(&chars("abc"), &chars("ab")));
}

#[test]
fn decimal_integers_are_read() {
    assert_eq!(parse_i64(&chars("0")), Some(0));
    assert_eq!(parse_i64(&chars("-0")), Some(0));
    assert_eq!(parse_i64(&chars("+5")), Some(5));
    assert_eq!(parse_i64(&chars("-1")), Some(-1));
    assert_eq!(parse_i64(&chars("007")), Some(7));
    assert_eq!(parse_i64(&chars("4210944")), Some(4210944));
    assert_eq!(parse_i64(&chars("9223372036854775807")), Some(i64::MAX));
    assert_eq!(parse_i64(&chars("-9223372036854775808")), Some(i64::MIN));
    assert_eq!(parse_i64(&chars("9223372036854775808")), None);
    assert_eq!(parse_i64(&chars("-9223372036854775809")), None);
    assert_eq!(parse_i64(&chars("18446744073709551615")), None);
    assert_eq!(parse_i128(&chars("18446744073709551615")), Some(18446744073709551615));
    assert_eq!(
        parse_i128(&chars("170141183460469231731687303715884105727")),
        Some(i128::MAX)
    );
    assert_eq!(
        parse_i128(&chars("-170141183460469231731687303715884105728")),
        Some(i128::MIN)
    );
    assert_eq!(parse_i128(&chars("170141183460469231731687303715884105728")), None);
    assert_eq!(parse_i128(&chars("-170141183460469231731687303715884105729")), None);
    assert_eq!(parse_i128(&chars("999999999999999999999999999999999999999999")), None);
    assert_eq!(
        parse_i128(&chars("0000000000000000000000000000000000000000000000000012")),
        Some(12)
    );
}

#[test]
fn what_is_no_decimal_integer_is_refused() {
    for s in ["", "-", "+", "--1", "+-1", "1-", "1a", "a1", " 1", "1 ", "1.0", "0x10", "1_000",
        "\u{661}", "\u{ff11}", "1e3"] {
        assert_eq!(parse_i64(&chars(s)), None, "{:?}", s);
        assert_eq!(parse_i128(&chars(s)), None, "{:?}", s);
        assert!(s.parse::<i64>().is_err());
    }
    for s in ["0", "-0", "+0", "12", "-12", "+12", "0012", "9223372036854775807",
        "9223372036854775808", "-9223372036854775808", "-9223372036854775809"] {
        assert_eq!(parse_i64(&chars(s)), s.parse::<i64>().ok(), "{:?}", s);
        assert_eq!(parse_i128(&chars(s)), s.parse::<i128>().ok(), "{:?}", s);
    }
}

#[test]
fn numbers_are_written_in_decimal() {
    for v in [0i64, 1, 9, 10, 11, 99, 100, 4242, -1, -10, -4242, i64::MAX, i64::MIN, i64::MIN + 1] {
        let mut s = String::from("x");
        push_decimal(&mut s, v);
        assert_eq!(s, format!("x{}", v));
        assert_eq!(parse_i64(&chars(&s[1..])), Some(v));
    }
}
