use stele_undead::text::{
    decimal_chars, find_chars, find_whitespace, is_whitespace, lines_of, parse_unsigned_chars,
    split_chars, string_of, to_chars,
};

fn parse(s: &str, max: u64) -> Option<u64> {
    let v = to_chars(s);
    parse_unsigned_chars(&v, 0, v.len(), max)
}

fn parse_matches_std_usize(s: &str) {
    let std: Option<u64> = s.parse::<u32>().ok().map(|x| x as u64);
    assert_eq!(parse(s, u32::MAX as u64), std, "input {s:?}");
}

#[test]
fn parse_numbers_like_std() {
    for s in ["0", "7", "+7", "007", "+", "", "-1", "12a", " 1", "4294967295", "4294967296", "++1"] {
        parse_matches_std_usize(s);
    }
}

#[test]
fn parse_usize_bounds() {
    assert_eq!(parse("18446744073709551615", u64::MAX), Some(u64::MAX));
    assert_eq!(parse("18446744073709551616", u64::MAX), None);
    assert_eq!(parse("10", 9), None);
    assert_eq!(parse("9", 9), Some(9));
}

#[test]
fn split_like_std() {
    for s in ["a,b,c", "", ",", "gnome,,hicolor", "one"] {
        let v = to_chars(s);
        let got = split_chars(&v, 0, v.len(), ',');
        let want: Vec<String> = s.split(',').map(|p| p.to_string()).collect();
        assert_eq!(got, want);
    }
}

#[test]
fn lines_like_std() {
    for s in ["a\nb", "a\r\nb\r\n", "", "\n", "x\r", "a\n\nb\n", "\r\n"] {
        let v = to_chars(s);
        let got: Vec<String> = lines_of(&v).iter().map(|l| l.iter().collect()).collect();
        let want: Vec<String> = s.lines().map(|l| l.to_string()).collect();
        assert_eq!(got, want, "input {s:?}");
    }
}

#[test]
fn find_substring() {
    let v = to_chars("[Icon Theme]\nInherits=gnome");
    assert_eq!(find_chars(&v, &to_chars("Inherits=")), Some(13));
    assert_eq!(find_chars(&v, &to_chars("Missing")), None);
    assert_eq!(find_chars(&v, &to_chars("")), Some(0));
}

#[test]
fn whitespace_like_std() {
    for c in [' ', '\t', '\n', '\r', '\u{b}', '\u{c}', '\u{85}', '\u{a0}', '\u{2003}', '\u{3000}', 'a', '\u{200b}', '_'] {
        assert_eq!(is_whitespace(c), c.is_whitespace(), "char {c:?}");
    }
    let v = to_chars("ab cd");
    assert_eq!(find_whitespace(&v, 0), Some(2));
    assert_eq!(find_whitespace(&v, 3), None);
}

#[test]
fn decimal_like_format() {
    for n in [0usize, 5, 9, 10, 42, 255, 1000] {
        let s: String = decimal_chars(n).iter().collect();
        assert_eq!(s, format!("{n}"));
    }
}

#[test]
fn string_of_range() {
    let v = to_chars("héllo");
    assert_eq!(string_of(&v, 1, 3), "él");
}
