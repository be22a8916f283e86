use jtop::text::{chars_of, parse_i64_chars, parse_trimmed_u32, parse_trimmed_u64, split_lines, split_words, trimmed};

fn strings(v: Vec<Vec<char>>) -> Vec<String> {
    v.into_iter().map(|x| x.into_iter().collect()).collect()
}

#[test]
fn lines_match_std() {
    for s in ["", "a", "a\n", "a\r\nb", "a\rb\n\nc", "\n\n", "x\r"] {
        let got = strings(split_lines(&chars_of(s)));
        let want: Vec<String> = s.lines().map(|l| l.to_string()).collect();
        assert_eq!(got, want, "{:?}", s);
    }
}

#[test]
fn words_match_std() {
    for s in ["", "  ", "a b", " a\tb \n c ", "x\u{3000}y\u{85}z"] {
        let got = strings(split_words(&chars_of(s)));
        let want: Vec<String> = s.split_whitespace().map(|l| l.to_string()).collect();
        assert_eq!(got, want, "{:?}", s);
    }
}

#[test]
fn numbers_match_std() {
    for s in ["0", "+7", "-7", "", "+", "18446744073709551615", "18446744073709551616", " 12 ", "1 2", "٣"] {
        assert_eq!(parse_trimmed_u64(s), s.trim().parse::<u64>().ok(), "{:?}", s);
        assert_eq!(parse_trimmed_u32(s), s.trim().parse::<u32>().ok(), "{:?}", s);
        assert_eq!(parse_i64_chars(&chars_of(s)), s.parse::<i64>().ok(), "{:?}", s);
    }
    for s in ["-9223372036854775808", "-9223372036854775809", "9223372036854775807", "-0", "4294967296"] {
        assert_eq!(parse_i64_chars(&chars_of(s)), s.parse::<i64>().ok(), "{:?}", s);
        assert_eq!(parse_trimmed_u32(s), s.parse::<u32>().ok(), "{:?}", s);
    }
    assert_eq!(trimmed("  a b \n"), "a b");
}
