//! The library's character and number grammars agree with std's.
use afm_metrics::number::{float_literal_ok, parse_i32, parse_usize};
use afm_metrics::text::is_whitespace;
use afm_metrics::{char_column, next_token, skip_ws};

fn chars(s: &str) -> Vec<char> {
    s.chars().collect()
}

const SAMPLES: &[&str] = &[
    "", "0", "1", "-1", "+1", "-", "+", "--1", "+-1", "12a", "a12", " 1", "1 ", "007",
    "2147483647", "2147483648", "-2147483648", "-2147483649", "4294967295", "18446744073709551615",
    "18446744073709551616", "99999999999999999999999", "1.5", ".5", "5.", ".", "1e5", "1E5",
    "1e+5", "1e-5", "1e", "e5", "1.e3", ".e3", "1.5e", "inf", "INF", "Inf", "-inf", "+infinity",
    "Infinity", "infinit", "nan", "NaN", "-nan", "nan1", "1_000", "0x10", "1..2", "1.2.3",
    "1e5e5", "١٢", "٣", "１", "-0", "+0", "0.0", "-.5", "+.5e-3", "1e0005", "infe", "inF",
];

#[test]
fn float_grammar_agrees_with_f64_from_str() {
    for s in SAMPLES {
        assert_eq!(float_literal_ok(&chars(s)), s.parse::<f64>().is_ok(), "{:?}", s);
    }
}

#[test]
fn i32_parse_agrees_with_std() {
    for s in SAMPLES {
        assert_eq!(parse_i32(&chars(s)), s.parse::<i32>().ok(), "{:?}", s);
    }
}

#[test]
fn usize_parse_agrees_with_std() {
    for s in SAMPLES {
        assert_eq!(parse_usize(&chars(s)), s.parse::<usize>().ok(), "{:?}", s);
    }
}

#[test]
fn whitespace_agrees_with_char_is_whitespace() {
    for u in 0u32..=0x10FFFF {
        if let Some(c) = char::from_u32(u) {
            assert_eq!(is_whitespace(c), c.is_whitespace(), "U+{:04X}", u);
        }
    }
}

/// Every string of up to `max` characters over `alphabet`.
fn all_strings(alphabet: &[char], max: usize) -> Vec<String> {
    let mut out = vec![String::new()];
    let mut layer = vec![String::new()];
    for _ in 0..max {
        let mut next = Vec::new();
        for s in &layer {
            for c in alphabet {
                let mut t = s.clone();
                t.push(*c);
                next.push(t);
            }
        }
        out.extend(next.iter().cloned());
        layer = next;
    }
    out
}

#[test]
fn float_grammar_agrees_on_every_short_string() {
    let alphabet = ['0', '7', '.', 'e', 'E', '+', '-', 'i', 'n', 'f', 'a', 'N', 'y', ' '];
    for s in all_strings(&alphabet, 5) {
        assert_eq!(float_literal_ok(&chars(&s)), s.parse::<f64>().is_ok(), "{:?}", s);
    }
    for s in ["infinity", "INFINITY", "-InFiNiTy", "+nan", "1.5e+10", "0000.0000e-0000"] {
        assert_eq!(float_literal_ok(&chars(s)), s.parse::<f64>().is_ok(), "{:?}", s);
    }
}

#[test]
fn integer_grammars_agree_on_every_short_string() {
    let alphabet = ['0', '1', '9', '+', '-', 'a', ' ', '٣'];
    for s in all_strings(&alphabet, 6) {
        assert_eq!(parse_i32(&chars(&s)), s.parse::<i32>().ok(), "{:?}", s);
        assert_eq!(parse_usize(&chars(&s)), s.parse::<usize>().ok(), "{:?}", s);
    }
}

#[test]
fn byte_offset_helpers_agree_with_str_on_every_short_string() {
    let alphabet = ['a', ' ', '\t', '\u{e9}', '\u{3000}', '\u{1f600}', '\u{a0}'];
    for s in all_strings(&alphabet, 4) {
        let s = s.as_str();
        assert_eq!(skip_ws(s), s.len() - s.trim_start().len(), "{:?}", s);
        for b in 0..=s.len() + 2 {
            let m = b.min(s.len());
            if s.is_char_boundary(m) {
                assert_eq!(char_column(s, b), s[..m].chars().count() + 1, "{:?} {}", s, b);
            }
            if b <= s.len() && s.is_char_boundary(b) {
                let rest = &s[b..];
                let expected = rest.split_whitespace().next().map(|t| {
                    let start = b + (rest.len() - rest.trim_start().len());
                    (start, t)
                });
                assert_eq!(next_token(s, b), expected, "{:?} {}", s, b);
            }
        }
    }
}
