use afm_metrics::cli::{find_glyph, parse_command, Command};
use afm_metrics::json::json_quote;
use afm_metrics::{char_column, next_token, parse, skip_ws, ParseError};

fn args(list: &[&str]) -> Vec<String> {
    list.iter().map(|s| s.to_string()).collect()
}

#[test]
fn error_json_has_the_documented_shape() {
    let e = ParseError::new(14, 23, "advance width 'WX oops' is not a valid number".to_string());
    assert_eq!(
        e.to_json(),
        "{\"line\":14,\"column\":23,\"message\":\"advance width 'WX oops' is not a valid number\"}"
    );
}

#[test]
fn error_json_escapes_its_message() {
    let e = ParseError::new(1, 2, "a\"b\\c\nd\u{1}\te".to_string());
    assert_eq!(e.to_json(), "{\"line\":1,\"column\":2,\"message\":\"a\\\"b\\\\c\\nd\\u0001\\te\"}");
}

#[test]
fn json_quote_escapes_every_control_character() {
    assert_eq!(json_quote("\u{8}\u{c}\r\u{1f}é"), "\"\\b\\f\\r\\u001f\u{e9}\"");
    assert_eq!(json_quote(""), "\"\"");
}

#[test]
fn errors_describe_their_place() {
    let e = parse("StartFontMetrics 4.1\nStartCharMetrics 1\nC 65 ; WX abc ; N A ;\nEndCharMetrics\nEndFontMetrics\n")
        .unwrap_err();
    assert_eq!(e.describe(), "line 3, column 8: advance width 'WX abc' is not a valid number");
    let e = ParseError::new(1234567, 0, String::new());
    assert_eq!(e.describe(), "line 1234567, column 0: ");
}

#[test]
fn summary_arguments() {
    match parse_command(&args(&["font.afm"])) {
        Command::Summary { json, path } => assert_eq!((json, path.as_str()), (false, "font.afm")),
        c => panic!("{:?}", c),
    }
    match parse_command(&args(&["font.afm", "--json"])) {
        Command::Summary { json, path } => assert_eq!((json, path.as_str()), (true, "font.afm")),
        c => panic!("{:?}", c),
    }
    assert!(matches!(parse_command(&args(&[])), Command::SummaryUsage));
    assert!(matches!(parse_command(&args(&["--json"])), Command::SummaryUsage));
    assert!(matches!(parse_command(&args(&["a.afm", "b.afm"])), Command::SummaryUsage));
}

#[test]
fn glyph_arguments() {
    match parse_command(&args(&["glyph", "--json", "font.afm", "A"])) {
        Command::Glyph { json, path, query } => {
            assert_eq!((json, path.as_str(), query.as_str()), (true, "font.afm", "A"))
        }
        c => panic!("{:?}", c),
    }
    match parse_command(&args(&["glyph", "font.afm", "65", "--json"])) {
        Command::Glyph { json, path, query } => {
            assert_eq!((json, path.as_str(), query.as_str()), (true, "font.afm", "65"))
        }
        c => panic!("{:?}", c),
    }
    assert!(matches!(parse_command(&args(&["glyph", "font.afm"])), Command::GlyphUsage));
    assert!(matches!(parse_command(&args(&["glyph", "a", "b", "c"])), Command::GlyphUsage));
    match parse_command(&args(&["font.afm", "glyph"])) {
        Command::SummaryUsage => {}
        c => panic!("{:?}", c),
    }
}

#[test]
fn glyph_queries_try_names_before_codes() {
    let input = "StartFontMetrics 4.1\nStartCharMetrics 3\nC 65 ; WX 667 ; N A ;\nC 32 ; WX 278 ; N 65 ;\nC 66 ; WX 600 ; N B ;\nEndCharMetrics\nEndFontMetrics\n";
    let m = parse(input).unwrap();
    assert_eq!(find_glyph(&m, "A").unwrap().code, 65);
    assert_eq!(find_glyph(&m, "65").unwrap().name, "65");
    assert_eq!(find_glyph(&m, "66").unwrap().name, "B");
    assert_eq!(find_glyph(&m, "+66").unwrap().name, "B");
    assert!(find_glyph(&m, "67").is_none());
    assert!(find_glyph(&m, "Z").is_none());
}

#[test]
fn scanning_helpers() {
    assert_eq!(skip_ws("  \t ab"), 4);
    assert_eq!(skip_ws("ab"), 0);
    assert_eq!(skip_ws("   "), 3);
    assert_eq!(skip_ws("\u{3000} x"), 4);
    let line = "KPX  A \u{e9}";
    assert_eq!(next_token(line, 0), Some((0, "KPX")));
    assert_eq!(next_token(line, 3), Some((5, "A")));
    assert_eq!(next_token(line, 6), Some((7, "\u{e9}")));
    assert_eq!(next_token(line, 9), None);
    assert_eq!(char_column(line, 5), 6);
    assert_eq!(char_column(line, 7), 8);
    assert_eq!(char_column(line, 9), 9);
    assert_eq!(char_column(line, 100), 9);
}

#[test]
fn char_column_counts_characters_not_bytes() {
    let line = "\u{e9}\u{20ac}\u{1f600}x";
    assert_eq!(char_column(line, 0), 1);
    assert_eq!(char_column(line, 2), 2);
    assert_eq!(char_column(line, 5), 3);
    assert_eq!(char_column(line, 9), 4);
    assert_eq!(char_column(line, 10), 5);
    assert_eq!(char_column(line, 11), 5);
    assert_eq!(skip_ws("\u{a0}\u{2003}\u{e9}"), 5);
}

#[test]
fn next_token_chain_matches_split_whitespace() {
    for text in [
        "",
        "   ",
        "KPX A B -50",
        "  C 65 ; WX 500 ; N A ;  ",
        "\u{e9}t\u{e9} \u{3000}caf\u{e9}\tna\u{ef}ve\u{2028}x",
        "\u{1f600}\u{a0}\u{1f601}",
    ] {
        let mut found = Vec::new();
        let mut offset = 0;
        while let Some((start, tok)) = next_token(text, offset) {
            assert_eq!(&text[start..start + tok.len()], tok);
            offset = start + tok.len();
            found.push(tok);
        }
        let expected: Vec<&str> = text.split_whitespace().collect();
        assert_eq!(found, expected);
    }
}

#[test]
fn default_metrics_are_empty() {
    let m = afm_metrics::FontMetrics::default();
    assert!(m.font_name.is_none());
    assert!(m.font_bbox.is_none());
    assert!(m.std_vw.is_none());
    assert!(m.glyphs.is_empty());
    assert!(m.kern_pairs.is_empty());
}

#[test]
fn numbers_in_messages_are_decimal() {
    assert_eq!(afm_metrics::text::decimal_string(0), "0");
    assert_eq!(afm_metrics::text::decimal_string(1090), "1090");
    assert_eq!(afm_metrics::text::decimal_string(usize::MAX), usize::MAX.to_string());
}

#[test]
fn single_lines_parse_on_their_own() {
    let g = afm_metrics::parse_char_metrics_line("C 65 ; WX 667 ; N A ;", 7).unwrap();
    assert_eq!((g.code, g.width.as_str(), g.name.as_str()), (65, "667", "A"));
    let e = afm_metrics::parse_char_metrics_line("C 65 ; WX \u{e9} ; N A ;", 7).unwrap_err();
    assert_eq!((e.line, e.column), (7, 8));
    let k = afm_metrics::parse_kern_pair_line("KPX A \u{e9} -50", 9).unwrap();
    assert_eq!((k.first.as_str(), k.second.as_str(), k.adjustment.as_str()), ("A", "\u{e9}", "-50"));
    let e = afm_metrics::parse_kern_pair_line("KPX \u{e9} B x", 9).unwrap_err();
    assert_eq!((e.line, e.column), (9, 9));
}
