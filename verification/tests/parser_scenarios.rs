use afm_metrics::parse;

const SAMPLE: &str = "StartFontMetrics 4.1\nFontName Helvetica\nFullName Helvetica\nStartCharMetrics 2\nC 32 ; WX 278 ; N space ;\nC 65 ; WX 667 ; N A ;\nEndCharMetrics\nEndFontMetrics\n";

fn num(n: &afm_metrics::Number) -> f64 {
    n.as_str().parse::<f64>().unwrap()
}

#[test]
fn parses_a_well_formed_file() {
    let metrics = parse(SAMPLE).expect("sample should parse");
    assert_eq!(metrics.font_name.as_deref(), Some("Helvetica"));
    assert_eq!(metrics.glyphs.len(), 2);
    assert_eq!(num(&metrics.glyph_named("A").unwrap().width), 667.0);
}

#[test]
fn rejects_missing_header() {
    let err = parse("FontName Helvetica\n").unwrap_err();
    assert_eq!(err.line, 1);
}

#[test]
fn reports_bad_width_with_location() {
    let input = "StartFontMetrics 4.1\nStartCharMetrics 1\nC 65 ; WX abc ; N A ;\nEndCharMetrics\nEndFontMetrics\n";
    let err = parse(input).unwrap_err();
    assert_eq!(err.line, 3);
    // "C 65 ; " is 7 characters, so the WX field starts at column 8.
    assert_eq!(err.column, 8);
}

#[test]
fn reports_glyph_count_mismatch() {
    let input = "StartFontMetrics 4.1\nStartCharMetrics 2\nC 65 ; WX 667 ; N A ;\nEndCharMetrics\nEndFontMetrics\n";
    let err = parse(input).unwrap_err();
    assert_eq!(err.line, 4);
}

#[test]
fn parses_kern_pairs() {
    let input = "StartFontMetrics 4.1\nStartKernPairs 2\nKPX A V -70\nKPX A W -50\nEndKernPairs\nEndFontMetrics\n";
    let metrics = parse(input).expect("sample should parse");
    assert_eq!(metrics.kern_pairs.len(), 2);
    assert_eq!(metrics.kerning_between("A", "V").map(num), Some(-70.0));
    assert_eq!(metrics.kerning_between("A", "Z").map(num), None);
}

#[test]
fn reports_bad_kerning_adjustment_with_location() {
    let input = "StartFontMetrics 4.1\nStartKernPairs 1\nKPX A V oops\nEndKernPairs\nEndFontMetrics\n";
    let err = parse(input).unwrap_err();
    assert_eq!(err.line, 3);
    // "KPX A V " is 8 characters, so the adjustment token starts at column 9.
    assert_eq!(err.column, 9);
}

#[test]
fn reports_kern_pair_count_mismatch() {
    let input = "StartFontMetrics 4.1\nStartKernPairs 2\nKPX A V -70\nEndKernPairs\nEndFontMetrics\n";
    let err = parse(input).unwrap_err();
    assert_eq!(err.line, 4);
}

#[test]
fn reports_kern_line_missing_kpx() {
    let input = "StartFontMetrics 4.1\nStartKernPairs 1\nKP A V -70 0\nEndKernPairs\nEndFontMetrics\n";
    let err = parse(input).unwrap_err();
    assert_eq!(err.line, 3);
    assert_eq!(err.column, 1);
}
