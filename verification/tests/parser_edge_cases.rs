use afm_metrics::{parse, FontMetrics, ParseError};

const SAMPLE: &str = "StartFontMetrics 4.1\nFontName Helvetica\nFullName Helvetica\nStartCharMetrics 2\nC 32 ; WX 278 ; N space ;\nC 65 ; WX 667 ; N A ;\nEndCharMetrics\nEndFontMetrics\n";

fn err(input: &str) -> ParseError {
    parse(input).unwrap_err()
}

fn in_chars(body: &str) -> String {
    format!("StartFontMetrics 4.1\nStartCharMetrics 1\n{}\nEndCharMetrics\nEndFontMetrics\n", body)
}

fn in_kerns(body: &str) -> String {
    format!("StartFontMetrics 4.1\nStartKernPairs 1\n{}\nEndKernPairs\nEndFontMetrics\n", body)
}

fn in_header(line: &str) -> String {
    format!("StartFontMetrics 4.1\n{}\nEndFontMetrics\n", line)
}

fn names(m: &FontMetrics) -> Vec<String> {
    m.glyphs.iter().map(|g| g.name.clone()).collect()
}

#[test]
fn empty_file_is_reported_at_line_one() {
    let e = err("");
    assert_eq!((e.line, e.column), (1, 1));
    assert_eq!(e.message, "file is empty; expected 'StartFontMetrics'");
}

#[test]
fn blank_only_file_is_empty() {
    let e = err("  \n\t\n");
    assert_eq!((e.line, e.column), (1, 1));
    assert_eq!(e.message, "file is empty; expected 'StartFontMetrics'");
}

#[test]
fn header_may_follow_blank_lines_and_indent() {
    let m = parse("\n\n  StartFontMetrics 4.1\nEndFontMetrics\n").unwrap();
    assert!(m.glyphs.is_empty());
    assert_eq!(m.font_name, None);
}

#[test]
fn wrong_first_line_is_quoted_trimmed() {
    let e = err("\n  Hello world  \n");
    assert_eq!((e.line, e.column), (2, 1));
    assert_eq!(e.message, "expected 'StartFontMetrics' as the first line, found 'Hello world'");
}

#[test]
fn missing_end_is_reported_at_the_last_line() {
    let e = err("StartFontMetrics 4.1\nFontName X\n\n");
    assert_eq!((e.line, e.column), (3, 1));
    assert_eq!(e.message, "file is missing a closing 'EndFontMetrics' line");
}

#[test]
fn unclosed_char_block_is_missing_its_end() {
    let e = err("StartFontMetrics 4.1\nStartCharMetrics 1\nC 65 ; WX 1 ; N A ;\n");
    assert_eq!((e.line, e.column), (3, 1));
    assert_eq!(e.message, "file is missing a closing 'EndFontMetrics' line");
}

#[test]
fn crlf_line_endings_parse() {
    let input = "StartFontMetrics 4.1\r\nFontName Times\r\nStartCharMetrics 1\r\nC 65 ; WX 722 ; N A ;\r\nEndCharMetrics\r\nEndFontMetrics\r\n";
    let m = parse(input).unwrap();
    assert_eq!(m.font_name.as_deref(), Some("Times"));
    assert_eq!(names(&m), vec!["A"]);
}

#[test]
fn unknown_header_keys_are_skipped_in_files() {
    let input = "StartFontMetrics 4.1\nComment anything: 1 ; 2\nCharacters 315\nFontName X\nEndFontMetrics\n";
    let m = parse(input).unwrap();
    assert_eq!(m.font_name.as_deref(), Some("X"));
}

#[test]
fn unknown_fields_are_skipped_in_char_lines() {
    let m = parse(&in_chars("C 65 ; WX 667 ; N A ; B 0 0 10 10 ;")).unwrap();
    assert_eq!(m.glyphs[0].code, 65);
    assert_eq!(m.glyphs[0].width.as_str(), "667");
}

#[test]
fn text_after_end_is_ignored_in_files() {
    let with_tail = format!("{}this is not AFM\nKPX\n", SAMPLE);
    let a = parse(SAMPLE).unwrap();
    let b = parse(&with_tail).unwrap();
    assert_eq!(names(&a), names(&b));
    assert_eq!(a.font_name, b.font_name);
}

#[test]
fn blank_lines_change_nothing() {
    let spaced = SAMPLE.replace('\n', "\n  \n");
    let a = parse(SAMPLE).unwrap();
    let b = parse(&spaced).unwrap();
    assert_eq!(names(&a), names(&b));
    assert_eq!(a.full_name, b.full_name);
}

#[test]
fn full_header_is_read() {
    let input = "StartFontMetrics 4.1\nFontName Helvetica\nFullName Helvetica Bold\nFamilyName Helvetica\nWeight Medium\nVersion 002.000\nNotice Copyright (c) 1985\nEncodingScheme AdobeStandardEncoding\nItalicAngle -12.5\nIsFixedPitch false\nFontBBox -166 -225 1000 931\nUnderlinePosition -100\nUnderlineThickness 50\nCapHeight 718\nXHeight 523\nAscender 718\nDescender -207\nStdHW 80\nStdVW 88\nEndFontMetrics\n";
    let m = parse(input).unwrap();
    assert_eq!(m.full_name.as_deref(), Some("Helvetica Bold"));
    assert_eq!(m.weight.as_deref(), Some("Medium"));
    assert_eq!(m.version.as_deref(), Some("002.000"));
    assert_eq!(m.notice.as_deref(), Some("Copyright (c) 1985"));
    assert_eq!(m.encoding_scheme.as_deref(), Some("AdobeStandardEncoding"));
    assert_eq!(m.italic_angle.as_ref().map(|n| n.as_str()), Some("-12.5"));
    assert_eq!(m.is_fixed_pitch, Some(false));
    let b = m.font_bbox.as_ref().unwrap();
    assert_eq!(
        (b.llx.as_str(), b.lly.as_str(), b.urx.as_str(), b.ury.as_str()),
        ("-166", "-225", "1000", "931")
    );
    assert_eq!(m.underline_position.as_ref().unwrap().as_str(), "-100");
    assert_eq!(m.underline_thickness.as_ref().unwrap().as_str(), "50");
    assert_eq!(m.cap_height.as_ref().unwrap().as_str(), "718");
    assert_eq!(m.x_height.as_ref().unwrap().as_str(), "523");
    assert_eq!(m.ascender.as_ref().unwrap().as_str(), "718");
    assert_eq!(m.descender.as_ref().unwrap().as_str(), "-207");
    assert_eq!(m.std_hw.as_ref().unwrap().as_str(), "80");
    assert_eq!(m.std_vw.as_ref().unwrap().as_str(), "88");
}

#[test]
fn fixed_pitch_true_is_read() {
    let m = parse(&in_header("IsFixedPitch true")).unwrap();
    assert_eq!(m.is_fixed_pitch, Some(true));
}

#[test]
fn bad_header_number_is_located_at_the_value() {
    let e = err(&in_header("ItalicAngle -12.x"));
    assert_eq!((e.line, e.column), (2, 13));
    assert_eq!(e.message, "expected a number after 'ItalicAngle', found '-12.x'");
}

#[test]
fn bad_fixed_pitch_is_located_at_the_value() {
    let e = err(&in_header("IsFixedPitch yes"));
    assert_eq!((e.line, e.column), (2, 14));
    assert_eq!(e.message, "expected 'true' or 'false' after 'IsFixedPitch', found 'yes'");
}

#[test]
fn short_bounding_box_is_located_at_the_value() {
    let e = err(&in_header("FontBBox 1 2 3"));
    assert_eq!((e.line, e.column), (2, 10));
    assert_eq!(e.message, "expected four numbers after 'FontBBox', found '1 2 3'");
}

#[test]
fn bad_bounding_box_number_is_located_at_the_number() {
    let e = err(&in_header("FontBBox 1 2 x 4"));
    assert_eq!((e.line, e.column), (2, 14));
    assert_eq!(e.message, "bounding box value 'x' is not a valid number");
}

#[test]
fn bad_glyph_count_is_located_at_the_value() {
    let e = err(&in_header("StartCharMetrics two"));
    assert_eq!((e.line, e.column), (2, 18));
    assert_eq!(e.message, "expected a glyph count after 'StartCharMetrics', found 'two'");
}

#[test]
fn negative_pair_count_is_rejected() {
    let e = err(&in_header("StartKernPairs -1"));
    assert_eq!((e.line, e.column), (2, 16));
    assert_eq!(e.message, "expected a pair count after 'StartKernPairs', found '-1'");
}

#[test]
fn count_mismatch_messages_name_both_counts() {
    let e = err("StartFontMetrics 4.1\nStartCharMetrics 2\nC 65 ; WX 667 ; N A ;\nEndCharMetrics\nEndFontMetrics\n");
    assert_eq!(e.message, "StartCharMetrics declared 2 glyphs but 1 were found");
    assert_eq!(e.column, 1);
    let e = err("StartFontMetrics 4.1\nStartKernPairs 12\nKPX A V -70\nEndKernPairs\nEndFontMetrics\n");
    assert_eq!(e.message, "StartKernPairs declared 12 pairs but 1 were found");
}

#[test]
fn missing_fields_are_reported_past_the_line_end() {
    let e = err(&in_chars("C 65 ; N A ;"));
    assert_eq!((e.line, e.column), (3, 13));
    assert_eq!(e.message, "char metrics line is missing a 'WX' (width) field");
    let e = err(&in_chars("WX 5 ; N A"));
    assert_eq!((e.line, e.column), (3, 11));
    assert_eq!(e.message, "char metrics line is missing a 'C' (code) field");
    let e = err(&in_chars("C 1 ; WX 5"));
    assert_eq!((e.line, e.column), (3, 11));
    assert_eq!(e.message, "char metrics line is missing an 'N' (name) field");
}

#[test]
fn glyph_codes_are_i32() {
    let e = err(&in_chars("C 2147483648 ; WX 1 ; N A"));
    assert_eq!((e.line, e.column), (3, 1));
    assert_eq!(e.message, "glyph code 'C 2147483648' is not a valid integer");
    let m = parse(&in_chars("  C -2147483648 ; WX 1 ; N A ;")).unwrap();
    assert_eq!(m.glyphs[0].code, i32::MIN);
}

#[test]
fn empty_glyph_name_is_rejected() {
    let e = err(&in_chars("C 1 ; WX 1 ; N ;"));
    assert_eq!((e.line, e.column), (3, 14));
    assert_eq!(e.message, "glyph name field 'N' has no value");
}

#[test]
fn bad_width_message_quotes_the_field() {
    let e = err(&in_chars("C 65 ; WX abc ; N A ;"));
    assert_eq!(e.message, "advance width 'WX abc' is not a valid number");
}

#[test]
fn widths_take_every_float_form() {
    for w in ["1e3", ".5", "5.", "inf", "NaN", "+1", "-0.25E-2"] {
        let m = parse(&in_chars(&format!("C 1 ; WX {} ; N a ;", w))).unwrap();
        assert_eq!(m.glyphs[0].width.as_str(), w);
    }
    for w in ["1e", ".", "e5", "1.2.3", "0x10"] {
        assert!(parse(&in_chars(&format!("C 1 ; WX {} ; N a ;", w))).is_err(), "{}", w);
    }
}

#[test]
fn ligatures_are_read_in_order() {
    let m = parse(&in_chars("C 102 ; WX 333 ; N f ; L i fi ; L l fl ;")).unwrap();
    let l: Vec<(String, String)> = m.glyphs[0]
        .ligatures
        .iter()
        .map(|l| (l.successor.clone(), l.ligature.clone()))
        .collect();
    assert_eq!(l, vec![("i".to_string(), "fi".to_string()), ("l".to_string(), "fl".to_string())]);
}

#[test]
fn short_ligature_is_located_at_the_field() {
    let e = err(&in_chars("C 1 ; WX 1 ; N f ; L i ;"));
    assert_eq!((e.line, e.column), (3, 20));
    assert_eq!(e.message, "ligature field 'L i' needs a successor and a ligature name");
}

#[test]
fn composite_parts_are_read() {
    let m = parse(&in_chars("C 197 ; WX 667 ; N Aring ; CC Aring 2 ; PCC A 0 0 ; PCC ring 167 -20.5 ;")).unwrap();
    let p: Vec<(String, String, String)> = m.glyphs[0]
        .composite_parts
        .iter()
        .map(|p| (p.name.clone(), p.x.as_str().to_string(), p.y.as_str().to_string()))
        .collect();
    assert_eq!(
        p,
        vec![
            ("A".to_string(), "0".to_string(), "0".to_string()),
            ("ring".to_string(), "167".to_string(), "-20.5".to_string())
        ]
    );
}

#[test]
fn composite_part_count_is_not_checked() {
    let m = parse(&in_chars("C 197 ; WX 667 ; N Aring ; CC Aring 3 ; PCC A 0 0 ;")).unwrap();
    assert_eq!(m.glyphs[0].composite_parts.len(), 1);
    assert_eq!(m.glyphs[0].composite_parts[0].name, "A");
}

#[test]
fn bad_composite_fields_are_located() {
    let e = err(&in_chars("C 197 ; WX 667 ; N Aring ; PCC A x 0 ;"));
    assert_eq!((e.line, e.column), (3, 28));
    assert_eq!(e.message, "composite part 'PCC A x 0' needs a glyph name and two numbers");
    let e = err(&in_chars("C 197 ; WX 667 ; N Aring ; CC Aring two ;"));
    assert_eq!((e.line, e.column), (3, 28));
    assert_eq!(e.message, "composite field 'CC Aring two' needs a name and a part count");
}

#[test]
fn columns_count_characters_not_bytes() {
    let e = err(&in_chars("N Ä ; C x ;"));
    assert_eq!((e.line, e.column), (3, 7));
    assert_eq!(e.message, "glyph code 'C x' is not a valid integer");
}

#[test]
fn short_kern_line_is_reported_past_its_end() {
    let e = err(&in_kerns("KPX A V"));
    assert_eq!((e.line, e.column), (3, 8));
    assert_eq!(e.message, "'KPX' line is missing the second glyph name or an adjustment value");
}

#[test]
fn kern_tokens_after_the_fourth_are_ignored() {
    let m = parse(&in_kerns("KPX A V -70 extra")).unwrap();
    let k = &m.kern_pairs[0];
    assert_eq!((k.first.as_str(), k.second.as_str(), k.adjustment.as_str()), ("A", "V", "-70"));
}

#[test]
fn non_kpx_line_is_quoted() {
    let e = err(&in_kerns("  KP A V -70 0  "));
    assert_eq!((e.line, e.column), (3, 1));
    assert_eq!(e.message, "expected a 'KPX' kerning pair, found 'KP A V -70 0'");
}

#[test]
fn bad_adjustment_message_quotes_the_token() {
    let e = err(&in_kerns("KPX A V oops"));
    assert_eq!(e.message, "kerning adjustment 'oops' is not a valid number");
}

#[test]
fn lookups_take_the_first_match() {
    let input = "StartFontMetrics 4.1\nStartCharMetrics 3\nC 65 ; WX 1 ; N A ;\nC 66 ; WX 2 ; N A ;\nC 65 ; WX 3 ; N B ;\nEndCharMetrics\nStartKernPairs 2\nKPX A V -1\nKPX A V -2\nEndKernPairs\nEndFontMetrics\n";
    let m = parse(input).unwrap();
    assert_eq!(m.glyph_named("A").unwrap().width.as_str(), "1");
    assert_eq!(m.glyph_named("B").unwrap().code, 65);
    assert!(m.glyph_named("C").is_none());
    assert_eq!(m.glyph_by_code(65).unwrap().name, "A");
    assert_eq!(m.glyph_by_code(66).unwrap().width.as_str(), "2");
    assert!(m.glyph_by_code(67).is_none());
    assert_eq!(m.kerning_between("A", "V").unwrap().as_str(), "-1");
    assert!(m.kerning_between("V", "A").is_none());
}

#[test]
fn inserted_unknown_header_line_keeps_the_metrics() {
    let (p, q) = SAMPLE.split_at(SAMPLE.find("StartCharMetrics").unwrap());
    let with_line = format!("{}Comment made by hand\n{}", p, q);
    let a = parse(SAMPLE).unwrap();
    let b = parse(&with_line).unwrap();
    assert_eq!(names(&a), names(&b));
    assert_eq!(a.font_name, b.font_name);
    assert_eq!(a.full_name, b.full_name);
    assert_eq!(a.glyphs.len(), b.glyphs.len());
    assert_eq!(a.kern_pairs.len(), b.kern_pairs.len());
}

#[test]
fn errors_do_not_depend_on_later_lines() {
    let a = "StartFontMetrics 4.1\nFontName X\nStartCharMetrics 1\nC 65 ; WX oops ; N A ;\nEndCharMetrics\nEndFontMetrics\n";
    let b = "StartFontMetrics 4.1\nFontName X\nStartCharMetrics 1\nC 65 ; WX oops ; N A ;\nKPX this is not read\n";
    let ea = err(a);
    let eb = err(b);
    assert_eq!((ea.line, ea.column), (4, 8));
    assert_eq!((eb.line, eb.column, eb.message.clone()), (ea.line, ea.column, ea.message.clone()));
}

#[test]
fn crlf_error_columns_stop_before_the_carriage_return() {
    let e = err("StartFontMetrics 4.1\r\nStartKernPairs 1\r\nKPX A\r\nEndKernPairs\r\nEndFontMetrics\r\n");
    assert_eq!((e.line, e.column), (3, 6));
}

#[test]
fn errors_do_not_depend_on_line_endings_or_later_lines() {
    let a = "StartFontMetrics 4.1\r\nStartKernPairs 1\r\nKPX A B x\r\nEndKernPairs\r\nEndFontMetrics\r\n";
    let b = "StartFontMetrics 4.1\nStartKernPairs 1\nKPX A B x  \nnot read";
    let ea = err(a);
    let eb = err(b);
    assert_eq!((ea.line, ea.column), (3, 9));
    assert_eq!((eb.line, eb.column, eb.message.clone()), (ea.line, ea.column, ea.message.clone()));
}
