//! Properties of the parser as a whole, proved over its specification.
use vstd::prelude::*;
use crate::char_metrics::{
    no_fields, spec_char_line, spec_field, spec_fields_from, FieldsModel,
};
use crate::cli::{scan_glyph, scan_summary, spec_command, spec_find_glyph, CommandModel};
use crate::kern::spec_kern_line;
use crate::metrics::{glyph_ok, kern_ok, metrics_ok, ErrorModel, MetricsModel};
use crate::number::{index_of_from, is_float_literal, lemma_index_of_from, spec_parse_i32};
use crate::parser::{
    bbox_value, first_nonblank, lines, lines_from, number_value, spec_header_line, spec_parse,
    spec_run, spec_step, start_state, trim_end_line, ParserState, Section,
};
use crate::offsets::{
    byte_pos, column_at, lemma_byte_pos_mono, lemma_char_boundary, lemma_char_index_at,
    lemma_encoded_len, lemma_range_bytes, spec_next_token_at,
};
use crate::text::{
    has_at, is_blank, is_ws, lead_ws, lemma_next_token, lemma_non_ws_from, lemma_token_bounds,
    lemma_tokens_from_bounds, lemma_trim_end_len, lemma_trimmed_len, lemma_ws_from,
    spec_next_token, token_text, tokens, tokens_from, trimmed, ws_from,
};
use vstd::utf8::{encode_utf8, is_char_boundary};

verus! {

// ------------------------------------------------ well-formed parse results

/// What the fields read so far keep: numbers `f64::from_str` accepts and
/// non-empty names.
pub open spec fn fields_ok(f: FieldsModel) -> bool {
    &&& (f.width matches Some(w) ==> is_float_literal(w))
    &&& (f.name matches Some(nm) ==> nm.len() > 0)
    &&& forall|i: int|
        0 <= i < f.ligatures.len() ==> (#[trigger] f.ligatures[i]).0.len() > 0
            && f.ligatures[i].1.len() > 0
    &&& forall|i: int|
        0 <= i < f.parts.len() ==> (#[trigger] f.parts[i]).0.len() > 0 && is_float_literal(
            f.parts[i].1,
        ) && is_float_literal(f.parts[i].2)
}

proof fn lemma_token_text_nonempty(value: Seq<char>, j: int)
    requires
        0 <= j < tokens(value).len(),
    ensures
        token_text(value, tokens(value)[j]).len() > 0,
{
    lemma_token_bounds(value, j);
}

proof fn lemma_field_ok(f: FieldsModel, seg: Seq<char>, start: int, n: int)
    requires
        fields_ok(f),
    ensures
        spec_field(f, seg, start, n) matches Ok(g) ==> fields_ok(g),
{
    if let Ok(g) = spec_field(f, seg, start, n) {
        if !is_blank(seg) {
            let field = trimmed(seg);
            let ke = ws_from(field, 0);
            let value = trimmed(field.skip(ke));
            let t = tokens(value);
            if g.ligatures.len() > f.ligatures.len() {
                lemma_token_text_nonempty(value, 0);
                lemma_token_text_nonempty(value, 1);
                assert forall|i: int| 0 <= i < g.ligatures.len() implies (#[trigger] g.ligatures[i]).0.len()
                    > 0 && g.ligatures[i].1.len() > 0 by {
                    if i < f.ligatures.len() {
                        assert(g.ligatures[i] == f.ligatures[i]);
                    }
                }
            }
            if g.parts.len() > f.parts.len() {
                lemma_token_text_nonempty(value, 0);
                assert forall|i: int| 0 <= i < g.parts.len() implies (#[trigger] g.parts[i]).0.len()
                    > 0 && is_float_literal(g.parts[i].1) && is_float_literal(g.parts[i].2) by {
                    if i < f.parts.len() {
                        assert(g.parts[i] == f.parts[i]);
                    }
                }
            }
        }
    }
}

proof fn lemma_fields_from_ok(f: FieldsModel, line: Seq<char>, s: int, n: int)
    requires
        fields_ok(f),
    ensures
        spec_fields_from(f, line, s, n) matches Ok(g) ==> fields_ok(g),
    decreases line.len() - s,
{
    if 0 <= s <= line.len() {
        let e = index_of_from(line, s, ';', ';');
        lemma_index_of_from(line, s, ';', ';');
        lemma_field_ok(f, line.subrange(s, e), s, n);
        if let Ok(g) = spec_field(f, line.subrange(s, e), s, n) {
            if e < line.len() {
                lemma_fields_from_ok(g, line, e + 1, n);
            }
        }
    }
}

/// A char metrics line that parses gives a well-formed glyph.
pub proof fn char_lines_give_well_formed_glyphs(line: Seq<char>, n: int)
    ensures
        spec_char_line(line, n) matches Ok(g) ==> glyph_ok(g),
{
    lemma_fields_from_ok(no_fields(), line, 0, n);
}

/// A `KPX` line that parses gives a well-formed kerning pair.
pub proof fn kern_lines_give_well_formed_pairs(line: Seq<char>, n: int)
    ensures
        spec_kern_line(line, n) matches Ok(k) ==> kern_ok(k),
{
    let t = tokens(line);
    if t.len() >= 4 {
        lemma_token_text_nonempty(line, 1);
        lemma_token_text_nonempty(line, 2);
    }
}

proof fn lemma_bbox_ok(value: Seq<char>, n: int, voff: int)
    ensures
        bbox_value(value, n, voff) matches Ok(b) ==> is_float_literal(b.0) && is_float_literal(b.1)
            && is_float_literal(b.2) && is_float_literal(b.3),
{
}

/// Metrics that differ from well-formed ones only in their text fields
/// are well-formed.
proof fn lemma_same_numbers(m: MetricsModel, m2: MetricsModel)
    requires
        metrics_ok(m),
        m2.italic_angle == m.italic_angle,
        m2.underline_position == m.underline_position,
        m2.underline_thickness == m.underline_thickness,
        m2.cap_height == m.cap_height,
        m2.x_height == m.x_height,
        m2.ascender == m.ascender,
        m2.descender == m.descender,
        m2.std_hw == m.std_hw,
        m2.std_vw == m.std_vw,
        m2.font_bbox == m.font_bbox,
        m2.glyphs == m.glyphs,
        m2.kern_pairs == m.kern_pairs,
    ensures
        metrics_ok(m2),
{
}

proof fn lemma_header_ok(st: ParserState, line: Seq<char>, n: int)
    requires
        metrics_ok(st.metrics),
    ensures
        spec_header_line(st, line, n) matches Ok(s2) ==> metrics_ok(s2.metrics),
{
    let indent = lead_ws(line);
    let t = line.skip(indent);
    let ke = ws_from(t, 0);
    let key = t.take(ke);
    let rest = t.skip(ke);
    let value = trimmed(rest);
    let voff = indent + ke + lead_ws(rest);
    let col = voff + 1;
    let m = st.metrics;
    lemma_bbox_ok(value, n, voff);
    if let Ok(s2) = spec_header_line(st, line, n) {
        let m2 = s2.metrics;
        if key == "FontName"@ {
            lemma_same_numbers(m, m2);
        } else if key == "FullName"@ {
            lemma_same_numbers(m, m2);
        } else if key == "FamilyName"@ {
            lemma_same_numbers(m, m2);
        } else if key == "Weight"@ {
            lemma_same_numbers(m, m2);
        } else if key == "Version"@ {
            lemma_same_numbers(m, m2);
        } else if key == "Notice"@ {
            lemma_same_numbers(m, m2);
        } else if key == "EncodingScheme"@ {
            lemma_same_numbers(m, m2);
        } else if key == "ItalicAngle"@ {
            assert(number_value(value, key, n, col) is Ok);
            assert(metrics_ok(m2));
        } else if key == "IsFixedPitch"@ {
            lemma_same_numbers(m, m2);
        } else if key == "FontBBox"@ {
            assert(metrics_ok(m2));
        } else if key == "UnderlinePosition"@ {
            assert(number_value(value, key, n, col) is Ok);
            assert(metrics_ok(m2));
        } else if key == "UnderlineThickness"@ {
            assert(number_value(value, key, n, col) is Ok);
            assert(metrics_ok(m2));
        } else if key == "CapHeight"@ {
            assert(number_value(value, key, n, col) is Ok);
            assert(metrics_ok(m2));
        } else if key == "XHeight"@ {
            assert(number_value(value, key, n, col) is Ok);
            assert(metrics_ok(m2));
        } else if key == "Ascender"@ {
            assert(number_value(value, key, n, col) is Ok);
            assert(metrics_ok(m2));
        } else if key == "Descender"@ {
            assert(number_value(value, key, n, col) is Ok);
            assert(metrics_ok(m2));
        } else if key == "StdHW"@ {
            assert(number_value(value, key, n, col) is Ok);
            assert(metrics_ok(m2));
        } else if key == "StdVW"@ {
            assert(number_value(value, key, n, col) is Ok);
            assert(metrics_ok(m2));
        } else {
            lemma_same_numbers(m, m2);
        }
    }
}

proof fn lemma_step_ok(st: ParserState, n: int, raw: Seq<char>)
    requires
        metrics_ok(st.metrics),
    ensures
        spec_step(st, n, raw) matches Ok(s2) ==> metrics_ok(s2.metrics),
{
    let line = trim_end_line(raw);
    lemma_header_ok(ParserState { last_line: n, ..st }, line, n);
    char_lines_give_well_formed_glyphs(line, n);
    kern_lines_give_well_formed_pairs(line, n);
    if let Ok(s2) = spec_step(st, n, raw) {
        let m = st.metrics;
        let m2 = s2.metrics;
        if m2.glyphs.len() > m.glyphs.len() {
            assert forall|i: int| 0 <= i < m2.glyphs.len() implies glyph_ok(#[trigger] m2.glyphs[i]) by {
                if i < m.glyphs.len() {
                    assert(m2.glyphs[i] == m.glyphs[i]);
                }
            }
        }
        if m2.kern_pairs.len() > m.kern_pairs.len() {
            assert forall|i: int| 0 <= i < m2.kern_pairs.len() implies kern_ok(#[trigger] m2.kern_pairs[i]) by {
                if i < m.kern_pairs.len() {
                    assert(m2.kern_pairs[i] == m.kern_pairs[i]);
                }
            }
        }
    }
}

proof fn lemma_run_ok(st: ParserState, ls: Seq<Seq<char>>, k: int)
    requires
        metrics_ok(st.metrics),
    ensures
        spec_run(st, ls, k) matches Ok(s2) ==> metrics_ok(s2.metrics),
    decreases ls.len() - k,
{
    if 0 <= k < ls.len() {
        lemma_step_ok(st, k + 1, ls[k]);
        if let Ok(s2) = spec_step(st, k + 1, ls[k]) {
            if !s2.done {
                lemma_run_ok(s2, ls, k + 1);
            }
        }
    }
}

/// Every number in a parsed file is text that `f64::from_str` accepts, and
/// every glyph name in it is non-empty.
pub proof fn parsed_metrics_are_well_formed(input: Seq<char>)
    ensures
        spec_parse(input) matches Ok(m) ==> metrics_ok(m),
{
    let ls = lines(input);
    let f = first_nonblank(ls, 0);
    lemma_run_ok(start_state(f + 1), ls, f + 1);
}

// ---------------------------------------------------- located parse errors

/// `e` names line `n`, a column from 1 to one past a line of `len`
/// characters, and says something.
pub open spec fn located(e: ErrorModel, n: int, len: int) -> bool {
    e.line == n && 1 <= e.column <= len + 1 && e.message.len() > 0
}

/// An error from a kerning line names that line, a column inside it or
/// just past its end, and says something.
pub proof fn lemma_kern_line_located(line: Seq<char>, n: int)
    ensures
        spec_kern_line(line, n) matches Err(e) ==> located(e, n, line.len() as int),
{
    reveal_strlit("expected a 'KPX' kerning pair, found '");
    reveal_strlit("'KPX' line is missing the second glyph name or an adjustment value");
    reveal_strlit("kerning adjustment '");
    if tokens(line).len() >= 4 {
        lemma_token_bounds(line, 3);
    }
}

proof fn lemma_field_located(f: FieldsModel, seg: Seq<char>, start: int, n: int)
    requires
        0 <= start,
    ensures
        spec_field(f, seg, start, n) matches Err(e) ==> e.line == n && 1 <= e.column <= start
            + seg.len() && e.message.len() > 0,
{
    reveal_strlit("glyph code 'C ");
    reveal_strlit("advance width 'WX ");
    reveal_strlit("glyph name field 'N' has no value");
    reveal_strlit("ligature field 'L ");
    reveal_strlit("composite part 'PCC ");
    reveal_strlit("composite field 'CC ");
    lemma_non_ws_from(seg, 0);
}

proof fn lemma_fields_from_located(f: FieldsModel, line: Seq<char>, s: int, n: int)
    requires
        0 <= s,
    ensures
        spec_fields_from(f, line, s, n) matches Err(e) ==> e.line == n && 1 <= e.column
            <= line.len() && e.message.len() > 0,
    decreases line.len() - s,
{
    if s <= line.len() {
        let e = index_of_from(line, s, ';', ';');
        lemma_index_of_from(line, s, ';', ';');
        lemma_field_located(f, line.subrange(s, e), s, n);
        if let Ok(g) = spec_field(f, line.subrange(s, e), s, n) {
            if e < line.len() {
                lemma_fields_from_located(g, line, e + 1, n);
            }
        }
    }
}

/// An error from a glyph metrics line names that line, a column inside it
/// or just past its end, and says something.
pub proof fn lemma_char_line_located(line: Seq<char>, n: int)
    ensures
        spec_char_line(line, n) matches Err(e) ==> located(e, n, line.len() as int),
{
    reveal_strlit("char metrics line is missing a 'C' (code) field");
    reveal_strlit("char metrics line is missing a 'WX' (width) field");
    reveal_strlit("char metrics line is missing an 'N' (name) field");
    lemma_fields_from_located(no_fields(), line, 0, n);
}

/// An error from a header line names that line, a column inside it or just
/// past its end, and says something.
pub proof fn lemma_header_located(st: ParserState, line: Seq<char>, n: int)
    ensures
        spec_header_line(st, line, n) matches Err(e) ==> located(e, n, line.len() as int),
{
    reveal_strlit("expected a number after '");
    reveal_strlit("expected 'true' or 'false' after 'IsFixedPitch', found '");
    reveal_strlit("expected four numbers after 'FontBBox', found '");
    reveal_strlit("bounding box value '");
    reveal_strlit("expected a glyph count after 'StartCharMetrics', found '");
    reveal_strlit("expected a pair count after 'StartKernPairs', found '");
    let indent = lead_ws(line);
    let t = line.skip(indent);
    let ke = ws_from(t, 0);
    let rest = t.skip(ke);
    let value = trimmed(rest);
    lemma_non_ws_from(line, 0);
    lemma_ws_from(t, 0);
    lemma_trimmed_len(rest);
    let tv = tokens(value);
    if tv.len() == 4 {
        lemma_token_bounds(value, 0);
        lemma_token_bounds(value, 1);
        lemma_token_bounds(value, 2);
        lemma_token_bounds(value, 3);
    }
}

/// An error from line `n` names that line and a column inside it once its
/// trailing whitespace (a carriage return among it) is dropped, or just
/// past its end.
pub proof fn lemma_step_located(st: ParserState, n: int, raw: Seq<char>)
    ensures
        spec_step(st, n, raw) matches Err(e) ==> located(e, n, trim_end_line(raw).len() as int),
{
    reveal_strlit("StartCharMetrics declared ");
    reveal_strlit("StartKernPairs declared ");
    let line = trim_end_line(raw);
    lemma_trim_end_len(raw, raw.len() as int);
    lemma_kern_line_located(line, n);
    lemma_char_line_located(line, n);
    lemma_header_located(ParserState { last_line: n, ..st }, line, n);
}

proof fn lemma_run_located(st: ParserState, ls: Seq<Seq<char>>, k: int)
    requires
        0 <= k,
        1 <= st.last_line <= ls.len(),
    ensures
        spec_run(st, ls, k) matches Ok(s2) ==> 1 <= s2.last_line <= ls.len(),
        spec_run(st, ls, k) matches Err(e) ==> k + 1 <= e.line <= ls.len() && located(
            e,
            e.line,
            trim_end_line(ls[e.line - 1]).len() as int,
        ),
    decreases ls.len() - k,
{
    if k < ls.len() {
        lemma_step_located(st, k + 1, ls[k]);
        if let Ok(s2) = spec_step(st, k + 1, ls[k]) {
            if !s2.done {
                lemma_run_located(s2, ls, k + 1);
            }
        }
    }
}

proof fn lemma_first_nonblank(ls: Seq<Seq<char>>, k: int)
    requires
        0 <= k,
    ensures
        k <= first_nonblank(ls, k) <= ls.len() || (k > ls.len() && first_nonblank(ls, k)
            == ls.len()),
    decreases ls.len() - k,
{
    if k < ls.len() && is_blank(ls[k]) {
        lemma_first_nonblank(ls, k + 1);
    }
}

/// Every error points at a real place in the file: a line that exists (line
/// 1 when the file has no lines), a column from 1 to one past the end of
/// that line without its trailing whitespace (so a carriage return before
/// the line break does not count), and a message that is not empty.
pub proof fn errors_point_into_the_file(input: Seq<char>)
    ensures
        spec_parse(input) matches Err(e) ==> {
            let ls = lines(input);
            &&& e.message.len() > 0
            &&& 1 <= e.line
            &&& 1 <= e.column
            &&& ls.len() == 0 ==> e.line == 1 && e.column == 1
            &&& ls.len() > 0 ==> e.line <= ls.len() && e.column <= trim_end_line(
                ls[e.line - 1],
            ).len() + 1
        },
{
    reveal_strlit("file is empty; expected 'StartFontMetrics'");
    reveal_strlit("expected 'StartFontMetrics' as the first line, found '");
    reveal_strlit("file is missing a closing 'EndFontMetrics' line");
    let ls = lines(input);
    let f = first_nonblank(ls, 0);
    lemma_first_nonblank(ls, 0);
    if f < ls.len() {
        lemma_run_located(start_state(f + 1), ls, f + 1);
    }
}

// ----------------------------------------------------- what is skipped

proof fn lemma_all_ws_trim_end(raw: Seq<char>)
    ensures
        is_blank(raw) <==> is_blank(trim_end_line(raw)),
{
    let te = crate::text::trim_end_len(raw, raw.len() as int);
    let line = trim_end_line(raw);
    lemma_non_ws_from(raw, 0);
    lemma_trim_end_len(raw, raw.len() as int);
    lemma_non_ws_from(line, 0);
    if is_blank(raw) {
        if te > 0 {
            assert(crate::text::is_ws(raw[te - 1]));
        }
    } else {
        let a = lead_ws(raw);
        if te <= a {
            assert(crate::text::is_ws(raw[a]));
        }
        if lead_ws(line) == line.len() {
            assert(crate::text::is_ws(line[a]));
        }
    }
}

/// A blank line changes nothing but the number of the last line read.
pub proof fn blank_lines_are_skipped(st: ParserState, n: int, raw: Seq<char>)
    requires
        is_blank(raw),
    ensures
        spec_step(st, n, raw) == Ok::<ParserState, ErrorModel>(ParserState { last_line: n, ..st }),
{
    lemma_all_ws_trim_end(raw);
}

/// The key of a header line: its first whitespace-delimited word.
pub open spec fn header_key(line: Seq<char>) -> Seq<char> {
    let t = line.skip(lead_ws(line));
    t.take(ws_from(t, 0))
}

/// The header keys the library reads.
pub open spec fn known_header_key(key: Seq<char>) -> bool {
    ||| key == "FontName"@
    ||| key == "FullName"@
    ||| key == "FamilyName"@
    ||| key == "Weight"@
    ||| key == "Version"@
    ||| key == "Notice"@
    ||| key == "EncodingScheme"@
    ||| key == "ItalicAngle"@
    ||| key == "IsFixedPitch"@
    ||| key == "FontBBox"@
    ||| key == "UnderlinePosition"@
    ||| key == "UnderlineThickness"@
    ||| key == "CapHeight"@
    ||| key == "XHeight"@
    ||| key == "Ascender"@
    ||| key == "Descender"@
    ||| key == "StdHW"@
    ||| key == "StdVW"@
    ||| key == "StartCharMetrics"@
    ||| key == "StartKernPairs"@
    ||| key == "EndFontMetrics"@
}

/// A header line with a key the library does not know is skipped rather
/// than rejected: it changes nothing but the number of the last line read.
pub proof fn unknown_header_keys_are_skipped(st: ParserState, n: int, raw: Seq<char>)
    requires
        st.section == Section::Header,
        !is_blank(raw),
        !known_header_key(header_key(trim_end_line(raw))),
    ensures
        spec_step(st, n, raw) == Ok::<ParserState, ErrorModel>(ParserState { last_line: n, ..st }),
{
    lemma_all_ws_trim_end(raw);
}

/// A char metrics block closes only when the glyphs read so far number
/// what its `StartCharMetrics` line declared; otherwise its
/// `EndCharMetrics` line is an error.
pub proof fn char_blocks_close_with_their_declared_count(st: ParserState, n: int, raw: Seq<char>)
    requires
        st.section == Section::CharMetrics,
        has_at(trim_end_line(raw), lead_ws(trim_end_line(raw)), "EndCharMetrics"@),
    ensures
        spec_step(st, n, raw) is Ok <==> st.metrics.glyphs.len() == st.glyph_count,
        spec_step(st, n, raw) matches Ok(s2) ==> s2.section == Section::Header,
{
    reveal_strlit("EndCharMetrics");
}

/// A kerning block closes only when the pairs read so far number what its
/// `StartKernPairs` line declared; otherwise its `EndKernPairs` line is an
/// error.
pub proof fn kern_blocks_close_with_their_declared_count(st: ParserState, n: int, raw: Seq<char>)
    requires
        st.section == Section::KernPairs,
        has_at(trim_end_line(raw), lead_ws(trim_end_line(raw)), "EndKernPairs"@),
    ensures
        spec_step(st, n, raw) is Ok <==> st.metrics.kern_pairs.len() == st.kern_count,
        spec_step(st, n, raw) matches Ok(s2) ==> s2.section == Section::Header,
{
    reveal_strlit("EndKernPairs");
}

/// The key of a char metrics field: the first word of the trimmed field.
pub open spec fn field_key(seg: Seq<char>) -> Seq<char> {
    let field = trimmed(seg);
    field.take(ws_from(field, 0))
}

/// A char metrics field with a key the library does not read (such as the
/// `B` bounding box) is skipped.
pub proof fn unknown_fields_are_skipped(f: FieldsModel, seg: Seq<char>, start: int, n: int)
    requires
        field_key(seg) != "C"@,
        field_key(seg) != "WX"@,
        field_key(seg) != "N"@,
        field_key(seg) != "L"@,
        field_key(seg) != "PCC"@,
        field_key(seg) != "CC"@,
    ensures
        spec_field(f, seg, start, n) == Ok::<FieldsModel, ErrorModel>(f),
{
}

// ------------------------------------------- errors come from the lines before

proof fn lemma_run_error_line(st: ParserState, ls: Seq<Seq<char>>, k: int)
    requires
        0 <= k,
    ensures
        spec_run(st, ls, k) matches Err(e) ==> k + 1 <= e.line,
    decreases ls.len() - k,
{
    if k < ls.len() {
        lemma_step_located(st, k + 1, ls[k]);
        if let Ok(s2) = spec_step(st, k + 1, ls[k]) {
            if !s2.done {
                lemma_run_error_line(s2, ls, k + 1);
            }
        }
    }
}

proof fn lemma_run_prefix(
    st: ParserState,
    la: Seq<Seq<char>>,
    lb: Seq<Seq<char>>,
    k: int,
    e: ErrorModel,
)
    requires
        0 <= k,
        spec_run(st, la, k) == Err::<ParserState, ErrorModel>(e),
        e.line <= lb.len(),
        forall|i: int|
            0 <= i < e.line && i < la.len() ==> trim_end_line(#[trigger] la[i]) == trim_end_line(
                lb[i],
            ),
    ensures
        spec_run(st, lb, k) == Err::<ParserState, ErrorModel>(e),
    decreases la.len() - k,
{
    lemma_run_error_line(st, la, k);
    if k < la.len() {
        assert(trim_end_line(la[k]) == trim_end_line(lb[k]));
        assert(spec_step(st, k + 1, la[k]) == spec_step(st, k + 1, lb[k]));
        lemma_step_located(st, k + 1, la[k]);
        if let Ok(s2) = spec_step(st, k + 1, la[k]) {
            if !s2.done {
                lemma_run_prefix(s2, la, lb, k + 1, e);
            }
        }
    }
}

proof fn lemma_first_nonblank_prefix(la: Seq<Seq<char>>, lb: Seq<Seq<char>>, k: int, n: int)
    requires
        0 <= k,
        first_nonblank(la, k) < n <= la.len(),
        n <= lb.len(),
        forall|i: int| 0 <= i < n ==> trim_end_line(#[trigger] la[i]) == trim_end_line(lb[i]),
    ensures
        first_nonblank(lb, k) == first_nonblank(la, k),
    decreases la.len() - k,
{
    lemma_first_nonblank(la, k);
    if k < la.len() {
        assert(trim_end_line(la[k]) == trim_end_line(lb[k]));
        lemma_all_ws_trim_end(la[k]);
        lemma_all_ws_trim_end(lb[k]);
        if is_blank(la[k]) {
            lemma_first_nonblank_prefix(la, lb, k + 1, n);
        }
    }
}

proof fn lemma_first_nonblank_found(ls: Seq<Seq<char>>, k: int)
    requires
        0 <= k,
        first_nonblank(ls, k) < ls.len(),
    ensures
        !is_blank(ls[first_nonblank(ls, k)]),
    decreases ls.len() - k,
{
    if k < ls.len() && is_blank(ls[k]) {
        lemma_first_nonblank_found(ls, k + 1);
    }
}

/// A non-blank line and the same line without its trailing whitespace have
/// the same leading whitespace, the same text once trimmed, and open with
/// `StartFontMetrics` alike.
proof fn lemma_first_line_trim(raw: Seq<char>)
    requires
        !is_blank(raw),
    ensures
        lead_ws(trim_end_line(raw)) == lead_ws(raw),
        trimmed(trim_end_line(raw)) == trimmed(raw),
        has_at(trim_end_line(raw), lead_ws(raw), "StartFontMetrics"@) == has_at(
            raw,
            lead_ws(raw),
            "StartFontMetrics"@,
        ),
{
    let te = crate::text::trim_end_len(raw, raw.len() as int);
    let t = trim_end_line(raw);
    let lw = lead_ws(raw);
    lemma_trim_end_len(raw, raw.len() as int);
    lemma_non_ws_from(raw, 0);
    if te <= lw {
        assert(is_ws(raw[lw]));
    }
    lemma_non_ws_from(t, 0);
    let lt = lead_ws(t);
    if lt < lw {
        assert(t[lt] == raw[lt]);
    } else if lw < lt {
        assert(t[lw] == raw[lw]);
    }
    lemma_all_ws_trim_end(raw);
    assert(t[te - 1] == raw[te - 1]);
    assert(crate::text::trim_end_len(t, t.len() as int) == te);
    assert(trimmed(t) =~= trimmed(raw));
    let lit = "StartFontMetrics"@;
    reveal_strlit("StartFontMetrics");
    if lw + lit.len() <= te {
        assert(t.subrange(lw, lw + lit.len()) =~= raw.subrange(lw, lw + lit.len()));
    } else if has_at(raw, lw, lit) {
        assert(raw.subrange(lw, lw + lit.len())[te - lw] == raw[te]);
        assert(is_ws(raw[te]));
        assert(!is_ws(lit[te - lw]));
    }
}

/// The errors that only the end of the file decides: a file with no
/// `StartFontMetrics` line at all, and one without `EndFontMetrics`.
pub open spec fn is_end_of_file_error(e: ErrorModel) -> bool {
    ||| e.message == "file is empty; expected 'StartFontMetrics'"@
    ||| e.message == "file is missing a closing 'EndFontMetrics' line"@
}

/// The error `parse` gives is the first one met, and the lines up to the
/// one it names decide it: any file whose first `e.line` lines are those of
/// `a`, once their trailing whitespace (a carriage return among it) is
/// dropped, fails with the same error, whatever follows them. (The two
/// errors that only the end of the file decides are left out.)
pub proof fn errors_depend_only_on_the_lines_up_to_them(a: Seq<char>, b: Seq<char>, e: ErrorModel)
    requires
        spec_parse(a) == Err::<MetricsModel, ErrorModel>(e),
        !is_end_of_file_error(e),
        lines(b).len() >= e.line,
        forall|i: int|
            0 <= i < e.line ==> trim_end_line(#[trigger] lines(b)[i]) == trim_end_line(
                lines(a)[i],
            ),
    ensures
        spec_parse(b) == spec_parse(a),
{
    let la = lines(a);
    let lb = lines(b);
    errors_point_into_the_file(a);
    let f = first_nonblank(la, 0);
    lemma_first_nonblank(la, 0);
    assert(la.len() > 0 && e.line <= la.len());
    assert forall|i: int| 0 <= i < e.line implies trim_end_line(#[trigger] la[i]) == trim_end_line(
        lb[i],
    ) by {
        assert(trim_end_line(lines(b)[i]) == trim_end_line(lines(a)[i]));
    }
    assert(f < la.len());
    lemma_first_nonblank_found(la, 0);
    lemma_first_line_trim(la[f]);
    lemma_all_ws_trim_end(la[f]);
    if !has_at(la[f], lead_ws(la[f]), "StartFontMetrics"@) {
        lemma_first_nonblank_prefix(la, lb, 0, e.line);
        lemma_first_nonblank(lb, 0);
        assert(trim_end_line(la[f]) == trim_end_line(lb[f]));
        lemma_all_ws_trim_end(lb[f]);
        lemma_first_line_trim(lb[f]);
    } else {
        let r = spec_run(start_state(f + 1), la, f + 1);
        assert(r == Err::<ParserState, ErrorModel>(e));
        lemma_run_error_line(start_state(f + 1), la, f + 1);
        lemma_first_nonblank_prefix(la, lb, 0, e.line);
        assert(trim_end_line(la[f]) == trim_end_line(lb[f]));
        lemma_all_ws_trim_end(lb[f]);
        lemma_first_line_trim(lb[f]);
        lemma_run_prefix(start_state(f + 1), la, lb, f + 1, e);
    }
}

// --------------------------------------------- nothing after the end is read

proof fn lemma_index_shift(a: Seq<char>, b: Seq<char>, j: int, c: char)
    requires
        0 <= j <= b.len(),
    ensures
        index_of_from(a + b, a.len() + j, c, c) == a.len() + index_of_from(b, j, c, c),
    decreases b.len() - j,
{
    if j < b.len() {
        assert((a + b)[a.len() + j] == b[j]);
        if b[j] != c {
            lemma_index_shift(a, b, j + 1, c);
        }
    }
}

proof fn lemma_lines_shift(a: Seq<char>, b: Seq<char>, j: int)
    requires
        0 <= j,
    ensures
        lines_from(a + b, a.len() + j) == lines_from(b, j),
    decreases b.len() + 1 - j,
{
    if j < b.len() {
        lemma_index_shift(a, b, j, '\n');
        lemma_index_of_from(b, j, '\n', '\n');
        let e = index_of_from(b, j, '\n', '\n');
        assert((a + b).subrange(a.len() + j, a.len() + e) =~= b.subrange(j, e));
        lemma_lines_shift(a, b, e + 1);
    }
}

proof fn lemma_index_prefix(a: Seq<char>, b: Seq<char>, i: int, c: char)
    requires
        0 <= i <= a.len(),
        index_of_from(a, i, c, c) < a.len(),
    ensures
        index_of_from(a + b, i, c, c) == index_of_from(a, i, c, c),
    decreases a.len() - i,
{
    if i < a.len() && a[i] != c {
        lemma_index_prefix(a, b, i + 1, c);
    }
}

proof fn lemma_lines_concat(a: Seq<char>, b: Seq<char>, i: int)
    requires
        0 <= i <= a.len(),
        a.len() > 0,
        a.last() == '\n',
    ensures
        lines_from(a + b, i) == lines_from(a, i) + lines(b),
    decreases a.len() - i,
{
    if i == a.len() {
        lemma_lines_shift(a, b, 0);
        assert(lines_from(a, i) + lines(b) =~= lines(b));
    } else {
        lemma_index_of_from(a, i, '\n', '\n');
        let e = index_of_from(a, i, '\n', '\n');
        if e == a.len() {
            assert(index_of_from(a, i, '\n', '\n') <= a.len() - 1) by {
                lemma_newline_found(a, i);
            }
        }
        lemma_index_prefix(a, b, i, '\n');
        assert((a + b).subrange(i, e) =~= a.subrange(i, e));
        lemma_lines_concat(a, b, e + 1);
        assert(lines_from(a + b, i) =~= lines_from(a, i) + lines(b));
    }
}

proof fn lemma_newline_found(a: Seq<char>, i: int)
    requires
        0 <= i < a.len(),
        a.last() == '\n',
    ensures
        index_of_from(a, i, '\n', '\n') <= a.len() - 1,
    decreases a.len() - i,
{
    if a[i] != '\n' {
        lemma_newline_found(a, i + 1);
    }
}

proof fn lemma_first_nonblank_concat(l1: Seq<Seq<char>>, l2: Seq<Seq<char>>, k: int)
    requires
        0 <= k,
        first_nonblank(l1, k) < l1.len(),
    ensures
        first_nonblank(l1 + l2, k) == first_nonblank(l1, k),
    decreases l1.len() - k,
{
    if k < l1.len() {
        assert((l1 + l2)[k] == l1[k]);
        if is_blank(l1[k]) {
            lemma_first_nonblank_concat(l1, l2, k + 1);
        }
    }
}

proof fn lemma_run_concat(st: ParserState, l1: Seq<Seq<char>>, l2: Seq<Seq<char>>, k: int)
    requires
        0 <= k,
        !st.done,
        spec_run(st, l1, k) matches Ok(s) ==> s.done,
    ensures
        spec_run(st, l1 + l2, k) == spec_run(st, l1, k),
    decreases l1.len() - k,
{
    if k < l1.len() {
        assert((l1 + l2)[k] == l1[k]);
        if let Ok(s2) = spec_step(st, k + 1, l1[k]) {
            if !s2.done {
                lemma_run_concat(s2, l1, l2, k + 1);
            }
        }
    }
}

/// Once `EndFontMetrics` has been read, the rest of the file is not: text
/// appended after the final newline of a file that parses changes nothing.
pub proof fn text_after_the_end_is_ignored(a: Seq<char>, b: Seq<char>)
    requires
        spec_parse(a) is Ok,
        a.len() > 0,
        a.last() == '\n',
    ensures
        spec_parse(a + b) == spec_parse(a),
{
    lemma_lines_concat(a, b, 0);
    let l1 = lines(a);
    let l2 = lines(b);
    let f = first_nonblank(l1, 0);
    lemma_first_nonblank(l1, 0);
    lemma_first_nonblank_concat(l1, l2, 0);
    assert((l1 + l2)[f] == l1[f]);
    lemma_run_concat(start_state(f + 1), l1, l2, f + 1);
}

// ------------------------------------------- unknown header lines in files

/// `s` and `t` differ at most in the number of the last line read.
pub open spec fn same_but_line(s: ParserState, t: ParserState) -> bool {
    s == ParserState { last_line: s.last_line, ..t }
}

proof fn lemma_field_shift(f: FieldsModel, seg: Seq<char>, start: int, n: int, n2: int)
    ensures
        spec_field(f, seg, start, n) is Ok ==> spec_field(f, seg, start, n2) == spec_field(
            f,
            seg,
            start,
            n,
        ),
{
}

proof fn lemma_fields_from_shift(f: FieldsModel, line: Seq<char>, s: int, n: int, n2: int)
    ensures
        spec_fields_from(f, line, s, n) is Ok ==> spec_fields_from(f, line, s, n2)
            == spec_fields_from(f, line, s, n),
    decreases line.len() - s,
{
    if 0 <= s <= line.len() {
        let e = index_of_from(line, s, ';', ';');
        lemma_index_of_from(line, s, ';', ';');
        lemma_field_shift(f, line.subrange(s, e), s, n, n2);
        if let Ok(g) = spec_field(f, line.subrange(s, e), s, n) {
            if e < line.len() {
                lemma_fields_from_shift(g, line, e + 1, n, n2);
            }
        }
    }
}

proof fn lemma_header_shift(st: ParserState, t: ParserState, line: Seq<char>, n: int, n2: int)
    requires
        same_but_line(st, t),
    ensures
        spec_header_line(st, line, n) matches Ok(r) ==> spec_header_line(t, line, n2) == Ok::<
            ParserState,
            ErrorModel,
        >(ParserState { last_line: t.last_line, ..r }),
{
}

proof fn lemma_step_shift(st: ParserState, t: ParserState, n: int, n2: int, raw: Seq<char>)
    requires
        same_but_line(st, t),
    ensures
        spec_step(st, n, raw) matches Ok(r) ==> spec_step(t, n2, raw) == Ok::<
            ParserState,
            ErrorModel,
        >(ParserState { last_line: n2, ..r }),
{
    let line = trim_end_line(raw);
    lemma_fields_from_shift(no_fields(), line, 0, n, n2);
    lemma_header_shift(
        ParserState { last_line: n, ..st },
        ParserState { last_line: n2, ..t },
        line,
        n,
        n2,
    );
}

proof fn lemma_run_shift(
    st: ParserState,
    t: ParserState,
    la: Seq<Seq<char>>,
    lb: Seq<Seq<char>>,
    k: int,
    d: int,
    r: ParserState,
)
    requires
        same_but_line(st, t),
        0 <= k,
        0 <= d,
        lb.len() == la.len() + d,
        forall|j: int| k <= j < la.len() ==> #[trigger] la[j] == lb[j + d],
        spec_run(st, la, k) == Ok::<ParserState, ErrorModel>(r),
        r.done,
    ensures
        spec_run(t, lb, k + d) matches Ok(r2) && r2.done && same_but_line(r, r2),
    decreases la.len() - k,
{
    if k < la.len() {
        assert(la[k] == lb[k + d]);
        lemma_step_shift(st, t, k + 1, k + d + 1, la[k]);
        if let Ok(s2) = spec_step(st, k + 1, la[k]) {
            if !s2.done {
                lemma_run_shift(s2, ParserState { last_line: k + d + 1, ..s2 }, la, lb, k + 1, d, r);
            }
        }
    }
}

proof fn lemma_run_split(st: ParserState, l1: Seq<Seq<char>>, r: Seq<Seq<char>>, k: int, s: ParserState)
    requires
        0 <= k <= l1.len(),
        spec_run(st, l1, k) == Ok::<ParserState, ErrorModel>(s),
        !s.done,
    ensures
        spec_run(st, l1 + r, k) == spec_run(s, l1 + r, l1.len() as int),
    decreases l1.len() - k,
{
    if k < l1.len() {
        assert((l1 + r)[k] == l1[k]);
        if let Ok(s2) = spec_step(st, k + 1, l1[k]) {
            if !s2.done {
                lemma_run_split(s2, l1, r, k + 1, s);
            }
        }
    }
}

proof fn lemma_single_line(line: Seq<char>, j: int)
    requires
        0 <= j <= line.len(),
        forall|k: int| 0 <= k < line.len() ==> line[k] != '\n',
    ensures
        index_of_from(line + seq!['\n'], j, '\n', '\n') == line.len(),
    decreases line.len() - j,
{
    if j < line.len() {
        assert((line + seq!['\n'])[j] == line[j]);
        lemma_single_line(line, j + 1);
    }
}

proof fn lemma_lines_insert(p: Seq<char>, line: Seq<char>, q: Seq<char>)
    requires
        p.len() > 0,
        p.last() == '\n',
        forall|k: int| 0 <= k < line.len() ==> line[k] != '\n',
    ensures
        lines(p + line + seq!['\n'] + q) == lines(p) + seq![line] + lines(q),
        lines(p + q) == lines(p) + lines(q),
{
    let c = line + seq!['\n'];
    lemma_single_line(line, 0);
    assert(c.subrange(0, line.len() as int) =~= line);
    assert(lines_from(c, line.len() + 1int) =~= Seq::<Seq<char>>::empty());
    assert(lines(c) =~= seq![line]);
    assert(c.last() == '\n');
    lemma_lines_concat(c, q, 0);
    assert(p + line + seq!['\n'] + q =~= p + (c + q));
    lemma_lines_concat(p, c + q, 0);
    lemma_lines_concat(p, q, 0);
    assert(lines(p) + seq![line] + lines(q) =~= lines(p) + (lines(c) + lines(q)));
}

/// After the lines of `p` the parser has read the `StartFontMetrics` line
/// and stands outside every block, before `EndFontMetrics`.
pub open spec fn at_top_level_after(p: Seq<char>) -> bool {
    let ls = lines(p);
    let f = first_nonblank(ls, 0);
    &&& f < ls.len()
    &&& (spec_run(start_state(f + 1), ls, f + 1) matches Ok(s) && s.section == Section::Header
        && !s.done)
}

/// Unknown header keys are skipped rather than rejected, in whole files: a
/// line whose key the library does not read (or a blank line), put into a
/// file that parses where the parser stands outside every block, leaves
/// the metrics exactly as they were.
pub proof fn unknown_header_lines_leave_the_metrics_unchanged(
    p: Seq<char>,
    line: Seq<char>,
    q: Seq<char>,
)
    requires
        spec_parse(p + q) is Ok,
        p.len() > 0,
        p.last() == '\n',
        at_top_level_after(p),
        forall|k: int| 0 <= k < line.len() ==> line[k] != '\n',
        is_blank(line) || !known_header_key(header_key(trim_end_line(line))),
    ensures
        spec_parse(p + line + seq!['\n'] + q) == spec_parse(p + q),
{
    lemma_lines_insert(p, line, q);
    let l1 = lines(p);
    let l2 = lines(q);
    let la = lines(p + q);
    let lb = lines(p + line + seq!['\n'] + q);
    let rest = seq![line] + l2;
    assert(lb =~= l1 + rest);
    let f = first_nonblank(l1, 0);
    lemma_first_nonblank(l1, 0);
    lemma_first_nonblank_concat(l1, l2, 0);
    lemma_first_nonblank_concat(l1, rest, 0);
    assert(la[f] == l1[f]);
    assert(lb[f] == l1[f]);
    let n1 = l1.len() as int;
    if let Ok(s) = spec_run(start_state(f + 1), l1, f + 1) {
        lemma_run_split(start_state(f + 1), l1, l2, f + 1, s);
        lemma_run_split(start_state(f + 1), l1, rest, f + 1, s);
        assert(lb[n1] == line);
        if is_blank(line) {
            blank_lines_are_skipped(s, n1 + 1, line);
        } else {
            lemma_all_ws_trim_end(line);
            unknown_header_keys_are_skipped(s, n1 + 1, line);
        }
        let s1 = ParserState { last_line: n1 + 1, ..s };
        assert(spec_run(s, lb, n1) == spec_run(s1, lb, n1 + 1));
        assert forall|j: int| n1 <= j < la.len() implies #[trigger] la[j] == lb[j + 1] by {
            assert(la[j] == l2[j - n1]);
            assert(lb[j + 1] == rest[j + 1 - n1]);
        }
        if let Ok(r) = spec_run(s, la, n1) {
            lemma_run_shift(s, s1, la, lb, n1, 1, r);
        }
    }
}

// ------------------------------------------------- byte offsets and tokens

/// The byte offset `b` clipped to the length of the encoding of `s`.
pub open spec fn clip_offset(s: Seq<char>, b: int) -> int {
    if b <= encode_utf8(s).len() {
        b
    } else {
        encode_utf8(s).len() as int
    }
}

/// Columns grow with byte offsets: a later character boundary names a
/// column no smaller, a strictly later one within the line a strictly
/// larger column, and every offset at or past the end of the line the same
/// column, the one just after its last character.
pub proof fn columns_grow_with_offsets(s: Seq<char>, b1: int, b2: int)
    requires
        0 <= b1 <= b2,
        is_char_boundary(encode_utf8(s), clip_offset(s, b1)),
        is_char_boundary(encode_utf8(s), clip_offset(s, b2)),
    ensures
        column_at(s, b1) <= column_at(s, b2),
        b1 < b2 <= encode_utf8(s).len() ==> column_at(s, b1) < column_at(s, b2),
        encode_utf8(s).len() <= b1 ==> column_at(s, b1) == column_at(s, b2) && column_at(s, b1)
            == s.len() + 1,
        1 <= column_at(s, b1) <= s.len() + 1,
{
    lemma_encoded_len(s);
    let m1 = clip_offset(s, b1);
    let m2 = clip_offset(s, b2);
    lemma_char_boundary(s, m1);
    lemma_char_boundary(s, m2);
    let k1 = choose|k: int| 0 <= k <= s.len() && byte_pos(s, k) == m1;
    let k2 = choose|k: int| 0 <= k <= s.len() && byte_pos(s, k) == m2;
    lemma_char_index_at(s, k1);
    lemma_char_index_at(s, k2);
    lemma_char_index_at(s, s.len() as int);
    if k2 < k1 {
        lemma_byte_pos_mono(s, k2, k1);
    }
    if k1 == k2 {
        assert(m1 == m2);
    }
}

/// Where the `i`-th call of a chain of `next_token` calls over `s` starts:
/// byte 0, then the byte just past the token that the call before found.
pub open spec fn chain_offset(s: Seq<char>, i: int) -> int {
    if i <= 0 {
        0
    } else {
        byte_pos(s, tokens(s)[i - 1].1)
    }
}

proof fn lemma_tokens_from_chain(s: Seq<char>, from: int)
    requires
        0 <= from <= s.len(),
    ensures
        tokens_from(s, from).len() == 0 ==> spec_next_token(s, from) is None,
        tokens_from(s, from).len() > 0 ==> spec_next_token(s, from) == Some(
            tokens_from(s, from)[0],
        ),
        forall|i: int|
            0 < i < tokens_from(s, from).len() ==> spec_next_token(
                s,
                tokens_from(s, from)[i - 1].1,
            ) == Some(#[trigger] tokens_from(s, from)[i]),
        tokens_from(s, from).len() > 0 ==> spec_next_token(
            s,
            tokens_from(s, from)[tokens_from(s, from).len() - 1].1,
        ) is None,
    decreases s.len() - from,
{
    lemma_next_token(s, from);
    match spec_next_token(s, from) {
        None => {},
        Some((a, b)) => {
            lemma_tokens_from_chain(s, b);
            let t = tokens_from(s, from);
            let u = tokens_from(s, b);
            assert(t == seq![(a, b)] + u);
            assert forall|i: int| 0 < i < t.len() implies spec_next_token(s, t[i - 1].1) == Some(
                #[trigger] t[i],
            ) by {
                assert(t[i] == u[i - 1]);
                if i > 1 {
                    assert(t[i - 1] == u[i - 2]);
                }
            }
            if u.len() > 0 {
                assert(t[t.len() - 1] == u[u.len() - 1]);
            }
        },
    }
}

/// Calling `next_token` on `s` from byte 0, and each time again from the
/// end of the token it found (its start plus its length in bytes), gives
/// the tokens of `s` in order, each with the byte offset at which it
/// starts; every call starts at a character boundary, and the call after
/// the last token finds nothing.
pub proof fn next_token_chain_lists_the_tokens(s: Seq<char>)
    ensures
        forall|i: int|
            0 <= i <= tokens(s).len() ==> is_char_boundary(
                encode_utf8(s),
                #[trigger] chain_offset(s, i),
            ),
        forall|i: int|
            0 <= i < tokens(s).len() ==> spec_next_token_at(s, #[trigger] chain_offset(s, i))
                == Some((byte_pos(s, tokens(s)[i].0), token_text(s, tokens(s)[i]))),
        forall|i: int|
            0 <= i < tokens(s).len() ==> #[trigger] chain_offset(s, i + 1) == byte_pos(
                s,
                tokens(s)[i].0,
            ) + encode_utf8(token_text(s, tokens(s)[i])).len(),
        spec_next_token_at(s, chain_offset(s, tokens(s).len() as int)) is None,
{
    let t = tokens(s);
    lemma_tokens_from_chain(s, 0);
    lemma_tokens_from_bounds(s, 0);
    assert forall|i: int| 0 <= i <= t.len() implies {
        &&& is_char_boundary(encode_utf8(s), #[trigger] chain_offset(s, i))
        &&& char_index_at_chain(s, i)
    } by {
        let e = if i == 0 {
            0
        } else {
            t[i - 1].1
        };
        assert(0 <= e <= s.len());
        lemma_char_boundary(s, byte_pos(s, e));
        lemma_char_index_at(s, e);
    }
    assert forall|i: int| 0 <= i < t.len() implies spec_next_token_at(
        s,
        #[trigger] chain_offset(s, i),
    ) == Some((byte_pos(s, t[i].0), token_text(s, t[i]))) by {
        assert(char_index_at_chain(s, i));
    }
    assert forall|i: int| 0 <= i < t.len() implies #[trigger] chain_offset(s, i + 1) == byte_pos(
        s,
        t[i].0,
    ) + encode_utf8(token_text(s, t[i])).len() by {
        lemma_range_bytes(s, t[i].0, t[i].1);
    }
    assert(char_index_at_chain(s, t.len() as int));
}

/// The `i`-th call of the chain looks from the character index just past
/// the token before, and finds what `spec_next_token` finds there.
spec fn char_index_at_chain(s: Seq<char>, i: int) -> bool {
    let e = if i <= 0 {
        0
    } else {
        tokens(s)[i - 1].1
    };
    &&& crate::offsets::char_index_at(s, chain_offset(s, i)) == e
    &&& (0 <= i < tokens(s).len() ==> spec_next_token(s, e) == Some(tokens(s)[i]))
    &&& (i == tokens(s).len() ==> spec_next_token(s, e) is None)
}

/// `r` is a word of `s`: a non-empty run of non-whitespace characters with
/// whitespace, or an end of `s`, on both sides.
pub open spec fn is_word(s: Seq<char>, r: (int, int)) -> bool {
    &&& 0 <= r.0 < r.1 <= s.len()
    &&& forall|k: int| r.0 <= k < r.1 ==> !is_ws(#[trigger] s[k])
    &&& (r.0 == 0 || is_ws(s[r.0 - 1]))
    &&& (r.1 == s.len() || is_ws(s[r.1]))
}

proof fn lemma_tokens_from_words(s: Seq<char>, from: int)
    requires
        0 <= from <= s.len(),
        from == 0 || from == s.len() || is_ws(s[from]),
    ensures
        forall|i: int|
            0 <= i < tokens_from(s, from).len() ==> is_word(s, #[trigger] tokens_from(s, from)[i]),
        forall|i: int, j: int|
            0 <= i < j < tokens_from(s, from).len() ==> #[trigger] tokens_from(s, from)[i].1
                < #[trigger] tokens_from(s, from)[j].0,
        forall|k: int|
            from <= k < s.len() && !is_ws(#[trigger] s[k]) ==> exists|i: int|
                0 <= i < tokens_from(s, from).len() && (#[trigger] tokens_from(s, from)[i]).0 <= k
                    < tokens_from(s, from)[i].1,
    decreases s.len() - from,
{
    lemma_next_token(s, from);
    match spec_next_token(s, from) {
        None => {},
        Some((a, b)) => {
            lemma_tokens_from_words(s, b);
            lemma_tokens_from_bounds(s, b);
            let t = tokens_from(s, from);
            let u = tokens_from(s, b);
            assert(t == seq![(a, b)] + u);
            assert(t[0] == (a, b));
            assert(is_word(s, (a, b))) by {
                if a > 0 && a == from {
                    assert(!is_ws(s[a]));
                }
            }
            assert forall|j: int| 0 <= j < u.len() implies b < (#[trigger] u[j]).0 by {
                assert(is_word(s, u[j]));
                if u[j].0 == b {
                    assert(!is_ws(s[b]));
                }
            }
            assert forall|i: int| 0 <= i < t.len() implies is_word(s, #[trigger] t[i]) by {
                if i > 0 {
                    assert(t[i] == u[i - 1]);
                }
            }
            assert forall|i: int, j: int| 0 <= i < j < t.len() implies #[trigger] t[i].1
                < #[trigger] t[j].0 by {
                assert(t[j] == u[j - 1]);
                if i > 0 {
                    assert(t[i] == u[i - 1]);
                }
            }
            assert forall|k: int| from <= k < s.len() && !is_ws(#[trigger] s[k]) implies exists|
                i: int,
            | 0 <= i < t.len() && (#[trigger] t[i]).0 <= k < t[i].1 by {
                if k < a {
                    assert(is_ws(s[k]));
                } else if k < b {
                    assert(t[0].0 <= k < t[0].1);
                } else {
                    let i = choose|i: int| 0 <= i < u.len() && (#[trigger] u[i]).0 <= k < u[i].1;
                    assert(t[i + 1] == u[i]);
                }
            }
        },
    }
}

/// The tokens of `s` are its words in order: each is a maximal run of
/// non-whitespace characters, each ends before the next begins, and every
/// non-whitespace character lies in one of them. This is what
/// `str::split_whitespace` yields.
pub proof fn tokens_are_the_words(s: Seq<char>)
    ensures
        forall|i: int| 0 <= i < tokens(s).len() ==> is_word(s, #[trigger] tokens(s)[i]),
        forall|i: int, j: int|
            0 <= i < j < tokens(s).len() ==> #[trigger] tokens(s)[i].1 < #[trigger] tokens(s)[j].0,
        forall|k: int|
            0 <= k < s.len() && !is_ws(#[trigger] s[k]) ==> exists|i: int|
                0 <= i < tokens(s).len() && (#[trigger] tokens(s)[i]).0 <= k < tokens(s)[i].1,
{
    lemma_tokens_from_words(s, 0);
    let t = tokens(s);
    assert forall|k: int| 0 <= k < s.len() && !is_ws(#[trigger] s[k]) implies exists|i: int|
        0 <= i < t.len() && (#[trigger] t[i]).0 <= k < t[i].1 by {
        let i = choose|i: int|
            0 <= i < tokens_from(s, 0).len() && (#[trigger] tokens_from(s, 0)[i]).0 <= k
                < tokens_from(s, 0)[i].1;
        assert(t[i] == tokens_from(s, 0)[i]);
    }
}

// ------------------------------------------------- what each line adds

/// Every line of a char metrics block that reads as a glyph adds exactly
/// that glyph to the end of the glyph list, and changes nothing else but
/// the number of the last line read: in particular the declared glyph
/// count stays as it was.
pub proof fn glyph_lines_add_their_glyph(
    st: ParserState,
    n: int,
    raw: Seq<char>,
    g: crate::metrics::GlyphModel,
)
    requires
        st.section == Section::CharMetrics,
        !is_blank(raw),
        !has_at(trim_end_line(raw), lead_ws(trim_end_line(raw)), "EndCharMetrics"@),
        spec_char_line(trim_end_line(raw), n) == Ok::<crate::metrics::GlyphModel, ErrorModel>(g),
    ensures
        spec_step(st, n, raw) is Ok,
        spec_step(st, n, raw) matches Ok(s2) ==> s2.metrics.glyphs == st.metrics.glyphs.push(g)
            && s2.metrics == (MetricsModel { glyphs: s2.metrics.glyphs, ..st.metrics })
            && s2 == (ParserState { metrics: s2.metrics, last_line: n, ..st }),
{
    lemma_all_ws_trim_end(raw);
}

/// Every line of a kerning block that reads as a `KPX` pair adds exactly
/// that pair to the end of the pair list, and changes nothing else but the
/// number of the last line read: in particular the declared pair count
/// stays as it was.
pub proof fn kern_lines_add_their_pair(
    st: ParserState,
    n: int,
    raw: Seq<char>,
    kp: (Seq<char>, Seq<char>, Seq<char>),
)
    requires
        st.section == Section::KernPairs,
        !is_blank(raw),
        !has_at(trim_end_line(raw), lead_ws(trim_end_line(raw)), "EndKernPairs"@),
        spec_kern_line(trim_end_line(raw), n) == Ok::<(Seq<char>, Seq<char>, Seq<char>), ErrorModel>(kp),
    ensures
        spec_step(st, n, raw) is Ok,
        spec_step(st, n, raw) matches Ok(s2) ==> s2.metrics.kern_pairs
            == st.metrics.kern_pairs.push(kp)
            && s2.metrics == (MetricsModel { kern_pairs: s2.metrics.kern_pairs, ..st.metrics })
            && s2 == (ParserState { metrics: s2.metrics, last_line: n, ..st }),
{
    lemma_all_ws_trim_end(raw);
}

/// The value of a header line: everything after its key, trimmed.
pub open spec fn header_value(line: Seq<char>) -> Seq<char> {
    trimmed(line.skip(lead_ws(line) + header_key(line).len()))
}

/// The field that a text header key names, in `m`.
pub open spec fn text_field(m: MetricsModel, key: Seq<char>) -> Option<Seq<char>> {
    if key == "FontName"@ {
        m.font_name
    } else if key == "FullName"@ {
        m.full_name
    } else if key == "FamilyName"@ {
        m.family_name
    } else if key == "Weight"@ {
        m.weight
    } else if key == "Version"@ {
        m.version
    } else if key == "Notice"@ {
        m.notice
    } else {
        m.encoding_scheme
    }
}

/// The text header keys.
pub open spec fn is_text_key(key: Seq<char>) -> bool {
    ||| key == "FontName"@
    ||| key == "FullName"@
    ||| key == "FamilyName"@
    ||| key == "Weight"@
    ||| key == "Version"@
    ||| key == "Notice"@
    ||| key == "EncodingScheme"@
}

/// A header line with a text key (`FontName`, `FullName`, `FamilyName`,
/// `Weight`, `Version`, `Notice`, `EncodingScheme`) sets that field to the
/// whole rest of the line after the key, trimmed, with the spaces inside it
/// kept; every other text field, the numbers, the glyphs, the pairs and the
/// parser's place stay as they were.
pub proof fn text_keys_take_the_rest_of_the_line(st: ParserState, line: Seq<char>, n: int)
    requires
        is_text_key(header_key(line)),
    ensures
        spec_header_line(st, line, n) is Ok,
        spec_header_line(st, line, n) matches Ok(s2) ==> text_field(s2.metrics, header_key(line))
            == Some(header_value(line)) && s2 == (ParserState { metrics: s2.metrics, ..st })
            && s2.metrics.glyphs == st.metrics.glyphs && s2.metrics.kern_pairs
            == st.metrics.kern_pairs && s2.metrics.font_bbox == st.metrics.font_bbox
            && s2.metrics.italic_angle == st.metrics.italic_angle && forall|k: Seq<char>|
            is_text_key(k) && k != header_key(line) ==> #[trigger] text_field(s2.metrics, k)
                == text_field(st.metrics, k),
{
    let t = line.skip(lead_ws(line));
    lemma_non_ws_from(line, 0);
    lemma_ws_from(t, 0);
    assert(header_key(line).len() == ws_from(t, 0));
    assert(line.skip(lead_ws(line) + header_key(line).len()) =~= t.skip(ws_from(t, 0)));
    reveal_strlit("FontName");
    reveal_strlit("FullName");
    reveal_strlit("FamilyName");
    reveal_strlit("Weight");
    reveal_strlit("Version");
    reveal_strlit("Notice");
    reveal_strlit("EncodingScheme");
}

/// The header keys are told apart by their first characters and lengths.
proof fn lemma_header_keys_known()
    ensures
        "FontName"@ =~= seq!['F', 'o', 'n', 't', 'N', 'a', 'm', 'e'],
        "FullName"@ =~= seq!['F', 'u', 'l', 'l', 'N', 'a', 'm', 'e'],
        "FamilyName"@ =~= seq!['F', 'a', 'm', 'i', 'l', 'y', 'N', 'a', 'm', 'e'],
        "Weight"@ =~= seq!['W', 'e', 'i', 'g', 'h', 't'],
        "Version"@ =~= seq!['V', 'e', 'r', 's', 'i', 'o', 'n'],
        "Notice"@ =~= seq!['N', 'o', 't', 'i', 'c', 'e'],
        "EncodingScheme"@ =~= seq!['E', 'n', 'c', 'o', 'd', 'i', 'n', 'g', 'S', 'c', 'h', 'e', 'm', 'e'],
        "ItalicAngle"@ =~= seq!['I', 't', 'a', 'l', 'i', 'c', 'A', 'n', 'g', 'l', 'e'],
        "IsFixedPitch"@ =~= seq!['I', 's', 'F', 'i', 'x', 'e', 'd', 'P', 'i', 't', 'c', 'h'],
        "FontBBox"@ =~= seq!['F', 'o', 'n', 't', 'B', 'B', 'o', 'x'],
        "UnderlinePosition"@ =~= seq!['U', 'n', 'd', 'e', 'r', 'l', 'i', 'n', 'e', 'P', 'o', 's', 'i', 't', 'i', 'o', 'n'],
        "UnderlineThickness"@ =~= seq!['U', 'n', 'd', 'e', 'r', 'l', 'i', 'n', 'e', 'T', 'h', 'i', 'c', 'k', 'n', 'e', 's', 's'],
        "CapHeight"@ =~= seq!['C', 'a', 'p', 'H', 'e', 'i', 'g', 'h', 't'],
        "XHeight"@ =~= seq!['X', 'H', 'e', 'i', 'g', 'h', 't'],
        "Ascender"@ =~= seq!['A', 's', 'c', 'e', 'n', 'd', 'e', 'r'],
        "Descender"@ =~= seq!['D', 'e', 's', 'c', 'e', 'n', 'd', 'e', 'r'],
        "StdHW"@ =~= seq!['S', 't', 'd', 'H', 'W'],
        "StdVW"@ =~= seq!['S', 't', 'd', 'V', 'W'],
        "StartCharMetrics"@ =~= seq!['S', 't', 'a', 'r', 't', 'C', 'h', 'a', 'r', 'M', 'e', 't', 'r', 'i', 'c', 's'],
        "StartKernPairs"@ =~= seq!['S', 't', 'a', 'r', 't', 'K', 'e', 'r', 'n', 'P', 'a', 'i', 'r', 's'],
        "EndFontMetrics"@ =~= seq!['E', 'n', 'd', 'F', 'o', 'n', 't', 'M', 'e', 't', 'r', 'i', 'c', 's'],
{
    reveal_strlit("FontName");
    reveal_strlit("FullName");
    reveal_strlit("FamilyName");
    reveal_strlit("Weight");
    reveal_strlit("Version");
    reveal_strlit("Notice");
    reveal_strlit("EncodingScheme");
    reveal_strlit("ItalicAngle");
    reveal_strlit("IsFixedPitch");
    reveal_strlit("FontBBox");
    reveal_strlit("UnderlinePosition");
    reveal_strlit("UnderlineThickness");
    reveal_strlit("CapHeight");
    reveal_strlit("XHeight");
    reveal_strlit("Ascender");
    reveal_strlit("Descender");
    reveal_strlit("StdHW");
    reveal_strlit("StdVW");
    reveal_strlit("StartCharMetrics");
    reveal_strlit("StartKernPairs");
    reveal_strlit("EndFontMetrics");
}

/// The field that a numeric header key names, in `m`.
pub open spec fn number_field(m: MetricsModel, key: Seq<char>) -> Option<Seq<char>> {
    if key == "ItalicAngle"@ {
        m.italic_angle
    } else if key == "UnderlinePosition"@ {
        m.underline_position
    } else if key == "UnderlineThickness"@ {
        m.underline_thickness
    } else if key == "CapHeight"@ {
        m.cap_height
    } else if key == "XHeight"@ {
        m.x_height
    } else if key == "Ascender"@ {
        m.ascender
    } else if key == "Descender"@ {
        m.descender
    } else if key == "StdHW"@ {
        m.std_hw
    } else {
        m.std_vw
    }
}

/// The numeric header keys.
pub open spec fn is_number_key(key: Seq<char>) -> bool {
    ||| key == "ItalicAngle"@
    ||| key == "UnderlinePosition"@
    ||| key == "UnderlineThickness"@
    ||| key == "CapHeight"@
    ||| key == "XHeight"@
    ||| key == "Ascender"@
    ||| key == "Descender"@
    ||| key == "StdHW"@
    ||| key == "StdVW"@
}

/// A header line with a numeric key is read exactly when the rest of the
/// line after the key, trimmed, is text that `f64::from_str` accepts; it
/// then sets that field to that text and changes nothing else, and
/// otherwise the error names this line.
pub proof fn number_keys_take_a_number(st: ParserState, line: Seq<char>, n: int)
    requires
        is_number_key(header_key(line)),
    ensures
        spec_header_line(st, line, n) is Ok <==> is_float_literal(header_value(line)),
        spec_header_line(st, line, n) matches Ok(s2) ==> number_field(s2.metrics, header_key(line))
            == Some(header_value(line)) && s2 == (ParserState { metrics: s2.metrics, ..st })
            && s2.metrics.glyphs == st.metrics.glyphs && s2.metrics.kern_pairs
            == st.metrics.kern_pairs && s2.metrics.font_name == st.metrics.font_name
            && forall|k: Seq<char>|
            is_number_key(k) && k != header_key(line) ==> #[trigger] number_field(s2.metrics, k)
                == number_field(st.metrics, k),
        spec_header_line(st, line, n) matches Err(e) ==> e.line == n,
{
    let t = line.skip(lead_ws(line));
    lemma_non_ws_from(line, 0);
    lemma_ws_from(t, 0);
    assert(header_key(line).len() == ws_from(t, 0));
    assert(line.skip(lead_ws(line) + header_key(line).len()) =~= t.skip(ws_from(t, 0)));
    lemma_header_keys_known();
}

/// `IsFixedPitch` takes exactly `true` or `false` and sets the flag to it;
/// `FontBBox` takes exactly four whitespace-separated numbers and sets the
/// box to them, in order. Neither changes anything else.
pub proof fn flag_and_box_keys(st: ParserState, line: Seq<char>, n: int)
    ensures
        header_key(line) == "IsFixedPitch"@ ==> (spec_header_line(st, line, n) is Ok <==> (
        header_value(line) == "true"@ || header_value(line) == "false"@)),
        header_key(line) == "IsFixedPitch"@ ==> (spec_header_line(st, line, n) matches Ok(s2)
            ==> s2.metrics.is_fixed_pitch == Some(header_value(line) == "true"@) && s2 == (
        ParserState {
            metrics: MetricsModel { is_fixed_pitch: s2.metrics.is_fixed_pitch, ..st.metrics },
            ..st
        })),
        header_key(line) == "FontBBox"@ ==> (spec_header_line(st, line, n) is Ok <==> (tokens(
            header_value(line),
        ).len() == 4 && forall|i: int|
            0 <= i < 4 ==> is_float_literal(
                #[trigger] token_text(header_value(line), tokens(header_value(line))[i]),
            ))),
        header_key(line) == "FontBBox"@ ==> (spec_header_line(st, line, n) matches Ok(s2) ==> {
            let v = header_value(line);
            let t = tokens(v);
            &&& s2.metrics.font_bbox == Some(
                (token_text(v, t[0]), token_text(v, t[1]), token_text(v, t[2]), token_text(v, t[3])),
            )
            &&& s2 == (ParserState {
                metrics: MetricsModel { font_bbox: s2.metrics.font_bbox, ..st.metrics },
                ..st
            })
        }),
{
    let t = line.skip(lead_ws(line));
    lemma_non_ws_from(line, 0);
    lemma_ws_from(t, 0);
    assert(header_key(line).len() == ws_from(t, 0));
    assert(line.skip(lead_ws(line) + header_key(line).len()) =~= t.skip(ws_from(t, 0)));
    lemma_header_keys_known();
    let v = header_value(line);
    let tv = tokens(v);
    if header_key(line) == "FontBBox"@ && tv.len() == 4 {
        if !is_float_literal(token_text(v, tv[0])) || !is_float_literal(token_text(v, tv[1]))
            || !is_float_literal(token_text(v, tv[2])) || !is_float_literal(token_text(v, tv[3])) {
            assert(spec_header_line(st, line, n) is Err);
        }
    }
}

/// `StartCharMetrics count` and `StartKernPairs count` open their block
/// with the declared count when the value is a `usize` and leave the
/// metrics alone; `EndFontMetrics` ends the file and changes nothing else.
pub proof fn block_keys_open_and_close(st: ParserState, line: Seq<char>, n: int)
    ensures
        header_key(line) == "StartCharMetrics"@ ==> (spec_header_line(st, line, n) is Ok
            <==> crate::number::spec_parse_usize(header_value(line)) is Some),
        header_key(line) == "StartCharMetrics"@ ==> (spec_header_line(st, line, n) matches Ok(s2)
            ==> s2.section == Section::CharMetrics && Some(s2.glyph_count as usize)
            == crate::number::spec_parse_usize(header_value(line)) && s2 == (ParserState {
            glyph_count: s2.glyph_count,
            section: Section::CharMetrics,
            ..st
        })),
        header_key(line) == "StartKernPairs"@ ==> (spec_header_line(st, line, n) is Ok
            <==> crate::number::spec_parse_usize(header_value(line)) is Some),
        header_key(line) == "StartKernPairs"@ ==> (spec_header_line(st, line, n) matches Ok(s2)
            ==> s2.section == Section::KernPairs && Some(s2.kern_count as usize)
            == crate::number::spec_parse_usize(header_value(line)) && s2 == (ParserState {
            kern_count: s2.kern_count,
            section: Section::KernPairs,
            ..st
        })),
        header_key(line) == "EndFontMetrics"@ ==> spec_header_line(st, line, n) == Ok::<
            ParserState,
            ErrorModel,
        >((ParserState { done: true, ..st })),
{
    let t = line.skip(lead_ws(line));
    lemma_non_ws_from(line, 0);
    lemma_ws_from(t, 0);
    assert(header_key(line).len() == ws_from(t, 0));
    assert(line.skip(lead_ws(line) + header_key(line).len()) =~= t.skip(ws_from(t, 0)));
    lemma_header_keys_known();
}

/// The value of a char metrics field: what follows its key, trimmed.
pub open spec fn field_value(seg: Seq<char>) -> Seq<char> {
    trimmed(trimmed(seg).skip(field_key(seg).len() as int))
}

proof fn lemma_field_parts(seg: Seq<char>)
    ensures
        trimmed(seg).skip(field_key(seg).len() as int) =~= trimmed(seg).skip(
            ws_from(trimmed(seg), 0),
        ),
        field_key(seg) == trimmed(seg).take(ws_from(trimmed(seg), 0)),
{
    lemma_ws_from(trimmed(seg), 0);
}

/// The fields of a glyph line: `C` takes an `i32` code, `WX` a number, `N`
/// a non-empty name (its whole value), `L` a successor and a ligature
/// name, appended to the ligatures, and `PCC` a part name and two numbers,
/// appended to the parts; each sets only its own part of what was read,
/// and a malformed value is an error on this line.
#[verifier::spinoff_prover]
pub proof fn glyph_fields_set_their_part(f: FieldsModel, seg: Seq<char>, start: int, n: int)
    requires
        !is_blank(seg),
    ensures
        field_key(seg) == "C"@ ==> (spec_field(f, seg, start, n) is Ok <==> spec_parse_i32(
            field_value(seg),
        ) is Some),
        field_key(seg) == "C"@ ==> (spec_field(f, seg, start, n) matches Ok(g) ==> g == (
        FieldsModel { code: spec_parse_i32(field_value(seg)), ..f })),
        field_key(seg) == "WX"@ ==> (spec_field(f, seg, start, n) is Ok <==> is_float_literal(
            field_value(seg),
        )),
        field_key(seg) == "WX"@ ==> (spec_field(f, seg, start, n) matches Ok(g) ==> g == (
        FieldsModel { width: Some(field_value(seg)), ..f })),
        field_key(seg) == "N"@ ==> (spec_field(f, seg, start, n) is Ok <==> field_value(seg).len()
            > 0),
        field_key(seg) == "N"@ ==> (spec_field(f, seg, start, n) matches Ok(g) ==> g == (
        FieldsModel { name: Some(field_value(seg)), ..f })),
        field_key(seg) == "L"@ ==> (spec_field(f, seg, start, n) is Ok <==> tokens(
            field_value(seg),
        ).len() == 2),
        field_key(seg) == "L"@ ==> (spec_field(f, seg, start, n) matches Ok(g) ==> {
            let v = field_value(seg);
            let t = tokens(v);
            g == (FieldsModel {
                ligatures: f.ligatures.push((token_text(v, t[0]), token_text(v, t[1]))),
                ..f
            })
        }),
        field_key(seg) == "PCC"@ ==> (spec_field(f, seg, start, n) matches Ok(g) ==> {
            let v = field_value(seg);
            let t = tokens(v);
            &&& t.len() == 3
            &&& is_float_literal(token_text(v, t[1]))
            &&& is_float_literal(token_text(v, t[2]))
            &&& g == (FieldsModel {
                parts: f.parts.push((token_text(v, t[0]), token_text(v, t[1]), token_text(v, t[2]))),
                ..f
            })
        }),
        spec_field(f, seg, start, n) matches Err(e) ==> e.line == n,
{
    lemma_field_parts(seg);
    lemma_field_keys_known();
    let field = trimmed(seg);
    let ke = ws_from(field, 0);
    assert(field_value(seg) == trimmed(field.skip(ke)));
    assert("C"@ != "WX"@);
    assert("C"@ != "N"@) by {
        assert("C"@[0] != "N"@[0]);
    }
    assert("C"@ != "L"@) by {
        assert("C"@[0] != "L"@[0]);
    }
    assert("C"@ != "PCC"@);
    assert("WX"@ != "N"@);
    assert("WX"@ != "L"@);
    assert("WX"@ != "PCC"@);
    assert("N"@ != "L"@) by {
        assert("N"@[0] != "L"@[0]);
    }
    assert("N"@ != "PCC"@);
    assert("L"@ != "PCC"@);
}

/// The glyph field keys, spelled out.
proof fn lemma_field_keys_known()
    ensures
        "C"@ =~= seq!['C'],
        "WX"@ =~= seq!['W', 'X'],
        "N"@ =~= seq!['N'],
        "L"@ =~= seq!['L'],
        "PCC"@ =~= seq!['P', 'C', 'C'],
        "CC"@ =~= seq!['C', 'C'],
{
    reveal_strlit("C");
    reveal_strlit("WX");
    reveal_strlit("N");
    reveal_strlit("L");
    reveal_strlit("PCC");
    reveal_strlit("CC");
}

/// A glyph line reads as a glyph exactly when its fields read without
/// error and name a code, a width and a name; the glyph is then made of
/// those, with the ligatures and parts in the order of their fields.
pub proof fn glyph_lines_are_their_fields(line: Seq<char>, n: int)
    ensures
        spec_char_line(line, n) is Ok <==> (spec_fields_from(no_fields(), line, 0, n) matches Ok(
            f,
        ) && f.code is Some && f.width is Some && f.name is Some),
        spec_char_line(line, n) matches Ok(g) ==> (spec_fields_from(no_fields(), line, 0, n)
            matches Ok(f) && Some(g.code) == f.code && Some(g.width) == f.width && Some(g.name)
            == f.name && g.ligatures == f.ligatures && g.parts == f.parts),
{
}

// ------------------------------------------------------- the afm command

/// A `glyph` query names the first glyph with that name; when no glyph has
/// that name and the query reads as an `i32` code, the first glyph with
/// that code; and otherwise nothing.
pub proof fn glyph_queries_name_the_first_match(
    gs: Seq<crate::metrics::GlyphMetric>,
    q: Seq<char>,
)
    ensures
        spec_find_glyph(gs, q) is None <==> (forall|i: int| 0 <= i < gs.len() ==> (#[trigger] gs[i]).name@ != q)
            && (forall|c: i32|
            spec_parse_i32(q) == Some(c) ==> forall|i: int|
                0 <= i < gs.len() ==> (#[trigger] gs[i]).code != c),
        spec_find_glyph(gs, q) matches Some(k) ==> 0 <= k < gs.len() && ((gs[k].name@ == q
            && forall|j: int| 0 <= j < k ==> (#[trigger] gs[j]).name@ != q) || ((forall|j: int|
            0 <= j < gs.len() ==> (#[trigger] gs[j]).name@ != q) && spec_parse_i32(q) == Some(
            gs[k].code,
        ) && forall|j: int| 0 <= j < k ==> (#[trigger] gs[j]).code != gs[k].code)),
{
    crate::metrics::lemma_index_named_from(gs, q, 0);
    if let Some(c) = spec_parse_i32(q) {
        crate::metrics::lemma_index_coded_from(gs, c, 0);
    }
}

/// The arguments of a command line other than the `--json` flag.
pub open spec fn words(args: Seq<Seq<char>>) -> Seq<Seq<char>> {
    args.filter(|a: Seq<char>| a != "--json"@)
}

proof fn lemma_words_empty(args: Seq<Seq<char>>)
    requires
        args.len() == 0,
    ensures
        words(args).len() == 0,
        !args.contains("--json"@),
{
    reveal(Seq::filter);
}

proof fn lemma_words_cons(args: Seq<Seq<char>>, i: int)
    requires
        0 <= i < args.len(),
    ensures
        words(args.skip(i)) == (if args[i] == "--json"@ {
            words(args.skip(i + 1))
        } else {
            seq![args[i]] + words(args.skip(i + 1))
        }),
        args.skip(i).contains("--json"@) == (args[i] == "--json"@ || args.skip(i + 1).contains(
            "--json"@,
        )),
{
    let x = args[i];
    let rest = args.skip(i + 1);
    assert(args.skip(i) =~= seq![x] + rest);
    let pred = |a: Seq<char>| a != "--json"@;
    Seq::filter_distributes_over_add(seq![x], rest, pred);
    reveal_with_fuel(Seq::filter, 2);
    assert(seq![x].drop_last() =~= Seq::<Seq<char>>::empty());
    if x != "--json"@ {
        assert(seq![x].filter(pred) =~= seq![x]);
    } else {
        assert(seq![x].filter(pred) =~= Seq::<Seq<char>>::empty());
    }
    if args.skip(i).contains("--json"@) {
        let k = choose|k: int| 0 <= k < args.skip(i).len() && args.skip(i)[k] == "--json"@;
        if k > 0 {
            assert(rest[k - 1] == args.skip(i)[k]);
        }
    }
    if args[i] == "--json"@ {
        assert(args.skip(i)[0] == "--json"@);
    }
    if rest.contains("--json"@) {
        let k = choose|k: int| 0 <= k < rest.len() && rest[k] == "--json"@;
        assert(args.skip(i)[k + 1] == rest[k]);
    }
}

proof fn lemma_scan_summary(
    args: Seq<Seq<char>>,
    i: int,
    json: bool,
    path: Option<Seq<char>>,
)
    requires
        0 <= i <= args.len(),
    ensures
        ({
            let w = words(args.skip(i));
            let jf = json || args.skip(i).contains("--json"@);
            scan_summary(args, i, json, path) == match path {
                None => if w.len() == 1 {
                    CommandModel::Summary(jf, w[0])
                } else {
                    CommandModel::SummaryUsage
                },
                Some(p) => if w.len() == 0 {
                    CommandModel::Summary(jf, p)
                } else {
                    CommandModel::SummaryUsage
                },
            }
        }),
    decreases args.len() - i,
{
    if i == args.len() {
        lemma_words_empty(args.skip(i));
    } else {
        lemma_words_cons(args, i);
        lemma_scan_summary(args, i + 1, true, path);
        lemma_scan_summary(args, i + 1, json, path);
        lemma_scan_summary(args, i + 1, json, Some(args[i]));
        let w = words(args.skip(i + 1));
        if args[i] != "--json"@ {
            assert((seq![args[i]] + w).len() == w.len() + 1);
            assert((seq![args[i]] + w)[0] == args[i]);
        }
    }
}

proof fn lemma_scan_glyph(
    args: Seq<Seq<char>>,
    i: int,
    json: bool,
    path: Option<Seq<char>>,
    query: Option<Seq<char>>,
)
    requires
        0 <= i <= args.len(),
        path is None ==> query is None,
    ensures
        ({
            let w = words(args.skip(i));
            let jf = json || args.skip(i).contains("--json"@);
            scan_glyph(args, i, json, path, query) == match (path, query) {
                (None, _) => if w.len() == 2 {
                    CommandModel::Glyph(jf, w[0], w[1])
                } else {
                    CommandModel::GlyphUsage
                },
                (Some(p), None) => if w.len() == 1 {
                    CommandModel::Glyph(jf, p, w[0])
                } else {
                    CommandModel::GlyphUsage
                },
                (Some(p), Some(q)) => if w.len() == 0 {
                    CommandModel::Glyph(jf, p, q)
                } else {
                    CommandModel::GlyphUsage
                },
            }
        }),
    decreases args.len() - i,
{
    if i == args.len() {
        lemma_words_empty(args.skip(i));
    } else {
        lemma_words_cons(args, i);
        lemma_scan_glyph(args, i + 1, true, path, query);
        lemma_scan_glyph(args, i + 1, json, path, query);
        lemma_scan_glyph(args, i + 1, json, Some(args[i]), query);
        if let Some(p) = path {
            lemma_scan_glyph(args, i + 1, json, path, Some(args[i]));
        }
        let w = words(args.skip(i + 1));
        if args[i] != "--json"@ {
            let w2 = seq![args[i]] + w;
            assert(w2.len() == w.len() + 1);
            assert(w2[0] == args[i]);
            if w.len() > 0 {
                assert(w2[1] == w[0]);
            }
        }
    }
}

/// The summary form (first argument not `glyph`) asks for JSON exactly when
/// some argument is `--json`, wherever it stands, and names as its file the
/// one argument that is not `--json`; with none or more than one such
/// argument the command line is a usage error.
pub proof fn summary_command_reads_its_arguments(args: Seq<Seq<char>>)
    requires
        !(args.len() > 0 && args[0] == "glyph"@),
    ensures
        spec_command(args) == (if words(args).len() == 1 {
            CommandModel::Summary(args.contains("--json"@), words(args)[0])
        } else {
            CommandModel::SummaryUsage
        }),
{
    lemma_scan_summary(args, 0, false, None);
    assert(args.skip(0) =~= args);
}

/// The glyph form (first argument `glyph`) asks for JSON exactly when some
/// later argument is `--json`, wherever it stands, and names as its file
/// and its query the two later arguments that are not `--json`, in order;
/// with any other number of them the command line is a usage error.
pub proof fn glyph_command_reads_its_arguments(args: Seq<Seq<char>>)
    requires
        args.len() > 0,
        args[0] == "glyph"@,
    ensures
        spec_command(args) == (if words(args.skip(1)).len() == 2 {
            CommandModel::Glyph(
                args.skip(1).contains("--json"@),
                words(args.skip(1))[0],
                words(args.skip(1))[1],
            )
        } else {
            CommandModel::GlyphUsage
        }),
{
    lemma_scan_glyph(args, 1, false, None, None);
}

} // verus!
