//! The AFM grammar: what each line means, as spec functions over the
//! file's characters, and the parser that is proved to compute exactly that.
use vstd::prelude::*;
use vstd::slice::slice_subrange;
use vstd::string::StringExecFns;
use crate::char_metrics::{char_metrics_line, spec_char_line};
use crate::kern::{kern_pair_line, spec_kern_line};
use crate::laws::{errors_point_into_the_file, parsed_metrics_are_well_formed};
use crate::metrics::{
    empty_metrics, BoundingBox, ErrorModel, FontMetrics, GlyphMetric, GlyphModel, KernPair,
    MetricsModel, Number, ParseError,
};
use crate::number::{
    find_char_from, float_literal_ok, index_of_from, is_float_literal, lemma_index_of_from,
    parse_usize, spec_parse_usize,
};
use crate::text::{
    chars_of, collect_tokens, decimal, decimal_string, find_ws_from, has_at, is_blank,
    lead_ws, lemma_non_ws_from, lemma_token_bounds, lemma_trim_end_len, lemma_ws_from, matches_at,
    range_is, lead_ws_len, to_text, token_text, tokens, trim_end_len, trimmed, trimmed_end,
    trimmed_text, ws_from,
};

verus! {

/// An error at `line` and `column` with `message`.
pub open spec fn error_at(line: int, column: int, message: Seq<char>) -> ErrorModel {
    ErrorModel { line, column, message }
}

/// The exec result `r` is the spec result `m`.
pub open spec fn same_result<T: View>(r: Result<T, ParseError>, m: Result<T::V, ErrorModel>) -> bool {
    match (r, m) {
        (Ok(x), Ok(y)) => x@ == y,
        (Err(e), Err(f)) => e@ == f,
        _ => false,
    }
}

/// `a` + `mid` + `b`, as one message.
pub fn message3(a: &str, mid: &[char], b: &str) -> (m: String)
    ensures
        m@ == a@ + mid@ + b@,
{
    let mut m = String::from_str(a);
    let t = to_text(mid);
    m.append(t.as_str());
    m.append(b);
    m
}

// ----------------------------------------------------------- header lines

/// Which block of the file a line belongs to.
#[derive(Debug, Clone, Copy, PartialEq, Eq, Structural)]
pub enum Section {
    Header,
    CharMetrics,
    KernPairs,
}

/// Everything the parser knows after some lines of the file: the metrics
/// so far, the counts that the open blocks declared, the block it is in,
/// whether `EndFontMetrics` was seen, and the number of the last line read.
pub struct ParserState {
    pub metrics: MetricsModel,
    pub glyph_count: nat,
    pub kern_count: nat,
    pub section: Section,
    pub done: bool,
    pub last_line: int,
}

/// The value of a numeric header key, or the error that names it.
pub open spec fn number_value(value: Seq<char>, key: Seq<char>, n: int, col: int) -> Result<
    Seq<char>,
    ErrorModel,
> {
    if is_float_literal(value) {
        Ok(value)
    } else {
        Err(error_at(n, col, "expected a number after '"@ + key + "', found '"@ + value + "'"@))
    }
}

/// The four numbers of a `FontBBox` value that starts at offset `voff` of
/// line `n`.
pub open spec fn bbox_value(value: Seq<char>, n: int, voff: int) -> Result<
    (Seq<char>, Seq<char>, Seq<char>, Seq<char>),
    ErrorModel,
> {
    let t = tokens(value);
    if t.len() != 4 {
        Err(
            error_at(
                n,
                voff + 1,
                "expected four numbers after 'FontBBox', found '"@ + value + "'"@,
            ),
        )
    } else if !is_float_literal(token_text(value, t[0])) {
        Err(bad_bbox_value(value, t[0], n, voff))
    } else if !is_float_literal(token_text(value, t[1])) {
        Err(bad_bbox_value(value, t[1], n, voff))
    } else if !is_float_literal(token_text(value, t[2])) {
        Err(bad_bbox_value(value, t[2], n, voff))
    } else if !is_float_literal(token_text(value, t[3])) {
        Err(bad_bbox_value(value, t[3], n, voff))
    } else {
        Ok(
            (
                token_text(value, t[0]),
                token_text(value, t[1]),
                token_text(value, t[2]),
                token_text(value, t[3]),
            ),
        )
    }
}

/// The error for a bounding box token `r` that is not a number.
pub open spec fn bad_bbox_value(value: Seq<char>, r: (int, int), n: int, voff: int) -> ErrorModel {
    error_at(
        n,
        voff + r.0 + 1,
        "bounding box value '"@ + token_text(value, r) + "' is not a valid number"@,
    )
}

/// `st` with its metrics replaced by `m`.
pub open spec fn with_metrics(st: ParserState, m: MetricsModel) -> ParserState {
    ParserState { metrics: m, ..st }
}

/// `st` with a numeric header value set by `set`, or the error.
pub open spec fn set_number(
    st: ParserState,
    r: Result<Seq<char>, ErrorModel>,
    set: spec_fn(MetricsModel, Seq<char>) -> MetricsModel,
) -> Result<ParserState, ErrorModel> {
    match r {
        Ok(v) => Ok(with_metrics(st, set(st.metrics, v))),
        Err(x) => Err(x),
    }
}

/// What a non-blank line outside the char metrics and kerning blocks means:
/// `Key value`, where known keys set metadata, open a block, or end the
/// file; unknown keys are skipped.
pub open spec fn spec_header_line(st: ParserState, line: Seq<char>, n: int) -> Result<
    ParserState,
    ErrorModel,
> {
    let indent = lead_ws(line);
    let t = line.skip(indent);
    let ke = ws_from(t, 0);
    let key = t.take(ke);
    let rest = t.skip(ke);
    let value = trimmed(rest);
    let voff = indent + ke + lead_ws(rest);
    let col = voff + 1;
    let m = st.metrics;
    if key == "FontName"@ {
        Ok(with_metrics(st, MetricsModel { font_name: Some(value), ..m }))
    } else if key == "FullName"@ {
        Ok(with_metrics(st, MetricsModel { full_name: Some(value), ..m }))
    } else if key == "FamilyName"@ {
        Ok(with_metrics(st, MetricsModel { family_name: Some(value), ..m }))
    } else if key == "Weight"@ {
        Ok(with_metrics(st, MetricsModel { weight: Some(value), ..m }))
    } else if key == "Version"@ {
        Ok(with_metrics(st, MetricsModel { version: Some(value), ..m }))
    } else if key == "Notice"@ {
        Ok(with_metrics(st, MetricsModel { notice: Some(value), ..m }))
    } else if key == "EncodingScheme"@ {
        Ok(with_metrics(st, MetricsModel { encoding_scheme: Some(value), ..m }))
    } else if key == "ItalicAngle"@ {
        set_number(
            st,
            number_value(value, key, n, col),
            |m: MetricsModel, v: Seq<char>| MetricsModel { italic_angle: Some(v), ..m },
        )
    } else if key == "IsFixedPitch"@ {
        if value == "true"@ {
            Ok(with_metrics(st, MetricsModel { is_fixed_pitch: Some(true), ..m }))
        } else if value == "false"@ {
            Ok(with_metrics(st, MetricsModel { is_fixed_pitch: Some(false), ..m }))
        } else {
            Err(
                error_at(
                    n,
                    col,
                    "expected 'true' or 'false' after 'IsFixedPitch', found '"@ + value + "'"@,
                ),
            )
        }
    } else if key == "FontBBox"@ {
        match bbox_value(value, n, voff) {
            Ok(b) => Ok(with_metrics(st, MetricsModel { font_bbox: Some(b), ..m })),
            Err(x) => Err(x),
        }
    } else if key == "UnderlinePosition"@ {
        set_number(
            st,
            number_value(value, key, n, col),
            |m: MetricsModel, v: Seq<char>| MetricsModel { underline_position: Some(v), ..m },
        )
    } else if key == "UnderlineThickness"@ {
        set_number(
            st,
            number_value(value, key, n, col),
            |m: MetricsModel, v: Seq<char>| MetricsModel { underline_thickness: Some(v), ..m },
        )
    } else if key == "CapHeight"@ {
        set_number(
            st,
            number_value(value, key, n, col),
            |m: MetricsModel, v: Seq<char>| MetricsModel { cap_height: Some(v), ..m },
        )
    } else if key == "XHeight"@ {
        set_number(
            st,
            number_value(value, key, n, col),
            |m: MetricsModel, v: Seq<char>| MetricsModel { x_height: Some(v), ..m },
        )
    } else if key == "Ascender"@ {
        set_number(
            st,
            number_value(value, key, n, col),
            |m: MetricsModel, v: Seq<char>| MetricsModel { ascender: Some(v), ..m },
        )
    } else if key == "Descender"@ {
        set_number(
            st,
            number_value(value, key, n, col),
            |m: MetricsModel, v: Seq<char>| MetricsModel { descender: Some(v), ..m },
        )
    } else if key == "StdHW"@ {
        set_number(
            st,
            number_value(value, key, n, col),
            |m: MetricsModel, v: Seq<char>| MetricsModel { std_hw: Some(v), ..m },
        )
    } else if key == "StdVW"@ {
        set_number(
            st,
            number_value(value, key, n, col),
            |m: MetricsModel, v: Seq<char>| MetricsModel { std_vw: Some(v), ..m },
        )
    } else if key == "StartCharMetrics"@ {
        match spec_parse_usize(value) {
            Some(c) => Ok(ParserState { glyph_count: c as nat, section: Section::CharMetrics, ..st }),
            None => Err(
                error_at(
                    n,
                    col,
                    "expected a glyph count after 'StartCharMetrics', found '"@ + value + "'"@,
                ),
            ),
        }
    } else if key == "StartKernPairs"@ {
        match spec_parse_usize(value) {
            Some(c) => Ok(ParserState { kern_count: c as nat, section: Section::KernPairs, ..st }),
            None => Err(
                error_at(
                    n,
                    col,
                    "expected a pair count after 'StartKernPairs', found '"@ + value + "'"@,
                ),
            ),
        }
    } else if key == "EndFontMetrics"@ {
        Ok(ParserState { done: true, ..st })
    } else {
        Ok(st)
    }
}

} // verus!

verus! {

struct Parser {
    metrics: FontMetrics,
    glyph_count: usize,
    kern_count: usize,
    section: Section,
    done: bool,
    last_line: usize,
}

impl View for Parser {
    type V = ParserState;

    closed spec fn view(&self) -> ParserState {
        ParserState {
            metrics: self.metrics@,
            glyph_count: self.glyph_count as nat,
            kern_count: self.kern_count as nat,
            section: self.section,
            done: self.done,
            last_line: self.last_line as int,
        }
    }
}

fn number_of(value: &[char], key: &str, n: usize, col: usize) -> (r: Result<Number, ParseError>)
    ensures
        match number_value(value@, key@, n as int, col as int) {
            Ok(v) => r matches Ok(x) && x@ == v,
            Err(e) => r matches Err(x) && x@ == e,
        },
{
    if float_literal_ok(value) {
        Ok(Number { text: to_text(value) })
    } else {
        let mut m = String::from_str("expected a number after '");
        m.append(key);
        let rest = message3("', found '", value, "'");
        m.append(rest.as_str());
        assert(m@ =~= "expected a number after '"@ + key@ + "', found '"@ + value@ + "'"@);
        Err(ParseError::new(n, col, m))
    }
}

fn bbox_number(value: &[char], r: (usize, usize), n: usize, voff: usize) -> (res: Result<
    Number,
    ParseError,
>)
    requires
        r.0 < r.1 <= value@.len(),
        voff + value@.len() < usize::MAX,
    ensures
        is_float_literal(token_text(value@, (r.0 as int, r.1 as int))) ==> (res matches Ok(x)
            && x@ == token_text(value@, (r.0 as int, r.1 as int))),
        !is_float_literal(token_text(value@, (r.0 as int, r.1 as int))) ==> (res matches Err(x)
            && x@ == bad_bbox_value(value@, (r.0 as int, r.1 as int), n as int, voff as int)),
{
    let tok = slice_subrange(value, r.0, r.1);
    if float_literal_ok(tok) {
        Ok(Number { text: to_text(tok) })
    } else {
        Err(
            ParseError::new(
                n,
                voff + r.0 + 1,
                message3("bounding box value '", tok, "' is not a valid number"),
            ),
        )
    }
}

fn bbox_of(value: &[char], n: usize, voff: usize) -> (r: Result<BoundingBox, ParseError>)
    requires
        voff + value@.len() < usize::MAX,
    ensures
        match bbox_value(value@, n as int, voff as int) {
            Ok(b) => r matches Ok(x) && x@ == b,
            Err(e) => r matches Err(x) && x@ == e,
        },
{
    let t = collect_tokens(value, 5);
    if t.len() != 4 {
        return Err(
            ParseError::new(
                n,
                voff + 1,
                message3("expected four numbers after 'FontBBox', found '", value, "'"),
            ),
        );
    }
    proof {
        lemma_token_bounds(value@, 0);
        lemma_token_bounds(value@, 1);
        lemma_token_bounds(value@, 2);
        lemma_token_bounds(value@, 3);
    }
    let llx = match bbox_number(value, t[0], n, voff) {
        Ok(x) => x,
        Err(e) => {
            return Err(e);
        },
    };
    let lly = match bbox_number(value, t[1], n, voff) {
        Ok(x) => x,
        Err(e) => {
            return Err(e);
        },
    };
    let urx = match bbox_number(value, t[2], n, voff) {
        Ok(x) => x,
        Err(e) => {
            return Err(e);
        },
    };
    let ury = match bbox_number(value, t[3], n, voff) {
        Ok(x) => x,
        Err(e) => {
            return Err(e);
        },
    };
    Ok(BoundingBox { llx, lly, urx, ury })
}

/// Applies a non-blank line of the header (outside the blocks).
fn header_line(p: &mut Parser, line: &[char], n: usize) -> (r: Result<(), ParseError>)
    requires
        line@.len() < usize::MAX,
    ensures
        match spec_header_line(old(p)@, line@, n as int) {
            Ok(s) => r is Ok && final(p)@ == s,
            Err(e) => r matches Err(x) && x@ == e,
        },
{
    let indent = lead_ws_len(line);
    proof {
        lemma_non_ws_from(line@, 0);
    }
    let t = slice_subrange(line, indent, line.len());
    assert(t@ =~= line@.skip(indent as int));
    let ke = find_ws_from(t, 0);
    proof {
        lemma_ws_from(t@, 0);
    }
    assert(t@.subrange(0, ke as int) =~= t@.take(ke as int));
    let rest = slice_subrange(t, ke, t.len());
    assert(rest@ =~= t@.skip(ke as int));
    let value = trimmed_text(rest);
    let lr = lead_ws_len(rest);
    let voff = indent + ke + lr;
    let col = voff + 1;
    if range_is(t, 0, ke, "FontName") {
        p.metrics.font_name = Some(to_text(value));
        Ok(())
    } else if range_is(t, 0, ke, "FullName") {
        p.metrics.full_name = Some(to_text(value));
        Ok(())
    } else if range_is(t, 0, ke, "FamilyName") {
        p.metrics.family_name = Some(to_text(value));
        Ok(())
    } else if range_is(t, 0, ke, "Weight") {
        p.metrics.weight = Some(to_text(value));
        Ok(())
    } else if range_is(t, 0, ke, "Version") {
        p.metrics.version = Some(to_text(value));
        Ok(())
    } else if range_is(t, 0, ke, "Notice") {
        p.metrics.notice = Some(to_text(value));
        Ok(())
    } else if range_is(t, 0, ke, "EncodingScheme") {
        p.metrics.encoding_scheme = Some(to_text(value));
        Ok(())
    } else if range_is(t, 0, ke, "ItalicAngle") {
        let v = number_of(value, "ItalicAngle", n, col);
        match v {
            Ok(x) => {
                p.metrics.italic_angle = Some(x);
                Ok(())
            },
            Err(e) => Err(e),
        }
    } else if range_is(t, 0, ke, "IsFixedPitch") {
        if range_is(value, 0, value.len(), "true") {
            assert(value@.subrange(0, value@.len() as int) =~= value@);
            p.metrics.is_fixed_pitch = Some(true);
            Ok(())
        } else if range_is(value, 0, value.len(), "false") {
            assert(value@.subrange(0, value@.len() as int) =~= value@);
            p.metrics.is_fixed_pitch = Some(false);
            Ok(())
        } else {
            assert(value@.subrange(0, value@.len() as int) =~= value@);
            Err(
                ParseError::new(
                    n,
                    col,
                    message3(
                        "expected 'true' or 'false' after 'IsFixedPitch', found '",
                        value,
                        "'",
                    ),
                ),
            )
        }
    } else if range_is(t, 0, ke, "FontBBox") {
        match bbox_of(value, n, voff) {
            Ok(b) => {
                p.metrics.font_bbox = Some(b);
                Ok(())
            },
            Err(e) => Err(e),
        }
    } else if range_is(t, 0, ke, "UnderlinePosition") {
        match number_of(value, "UnderlinePosition", n, col) {
            Ok(x) => {
                p.metrics.underline_position = Some(x);
                Ok(())
            },
            Err(e) => Err(e),
        }
    } else if range_is(t, 0, ke, "UnderlineThickness") {
        match number_of(value, "UnderlineThickness", n, col) {
            Ok(x) => {
                p.metrics.underline_thickness = Some(x);
                Ok(())
            },
            Err(e) => Err(e),
        }
    } else if range_is(t, 0, ke, "CapHeight") {
        match number_of(value, "CapHeight", n, col) {
            Ok(x) => {
                p.metrics.cap_height = Some(x);
                Ok(())
            },
            Err(e) => Err(e),
        }
    } else if range_is(t, 0, ke, "XHeight") {
        match number_of(value, "XHeight", n, col) {
            Ok(x) => {
                p.metrics.x_height = Some(x);
                Ok(())
            },
            Err(e) => Err(e),
        }
    } else if range_is(t, 0, ke, "Ascender") {
        match number_of(value, "Ascender", n, col) {
            Ok(x) => {
                p.metrics.ascender = Some(x);
                Ok(())
            },
            Err(e) => Err(e),
        }
    } else if range_is(t, 0, ke, "Descender") {
        match number_of(value, "Descender", n, col) {
            Ok(x) => {
                p.metrics.descender = Some(x);
                Ok(())
            },
            Err(e) => Err(e),
        }
    } else if range_is(t, 0, ke, "StdHW") {
        match number_of(value, "StdHW", n, col) {
            Ok(x) => {
                p.metrics.std_hw = Some(x);
                Ok(())
            },
            Err(e) => Err(e),
        }
    } else if range_is(t, 0, ke, "StdVW") {
        match number_of(value, "StdVW", n, col) {
            Ok(x) => {
                p.metrics.std_vw = Some(x);
                Ok(())
            },
            Err(e) => Err(e),
        }
    } else if range_is(t, 0, ke, "StartCharMetrics") {
        match parse_usize(value) {
            Some(c) => {
                p.glyph_count = c;
                p.section = Section::CharMetrics;
                Ok(())
            },
            None => Err(
                ParseError::new(
                    n,
                    col,
                    message3("expected a glyph count after 'StartCharMetrics', found '", value, "'"),
                ),
            ),
        }
    } else if range_is(t, 0, ke, "StartKernPairs") {
        match parse_usize(value) {
            Some(c) => {
                p.kern_count = c;
                p.section = Section::KernPairs;
                Ok(())
            },
            None => Err(
                ParseError::new(
                    n,
                    col,
                    message3("expected a pair count after 'StartKernPairs', found '", value, "'"),
                ),
            ),
        }
    } else if range_is(t, 0, ke, "EndFontMetrics") {
        p.done = true;
        Ok(())
    } else {
        Ok(())
    }
}

} // verus!

verus! {

// ------------------------------------------------------------ whole files

/// The lines of `s` from offset `i` on: each ends before the next `'\n'`,
/// and a final `'\n'` ends the last line rather than starting an empty one.
pub open spec fn lines_from(s: Seq<char>, i: int) -> Seq<Seq<char>>
    decreases s.len() + 1 - i,
{
    if i < 0 || i >= s.len() {
        Seq::empty()
    } else {
        let e = index_of_from(s, i, '\n', '\n');
        proof {
            lemma_index_of_from(s, i, '\n', '\n');
        }
        seq![s.subrange(i, e)] + lines_from(s, e + 1)
    }
}

/// The lines of the text `s`, as `str::lines` gives them (a trailing
/// `'\r'` is kept; every use of a line drops trailing whitespace).
pub open spec fn lines(s: Seq<char>) -> Seq<Seq<char>> {
    lines_from(s, 0)
}

/// A line without its trailing whitespace.
pub open spec fn trim_end_line(raw: Seq<char>) -> Seq<char> {
    raw.take(trim_end_len(raw, raw.len() as int))
}

/// What line number `n`, with text `raw`, does to the parser state.
pub open spec fn spec_step(st: ParserState, n: int, raw: Seq<char>) -> Result<
    ParserState,
    ErrorModel,
> {
    let st1 = ParserState { last_line: n, ..st };
    let line = trim_end_line(raw);
    let m = st.metrics;
    if is_blank(line) {
        Ok(st1)
    } else {
        match st.section {
            Section::CharMetrics => if has_at(line, lead_ws(line), "EndCharMetrics"@) {
                if m.glyphs.len() != st.glyph_count {
                    Err(
                        error_at(
                            n,
                            1,
                            "StartCharMetrics declared "@ + decimal(st.glyph_count) + " glyphs but "@
                                + decimal(m.glyphs.len()) + " were found"@,
                        ),
                    )
                } else {
                    Ok(ParserState { section: Section::Header, ..st1 })
                }
            } else {
                match spec_char_line(line, n) {
                    Ok(g) => Ok(with_metrics(st1, MetricsModel { glyphs: m.glyphs.push(g), ..m })),
                    Err(x) => Err(x),
                }
            },
            Section::KernPairs => if has_at(line, lead_ws(line), "EndKernPairs"@) {
                if m.kern_pairs.len() != st.kern_count {
                    Err(
                        error_at(
                            n,
                            1,
                            "StartKernPairs declared "@ + decimal(st.kern_count) + " pairs but "@
                                + decimal(m.kern_pairs.len()) + " were found"@,
                        ),
                    )
                } else {
                    Ok(ParserState { section: Section::Header, ..st1 })
                }
            } else {
                match spec_kern_line(line, n) {
                    Ok(kp) => Ok(
                        with_metrics(st1, MetricsModel { kern_pairs: m.kern_pairs.push(kp), ..m }),
                    ),
                    Err(x) => Err(x),
                }
            },
            Section::Header => spec_header_line(st1, line, n),
        }
    }
}

/// The lines `ls[k..]` (numbered from `k + 1`) applied in order to `st`,
/// stopping after the line that ends the file.
pub open spec fn spec_run(st: ParserState, ls: Seq<Seq<char>>, k: int) -> Result<
    ParserState,
    ErrorModel,
>
    decreases ls.len() - k,
{
    if k < 0 || k >= ls.len() {
        Ok(st)
    } else {
        match spec_step(st, k + 1, ls[k]) {
            Err(x) => Err(x),
            Ok(s2) => if s2.done {
                Ok(s2)
            } else {
                spec_run(s2, ls, k + 1)
            },
        }
    }
}

/// Index of the first non-blank line at or after `k`, or the number of lines.
pub open spec fn first_nonblank(ls: Seq<Seq<char>>, k: int) -> int
    decreases ls.len() - k,
{
    if k < 0 || k >= ls.len() {
        ls.len() as int
    } else if is_blank(ls[k]) {
        first_nonblank(ls, k + 1)
    } else {
        k
    }
}

/// The state right after the `StartFontMetrics` line, number `n`.
pub open spec fn start_state(n: int) -> ParserState {
    ParserState {
        metrics: empty_metrics(),
        glyph_count: 0,
        kern_count: 0,
        section: Section::Header,
        done: false,
        last_line: n,
    }
}

/// What an AFM file means: its metrics, or the first error in it, located
/// to a line and column. The first non-blank line must open with
/// `StartFontMetrics`, and an `EndFontMetrics` line must close the file.
pub open spec fn spec_parse(input: Seq<char>) -> Result<MetricsModel, ErrorModel> {
    let ls = lines(input);
    let f = first_nonblank(ls, 0);
    if f >= ls.len() {
        Err(error_at(1, 1, "file is empty; expected 'StartFontMetrics'"@))
    } else if !has_at(ls[f], lead_ws(ls[f]), "StartFontMetrics"@) {
        Err(
            error_at(
                f + 1,
                1,
                "expected 'StartFontMetrics' as the first line, found '"@ + trimmed(ls[f]) + "'"@,
            ),
        )
    } else {
        finish(spec_run(start_state(f + 1), ls, f + 1))
    }
}

/// The outcome once every line has been read: the metrics when
/// `EndFontMetrics` was seen, else an error at the last line read.
pub open spec fn finish(r: Result<ParserState, ErrorModel>) -> Result<MetricsModel, ErrorModel> {
    match r {
        Err(x) => Err(x),
        Ok(st) => if st.done {
            Ok(st.metrics)
        } else {
            Err(error_at(st.last_line, 1, "file is missing a closing 'EndFontMetrics' line"@))
        },
    }
}

fn count_mismatch(head: &str, declared: usize, noun: &str, found: usize) -> (m: String)
    ensures
        m@ == head@ + decimal(declared as nat) + noun@ + decimal(found as nat) + " were found"@,
{
    let mut m = String::from_str(head);
    let a = decimal_string(declared);
    m.append(a.as_str());
    m.append(noun);
    let b = decimal_string(found);
    m.append(b.as_str());
    m.append(" were found");
    m
}

/// Applies line number `n`, with text `raw`, to the parser.
fn step(p: &mut Parser, raw: &[char], n: usize) -> (r: Result<(), ParseError>)
    requires
        raw@.len() < usize::MAX,
    ensures
        match spec_step(old(p)@, n as int, raw@) {
            Ok(s) => r is Ok && final(p)@ == s,
            Err(e) => r matches Err(x) && x@ == e,
        },
{
    p.last_line = n;
    let te = trimmed_end(raw);
    proof {
        lemma_trim_end_len(raw@, raw@.len() as int);
    }
    let line = slice_subrange(raw, 0, te);
    assert(line@ =~= trim_end_line(raw@));
    let lead = lead_ws_len(line);
    if lead == line.len() {
        return Ok(());
    }
    proof {
        lemma_non_ws_from(line@, 0);
    }
    match p.section {
        Section::CharMetrics => {
            if matches_at(line, lead, "EndCharMetrics") {
                if p.metrics.glyphs.len() != p.glyph_count {
                    let m = count_mismatch(
                        "StartCharMetrics declared ",
                        p.glyph_count,
                        " glyphs but ",
                        p.metrics.glyphs.len(),
                    );
                    Err(ParseError::new(n, 1, m))
                } else {
                    p.section = Section::Header;
                    Ok(())
                }
            } else {
                match char_metrics_line(line, n) {
                    Ok(g) => {
                        let ghost old_g = p.metrics.glyphs@;
                        p.metrics.glyphs.push(g);
                        assert(p.metrics.glyphs@.map_values(|g: GlyphMetric| g@) =~= old_g.map_values(
                            |g: GlyphMetric| g@,
                        ).push(g@));
                        Ok(())
                    },
                    Err(e) => Err(e),
                }
            }
        },
        Section::KernPairs => {
            if matches_at(line, lead, "EndKernPairs") {
                if p.metrics.kern_pairs.len() != p.kern_count {
                    let m = count_mismatch(
                        "StartKernPairs declared ",
                        p.kern_count,
                        " pairs but ",
                        p.metrics.kern_pairs.len(),
                    );
                    Err(ParseError::new(n, 1, m))
                } else {
                    p.section = Section::Header;
                    Ok(())
                }
            } else {
                match kern_pair_line(line, n) {
                    Ok(kp) => {
                        let ghost old_k = p.metrics.kern_pairs@;
                        p.metrics.kern_pairs.push(kp);
                        assert(p.metrics.kern_pairs@.map_values(|k: KernPair| k@)
                            =~= old_k.map_values(|k: KernPair| k@).push(kp@));
                        Ok(())
                    },
                    Err(e) => Err(e),
                }
            }
        },
        Section::Header => header_line(p, line, n),
    }
}

proof fn lemma_lines_unfold(s: Seq<char>, i: int)
    requires
        0 <= i < s.len(),
    ensures
        lines_from(s, i) == seq![s.subrange(i, index_of_from(s, i, '\n', '\n'))] + lines_from(
            s,
            index_of_from(s, i, '\n', '\n') + 1,
        ),
{
}

/// Parse the contents of an AFM file.
///
/// On failure this returns the first error encountered, carrying the line
/// and column of the offending token rather than a generic "malformed
/// file" message.
pub fn parse(input: &str) -> (r: Result<FontMetrics, ParseError>)
    requires
        input@.len() < usize::MAX,
    ensures
        same_result(r, spec_parse(input@)),
        r matches Ok(m) ==> m.wf(),
        r matches Err(e) ==> e.line >= 1 && e.column >= 1 && e.message@.len() > 0,
{
    proof {
        parsed_metrics_are_well_formed(input@);
        errors_point_into_the_file(input@);
    }
    let chars = chars_of(input);
    let s = chars.as_slice();
    let ghost ls = lines(s@);
    let mut i: usize = 0;
    let mut k: usize = 0;
    let mut e: usize = 0;
    assert(ls.take(0) + lines_from(s@, 0) =~= ls);
    loop
        invariant_except_break
            s@ == input@,
            s@.len() < usize::MAX,
            ls == lines(s@),
            i <= s@.len() + 1,
            k <= i,
            k <= ls.len(),
            ls == ls.take(k as int) + lines_from(s@, i as int),
            first_nonblank(ls, k as int) == first_nonblank(ls, 0),
        ensures
            s@ == input@,
            s@.len() < usize::MAX,
            ls == lines(s@),
            k <= i <= e <= s@.len(),
            k < ls.len(),
            first_nonblank(ls, 0) == k,
            ls[k as int] == s@.subrange(i as int, e as int),
            ls == ls.take(k + 1) + lines_from(s@, e + 1),
        decreases s@.len() + 1 - i,
    {
        if i >= s.len() {
            assert(ls =~= ls.take(k as int));
            proof {
                errors_point_into_the_file(input@);
            }
            return Err(
                ParseError::new(1, 1, String::from_str("file is empty; expected 'StartFontMetrics'")),
            );
        }
        e = find_char_from(s, i, '\n', '\n');
        proof {
            lemma_lines_unfold(s@, i as int);
            assert(ls[k as int] == s@.subrange(i as int, e as int));
            assert(ls.take(k + 1) =~= ls.take(k as int).push(s@.subrange(i as int, e as int)));
            assert(ls =~= ls.take(k + 1) + lines_from(s@, e + 1));
        }
        let raw = slice_subrange(s, i, e);
        if lead_ws_len(raw) != raw.len() {
            break ;
        }
        i = e + 1;
        k = k + 1;
    }
    let first = slice_subrange(s, i, e);
    let lead = lead_ws_len(first);
    proof {
        lemma_non_ws_from(first@, 0);
    }
    if !matches_at(first, lead, "StartFontMetrics") {
        let m = message3("expected 'StartFontMetrics' as the first line, found '", trimmed_text(first), "'");
        return Err(ParseError::new(k + 1, 1, m));
    }
    let ghost total = spec_run(start_state(k + 1), ls, k + 1);
    assert(spec_parse(input@) == finish(total));
    let mut p = Parser {
        metrics: FontMetrics::default(),
        glyph_count: 0,
        kern_count: 0,
        section: Section::Header,
        done: false,
        last_line: k + 1,
    };
    i = e + 1;
    k = k + 1;
    loop
        invariant_except_break
            s@.len() < usize::MAX,
            ls == lines(s@),
            k <= i,
            i <= s@.len() + 1,
            k <= ls.len(),
            ls == ls.take(k as int) + lines_from(s@, i as int),
            spec_run(p@, ls, k as int) == total,
            spec_parse(input@) == finish(total),
            !p@.done,
        ensures
            total == Ok::<ParserState, ErrorModel>(p@),
        decreases s@.len() + 1 - i,
    {
        if i >= s.len() {
            assert(ls =~= ls.take(k as int));
            break ;
        }
        e = find_char_from(s, i, '\n', '\n');
        proof {
            lemma_lines_unfold(s@, i as int);
            assert(ls[k as int] == s@.subrange(i as int, e as int));
            assert(ls.take(k + 1) =~= ls.take(k as int).push(s@.subrange(i as int, e as int)));
            assert(ls =~= ls.take(k + 1) + lines_from(s@, e + 1));
        }
        let raw = slice_subrange(s, i, e);
        match step(&mut p, raw, k + 1) {
            Err(x) => {
                proof {
                    errors_point_into_the_file(input@);
                }
                return Err(x);
            },
            Ok(()) => {},
        }
        if p.done {
            break ;
        }
        i = e + 1;
        k = k + 1;
    }
    if p.done {
        Ok(p.metrics)
    } else {
        Err(
            ParseError::new(
                p.last_line,
                1,
                String::from_str("file is missing a closing 'EndFontMetrics' line"),
            ),
        )
    }
}

} // verus!

