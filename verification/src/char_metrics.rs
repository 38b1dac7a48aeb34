//! Lines of the char metrics block: `;`-separated fields such as
//! `C 65 ; WX 667 ; N A ;`.
use vstd::prelude::*;
use vstd::slice::slice_subrange;
use vstd::string::StringExecFns;
use crate::metrics::{
    text_opt, CompositePart, ErrorModel, GlyphMetric, GlyphModel, Ligature, Number, ParseError,
};
use crate::number::{
    find_char_from, float_literal_ok, index_of_from, is_float_literal, lemma_index_of_from,
    parse_i32, parse_usize, spec_parse_i32, spec_parse_usize,
};
use crate::parser::{error_at, message3, same_result};
use crate::text::{
    chars_of, collect_tokens, find_ws_from, is_blank, lead_ws, lemma_non_ws_from,
    lemma_token_bounds, lemma_ws_from, range_is, lead_ws_len, text_of, token_text, tokens, trimmed,
    trimmed_text, ws_from,
};

verus! {

// ------------------------------------------------------- char metrics lines

/// What the `;`-separated fields of a char metrics line have set so far.
pub struct FieldsModel {
    pub code: Option<i32>,
    pub width: Option<Seq<char>>,
    pub name: Option<Seq<char>>,
    pub ligatures: Seq<(Seq<char>, Seq<char>)>,
    pub parts: Seq<(Seq<char>, Seq<char>, Seq<char>)>,
}

/// No field read yet.
pub open spec fn no_fields() -> FieldsModel {
    FieldsModel {
        code: None,
        width: None,
        name: None,
        ligatures: Seq::empty(),
        parts: Seq::empty(),
    }
}

/// The meaning of one field `seg` of line `n`, `seg` starting at offset
/// `start` of the line: `C code`, `WX width`, `N name`, `L successor
/// ligature`, `PCC part x y` or `CC name count` (a well-formed `CC` field is
/// checked and changes nothing: the parts are what the `PCC` fields give);
/// other keys are skipped.
pub open spec fn spec_field(f: FieldsModel, seg: Seq<char>, start: int, n: int) -> Result<
    FieldsModel,
    ErrorModel,
> {
    if is_blank(seg) {
        Ok(f)
    } else {
        let field = trimmed(seg);
        let col = start + lead_ws(seg) + 1;
        let ke = ws_from(field, 0);
        let key = field.take(ke);
        let value = trimmed(field.skip(ke));
        let t = tokens(value);
        if key == "C"@ {
            match spec_parse_i32(value) {
                Some(c) => Ok(FieldsModel { code: Some(c), ..f }),
                None => Err(
                    error_at(n, col, "glyph code 'C "@ + value + "' is not a valid integer"@),
                ),
            }
        } else if key == "WX"@ {
            if is_float_literal(value) {
                Ok(FieldsModel { width: Some(value), ..f })
            } else {
                Err(error_at(n, col, "advance width 'WX "@ + value + "' is not a valid number"@))
            }
        } else if key == "N"@ {
            if value.len() == 0 {
                Err(error_at(n, col, "glyph name field 'N' has no value"@))
            } else {
                Ok(FieldsModel { name: Some(value), ..f })
            }
        } else if key == "L"@ {
            if t.len() == 2 {
                Ok(
                    FieldsModel {
                        ligatures: f.ligatures.push(
                            (token_text(value, t[0]), token_text(value, t[1])),
                        ),
                        ..f
                    },
                )
            } else {
                Err(
                    error_at(
                        n,
                        col,
                        "ligature field 'L "@ + value + "' needs a successor and a ligature name"@,
                    ),
                )
            }
        } else if key == "PCC"@ {
            if t.len() == 3 && is_float_literal(token_text(value, t[1])) && is_float_literal(
                token_text(value, t[2]),
            ) {
                Ok(
                    FieldsModel {
                        parts: f.parts.push(
                            (
                                token_text(value, t[0]),
                                token_text(value, t[1]),
                                token_text(value, t[2]),
                            ),
                        ),
                        ..f
                    },
                )
            } else {
                Err(
                    error_at(
                        n,
                        col,
                        "composite part 'PCC "@ + value + "' needs a glyph name and two numbers"@,
                    ),
                )
            }
        } else if key == "CC"@ {
            if t.len() == 2 && spec_parse_usize(token_text(value, t[1])) is Some {
                Ok(f)
            } else {
                Err(
                    error_at(
                        n,
                        col,
                        "composite field 'CC "@ + value + "' needs a name and a part count"@,
                    ),
                )
            }
        } else {
            Ok(f)
        }
    }
}

/// The fields of `line` from offset `s` on, each ending at the next `;`
/// (the last one at the end of the line), applied in order to `f`.
pub open spec fn spec_fields_from(f: FieldsModel, line: Seq<char>, s: int, n: int) -> Result<
    FieldsModel,
    ErrorModel,
>
    decreases line.len() - s,
{
    if s < 0 || s > line.len() {
        Ok(f)
    } else {
        let e = index_of_from(line, s, ';', ';');
        match spec_field(f, line.subrange(s, e), s, n) {
            Err(x) => Err(x),
            Ok(g) => if e >= line.len() {
                Ok(g)
            } else {
                proof {
                    lemma_index_of_from(line, s, ';', ';');
                }
                spec_fields_from(g, line, e + 1, n)
            },
        }
    }
}

/// What a line inside `StartCharMetrics` / `EndCharMetrics` means: a glyph
/// with a code, a width and a name, its ligatures and its composite parts;
/// the part count a `CC` field names is not held against the `PCC` fields.
pub open spec fn spec_char_line(line: Seq<char>, n: int) -> Result<GlyphModel, ErrorModel> {
    match spec_fields_from(no_fields(), line, 0, n) {
        Err(x) => Err(x),
        Ok(f) => {
            let end = line.len() + 1int;
            if f.code is None {
                Err(error_at(n, end, "char metrics line is missing a 'C' (code) field"@))
            } else if f.width is None {
                Err(error_at(n, end, "char metrics line is missing a 'WX' (width) field"@))
            } else if f.name is None {
                Err(error_at(n, end, "char metrics line is missing an 'N' (name) field"@))
            } else {
                Ok(
                    GlyphModel {
                        code: f.code->0,
                        width: f.width->0,
                        name: f.name->0,
                        ligatures: f.ligatures,
                        parts: f.parts,
                    },
                )
            }
        },
    }
}

struct Fields {
    code: Option<i32>,
    width: Option<String>,
    name: Option<String>,
    ligatures: Vec<Ligature>,
    parts: Vec<CompositePart>,
}

impl View for Fields {
    type V = FieldsModel;

    closed spec fn view(&self) -> FieldsModel {
        FieldsModel {
            code: self.code,
            width: text_opt(self.width),
            name: text_opt(self.name),
            ligatures: self.ligatures@.map_values(|l: Ligature| l@),
            parts: self.parts@.map_values(|p: CompositePart| p@),
        }
    }
}

/// Key and trimmed value of a non-blank field: the key ends at the first
/// whitespace, the value is what follows, trimmed.
fn split_key_value(field: &[char]) -> (r: (usize, &[char]))
    ensures
        r.0 == ws_from(field@, 0),
        r.0 <= field@.len(),
        r.1@ == trimmed(field@.skip(r.0 as int)),
{
    let ke = find_ws_from(field, 0);
    proof {
        lemma_ws_from(field@, 0);
    }
    let rest = slice_subrange(field, ke, field.len());
    assert(rest@ =~= field@.skip(ke as int));
    (ke, trimmed_text(rest))
}

/// Applies the field `seg`, which starts at offset `start` of line `n`.
fn apply_field(f: &mut Fields, seg: &[char], start: usize, n: usize) -> (r: Result<(), ParseError>)
    requires
        start + seg@.len() < usize::MAX,
    ensures
        match spec_field(old(f)@, seg@, start as int, n as int) {
            Ok(g) => r is Ok && final(f)@ == g,
            Err(x) => r matches Err(e) && e@ == x,
        },
{
    let lead = lead_ws_len(seg);
    if lead == seg.len() {
        return Ok(());
    }
    let field = trimmed_text(seg);
    proof {
        lemma_non_ws_from(seg@, 0);
    }
    let col = start + lead + 1;
    let (ke, value) = split_key_value(field);
    if range_is(field, 0, ke, "C") {
        assert(field@.subrange(0, ke as int) =~= field@.take(ke as int));
        match parse_i32(value) {
            Some(c) => {
                f.code = Some(c);
                Ok(())
            },
            None => Err(ParseError::new(n, col, message3("glyph code 'C ", value, "' is not a valid integer"))),
        }
    } else if range_is(field, 0, ke, "WX") {
        assert(field@.subrange(0, ke as int) =~= field@.take(ke as int));
        if float_literal_ok(value) {
            f.width = Some(text_of(value, 0, value.len()));
            assert(value@.subrange(0, value@.len() as int) =~= value@);
            Ok(())
        } else {
            Err(ParseError::new(n, col, message3("advance width 'WX ", value, "' is not a valid number")))
        }
    } else if range_is(field, 0, ke, "N") {
        assert(field@.subrange(0, ke as int) =~= field@.take(ke as int));
        if value.len() == 0 {
            Err(ParseError::new(n, col, String::from_str("glyph name field 'N' has no value")))
        } else {
            f.name = Some(text_of(value, 0, value.len()));
            assert(value@.subrange(0, value@.len() as int) =~= value@);
            Ok(())
        }
    } else if range_is(field, 0, ke, "L") {
        assert(field@.subrange(0, ke as int) =~= field@.take(ke as int));
        let t = collect_tokens(value, 3);
        if t.len() == 2 {
            proof {
                lemma_token_bounds(value@, 0);
                lemma_token_bounds(value@, 1);
            }
            let lig = Ligature {
                successor: text_of(value, t[0].0, t[0].1),
                ligature: text_of(value, t[1].0, t[1].1),
            };
            let ghost old_l = f.ligatures@;
            f.ligatures.push(lig);
            assert(f.ligatures@.map_values(|l: Ligature| l@) =~= old_l.map_values(
                |l: Ligature| l@,
            ).push(lig@));
            Ok(())
        } else {
            Err(ParseError::new(n, col, message3("ligature field 'L ", value, "' needs a successor and a ligature name")))
        }
    } else if range_is(field, 0, ke, "PCC") {
        assert(field@.subrange(0, ke as int) =~= field@.take(ke as int));
        let t = collect_tokens(value, 4);
        if t.len() == 3 {
            proof {
                lemma_token_bounds(value@, 0);
                lemma_token_bounds(value@, 1);
                lemma_token_bounds(value@, 2);
            }
            let xs = slice_subrange(value, t[1].0, t[1].1);
            let ys = slice_subrange(value, t[2].0, t[2].1);
            if float_literal_ok(xs) && float_literal_ok(ys) {
                let part = CompositePart {
                    name: text_of(value, t[0].0, t[0].1),
                    x: Number { text: text_of(value, t[1].0, t[1].1) },
                    y: Number { text: text_of(value, t[2].0, t[2].1) },
                };
                let ghost old_p = f.parts@;
                f.parts.push(part);
                assert(f.parts@.map_values(|p: CompositePart| p@) =~= old_p.map_values(
                    |p: CompositePart| p@,
                ).push(part@));
                return Ok(());
            }
        }
        Err(ParseError::new(n, col, message3("composite part 'PCC ", value, "' needs a glyph name and two numbers")))
    } else if range_is(field, 0, ke, "CC") {
        assert(field@.subrange(0, ke as int) =~= field@.take(ke as int));
        let t = collect_tokens(value, 3);
        if t.len() == 2 {
            proof {
                lemma_token_bounds(value@, 1);
            }
            match parse_usize(slice_subrange(value, t[1].0, t[1].1)) {
                Some(_) => {
                    return Ok(());
                },
                None => {},
            }
        }
        Err(ParseError::new(n, col, message3("composite field 'CC ", value, "' needs a name and a part count")))
    } else {
        assert(field@.subrange(0, ke as int) =~= field@.take(ke as int));
        Ok(())
    }
}

/// Parse one line of the `StartCharMetrics` block: `;`-separated fields,
/// of which `C`, `WX` and `N` must appear.
pub fn parse_char_metrics_line(line: &str, line_no: usize) -> (r: Result<GlyphMetric, ParseError>)
    requires
        line@.len() < usize::MAX,
    ensures
        same_result(r, spec_char_line(line@, line_no as int)),
{
    let cs = chars_of(line);
    char_metrics_line(cs.as_slice(), line_no)
}

/// [`parse_char_metrics_line`] over the characters of the line.
pub fn char_metrics_line(line: &[char], line_no: usize) -> (r: Result<GlyphMetric, ParseError>)
    requires
        line@.len() < usize::MAX,
    ensures
        same_result(r, spec_char_line(line@, line_no as int)),
{
    let ghost total = spec_fields_from(no_fields(), line@, 0, line_no as int);
    let mut f = Fields {
        code: None,
        width: None,
        name: None,
        ligatures: Vec::new(),
        parts: Vec::new(),
    };
    assert(f@.ligatures =~= Seq::<(Seq<char>, Seq<char>)>::empty());
    assert(f@.parts =~= Seq::<(Seq<char>, Seq<char>, Seq<char>)>::empty());
    let mut s: usize = 0;
    loop
        invariant_except_break
            s <= line@.len(),
            line@.len() < usize::MAX,
            spec_fields_from(f@, line@, s as int, line_no as int) == total,
            total == spec_fields_from(no_fields(), line@, 0, line_no as int),
        ensures
            total == Ok::<FieldsModel, ErrorModel>(f@),
            total == spec_fields_from(no_fields(), line@, 0, line_no as int),
        decreases line@.len() - s,
    {
        let e = find_char_from(line, s, ';', ';');
        let seg = slice_subrange(line, s, e);
        match apply_field(&mut f, seg, s, line_no) {
            Err(x) => {
                return Err(x);
            },
            Ok(()) => {},
        }
        if e >= line.len() {
            break ;
        }
        s = e + 1;
    }
    let end = line.len() + 1;
    let code = match f.code {
        Some(c) => c,
        None => {
            return Err(
                ParseError::new(
                    line_no,
                    end,
                    String::from_str("char metrics line is missing a 'C' (code) field"),
                ),
            );
        },
    };
    let width = match f.width {
        Some(w) => w,
        None => {
            return Err(
                ParseError::new(
                    line_no,
                    end,
                    String::from_str("char metrics line is missing a 'WX' (width) field"),
                ),
            );
        },
    };
    let name = match f.name {
        Some(nm) => nm,
        None => {
            return Err(
                ParseError::new(
                    line_no,
                    end,
                    String::from_str("char metrics line is missing an 'N' (name) field"),
                ),
            );
        },
    };
    Ok(
        GlyphMetric {
            code,
            width: Number { text: width },
            name,
            ligatures: f.ligatures,
            composite_parts: f.parts,
        },
    )
}

} // verus!
