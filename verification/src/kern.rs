//! Lines of the kerning block: `KPX first second adjustment`.
use vstd::prelude::*;
use vstd::slice::slice_subrange;
use vstd::string::StringExecFns;
use crate::metrics::{ErrorModel, KernPair, Number, ParseError};
use crate::number::{float_literal_ok, is_float_literal};
use crate::parser::{error_at, message3, same_result};
use crate::text::{
    chars_of, collect_tokens, lemma_token_bounds, range_is, text_of, token_text, tokens, trimmed,
    trimmed_text,
};

verus! {

// ---------------------------------------------------------------- KPX lines

/// What a line inside `StartKernPairs` / `EndKernPairs` means: `KPX first
/// second adjustment`, whitespace separated; tokens after the fourth are
/// ignored.
pub open spec fn spec_kern_line(line: Seq<char>, n: int) -> Result<
    (Seq<char>, Seq<char>, Seq<char>),
    ErrorModel,
> {
    let t = tokens(line);
    if t.len() == 0 || token_text(line, t[0]) != "KPX"@ {
        Err(
            error_at(
                n,
                1,
                "expected a 'KPX' kerning pair, found '"@ + trimmed(line) + "'"@,
            ),
        )
    } else if t.len() < 4 {
        Err(
            error_at(
                n,
                line.len() + 1int,
                "'KPX' line is missing the second glyph name or an adjustment value"@,
            ),
        )
    } else if !is_float_literal(token_text(line, t[3])) {
        Err(
            error_at(
                n,
                t[3].0 + 1,
                "kerning adjustment '"@ + token_text(line, t[3]) + "' is not a valid number"@,
            ),
        )
    } else {
        Ok((token_text(line, t[1]), token_text(line, t[2]), token_text(line, t[3])))
    }
}

/// Parse one `KPX first second adjustment` line of the kerning block.
pub fn parse_kern_pair_line(line: &str, line_no: usize) -> (r: Result<KernPair, ParseError>)
    requires
        line@.len() < usize::MAX,
    ensures
        same_result(r, spec_kern_line(line@, line_no as int)),
{
    let cs = chars_of(line);
    kern_pair_line(cs.as_slice(), line_no)
}

/// [`parse_kern_pair_line`] over the characters of the line.
pub fn kern_pair_line(line: &[char], line_no: usize) -> (r: Result<KernPair, ParseError>)
    requires
        line@.len() < usize::MAX,
    ensures
        same_result(r, spec_kern_line(line@, line_no as int)),
{
    let toks = collect_tokens(line, 4);
    let ghost t = tokens(line@);
    proof {
        if toks.len() > 0 {
            lemma_token_bounds(line@, 0);
        }
    }
    if toks.len() == 0 || !range_is(line, toks[0].0, toks[0].1, "KPX") {
        let m = message3("expected a 'KPX' kerning pair, found '", trimmed_text(line), "'");
        return Err(ParseError::new(line_no, 1, m));
    }
    if toks.len() < 4 {
        let m = String::from_str("'KPX' line is missing the second glyph name or an adjustment value");
        return Err(ParseError::new(line_no, line.len() + 1, m));
    }
    proof {
        lemma_token_bounds(line@, 1);
        lemma_token_bounds(line@, 2);
        lemma_token_bounds(line@, 3);
    }
    let (a3, b3) = toks[3];
    let adj = slice_subrange(line, a3, b3);
    if !float_literal_ok(adj) {
        let m = message3("kerning adjustment '", adj, "' is not a valid number");
        return Err(ParseError::new(line_no, a3 + 1, m));
    }
    let first = text_of(line, toks[1].0, toks[1].1);
    let second = text_of(line, toks[2].0, toks[2].1);
    let adjustment = Number { text: text_of(line, a3, b3) };
    Ok(KernPair { first, second, adjustment })
}

} // verus!
