# afm_metrics

A parser for Adobe Font Metrics (AFM) files whose every error is located to a
line and column, written in Verus and proved against a specification of the
format.

## Layout

- `src/parser.rs`: what a whole file means (`spec_parse`), the header keys,
  and `parse`, proved to return exactly `spec_parse` of its input.
- `src/char_metrics.rs`, `src/kern.rs`: the lines of the `StartCharMetrics`
  and `StartKernPairs` blocks.
- `src/metrics.rs`: the parsed types, their models, and lookups by name, code
  and kerning pair.
- `src/text.rs`, `src/number.rs`: whitespace, tokens and the numeric grammars
  of std's `f64`, `i32` and `usize` parsers.
- `src/offsets.rs`: UTF-8 byte offsets, as `str` indexing counts them, and the
  characters and columns they stand for (`skip_ws`, `next_token`,
  `char_column`).
- `src/json.rs`: JSON and text forms of a parse error.
- `src/cli.rs`: the decisions of the `afm` command: its arguments and glyph
  queries.
- `src/laws.rs`: properties of the parser as a whole: errors point into the
  file and depend only on the lines up to them, parsed numbers are valid
  `f64` text, blank lines and unknown keys are skipped (in single lines and
  in whole files), text after `EndFontMetrics` is never read, a chain of
  `next_token` calls lists the words of a line, and columns grow with byte
  offsets.
- `app/main.rs`: the `afm` command itself: file reading, printing, and the
  floating-point summaries (average and widest glyph width).

Numbers are kept as the text the file wrote; `parse` proves that each of them
is text that `str::parse::<f64>` accepts.
