//! The decisions of the `afm` command line: what its arguments ask for, and
//! which glyph a `glyph` query names.
use vstd::prelude::*;
use vstd::string::StringExecFns;
use crate::metrics::{index_coded_from, index_named_from, FontMetrics, GlyphMetric};
use crate::number::{parse_i32, spec_parse_i32};
use crate::text::chars_of;

verus! {

/// What the command line asks for.
#[derive(Debug)]
pub enum Command {
    /// `afm [--json] <font.afm>`
    Summary { json: bool, path: String },
    /// `afm glyph [--json] <font.afm> <name-or-code>`
    Glyph { json: bool, path: String, query: String },
    /// The arguments do not fit `afm [--json] <font.afm>`.
    SummaryUsage,
    /// The arguments do not fit `afm glyph [--json] <font.afm> <name-or-code>`.
    GlyphUsage,
}

/// The model of a [`Command`].
pub enum CommandModel {
    Summary(bool, Seq<char>),
    Glyph(bool, Seq<char>, Seq<char>),
    SummaryUsage,
    GlyphUsage,
}

impl View for Command {
    type V = CommandModel;

    open spec fn view(&self) -> CommandModel {
        match self {
            Command::Summary { json, path } => CommandModel::Summary(*json, path@),
            Command::Glyph { json, path, query } => CommandModel::Glyph(*json, path@, query@),
            Command::SummaryUsage => CommandModel::SummaryUsage,
            Command::GlyphUsage => CommandModel::GlyphUsage,
        }
    }
}

/// Arguments `args[i..]` of the summary form, after `--json` flags and the
/// path seen so far: `--json` anywhere, exactly one path.
pub open spec fn scan_summary(
    args: Seq<Seq<char>>,
    i: int,
    json: bool,
    path: Option<Seq<char>>,
) -> CommandModel
    decreases args.len() - i,
{
    if i < 0 || i >= args.len() {
        match path {
            Some(p) => CommandModel::Summary(json, p),
            None => CommandModel::SummaryUsage,
        }
    } else if args[i] == "--json"@ {
        scan_summary(args, i + 1, true, path)
    } else if path is None {
        scan_summary(args, i + 1, json, Some(args[i]))
    } else {
        CommandModel::SummaryUsage
    }
}

/// Arguments `args[i..]` of the glyph form: `--json` anywhere, then the
/// path, then the query, and nothing more.
pub open spec fn scan_glyph(
    args: Seq<Seq<char>>,
    i: int,
    json: bool,
    path: Option<Seq<char>>,
    query: Option<Seq<char>>,
) -> CommandModel
    decreases args.len() - i,
{
    if i < 0 || i >= args.len() {
        match (path, query) {
            (Some(p), Some(q)) => CommandModel::Glyph(json, p, q),
            _ => CommandModel::GlyphUsage,
        }
    } else if args[i] == "--json"@ {
        scan_glyph(args, i + 1, true, path, query)
    } else if path is None {
        scan_glyph(args, i + 1, json, Some(args[i]), query)
    } else if query is None {
        scan_glyph(args, i + 1, json, path, Some(args[i]))
    } else {
        CommandModel::GlyphUsage
    }
}

/// What the arguments (without the program name) ask for: the glyph form
/// when the first one is `glyph`, else the summary form.
pub open spec fn spec_command(args: Seq<Seq<char>>) -> CommandModel {
    if args.len() > 0 && args[0] == "glyph"@ {
        scan_glyph(args, 1, false, None, None)
    } else {
        scan_summary(args, 0, false, None)
    }
}

/// The arguments as character sequences.
pub open spec fn texts(args: Seq<String>) -> Seq<Seq<char>> {
    args.map_values(|a: String| a@)
}

/// Reads the command line (without the program name).
pub fn parse_command(args: &Vec<String>) -> (c: Command)
    ensures
        c@ == spec_command(texts(args@)),
{
    let ghost a = texts(args@);
    let flag = String::from_str("--json");
    let glyph = String::from_str("glyph");
    let mut json = false;
    let mut path: Option<String> = None;
    if args.len() > 0 && args[0] == glyph {
        let mut query: Option<String> = None;
        let mut i: usize = 1;
        while i < args.len()
            invariant
                1 <= i <= args@.len(),
                a == texts(args@),
                flag@ == "--json"@,
                a.len() > 0 && a[0] == "glyph"@,
                spec_command(a) == scan_glyph(
                    a,
                    i as int,
                    json,
                    match path {
                        Some(p) => Some(p@),
                        None => None,
                    },
                    match query {
                        Some(q) => Some(q@),
                        None => None,
                    },
                ),
            decreases args@.len() - i,
        {
            if args[i] == flag {
                json = true;
            } else if path.is_none() {
                path = Some(args[i].clone());
            } else if query.is_none() {
                query = Some(args[i].clone());
            } else {
                return Command::GlyphUsage;
            }
            i = i + 1;
        }
        match (path, query) {
            (Some(p), Some(q)) => Command::Glyph { json, path: p, query: q },
            _ => Command::GlyphUsage,
        }
    } else {
        let mut i: usize = 0;
        while i < args.len()
            invariant
                i <= args@.len(),
                a == texts(args@),
                flag@ == "--json"@,
                spec_command(a) == scan_summary(
                    a,
                    i as int,
                    json,
                    match path {
                        Some(p) => Some(p@),
                        None => None,
                    },
                ),
            decreases args@.len() - i,
        {
            if args[i] == flag {
                json = true;
            } else if path.is_none() {
                path = Some(args[i].clone());
            } else {
                return Command::SummaryUsage;
            }
            i = i + 1;
        }
        match path {
            Some(p) => Command::Summary { json, path: p },
            None => Command::SummaryUsage,
        }
    }
}

/// Index of the glyph a query names: the first glyph of that name, else,
/// when the query is an `i32`, the first glyph with that code.
pub open spec fn spec_find_glyph(gs: Seq<GlyphMetric>, query: Seq<char>) -> Option<int> {
    let k = index_named_from(gs, query, 0);
    if k < gs.len() {
        Some(k)
    } else {
        match spec_parse_i32(query) {
            Some(c) => {
                let j = index_coded_from(gs, c, 0);
                if j < gs.len() {
                    Some(j)
                } else {
                    None
                }
            },
            None => None,
        }
    }
}

/// The glyph that a `glyph` query names: by name first, then by code.
pub fn find_glyph<'a>(metrics: &'a FontMetrics, query: &str) -> (r: Option<&'a GlyphMetric>)
    ensures
        r == match spec_find_glyph(metrics.glyphs@, query@) {
            Some(k) => Some(&metrics.glyphs@[k]),
            None => None::<&GlyphMetric>,
        },
{
    match metrics.glyph_named(query) {
        Some(g) => Some(g),
        None => {
            let q = chars_of(query);
            match parse_i32(q.as_slice()) {
                Some(code) => metrics.glyph_by_code(code),
                None => None,
            }
        },
    }
}

} // verus!
