//! JSON text for a parse error, and the string escaping it needs.
use vstd::prelude::*;
use vstd::string::StringExecFns;
use crate::metrics::ParseError;
use crate::text::{chars_of, decimal, decimal_string, digit, digit_char, to_text};

verus! {

/// Lower-case hexadecimal digit for `d < 16`.
pub open spec fn hex_digit(d: int) -> char {
    if d < 10 {
        digit_char(d)
    } else if d == 10 {
        'a'
    } else if d == 11 {
        'b'
    } else if d == 12 {
        'c'
    } else if d == 13 {
        'd'
    } else if d == 14 {
        'e'
    } else {
        'f'
    }
}

/// How one character is written inside a JSON string: `"` and `\` and the
/// control characters escaped, everything else as it is.
pub open spec fn escape_char(c: char) -> Seq<char> {
    let u = c as u32;
    if c == '"' {
        seq!['\\', '"']
    } else if c == '\\' {
        seq!['\\', '\\']
    } else if c == '\n' {
        seq!['\\', 'n']
    } else if c == '\r' {
        seq!['\\', 'r']
    } else if c == '\t' {
        seq!['\\', 't']
    } else if u == 0x08 {
        seq!['\\', 'b']
    } else if u == 0x0c {
        seq!['\\', 'f']
    } else if u < 0x20 {
        seq!['\\', 'u', '0', '0', hex_digit((u / 16) as int), hex_digit((u % 16) as int)]
    } else {
        seq![c]
    }
}

/// The escaped body of a JSON string holding `s`.
pub open spec fn json_escape(s: Seq<char>) -> Seq<char>
    decreases s.len(),
{
    if s.len() == 0 {
        Seq::empty()
    } else {
        json_escape(s.drop_last()) + escape_char(s.last())
    }
}

/// A JSON string literal holding `s`.
pub open spec fn json_string(s: Seq<char>) -> Seq<char> {
    seq!['"'] + json_escape(s) + seq!['"']
}

proof fn lemma_escape_char_printable(c: char)
    ensures
        forall|i: int| 0 <= i < escape_char(c).len() ==> (#[trigger] escape_char(c)[i] as u32) >= 0x20,
{
    let u = c as u32;
    if u < 0x20 && c != '\n' && c != '\r' && c != '\t' && u != 0x08 && u != 0x0c {
        let e = escape_char(c);
        assert(e == seq!['\\', 'u', '0', '0', hex_digit((u / 16) as int), hex_digit((u % 16) as int)]);
        assert(hex_digit((u / 16) as int) as u32 >= 0x20);
        assert(hex_digit((u % 16) as int) as u32 >= 0x20);
    }
}

/// Escaped JSON text holds no control character, so the JSON form of an
/// error is a single line whatever its message holds.
pub proof fn json_escape_has_no_control_chars(s: Seq<char>)
    ensures
        forall|i: int| 0 <= i < json_escape(s).len() ==> (#[trigger] json_escape(s)[i] as u32) >= 0x20,
    decreases s.len(),
{
    if s.len() > 0 {
        json_escape_has_no_control_chars(s.drop_last());
        lemma_escape_char_printable(s.last());
        let a = json_escape(s.drop_last());
        let b = escape_char(s.last());
        assert forall|i: int| 0 <= i < json_escape(s).len() implies (#[trigger] json_escape(s)[i] as u32)
            >= 0x20 by {
            if i < a.len() {
                assert(json_escape(s)[i] == a[i]);
            } else {
                assert(json_escape(s)[i] == b[i - a.len()]);
            }
        }
    }
}

fn hex(d: u32) -> (c: char)
    requires
        d < 16,
    ensures
        c == hex_digit(d as int),
{
    if d < 10 {
        digit(d as usize)
    } else if d == 10 {
        'a'
    } else if d == 11 {
        'b'
    } else if d == 12 {
        'c'
    } else if d == 13 {
        'd'
    } else if d == 14 {
        'e'
    } else {
        'f'
    }
}

fn push_escaped(c: char, out: &mut Vec<char>)
    ensures
        final(out)@ == old(out)@ + escape_char(c),
{
    let u = c as u32;
    if c == '"' {
        out.push('\\');
        out.push('"');
    } else if c == '\\' {
        out.push('\\');
        out.push('\\');
    } else if c == '\n' {
        out.push('\\');
        out.push('n');
    } else if c == '\r' {
        out.push('\\');
        out.push('r');
    } else if c == '\t' {
        out.push('\\');
        out.push('t');
    } else if u == 0x08 {
        out.push('\\');
        out.push('b');
    } else if u == 0x0c {
        out.push('\\');
        out.push('f');
    } else if u < 0x20 {
        out.push('\\');
        out.push('u');
        out.push('0');
        out.push('0');
        out.push(hex(u / 16));
        out.push(hex(u % 16));
    } else {
        out.push(c);
    }
    assert(final(out)@ =~= old(out)@ + escape_char(c));
}

/// The text of a JSON string literal holding `s`.
pub fn json_quote(s: &str) -> (q: String)
    ensures
        q@ == json_string(s@),
{
    let cs = chars_of(s);
    let mut out: Vec<char> = Vec::new();
    out.push('"');
    let mut i: usize = 0;
    while i < cs.len()
        invariant
            i <= cs@.len(),
            out@ == seq!['"'] + json_escape(cs@.take(i as int)),
        decreases cs@.len() - i,
    {
        let ghost before = out@;
        push_escaped(cs[i], &mut out);
        assert(cs@.take(i + 1).drop_last() =~= cs@.take(i as int));
        i = i + 1;
        assert(out@ =~= seq!['"'] + json_escape(cs@.take(i as int)));
    }
    assert(cs@.take(i as int) =~= cs@);
    out.push('"');
    assert(out@ =~= json_string(s@));
    to_text(out.as_slice())
}

/// The JSON object for an error:
/// `{"line":L,"column":C,"message":"..."}`.
pub open spec fn error_json(line: nat, column: nat, message: Seq<char>) -> Seq<char> {
    "{\"line\":"@ + decimal(line) + ",\"column\":"@ + decimal(column) + ",\"message\":"@
        + json_string(message) + "}"@
}

/// The error's place and message as one line of text:
/// `line L, column C: message`.
pub open spec fn error_text(line: nat, column: nat, message: Seq<char>) -> Seq<char> {
    "line "@ + decimal(line) + ", column "@ + decimal(column) + ": "@ + message
}

impl ParseError {
    /// The error as a JSON object, the form the `--json` output uses.
    pub fn to_json(&self) -> (j: String)
        ensures
            j@ == error_json(self.line as nat, self.column as nat, self.message@),
    {
        let mut j = String::from_str("{\"line\":");
        let l = decimal_string(self.line);
        j.append(l.as_str());
        j.append(",\"column\":");
        let c = decimal_string(self.column);
        j.append(c.as_str());
        j.append(",\"message\":");
        let m = json_quote(self.message.as_str());
        j.append(m.as_str());
        j.append("}");
        j
    }

    /// The error as text: `line L, column C: message`.
    pub fn describe(&self) -> (t: String)
        ensures
            t@ == error_text(self.line as nat, self.column as nat, self.message@),
    {
        let mut t = String::from_str("line ");
        let l = decimal_string(self.line);
        t.append(l.as_str());
        t.append(", column ");
        let c = decimal_string(self.column);
        t.append(c.as_str());
        t.append(": ");
        t.append(self.message.as_str());
        t
    }
}

} // verus!
