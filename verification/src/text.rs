//! Character-level scanning: whitespace, tokens, literal matching and
//! decimal rendering, all over sequences of `char`.
use vstd::prelude::*;
use vstd::slice::slice_subrange;

verus! {

/// The Unicode `White_Space` property, which is what `char::is_whitespace`
/// (and so `str::trim`) tests for.
pub open spec fn is_ws(c: char) -> bool {
    let u = c as u32;
    ||| u == 0x20
    ||| (0x09 <= u && u <= 0x0d)
    ||| u == 0x85
    ||| u == 0xa0
    ||| u == 0x1680
    ||| (0x2000 <= u && u <= 0x200a)
    ||| u == 0x2028
    ||| u == 0x2029
    ||| u == 0x202f
    ||| u == 0x205f
    ||| u == 0x3000
}

/// Executable form of [`is_ws`].
pub fn is_whitespace(c: char) -> (b: bool)
    ensures
        b == is_ws(c),
{
    let u = c as u32;
    u == 0x20 || (0x09 <= u && u <= 0x0d) || u == 0x85 || u == 0xa0 || u == 0x1680 || (0x2000
        <= u && u <= 0x200a) || u == 0x2028 || u == 0x2029 || u == 0x202f || u == 0x205f || u
        == 0x3000
}

/// Index of the first non-whitespace character at or after `i`, or the
/// length of `s` when there is none.
pub open spec fn non_ws_from(s: Seq<char>, i: int) -> int
    decreases s.len() - i,
{
    if i >= s.len() {
        s.len() as int
    } else if !is_ws(s[i]) {
        i
    } else {
        non_ws_from(s, i + 1)
    }
}

/// Index of the first whitespace character at or after `i`, or the length
/// of `s` when there is none.
pub open spec fn ws_from(s: Seq<char>, i: int) -> int
    decreases s.len() - i,
{
    if i >= s.len() {
        s.len() as int
    } else if is_ws(s[i]) {
        i
    } else {
        ws_from(s, i + 1)
    }
}

/// Length of `s.take(j)` once its trailing whitespace is dropped.
pub open spec fn trim_end_len(s: Seq<char>, j: int) -> int
    decreases j,
{
    if j <= 0 {
        0
    } else if !is_ws(s[j - 1]) {
        j
    } else {
        trim_end_len(s, j - 1)
    }
}

/// Number of leading whitespace characters.
pub open spec fn lead_ws(s: Seq<char>) -> int {
    non_ws_from(s, 0)
}

/// A line made only of whitespace (or nothing at all).
pub open spec fn is_blank(s: Seq<char>) -> bool {
    lead_ws(s) == s.len()
}

/// `trim` as std defines it: the text without leading and trailing
/// whitespace.
pub open spec fn trimmed(s: Seq<char>) -> Seq<char> {
    if is_blank(s) {
        Seq::empty()
    } else {
        s.subrange(lead_ws(s), trim_end_len(s, s.len() as int))
    }
}

/// `s` holds `lit` starting at index `at`.
pub open spec fn has_at(s: Seq<char>, at: int, lit: Seq<char>) -> bool {
    0 <= at && at + lit.len() <= s.len() && s.subrange(at, at + lit.len()) == lit
}

/// Everything skipped is whitespace, and the scan stops at a non-space.
pub proof fn lemma_non_ws_from(s: Seq<char>, i: int)
    requires
        0 <= i <= s.len(),
    ensures
        i <= non_ws_from(s, i) <= s.len(),
        forall|k: int| i <= k < non_ws_from(s, i) ==> is_ws(#[trigger] s[k]),
        non_ws_from(s, i) < s.len() ==> !is_ws(s[non_ws_from(s, i)]),
    decreases s.len() - i,
{
    if i < s.len() && is_ws(s[i]) {
        lemma_non_ws_from(s, i + 1);
    }
}

/// Everything skipped is non-whitespace, and the scan stops at a space.
pub proof fn lemma_ws_from(s: Seq<char>, i: int)
    requires
        0 <= i <= s.len(),
    ensures
        i <= ws_from(s, i) <= s.len(),
        forall|k: int| i <= k < ws_from(s, i) ==> !is_ws(#[trigger] s[k]),
        ws_from(s, i) < s.len() ==> is_ws(s[ws_from(s, i)]),
    decreases s.len() - i,
{
    if i < s.len() && !is_ws(s[i]) {
        lemma_ws_from(s, i + 1);
    }
}

/// Everything trimmed from the end is whitespace, and what is kept ends
/// with a non-space.
pub proof fn lemma_trim_end_len(s: Seq<char>, j: int)
    requires
        0 <= j <= s.len(),
    ensures
        0 <= trim_end_len(s, j) <= j,
        forall|k: int| trim_end_len(s, j) <= k < j ==> is_ws(#[trigger] s[k]),
        trim_end_len(s, j) > 0 ==> !is_ws(s[trim_end_len(s, j) - 1]),
    decreases j,
{
    if j > 0 && is_ws(s[j - 1]) {
        lemma_trim_end_len(s, j - 1);
    }
}

/// Index of the first non-whitespace character of `s` at or after `from`.
pub fn skip_ws_from(s: &[char], from: usize) -> (r: usize)
    requires
        from <= s@.len(),
    ensures
        r == non_ws_from(s@, from as int),
{
    let mut i = from;
    while i < s.len() && is_whitespace(s[i])
        invariant
            from <= i <= s@.len(),
            non_ws_from(s@, i as int) == non_ws_from(s@, from as int),
        decreases s@.len() - i,
    {
        i = i + 1;
    }
    i
}

/// Index of the first whitespace character of `s` at or after `from`.
pub fn find_ws_from(s: &[char], from: usize) -> (r: usize)
    requires
        from <= s@.len(),
    ensures
        r == ws_from(s@, from as int),
{
    let mut i = from;
    while i < s.len() && !is_whitespace(s[i])
        invariant
            from <= i <= s@.len(),
            ws_from(s@, i as int) == ws_from(s@, from as int),
        decreases s@.len() - i,
    {
        i = i + 1;
    }
    i
}

/// Number of leading whitespace characters of `s`: the index at which
/// `s` trimmed at the start begins.
pub fn lead_ws_len(s: &[char]) -> (r: usize)
    ensures
        r == lead_ws(s@),
{
    skip_ws_from(s, 0)
}

/// Length of `s` without its trailing whitespace.
pub fn trimmed_end(s: &[char]) -> (r: usize)
    ensures
        r == trim_end_len(s@, s@.len() as int),
{
    let mut j = s.len();
    while j > 0 && is_whitespace(s[j - 1])
        invariant
            j <= s@.len(),
            trim_end_len(s@, j as int) == trim_end_len(s@, s@.len() as int),
        decreases j,
    {
        j = j - 1;
    }
    j
}

/// Start and end of the next whitespace-delimited token at or after `from`.
pub open spec fn spec_next_token(s: Seq<char>, from: int) -> Option<(int, int)> {
    let a = non_ws_from(s, from);
    if a >= s.len() {
        None
    } else {
        Some((a, ws_from(s, a)))
    }
}

/// Start and end of the next whitespace-delimited token in `s` at or after
/// `from`, if any remain.
pub fn next_token_range(s: &[char], from: usize) -> (r: Option<(usize, usize)>)
    requires
        from <= s@.len(),
    ensures
        match r {
            None => spec_next_token(s@, from as int) is None,
            Some((a, b)) => spec_next_token(s@, from as int) == Some((a as int, b as int)),
        },
{
    let start = skip_ws_from(s, from);
    if start >= s.len() {
        return None;
    }
    let end = find_ws_from(s, start);
    Some((start, end))
}

/// A token is a non-empty run of non-whitespace preceded only by
/// whitespace since `from`.
pub proof fn lemma_next_token(s: Seq<char>, from: int)
    requires
        0 <= from <= s.len(),
    ensures
        spec_next_token(s, from) matches Some((a, b)) ==> from <= a < b <= s.len() && (forall|
            k: int,
        | a <= k < b ==> !is_ws(#[trigger] s[k])) && (b < s.len() ==> is_ws(s[b])) && (forall|
            k: int,
        | from <= k < a ==> is_ws(#[trigger] s[k])),
        spec_next_token(s, from) is None ==> forall|k: int|
            from <= k < s.len() ==> is_ws(#[trigger] s[k]),
{
    lemma_non_ws_from(s, from);
    let a = non_ws_from(s, from);
    if a < s.len() {
        lemma_ws_from(s, a);
        lemma_ws_from(s, a + 1);
    }
}

/// Text of the token range `r` of `s`.
pub open spec fn token_text(s: Seq<char>, r: (int, int)) -> Seq<char> {
    s.subrange(r.0, r.1)
}

/// All whitespace-delimited tokens of `s` at or after `from`, in order.
pub open spec fn tokens_from(s: Seq<char>, from: int) -> Seq<(int, int)>
    decreases s.len() - from,
{
    if 0 <= from <= s.len() {
        match spec_next_token(s, from) {
            None => Seq::empty(),
            Some((a, b)) => {
                proof {
                    lemma_next_token(s, from);
                }
                seq![(a, b)] + tokens_from(s, b)
            },
        }
    } else {
        Seq::empty()
    }
}

/// All whitespace-delimited tokens of `s`, in order.
pub open spec fn tokens(s: Seq<char>) -> Seq<(int, int)> {
    tokens_from(s, 0)
}

/// The exec token list `v` names the same ranges as the spec list `t`.
pub open spec fn same_ranges(v: Seq<(usize, usize)>, t: Seq<(int, int)>) -> bool {
    v.len() == t.len() && forall|i: int|
        0 <= i < v.len() ==> (#[trigger] v[i]).0 == t[i].0 && v[i].1 == t[i].1
}

/// The first `limit` tokens of `s` (all of them when there are fewer).
pub fn collect_tokens(s: &[char], limit: usize) -> (v: Vec<(usize, usize)>)
    ensures
        same_ranges(
            v@,
            tokens(s@).take(
                if limit as int <= tokens(s@).len() {
                    limit as int
                } else {
                    tokens(s@).len() as int
                },
            ),
        ),
{
    let mut v: Vec<(usize, usize)> = Vec::new();
    let mut offset: usize = 0;
    while v.len() < limit
        invariant
            offset <= s@.len(),
            v@.len() <= limit,
            v@.len() <= tokens(s@).len(),
            tokens(s@) == tokens(s@).take(v@.len() as int) + tokens_from(s@, offset as int),
            same_ranges(v@, tokens(s@).take(v@.len() as int)),
        ensures
            v@.len() <= limit,
            v@.len() <= tokens(s@).len(),
            same_ranges(v@, tokens(s@).take(v@.len() as int)),
            v@.len() == limit || v@.len() == tokens(s@).len(),
        decreases s@.len() - offset, limit - v@.len(),
    {
        match next_token_range(s, offset) {
            None => {
                assert(tokens(s@) =~= tokens(s@).take(v@.len() as int));
                break ;
            },
            Some((a, b)) => {
                proof {
                    lemma_next_token(s@, offset as int);
                    let t = tokens(s@);
                    let k = v@.len() as int;
                    assert(tokens_from(s@, offset as int) == seq![(a as int, b as int)]
                        + tokens_from(s@, b as int));
                    assert(t[k] == (a as int, b as int));
                    assert(t.take(k + 1) =~= t.take(k).push((a as int, b as int)));
                    assert(t =~= t.take(k + 1) + tokens_from(s@, b as int));
                }
                v.push((a, b));
                offset = b;
            },
        }
    }
    v
}

/// The characters of `s`, in order.
pub fn chars_of(s: &str) -> (v: Vec<char>)
    ensures
        v@ == s@,
{
    let mut v: Vec<char> = Vec::new();
    for c in it: s.chars()
        invariant
            v@ == it.seq().take(it.index() as int),
            it.seq() == s@,
    {
        v.push(c);
    }
    v
}

/// `s` holds `lit` starting at `at`.
pub fn matches_at(s: &[char], at: usize, lit: &str) -> (b: bool)
    requires
        at <= s@.len(),
    ensures
        b == has_at(s@, at as int, lit@),
{
    let n = lit.unicode_len();
    if n > s.len() - at {
        return false;
    }
    let mut k: usize = 0;
    while k < n
        invariant
            n == lit@.len(),
            at + n <= s.len(),
            k <= n,
            forall|i: int| 0 <= i < k ==> s@[at + i] == lit@[i],
        decreases n - k,
    {
        if s[at + k] != lit.get_char(k) {
            assert(s@.subrange(at as int, at + n)[k as int] != lit@[k as int]);
            return false;
        }
        k = k + 1;
    }
    assert(s@.subrange(at as int, at + n) =~= lit@);
    true
}

/// `s[a..b]` is exactly `lit`.
pub fn range_is(s: &[char], a: usize, b: usize, lit: &str) -> (r: bool)
    requires
        a <= b <= s@.len(),
    ensures
        r == (s@.subrange(a as int, b as int) == lit@),
{
    let n = lit.unicode_len();
    if b - a != n {
        return false;
    }
    let m = matches_at(s, a, lit);
    m
}

/// The text of the characters `s[a..b]`.
pub fn text_of(s: &[char], a: usize, b: usize) -> (t: String)
    requires
        a <= b <= s@.len(),
    ensures
        t@ == s@.subrange(a as int, b as int),
{
    string_from_chars(slice_subrange(s, a, b))
}

/// The characters of `s` as a `String`.
pub fn to_text(s: &[char]) -> (t: String)
    ensures
        t@ == s@,
{
    string_from_chars(s)
}

/// Builds a `String` with std's `<String as FromIterator<&char>>::from_iter`;
/// the claim is that the result holds exactly the given characters, in
/// order, which is what that impl documents (it pushes each one).
#[verifier::external_body]
fn string_from_chars(chars: &[char]) -> (s: String)
    ensures
        s@ == chars@,
{
    <String as FromIterator<&char>>::from_iter(chars)
}

/// The digit character for `d < 10`.
pub open spec fn digit_char(d: int) -> char {
    if d == 0 { '0' }
    else if d == 1 { '1' }
    else if d == 2 { '2' }
    else if d == 3 { '3' }
    else if d == 4 { '4' }
    else if d == 5 { '5' }
    else if d == 6 { '6' }
    else if d == 7 { '7' }
    else if d == 8 { '8' }
    else { '9' }
}

/// Decimal rendering of `n`, without leading zeros.
pub open spec fn decimal(n: nat) -> Seq<char>
    decreases n,
{
    if n < 10 {
        seq![digit_char(n as int)]
    } else {
        decimal(n / 10) + seq![digit_char((n % 10) as int)]
    }
}

/// The digit character for `d < 10`.
pub fn digit(d: usize) -> (c: char)
    requires
        d < 10,
    ensures
        c == digit_char(d as int),
{
    if d == 0 { '0' }
    else if d == 1 { '1' }
    else if d == 2 { '2' }
    else if d == 3 { '3' }
    else if d == 4 { '4' }
    else if d == 5 { '5' }
    else if d == 6 { '6' }
    else if d == 7 { '7' }
    else if d == 8 { '8' }
    else { '9' }
}

fn push_decimal(n: usize, out: &mut Vec<char>)
    ensures
        final(out)@ == old(out)@ + decimal(n as nat),
    decreases n,
{
    if n < 10 {
        out.push(digit(n));
    } else {
        push_decimal(n / 10, out);
        out.push(digit(n % 10));
    }
    assert(final(out)@ =~= old(out)@ + decimal(n as nat));
}

/// Decimal text of `n`.
pub fn decimal_string(n: usize) -> (s: String)
    ensures
        s@ == decimal(n as nat),
{
    let mut v: Vec<char> = Vec::new();
    push_decimal(n, &mut v);
    assert(v@ =~= decimal(n as nat));
    string_from_chars(v.as_slice())
}

/// Every token of `s` is a non-empty range inside `s`.
pub proof fn lemma_token_bounds(s: Seq<char>, j: int)
    requires
        0 <= j < tokens(s).len(),
    ensures
        0 <= tokens(s)[j].0 < tokens(s)[j].1 <= s.len(),
{
    lemma_tokens_from_bounds(s, 0);
}

/// Every token found from `from` is a non-empty range after `from`.
pub proof fn lemma_tokens_from_bounds(s: Seq<char>, from: int)
    requires
        0 <= from <= s.len(),
    ensures
        forall|j: int|
            0 <= j < tokens_from(s, from).len() ==> from <= (#[trigger] tokens_from(s, from)[j]).0
                < tokens_from(s, from)[j].1 <= s.len(),
    decreases s.len() - from,
{
    lemma_next_token(s, from);
    match spec_next_token(s, from) {
        None => {},
        Some((a, b)) => {
            lemma_tokens_from_bounds(s, b);
            let t = tokens_from(s, from);
            assert(t == seq![(a, b)] + tokens_from(s, b));
            assert forall|j: int| 0 <= j < t.len() implies from <= (#[trigger] t[j]).0 < t[j].1
                <= s.len() by {
                if j > 0 {
                    assert(t[j] == tokens_from(s, b)[j - 1]);
                }
            }
        },
    }
}

/// `s` without its leading and trailing whitespace.
pub fn trimmed_text(s: &[char]) -> (r: &[char])
    ensures
        r@ == trimmed(s@),
        lead_ws(s@) + r@.len() <= s@.len(),
{
    proof {
        lemma_non_ws_from(s@, 0);
        lemma_trim_end_len(s@, s@.len() as int);
    }
    let a = lead_ws_len(s);
    if a == s.len() {
        return slice_subrange(s, 0, 0);
    }
    let b = trimmed_end(s);
    proof {
        lemma_non_ws_from(s@, 0);
        lemma_trim_end_len(s@, s@.len() as int);
        if b <= a {
            assert(!is_ws(s@[a as int]));
        }
    }
    slice_subrange(s, a, b)
}

/// The trimmed text fits after the leading whitespace.
pub proof fn lemma_trimmed_len(s: Seq<char>)
    ensures
        lead_ws(s) + trimmed(s).len() <= s.len(),
        0 <= lead_ws(s) <= s.len(),
{
    lemma_non_ws_from(s, 0);
    lemma_trim_end_len(s, s.len() as int);
    if !is_blank(s) {
        let te = crate::text::trim_end_len(s, s.len() as int);
        if te <= lead_ws(s) {
            assert(crate::text::is_ws(s[lead_ws(s)]));
        }
    }
}

} // verus!
