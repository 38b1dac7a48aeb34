//! The numeric grammars that std's `FromStr` implementations accept for
//! `f64`, `i32` and `usize`, as predicates on text and executable tests over
//! `char` slices.
use vstd::prelude::*;
use vstd::slice::slice_subrange;
use crate::text::{decimal, digit_char};

verus! {

/// An ASCII decimal digit.
pub open spec fn is_digit(c: char) -> bool {
    0x30 <= (c as u32) && (c as u32) <= 0x39
}

/// Every character of `s` is an ASCII decimal digit.
pub open spec fn all_digits(s: Seq<char>) -> bool {
    forall|i: int| 0 <= i < s.len() ==> is_digit(#[trigger] s[i])
}

/// `c` is `l`, or the ASCII upper-case form of the lower-case letter `l`.
pub open spec fn ci_char(c: char, l: char) -> bool {
    c == l || (0x41 <= (c as u32) && (c as u32) <= 0x5a && (c as u32) + 32 == (l as u32))
}

/// `s` equals the lower-case text `lit` up to ASCII case.
pub open spec fn ci_eq(s: Seq<char>, lit: Seq<char>) -> bool {
    s.len() == lit.len() && forall|i: int| 0 <= i < s.len() ==> ci_char(#[trigger] s[i], lit[i])
}

/// `s` without one leading `+` or `-`.
pub open spec fn unsigned_part(s: Seq<char>) -> Seq<char> {
    if s.len() > 0 && (s[0] == '+' || s[0] == '-') {
        s.drop_first()
    } else {
        s
    }
}

/// First index at or after `i` holding `a` or `b`, or the length of `s`.
pub open spec fn index_of_from(s: Seq<char>, i: int, a: char, b: char) -> int
    decreases s.len() - i,
{
    if i >= s.len() {
        s.len() as int
    } else if s[i] == a || s[i] == b {
        i
    } else {
        index_of_from(s, i + 1, a, b)
    }
}

/// `Digit+ | Digit+ '.' Digit* | Digit* '.' Digit+`
pub open spec fn is_mantissa(m: Seq<char>) -> bool {
    let p = index_of_from(m, 0, '.', '.');
    if p == m.len() {
        m.len() > 0 && all_digits(m)
    } else {
        all_digits(m.take(p)) && all_digits(m.skip(p + 1)) && m.len() >= 2
    }
}

/// `Sign? Digit+`
pub open spec fn is_exponent(x: Seq<char>) -> bool {
    let d = unsigned_part(x);
    d.len() > 0 && all_digits(d)
}

/// `Mantissa Exp?` where `Exp ::= ('e' | 'E') Sign? Digit+`
pub open spec fn is_decimal(s: Seq<char>) -> bool {
    let e = index_of_from(s, 0, 'e', 'E');
    is_mantissa(s.take(e)) && (e == s.len() || is_exponent(s.skip(e + 1)))
}

/// The text that `f64::from_str` accepts, as its documentation gives it:
/// `Sign? ('inf' | 'infinity' | 'nan' | Number)`, letters in any ASCII case.
pub open spec fn is_float_literal(s: Seq<char>) -> bool {
    let t = unsigned_part(s);
    ci_eq(t, "inf"@) || ci_eq(t, "infinity"@) || ci_eq(t, "nan"@) || is_decimal(t)
}

/// Value of a run of decimal digits.
pub open spec fn digits_value(s: Seq<char>) -> int
    decreases s.len(),
{
    if s.len() == 0 {
        0
    } else {
        digits_value(s.drop_last()) * 10 + ((s.last() as u32) - 0x30)
    }
}

/// The integer that `Sign? Digit+` denotes, if `s` has that form.
pub open spec fn integer_value(s: Seq<char>) -> Option<int> {
    let d = unsigned_part(s);
    if d.len() > 0 && all_digits(d) {
        if s[0] == '-' {
            Some(-digits_value(d))
        } else {
            Some(digits_value(d))
        }
    } else {
        None
    }
}

/// What `i32::from_str` returns on success.
pub open spec fn spec_parse_i32(s: Seq<char>) -> Option<i32> {
    match integer_value(s) {
        Some(v) => if i32::MIN <= v <= i32::MAX {
            Some(v as i32)
        } else {
            None
        },
        None => None,
    }
}

/// What `usize::from_str` returns on success: no `-` sign is accepted.
pub open spec fn spec_parse_usize(s: Seq<char>) -> Option<usize> {
    if s.len() > 0 && s[0] == '-' {
        None
    } else {
        match integer_value(s) {
            Some(v) => if v <= usize::MAX {
                Some(v as usize)
            } else {
                None
            },
            None => None,
        }
    }
}

proof fn lemma_digit_char(d: int)
    requires
        0 <= d < 10,
    ensures
        digit_char(d) as u32 == d + 0x30,
{
}

/// The counts that error messages quote read back as those counts: their
/// decimal text is digits only, and its value is the count.
pub proof fn decimal_reads_back(n: nat)
    ensures
        decimal(n).len() > 0,
        all_digits(decimal(n)),
        digits_value(decimal(n)) == n,
    decreases n,
{
    if n >= 10 {
        decimal_reads_back(n / 10);
        let d = decimal(n);
        let p = decimal(n / 10);
        assert(d.drop_last() =~= p);
        assert(d.last() == digit_char((n % 10) as int));
        assert forall|i: int| 0 <= i < d.len() implies is_digit(#[trigger] d[i]) by {
            if i < p.len() {
                assert(d[i] == p[i]);
            }
        }
        lemma_digit_char((n % 10) as int);
        assert(digits_value(d) == digits_value(p) * 10 + ((d.last() as u32) - 0x30));
        assert((n / 10) * 10 + n % 10 == n);
    } else {
        lemma_digit_char(n as int);
        let d = decimal(n);
        assert(d.drop_last() =~= Seq::<char>::empty());
        assert(digits_value(d.drop_last()) == 0);
        assert(d.last() as u32 == n + 0x30);
        assert(digits_value(d) == digits_value(d.drop_last()) * 10 + ((d.last() as u32) - 0x30));
    }
}

/// A run of digits has a value of at least zero.
pub proof fn lemma_digits_value_nonneg(s: Seq<char>)
    requires
        all_digits(s),
    ensures
        digits_value(s) >= 0,
    decreases s.len(),
{
    if s.len() > 0 {
        lemma_digits_value_nonneg(s.drop_last());
    }
}

/// A prefix of a digit run has at most the value of the whole run.
pub proof fn lemma_digits_value_prefix(s: Seq<char>, k: int)
    requires
        all_digits(s),
        0 <= k <= s.len(),
    ensures
        digits_value(s.take(k)) <= digits_value(s),
    decreases s.len(),
{
    if k < s.len() {
        assert(s.drop_last().take(k) =~= s.take(k));
        lemma_digits_value_prefix(s.drop_last(), k);
        lemma_digits_value_nonneg(s.drop_last());
    } else {
        assert(s.take(k) =~= s);
    }
}

proof fn lemma_digits_value_step(s: Seq<char>, k: int)
    requires
        0 <= k < s.len(),
    ensures
        digits_value(s.take(k + 1)) == digits_value(s.take(k)) * 10 + ((s[k] as u32) - 0x30),
{
    assert(s.take(k + 1).drop_last() =~= s.take(k));
}

fn is_digit_char(c: char) -> (b: bool)
    ensures
        b == is_digit(c),
{
    let u = c as u32;
    0x30 <= u && u <= 0x39
}

/// Every character of `s` is a decimal digit.
pub fn digits_only(s: &[char]) -> (b: bool)
    ensures
        b == all_digits(s@),
{
    let mut i: usize = 0;
    while i < s.len()
        invariant
            i <= s@.len(),
            all_digits(s@.take(i as int)),
        decreases s@.len() - i,
    {
        if !is_digit_char(s[i]) {
            return false;
        }
        i = i + 1;
        assert(all_digits(s@.take(i as int))) by {
            assert forall|j: int| 0 <= j < i implies is_digit(#[trigger] s@.take(i as int)[j]) by {
                if j < i - 1 {
                    assert(s@.take(i as int)[j] == s@.take(i - 1)[j]);
                }
            }
        }
    }
    assert(s@.take(i as int) =~= s@);
    true
}

/// `s` equals the lower-case text `lit` up to ASCII case.
pub fn ci_equals(s: &[char], lit: &str) -> (b: bool)
    ensures
        b == ci_eq(s@, lit@),
{
    let n = lit.unicode_len();
    if n != s.len() {
        return false;
    }
    let mut i: usize = 0;
    while i < n
        invariant
            n == s@.len(),
            n == lit@.len(),
            i <= n,
            forall|j: int| 0 <= j < i ==> ci_char(#[trigger] s@[j], lit@[j]),
        decreases n - i,
    {
        let c = s[i];
        let l = lit.get_char(i);
        let u = c as u32;
        if !(c == l || (0x41 <= u && u <= 0x5a && u + 32 == l as u32)) {
            return false;
        }
        i = i + 1;
    }
    true
}

/// Start of the unsigned part of `s`: 1 when `s` opens with a sign.
fn sign_len(s: &[char]) -> (k: usize)
    ensures
        k <= s@.len(),
        s@.skip(k as int) == unsigned_part(s@),
{
    if s.len() > 0 && (s[0] == '+' || s[0] == '-') {
        1
    } else {
        assert(s@.skip(0) =~= s@);
        0
    }
}

/// First index of `s` at or after `from` holding `a` or `b`, or its length.
pub fn find_char_from(s: &[char], from: usize, a: char, b: char) -> (r: usize)
    requires
        from <= s@.len(),
    ensures
        r == index_of_from(s@, from as int, a, b),
        from <= r <= s@.len(),
{
    proof {
        lemma_index_of_from(s@, from as int, a, b);
    }
    let mut i: usize = from;
    while i < s.len() && s[i] != a && s[i] != b
        invariant
            from <= i <= s@.len(),
            index_of_from(s@, i as int, a, b) == index_of_from(s@, from as int, a, b),
        decreases s@.len() - i,
    {
        i = i + 1;
    }
    i
}

fn index_of(s: &[char], a: char, b: char) -> (r: usize)
    ensures
        r == index_of_from(s@, 0, a, b),
        r <= s@.len(),
{
    let mut i: usize = 0;
    while i < s.len() && s[i] != a && s[i] != b
        invariant
            i <= s@.len(),
            index_of_from(s@, i as int, a, b) == index_of_from(s@, 0, a, b),
        decreases s@.len() - i,
    {
        i = i + 1;
    }
    i
}

/// The search from `i` ends between `i` and the end of `s`.
pub proof fn lemma_index_of_from(s: Seq<char>, i: int, a: char, b: char)
    requires
        0 <= i <= s.len(),
    ensures
        i <= index_of_from(s, i, a, b) <= s.len(),
    decreases s.len() - i,
{
    if i < s.len() && s[i] != a && s[i] != b {
        lemma_index_of_from(s, i + 1, a, b);
    }
}

fn mantissa_ok(m: &[char]) -> (b: bool)
    ensures
        b == is_mantissa(m@),
{
    let p = index_of(m, '.', '.');
    if p == m.len() {
        m.len() > 0 && digits_only(m)
    } else {
        let int_part = slice_subrange(m, 0, p);
        let frac_part = slice_subrange(m, p + 1, m.len());
        assert(int_part@ =~= m@.take(p as int));
        assert(frac_part@ =~= m@.skip(p + 1));
        digits_only(int_part) && digits_only(frac_part) && m.len() >= 2
    }
}

fn exponent_ok(x: &[char]) -> (b: bool)
    ensures
        b == is_exponent(x@),
{
    let k = sign_len(x);
    let d = slice_subrange(x, k, x.len());
    assert(d@ =~= x@.skip(k as int));
    d.len() > 0 && digits_only(d)
}

fn decimal_ok(s: &[char]) -> (b: bool)
    ensures
        b == is_decimal(s@),
{
    let e = index_of(s, 'e', 'E');
    let m = slice_subrange(s, 0, e);
    assert(m@ =~= s@.take(e as int));
    if !mantissa_ok(m) {
        return false;
    }
    if e == s.len() {
        return true;
    }
    let x = slice_subrange(s, e + 1, s.len());
    assert(x@ =~= s@.skip(e + 1));
    exponent_ok(x)
}

/// The text is one that `f64::from_str` accepts.
pub fn float_literal_ok(s: &[char]) -> (b: bool)
    ensures
        b == is_float_literal(s@),
{
    let k = sign_len(s);
    let t = slice_subrange(s, k, s.len());
    assert(t@ =~= s@.skip(k as int));
    ci_equals(t, "inf") || ci_equals(t, "infinity") || ci_equals(t, "nan") || decimal_ok(t)
}

/// Value of the digit run `d`, when it is at most `bound`.
fn bounded_digits_value(d: &[char], bound: u64) -> (r: Option<u64>)
    requires
        bound <= u64::MAX / 16,
    ensures
        match r {
            Some(v) => all_digits(d@) && v == digits_value(d@) && v <= bound,
            None => !all_digits(d@) || digits_value(d@) > bound,
        },
{
    let mut v: u64 = 0;
    let mut i: usize = 0;
    while i < d.len()
        invariant
            i <= d@.len(),
            bound <= u64::MAX / 16,
            all_digits(d@.take(i as int)),
            v == digits_value(d@.take(i as int)),
            v <= bound,
        decreases d@.len() - i,
    {
        let c = d[i];
        if !is_digit_char(c) {
            assert(!is_digit(d@[i as int]));
            return None;
        }
        proof {
            lemma_digits_value_step(d@, i as int);
        }
        v = v * 10 + ((c as u32) - 0x30) as u64;
        i = i + 1;
        assert(all_digits(d@.take(i as int))) by {
            assert forall|j: int| 0 <= j < i implies is_digit(#[trigger] d@.take(i as int)[j]) by {
                if j < i - 1 {
                    assert(d@.take(i as int)[j] == d@.take(i - 1)[j]);
                }
            }
        }
        if v > bound {
            proof {
                if all_digits(d@) {
                    lemma_digits_value_prefix(d@, i as int);
                }
            }
            return None;
        }
    }
    assert(d@.take(i as int) =~= d@);
    Some(v)
}

/// `i32::from_str`: an optional sign and at least one digit, in range.
pub fn parse_i32(s: &[char]) -> (r: Option<i32>)
    ensures
        r == spec_parse_i32(s@),
{
    let k = sign_len(s);
    let d = slice_subrange(s, k, s.len());
    assert(d@ =~= s@.skip(k as int));
    if d.len() == 0 {
        return None;
    }
    match bounded_digits_value(d, 0x8000_0000) {
        None => None,
        Some(v) => {
            if s[0] == '-' {
                Some((0 - (v as i64)) as i32)
            } else if v <= 0x7fff_ffff {
                Some(v as i32)
            } else {
                None
            }
        },
    }
}

/// `usize::from_str`: an optional `+` and at least one digit, in range.
pub fn parse_usize(s: &[char]) -> (r: Option<usize>)
    ensures
        r == spec_parse_usize(s@),
{
    if s.len() > 0 && s[0] == '-' {
        return None;
    }
    let k = sign_len(s);
    let d = slice_subrange(s, k, s.len());
    assert(d@ =~= s@.skip(k as int));
    if d.len() == 0 {
        return None;
    }
    let mut v: usize = 0;
    let mut i: usize = 0;
    while i < d.len()
        invariant
            i <= d@.len(),
            d@ == unsigned_part(s@),
            d@.len() > 0,
            !(s@.len() > 0 && s@[0] == '-'),
            all_digits(d@.take(i as int)),
            v == digits_value(d@.take(i as int)),
        decreases d@.len() - i,
    {
        let c = d[i];
        if !is_digit_char(c) {
            assert(!is_digit(d@[i as int]));
            return None;
        }
        proof {
            lemma_digits_value_step(d@, i as int);
        }
        let dv = ((c as u32) - 0x30) as usize;
        let next = match v.checked_mul(10) {
            Some(t) => t.checked_add(dv),
            None => None,
        };
        i = i + 1;
        assert(all_digits(d@.take(i as int))) by {
            assert forall|j: int| 0 <= j < i implies is_digit(#[trigger] d@.take(i as int)[j]) by {
                if j < i - 1 {
                    assert(d@.take(i as int)[j] == d@.take(i - 1)[j]);
                }
            }
        }
        match next {
            Some(t) => {
                v = t;
            },
            None => {
                proof {
                    if all_digits(d@) {
                        lemma_digits_value_prefix(d@, i as int);
                    }
                }
                return None;
            },
        }
    }
    assert(d@.take(i as int) =~= d@);
    Some(v)
}

} // verus!
