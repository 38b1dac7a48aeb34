//! Byte offsets into UTF-8 text, as `str` indexing counts them, and the
//! character positions they stand for.
use vstd::prelude::*;
use vstd::utf8::{
    char_is_scalar, encode_scalar, encode_utf8, encode_utf8_first_scalar, encode_utf8_valid_utf8,
    is_char_boundary, length_of_first_scalar, pop_first_scalar,
};
use crate::text::{chars_of, lead_ws, lead_ws_len, next_token_range, spec_next_token};

verus! {

/// Number of bytes in the UTF-8 encoding of `c`.
pub open spec fn char_bytes(c: char) -> int {
    let u = c as u32;
    if u <= 0x7f {
        1
    } else if u <= 0x7ff {
        2
    } else if u <= 0xffff {
        3
    } else {
        4
    }
}

/// Byte offset, in the UTF-8 encoding of `s`, at which the character with
/// index `k` starts (the length of the encoding when `k` is `s.len()`).
pub open spec fn byte_pos(s: Seq<char>, k: int) -> int
    decreases k,
{
    if k <= 0 {
        0
    } else {
        byte_pos(s, k - 1) + char_bytes(s[k - 1])
    }
}

/// Index of the character of `s` that starts at byte offset `b`, for an
/// offset that is a character boundary.
pub open spec fn char_index_at(s: Seq<char>, b: int) -> int {
    choose|k: int| 0 <= k <= s.len() && byte_pos(s, k) == b
}

/// The 1-based column that byte offset `b` names in `s`: an offset past the
/// end names the column just after the last character.
pub open spec fn column_at(s: Seq<char>, b: int) -> int {
    let total = byte_pos(s, s.len() as int);
    char_index_at(s, if b <= total { b } else { total }) + 1
}

/// What `next_token` finds in `s` from byte offset `b`: the byte offset at
/// which the next token starts, and its text.
pub open spec fn spec_next_token_at(s: Seq<char>, b: int) -> Option<(int, Seq<char>)> {
    match spec_next_token(s, char_index_at(s, b)) {
        None => None,
        Some((x, y)) => Some((byte_pos(s, x), s.subrange(x, y))),
    }
}

/// `char_bytes` is the length of std's encoding of the character.
pub proof fn lemma_char_bytes(c: char)
    ensures
        char_bytes(c) == encode_scalar(c as u32).len(),
        1 <= char_bytes(c) <= 4,
{
    char_is_scalar(c);
}

/// Later characters start later: each character takes at least one byte.
pub proof fn lemma_byte_pos_mono(s: Seq<char>, i: int, j: int)
    requires
        0 <= i <= j,
    ensures
        byte_pos(s, i) + (j - i) <= byte_pos(s, j),
        0 <= byte_pos(s, i),
    decreases j,
{
    if j > i {
        lemma_byte_pos_mono(s, i, j - 1);
        lemma_char_bytes(s[j - 1]);
    } else if i > 0 {
        lemma_byte_pos_mono(s, i - 1, i - 1);
        lemma_char_bytes(s[i - 1]);
    }
}

/// A character boundary names one character index only.
pub proof fn lemma_char_index_at(s: Seq<char>, k: int)
    requires
        0 <= k <= s.len(),
    ensures
        char_index_at(s, byte_pos(s, k)) == k,
{
    let b = byte_pos(s, k);
    let j = char_index_at(s, b);
    assert(0 <= j <= s.len() && byte_pos(s, j) == b);
    if j < k {
        lemma_byte_pos_mono(s, j, k);
    } else if k < j {
        lemma_byte_pos_mono(s, k, j);
    }
}

proof fn lemma_encode_push(t: Seq<char>, c: char)
    ensures
        encode_utf8(t.push(c)).len() == encode_utf8(t).len() + char_bytes(c),
    decreases t.len(),
{
    lemma_char_bytes(c);
    let tc = t.push(c);
    assert(encode_utf8(tc) == encode_scalar(tc[0] as u32) + encode_utf8(tc.drop_first()));
    if t.len() == 0 {
        assert(tc.drop_first() =~= Seq::<char>::empty());
        assert(tc[0] == c);
    } else {
        assert(encode_utf8(t) == encode_scalar(t[0] as u32) + encode_utf8(t.drop_first()));
        assert(tc.drop_first() =~= t.drop_first().push(c));
        assert(tc[0] == t[0]);
        lemma_encode_push(t.drop_first(), c);
    }
}

/// `byte_pos` counts the bytes that std's encoding gives the characters
/// before index `k`.
pub proof fn lemma_byte_pos_encode(s: Seq<char>, k: int)
    requires
        0 <= k <= s.len(),
    ensures
        byte_pos(s, k) == encode_utf8(s.take(k)).len(),
    decreases k,
{
    if k > 0 {
        lemma_byte_pos_encode(s, k - 1);
        assert(s.take(k) =~= s.take(k - 1).push(s[k - 1]));
        lemma_encode_push(s.take(k - 1), s[k - 1]);
    } else {
        assert(s.take(k) =~= Seq::<char>::empty());
    }
}

/// The length of the encoding of `s` is `byte_pos(s, s.len())`.
pub proof fn lemma_encoded_len(s: Seq<char>)
    ensures
        encode_utf8(s).len() == byte_pos(s, s.len() as int),
{
    lemma_byte_pos_encode(s, s.len() as int);
    assert(s.take(s.len() as int) =~= s);
}

proof fn lemma_byte_pos_front(s: Seq<char>, k: int)
    requires
        1 <= k <= s.len(),
    ensures
        byte_pos(s, k) == char_bytes(s[0]) + byte_pos(s.drop_first(), k - 1),
    decreases k,
{
    assert(byte_pos(s.drop_first(), 0) == 0);
    if k > 1 {
        lemma_byte_pos_front(s, k - 1);
        assert(s.drop_first()[k - 2] == s[k - 1]);
    } else {
        assert(byte_pos(s, 0) == 0);
    }
}

/// Byte positions inside a range of `s` are those of `s`, less where the
/// range starts.
pub proof fn lemma_byte_pos_sub(s: Seq<char>, a: int, e: int, j: int)
    requires
        0 <= a <= e <= s.len(),
        0 <= j <= e - a,
    ensures
        byte_pos(s, a + j) == byte_pos(s, a) + byte_pos(s.subrange(a, e), j),
    decreases j,
{
    if j > 0 {
        lemma_byte_pos_sub(s, a, e, j - 1);
    }
}

/// The bytes of the range `s[a..e]` run from `byte_pos(s, a)` to
/// `byte_pos(s, e)`.
pub proof fn lemma_range_bytes(s: Seq<char>, a: int, e: int)
    requires
        0 <= a <= e <= s.len(),
    ensures
        byte_pos(s, a) + encode_utf8(s.subrange(a, e)).len() == byte_pos(s, e),
{
    lemma_byte_pos_sub(s, a, e, e - a);
    lemma_encoded_len(s.subrange(a, e));
}

/// The character boundaries of std's encoding of `s` are exactly the byte
/// positions of its characters and of its end.
pub proof fn lemma_char_boundary(s: Seq<char>, b: int)
    ensures
        is_char_boundary(encode_utf8(s), b) <==> exists|k: int|
            0 <= k <= s.len() && byte_pos(s, k) == b,
    decreases s.len(),
{
    let bytes = encode_utf8(s);
    encode_utf8_valid_utf8(s);
    lemma_encoded_len(s);
    if b == 0 {
        assert(byte_pos(s, 0) == 0);
    } else if b < 0 || bytes.len() < b {
        assert forall|k: int| 0 <= k <= s.len() implies byte_pos(s, k) != b by {
            lemma_byte_pos_mono(s, k, s.len() as int);
            lemma_byte_pos_mono(s, 0, k);
        }
    } else {
        assert(s.len() > 0);
        encode_utf8_first_scalar(s);
        lemma_char_bytes(s[0]);
        let w = char_bytes(s[0]);
        assert(length_of_first_scalar(bytes) == w);
        assert(pop_first_scalar(bytes) =~= encode_utf8(s.drop_first()));
        lemma_char_boundary(s.drop_first(), b - w);
        if exists|k: int| 0 <= k <= s.drop_first().len() && byte_pos(s.drop_first(), k) == b - w {
            let k = choose|k: int|
                0 <= k <= s.drop_first().len() && byte_pos(s.drop_first(), k) == b - w;
            lemma_byte_pos_front(s, k + 1);
            assert(byte_pos(s, k + 1) == b);
        }
        if exists|k: int| 0 <= k <= s.len() && byte_pos(s, k) == b {
            let k = choose|k: int| 0 <= k <= s.len() && byte_pos(s, k) == b;
            assert(k >= 1);
            lemma_byte_pos_front(s, k);
            assert(byte_pos(s.drop_first(), k - 1) == b - w);
        }
    }
}

/// Bytes in the UTF-8 encoding of `c`.
pub fn char_width(c: char) -> (w: usize)
    ensures
        w == char_bytes(c),
{
    let u = c as u32;
    if u <= 0x7f {
        1
    } else if u <= 0x7ff {
        2
    } else if u <= 0xffff {
        3
    } else {
        4
    }
}

/// Byte offset at which the character with index `k` of `s` starts.
pub fn byte_offset(s: &[char], k: usize) -> (b: usize)
    requires
        k <= s@.len(),
        byte_pos(s@, s@.len() as int) <= usize::MAX,
    ensures
        b == byte_pos(s@, k as int),
{
    let mut i: usize = 0;
    let mut b: usize = 0;
    while i < k
        invariant
            i <= k <= s@.len(),
            b == byte_pos(s@, i as int),
            byte_pos(s@, s@.len() as int) <= usize::MAX,
        decreases k - i,
    {
        proof {
            lemma_byte_pos_mono(s@, i + 1, s@.len() as int);
        }
        b = b + char_width(s[i]);
        i = i + 1;
    }
    b
}

/// Index of the character of `s` that starts at byte offset `b`.
pub fn char_index(s: &[char], b: usize) -> (k: usize)
    requires
        exists|j: int| 0 <= j <= s@.len() && byte_pos(s@, j) == b,
        byte_pos(s@, s@.len() as int) <= usize::MAX,
    ensures
        k <= s@.len(),
        byte_pos(s@, k as int) == b,
        k == char_index_at(s@, b as int),
{
    let ghost j = choose|j: int| 0 <= j <= s@.len() && byte_pos(s@, j) == b;
    let mut k: usize = 0;
    let mut pos: usize = 0;
    while pos < b
        invariant
            k <= j <= s@.len(),
            0 <= j <= s@.len() && byte_pos(s@, j) == b,
            pos == byte_pos(s@, k as int),
            pos <= b,
            byte_pos(s@, s@.len() as int) <= usize::MAX,
        decreases b - pos,
    {
        proof {
            if k == j {
                assert(false);
            }
            lemma_byte_pos_mono(s@, k + 1, j);
            lemma_char_bytes(s@[k as int]);
        }
        pos = pos + char_width(s[k]);
        k = k + 1;
    }
    proof {
        lemma_char_index_at(s@, k as int);
    }
    k
}

/// Byte offset of the first non-whitespace character in `s`, or its length
/// when it is all whitespace.
pub fn skip_ws(s: &str) -> (r: usize)
    ensures
        r == byte_pos(s@, lead_ws(s@)),
{
    // The byte length of `s` fits a `usize`, and bounds every offset below.
    let _byte_len = s.as_bytes().len();
    proof {
        lemma_encoded_len(s@);
    }
    let cs = chars_of(s);
    let k = lead_ws_len(cs.as_slice());
    proof {
        crate::text::lemma_non_ws_from(s@, 0);
    }
    byte_offset(cs.as_slice(), k)
}

/// The 1-based column of the character that starts at byte `offset` of
/// `line`; an offset past the end names the column just after the last
/// character.
pub fn char_column(line: &str, offset: usize) -> (col: usize)
    requires
        line@.len() < usize::MAX,
        is_char_boundary(
            encode_utf8(line@),
            if offset <= encode_utf8(line@).len() {
                offset as int
            } else {
                encode_utf8(line@).len() as int
            },
        ),
    ensures
        col == column_at(line@, offset as int),
{
    let n = line.as_bytes().len();
    proof {
        lemma_encoded_len(line@);
    }
    let m = if offset <= n {
        offset
    } else {
        n
    };
    proof {
        lemma_char_boundary(line@, m as int);
    }
    let cs = chars_of(line);
    let k = char_index(cs.as_slice(), m);
    k + 1
}

/// Byte offset and text of the next whitespace-delimited token in `s`
/// starting at or after byte `from`, if any remain.
pub fn next_token(s: &str, from: usize) -> (r: Option<(usize, &str)>)
    requires
        is_char_boundary(encode_utf8(s@), from as int),
    ensures
        match r {
            None => spec_next_token_at(s@, from as int) is None,
            Some((st, t)) => spec_next_token_at(s@, from as int) == Some((st as int, t@)),
        },
{
    // The byte length of `s` fits a `usize`, and bounds every offset below.
    let _byte_len = s.as_bytes().len();
    proof {
        lemma_encoded_len(s@);
        lemma_char_boundary(s@, from as int);
    }
    let cs = chars_of(s);
    let k = char_index(cs.as_slice(), from);
    match next_token_range(cs.as_slice(), k) {
        None => None,
        Some((a, e)) => {
            proof {
                crate::text::lemma_next_token(s@, k as int);
            }
            let st = byte_offset(cs.as_slice(), a);
            let t = s.substring_char(a, e);
            Some((st, t))
        },
    }
}

} // verus!
