//! Reading whitespace-delimited text: splitting a byte string into tokens,
//! reading a token as an unsigned number, and taking a prefix of whole
//! lines. These are the primitives the board load format is parsed with.

use vstd::prelude::*;

verus! {

/// ASCII whitespace, the token separators of the load format.
pub open spec fn is_ws_byte(b: u8) -> bool {
    b == 32 || b == 9 || b == 10 || b == 11 || b == 12 || b == 13
}

/// Position of the first non-whitespace byte at or after `i`, or the end.
pub open spec fn ws_end(s: Seq<u8>, i: int) -> int
    decreases s.len() - i,
{
    if i < s.len() && is_ws_byte(s[i]) {
        ws_end(s, i + 1)
    } else {
        i
    }
}

/// Position of the first whitespace byte at or after `i`, or the end.
pub open spec fn token_end(s: Seq<u8>, i: int) -> int
    decreases s.len() - i,
{
    if i < s.len() && !is_ws_byte(s[i]) {
        token_end(s, i + 1)
    } else {
        i
    }
}

proof fn lemma_ws_end_bounds(s: Seq<u8>, i: int)
    requires
        0 <= i <= s.len(),
    ensures
        i <= ws_end(s, i) <= s.len(),
        ws_end(s, i) < s.len() ==> !is_ws_byte(s[ws_end(s, i)]),
    decreases s.len() - i,
{
    if i < s.len() && is_ws_byte(s[i]) {
        lemma_ws_end_bounds(s, i + 1);
    }
}

proof fn lemma_token_end_bounds(s: Seq<u8>, i: int)
    requires
        0 <= i <= s.len(),
    ensures
        i <= token_end(s, i) <= s.len(),
    decreases s.len() - i,
{
    if i < s.len() && !is_ws_byte(s[i]) {
        lemma_token_end_bounds(s, i + 1);
    }
}

/// The tokens of `s` from position `i` on: maximal runs of non-whitespace
/// bytes, in order.
pub open spec fn tokens_from(s: Seq<u8>, i: int) -> Seq<Seq<u8>>
    decreases s.len() - i
        when 0 <= i <= s.len()
        via tokens_from_decreases
{
    let j = ws_end(s, i);
    if j >= s.len() {
        Seq::empty()
    } else {
        seq![s.subrange(j, token_end(s, j))] + tokens_from(s, token_end(s, j))
    }
}

#[via_fn]
proof fn tokens_from_decreases(s: Seq<u8>, i: int) {
    lemma_ws_end_bounds(s, i);
    let j = ws_end(s, i);
    if j < s.len() {
        assert(token_end(s, j) == token_end(s, j + 1));
        lemma_token_end_bounds(s, j + 1);
    }
}

/// All tokens of a byte string, in order.
pub open spec fn spec_tokens(s: Seq<u8>) -> Seq<Seq<u8>> {
    tokens_from(s, 0)
}

fn is_ws(b: u8) -> (r: bool)
    ensures
        r == is_ws_byte(b),
{
    b == 32 || b == 9 || b == 10 || b == 11 || b == 12 || b == 13
}

/// Split a byte string into its whitespace-delimited tokens.
pub fn split_tokens(text: &[u8]) -> (r: Vec<Vec<u8>>)
    ensures
        r@.map_values(|t: Vec<u8>| t@) == spec_tokens(text@),
{
    let ghost s = text@;
    let mut out: Vec<Vec<u8>> = Vec::new();
    let mut i: usize = 0;
    while i < text.len()
        invariant
            s == text@,
            i <= s.len(),
            spec_tokens(s) == out@.map_values(|t: Vec<u8>| t@) + tokens_from(s, i as int),
        decreases s.len() - i,
    {
        let ghost i0 = i as int;
        while i < text.len() && is_ws(text[i])
            invariant
                s == text@,
                i0 <= i as int <= s.len(),
                ws_end(s, i as int) == ws_end(s, i0),
            decreases s.len() - i,
        {
            i = i + 1;
        }
        proof {
            assert(ws_end(s, i as int) == i as int);
        }
        if i < text.len() {
            let ghost j = i as int;
            let mut tok: Vec<u8> = Vec::new();
            while i < text.len() && !is_ws(text[i])
                invariant
                    s == text@,
                    0 <= j <= i as int <= s.len(),
                    token_end(s, i as int) == token_end(s, j),
                    tok@ == s.subrange(j, i as int),
                decreases s.len() - i,
            {
                tok.push(text[i]);
                proof {
                    assert(s.subrange(j, i + 1) =~= s.subrange(j, i as int).push(s[i as int]));
                }
                i = i + 1;
            }
            proof {
                assert(token_end(s, i as int) == i as int);
                assert(tokens_from(s, i0) == seq![s.subrange(j, i as int)] + tokens_from(
                    s,
                    i as int,
                ));
                assert((out@.push(tok)).map_values(|t: Vec<u8>| t@) =~= out@.map_values(
                    |t: Vec<u8>| t@,
                ).push(tok@));
                assert(out@.map_values(|t: Vec<u8>| t@).push(tok@) + tokens_from(s, i as int)
                    =~= out@.map_values(|t: Vec<u8>| t@) + tokens_from(s, i0));
            }
            out.push(tok);
        }
    }
    proof {
        assert(tokens_from(s, s.len() as int) =~= Seq::<Seq<u8>>::empty());
        assert(out@.map_values(|t: Vec<u8>| t@) + Seq::<Seq<u8>>::empty() =~= out@.map_values(
            |t: Vec<u8>| t@,
        ));
    }
    out
}

/// An ASCII decimal digit.
pub open spec fn is_digit_byte(b: u8) -> bool {
    48 <= b <= 57
}

/// Whether every byte of the token is a decimal digit.
pub open spec fn all_digit_bytes(t: Seq<u8>) -> bool {
    forall|i: int| 0 <= i < t.len() ==> is_digit_byte(#[trigger] t[i])
}

/// The number a run of decimal digits denotes.
pub open spec fn digits_value(t: Seq<u8>) -> int
    decreases t.len(),
{
    if t.len() == 0 {
        0
    } else {
        10 * digits_value(t.drop_last()) + (t.last() - 48)
    }
}

/// What reading a token as a `usize` yields: its numeric value when the
/// token is a nonempty run of digits whose value fits, nothing otherwise.
pub open spec fn spec_parse_usize(t: Seq<u8>) -> Option<int> {
    if t.len() > 0 && all_digit_bytes(t) && digits_value(t) <= usize::MAX as int {
        Some(digits_value(t))
    } else {
        None
    }
}

proof fn lemma_digits_value_nonneg(t: Seq<u8>)
    requires
        all_digit_bytes(t),
    ensures
        digits_value(t) >= 0,
    decreases t.len(),
{
    if t.len() > 0 {
        assert(all_digit_bytes(t.drop_last())) by {
            assert(forall|i: int|
                0 <= i < t.len() - 1 ==> #[trigger] t.drop_last()[i] == t[i]);
        }
        lemma_digits_value_nonneg(t.drop_last());
    }
}

proof fn lemma_digits_value_take_succ(t: Seq<u8>, i: int)
    requires
        0 <= i < t.len(),
    ensures
        digits_value(t.take(i + 1)) == 10 * digits_value(t.take(i)) + (t[i] - 48),
{
    assert(t.take(i + 1).drop_last() =~= t.take(i));
    assert(t.take(i + 1).last() == t[i]);
}

/// A digit run is worth at least any of its prefixes.
proof fn lemma_digits_value_prefix_le(t: Seq<u8>, i: int)
    requires
        all_digit_bytes(t),
        0 <= i <= t.len(),
    ensures
        digits_value(t.take(i)) <= digits_value(t),
    decreases t.len() - i,
{
    if i < t.len() {
        lemma_digits_value_take_succ(t, i);
        assert(all_digit_bytes(t.take(i))) by {
            assert(forall|k: int| 0 <= k < i ==> #[trigger] t.take(i)[k] == t[k]);
        }
        lemma_digits_value_nonneg(t.take(i));
        lemma_digits_value_prefix_le(t, i + 1);
    } else {
        assert(t.take(i) =~= t);
    }
}

/// Read a token as a `usize`: `None` exactly when the token is empty, holds
/// a non-digit, or denotes a number too large for `usize`.
pub fn parse_usize(t: &[u8]) -> (r: Option<usize>)
    ensures
        r matches Some(v) ==> spec_parse_usize(t@) == Some(v as int),
        r is None ==> spec_parse_usize(t@) is None,
{
    if t.len() == 0 {
        return None;
    }
    let mut acc: usize = 0;
    let mut i: usize = 0;
    while i < t.len()
        invariant
            0 < t@.len(),
            i <= t@.len(),
            forall|k: int| 0 <= k < i ==> is_digit_byte(#[trigger] t@[k]),
            acc == digits_value(t@.take(i as int)),
        decreases t@.len() - i,
    {
        let b = t[i];
        if b < 48 || b > 57 {
            return None;
        }
        let wide: u128 = (acc as u128) * 10 + ((b - 48) as u128);
        proof {
            lemma_digits_value_take_succ(t@, i as int);
        }
        if wide > usize::MAX as u128 {
            proof {
                if all_digit_bytes(t@) {
                    lemma_digits_value_prefix_le(t@, i + 1);
                }
            }
            return None;
        }
        acc = wide as usize;
        i = i + 1;
    }
    proof {
        assert(t@.take(t@.len() as int) =~= t@);
    }
    Some(acc)
}

/// Position just past the next newline at or after `i`, or the end.
pub open spec fn line_break(s: Seq<u8>, i: int) -> int
    decreases s.len() - i,
{
    if i >= s.len() {
        s.len() as int
    } else if s[i] == 10 {
        i + 1
    } else {
        line_break(s, i + 1)
    }
}

/// Position just past the `k`-th newline of `s`, or the end of `s` where
/// fewer lines exist.
pub open spec fn lines_end(s: Seq<u8>, k: int) -> int
    decreases k,
{
    if k <= 0 {
        0
    } else {
        line_break(s, lines_end(s, k - 1))
    }
}

proof fn lemma_line_break_bounds(s: Seq<u8>, i: int)
    requires
        0 <= i <= s.len(),
    ensures
        i <= line_break(s, i) <= s.len(),
    decreases s.len() - i,
{
    if i < s.len() && s[i] != 10 {
        lemma_line_break_bounds(s, i + 1);
    }
}

proof fn lemma_lines_end_bounds(s: Seq<u8>, k: int)
    requires
        k >= 0,
    ensures
        0 <= lines_end(s, k) <= s.len(),
    decreases k,
{
    if k > 0 {
        lemma_lines_end_bounds(s, k - 1);
        lemma_line_break_bounds(s, lines_end(s, k - 1));
    }
}

/// Copy the prefix of `text` holding its first `n` lines, trailing newlines
/// included; the whole text when it has fewer lines.
pub fn take_lines(text: &[u8], n: usize) -> (r: Vec<u8>)
    ensures
        r@ == text@.take(lines_end(text@, n as int)),
{
    let ghost s = text@;
    let mut out: Vec<u8> = Vec::new();
    let mut i: usize = 0;
    let mut k: usize = 0;
    proof {
        assert(lines_end(s, 0) == 0);
    }
    while k < n
        invariant
            s == text@,
            k <= n,
            i as int == lines_end(s, k as int),
            0 <= i as int <= s.len(),
            out@ == s.take(i as int),
        decreases n - k,
    {
        let ghost i0 = i as int;
        while i < text.len() && text[i] != 10
            invariant
                s == text@,
                i0 <= i as int <= s.len(),
                line_break(s, i as int) == line_break(s, i0),
                out@ == s.take(i as int),
            decreases s.len() - i,
        {
            out.push(text[i]);
            proof {
                assert(s.take(i + 1) =~= s.take(i as int).push(s[i as int]));
            }
            i = i + 1;
        }
        if i < text.len() {
            out.push(text[i]);
            proof {
                assert(s.take(i + 1) =~= s.take(i as int).push(s[i as int]));
            }
            i = i + 1;
        }
        k = k + 1;
    }
    out
}

} // verus!
