//! Byte-sequence utilities shared by the wire codec: whitespace and token
//! scanning, line splitting, single-byte splitting, and decimal rendering.
use vstd::prelude::*;

verus! {

use vstd::string::StringSliceAdditionalSpecFns;

/// The bytes Rust counts as ASCII whitespace: space, tab, newline,
/// carriage return and form feed.
pub open spec fn is_ws(b: u8) -> bool {
    b == (' ' as u8) || b == ('\t' as u8) || b == ('\n' as u8) || b == ('\r' as u8) || b == (
    '\x0c' as u8)
}

/// The two-byte line terminator of the wire format.
pub open spec fn crlf() -> Seq<u8> {
    seq![('\r' as u8), ('\n' as u8)]
}

/// Length of the first line of `s`, counting its terminating newline byte
/// when one is present.
pub open spec fn line_len(s: Seq<u8>) -> nat
    decreases s.len(),
{
    if s.len() == 0 {
        0
    } else if s[0] == ('\n' as u8) {
        1
    } else {
        (1 + line_len(s.drop_first())) as nat
    }
}

pub proof fn lemma_line_len_bounds(s: Seq<u8>)
    ensures
        line_len(s) <= s.len(),
        s.len() > 0 ==> 1 <= line_len(s),
    decreases s.len(),
{
    if s.len() > 0 && s[0] != ('\n' as u8) {
        lemma_line_len_bounds(s.drop_first());
    }
}

/// Splits `s` into lines, each keeping its terminating newline byte;
/// the final line may lack one.
pub open spec fn split_lines(s: Seq<u8>) -> Seq<Seq<u8>>
    decreases s.len(),
    via split_lines_decreases
{
    if s.len() == 0 {
        seq![]
    } else {
        seq![s.take(line_len(s) as int)] + split_lines(s.skip(line_len(s) as int))
    }
}

#[via_fn]
proof fn split_lines_decreases(s: Seq<u8>) {
    if s.len() > 0 {
        lemma_line_len_bounds(s);
    }
}

/// The longest whitespace-free prefix of `s`.
pub open spec fn take_token(s: Seq<u8>) -> Seq<u8>
    decreases s.len(),
{
    if s.len() == 0 || is_ws(s[0]) {
        Seq::empty()
    } else {
        seq![s[0]] + take_token(s.drop_first())
    }
}

/// What remains of `s` after its leading whitespace-free token.
pub open spec fn drop_token(s: Seq<u8>) -> Seq<u8>
    decreases s.len(),
{
    if s.len() == 0 || is_ws(s[0]) {
        s
    } else {
        drop_token(s.drop_first())
    }
}

/// What remains of `s` after its leading run of whitespace.
pub open spec fn skip_ws(s: Seq<u8>) -> Seq<u8>
    decreases s.len(),
{
    if s.len() > 0 && is_ws(s[0]) {
        skip_ws(s.drop_first())
    } else {
        s
    }
}

/// The prefix of `s` before the first occurrence of `b` (all of `s` when
/// `b` does not occur).
pub open spec fn until_byte(s: Seq<u8>, b: u8) -> Seq<u8>
    decreases s.len(),
{
    if s.len() == 0 || s[0] == b {
        Seq::empty()
    } else {
        seq![s[0]] + until_byte(s.drop_first(), b)
    }
}

/// The suffix of `s` after the first occurrence of `b`, or `None` when `b`
/// does not occur.
pub open spec fn after_byte(s: Seq<u8>, b: u8) -> Option<Seq<u8>>
    decreases s.len(),
{
    if s.len() == 0 {
        None
    } else if s[0] == b {
        Some(s.drop_first())
    } else {
        after_byte(s.drop_first(), b)
    }
}

/// All the lines of `xs` joined back together.
pub open spec fn concat_seqs(xs: Seq<Seq<u8>>) -> Seq<u8>
    decreases xs.len(),
{
    if xs.len() == 0 {
        Seq::empty()
    } else {
        xs[0] + concat_seqs(xs.drop_first())
    }
}

/// `s` with every (leftmost-first) occurrence of the two-byte CRLF pair
/// removed, as `str::replace` would leave it.
pub open spec fn strip_crlf(s: Seq<u8>) -> Seq<u8>
    decreases s.len(),
{
    if s.len() >= 2 && s[0] == ('\r' as u8) && s[1] == ('\n' as u8) {
        strip_crlf(s.skip(2))
    } else if s.len() == 0 {
        Seq::empty()
    } else {
        seq![s[0]] + strip_crlf(s.drop_first())
    }
}

pub proof fn lemma_after_byte_len(s: Seq<u8>, b: u8)
    ensures
        match after_byte(s, b) {
            Some(r) => r.len() < s.len(),
            None => true,
        },
    decreases s.len(),
{
    if s.len() > 0 && s[0] != b {
        lemma_after_byte_len(s.drop_first(), b);
    }
}

/// Where the first occurrence of `b` stands at index `i`, the split around
/// `b` is the prefix before `i` and the suffix after it.
pub proof fn lemma_byte_split_at(s: Seq<u8>, b: u8, i: int)
    requires
        0 <= i < s.len(),
        s[i] == b,
        forall|j: int| 0 <= j < i ==> s[j] != b,
    ensures
        until_byte(s, b) == s.take(i),
        after_byte(s, b) == Some(s.skip(i + 1)),
    decreases i,
{
    if i == 0 {
        assert(until_byte(s, b) =~= s.take(0));
        assert(s.drop_first() =~= s.skip(1));
    } else {
        lemma_byte_split_at(s.drop_first(), b, i - 1);
        assert(seq![s[0]] + s.drop_first().take(i - 1) =~= s.take(i));
        assert(s.drop_first().skip(i) =~= s.skip(i + 1));
    }
}

/// Where `b` does not occur in `s`, the prefix before `b` is all of `s`.
pub proof fn lemma_byte_absent(s: Seq<u8>, b: u8)
    requires
        forall|j: int| 0 <= j < s.len() ==> s[j] != b,
    ensures
        until_byte(s, b) == s,
        after_byte(s, b) is None,
    decreases s.len(),
{
    if s.len() > 0 {
        lemma_byte_absent(s.drop_first(), b);
        assert(seq![s[0]] + s.drop_first() =~= s);
    }
}

/// The decimal rendering of `n`, most significant digit first.
pub open spec fn dec_digits(n: nat) -> Seq<u8>
    decreases n,
{
    if n < 10 {
        seq![(n + ('0' as u8)) as u8]
    } else {
        dec_digits(n / 10) + seq![((n % 10) + ('0' as u8)) as u8]
    }
}

/// Every byte of a decimal rendering is an ASCII digit.
pub proof fn lemma_dec_digits_are_digits(n: nat)
    ensures
        forall|i: int|
            0 <= i < dec_digits(n).len() ==> ('0' as u8) <= #[trigger] dec_digits(n)[i] <= (
            '9' as u8),
    decreases n,
{
    if n >= 10 {
        lemma_dec_digits_are_digits(n / 10);
        let d = dec_digits(n);
        let p = dec_digits(n / 10);
        assert forall|i: int| 0 <= i < d.len() implies ('0' as u8) <= #[trigger] d[i] <= ('9' as u8) by {
            if i < p.len() {
                assert(d[i] == p[i]);
            } else {
                assert(d[i] == ((n % 10) + ('0' as u8)) as u8);
            }
        }
    }
}

/// Appends the bytes of `s` to `out`.
pub fn push_bytes(out: &mut Vec<u8>, s: &[u8])
    ensures
        final(out)@ == old(out)@ + s@,
{
    let mut i: usize = 0;
    while i < s.len()
        invariant
            i <= s@.len(),
            out@ == old(out)@ + s@.subrange(0, i as int),
        decreases s@.len() - i,
    {
        out.push(s[i]);
        i = i + 1;
        assert(out@ =~= old(out)@ + s@.subrange(0, i as int));
    }
    assert(out@ =~= old(out)@ + s@);
}

/// Appends the bytes of the string slice `s` to `out`.
pub fn append_str(out: &mut Vec<u8>, s: &str)
    ensures
        final(out)@ == old(out)@ + s.spec_bytes(),
{
    push_bytes(out, s.as_bytes())
}

/// Copies `s[lo..hi]` into a fresh vector.
pub fn sub_vec(s: &[u8], lo: usize, hi: usize) -> (r: Vec<u8>)
    requires
        lo <= hi <= s@.len(),
    ensures
        r@ == s@.subrange(lo as int, hi as int),
{
    let mut r: Vec<u8> = Vec::new();
    let mut i: usize = lo;
    while i < hi
        invariant
            lo <= i <= hi <= s@.len(),
            r@ == s@.subrange(lo as int, i as int),
        decreases hi - i,
    {
        r.push(s[i]);
        i = i + 1;
        assert(r@ =~= s@.subrange(lo as int, i as int));
    }
    r
}

/// Byte-for-byte equality of two slices.
pub fn bytes_eq(a: &[u8], b: &[u8]) -> (r: bool)
    ensures
        r == (a@ == b@),
{
    if a.len() != b.len() {
        assert(a@ != b@) by {
            assert(a@.len() != b@.len());
        }
        return false;
    }
    let mut i: usize = 0;
    while i < a.len()
        invariant
            i <= a@.len(),
            a@.len() == b@.len(),
            forall|j: int| 0 <= j < i ==> a@[j] == b@[j],
        decreases a@.len() - i,
    {
        if a[i] != b[i] {
            return false;
        }
        i = i + 1;
    }
    assert(a@ =~= b@);
    true
}

/// Index of the first occurrence of `b` in `s[start..]`, if any.
pub fn find_byte(s: &[u8], start: usize, b: u8) -> (r: Option<usize>)
    requires
        start <= s@.len(),
    ensures
        match r {
            Some(i) => start <= i < s@.len() && s@[i as int] == b && forall|j: int|
                start <= j < i ==> s@[j] != b,
            None => forall|j: int| start <= j < s@.len() ==> s@[j] != b,
        },
{
    let mut i: usize = start;
    while i < s.len()
        invariant
            start <= i <= s@.len(),
            forall|j: int| start <= j < i ==> s@[j] != b,
        decreases s@.len() - i,
    {
        if s[i] == b {
            return Some(i);
        }
        i = i + 1;
    }
    None
}

/// One past the end of the line of `s` that starts at `start`: the index
/// after the next newline byte, or the end of `s`.
pub fn find_line_end(s: &[u8], start: usize) -> (e: usize)
    requires
        start <= s@.len(),
    ensures
        e == start + line_len(s@.skip(start as int)),
        start <= e <= s@.len(),
        start < s@.len() ==> start < e,
{
    proof {
        lemma_line_len_bounds(s@.skip(start as int));
    }
    let mut i: usize = start;
    while i < s.len()
        invariant
            start <= i <= s@.len(),
            line_len(s@.skip(start as int)) == (i - start) + line_len(s@.skip(i as int)),
            forall|j: int| start <= j < i ==> s@[j] != ('\n' as u8),
        decreases s@.len() - i,
    {
        proof {
            lemma_line_len_bounds(s@.skip(i as int));
            assert(s@.skip(i as int).drop_first() =~= s@.skip(i + 1));
        }
        if s[i] == ('\n' as u8) {
            return i + 1;
        }
        i = i + 1;
    }
    proof {
        assert(s@.skip(i as int) =~= Seq::<u8>::empty());
    }
    i
}

/// The decimal digits of `n`, most significant first.
pub fn u64_to_dec(n: u64) -> (r: Vec<u8>)
    ensures
        r@ == dec_digits(n as nat),
    decreases n,
{
    if n < 10 {
        let mut r: Vec<u8> = Vec::new();
        r.push((n as u8) + ('0' as u8));
        assert(r@ =~= dec_digits(n as nat));
        r
    } else {
        let mut r = u64_to_dec(n / 10);
        r.push(((n % 10) as u8) + ('0' as u8));
        assert(r@ =~= dec_digits((n / 10) as nat) + seq![
            (((n as nat) % 10) + ('0' as u8)) as u8,
        ]);
        r
    }
}

/// A token runs through a concatenation while its left part is free of
/// whitespace.
pub proof fn lemma_token_concat(a: Seq<u8>, b: Seq<u8>)
    requires
        forall|i: int| 0 <= i < a.len() ==> !is_ws(#[trigger] a[i]),
    ensures
        take_token(a + b) == a + take_token(b),
        drop_token(a + b) == drop_token(b),
    decreases a.len(),
{
    if a.len() == 0 {
        assert(a + b =~= b);
        assert(a + take_token(b) =~= take_token(b));
    } else {
        lemma_token_concat(a.drop_first(), b);
        assert((a + b).drop_first() =~= a.drop_first() + b);
        assert(seq![a[0]] + (a.drop_first() + take_token(b)) =~= a + take_token(b));
    }
}

/// Leading whitespace is skipped through a concatenation.
pub proof fn lemma_skip_ws_concat(a: Seq<u8>, b: Seq<u8>)
    requires
        forall|i: int| 0 <= i < a.len() ==> is_ws(#[trigger] a[i]),
    ensures
        skip_ws(a + b) == skip_ws(b),
    decreases a.len(),
{
    if a.len() == 0 {
        assert(a + b =~= b);
    } else {
        lemma_skip_ws_concat(a.drop_first(), b);
        assert((a + b).drop_first() =~= a.drop_first() + b);
    }
}

/// The first line of `left + newline + rest` runs through all of `left`
/// when `left` holds no newline.
pub proof fn lemma_line_len_concat(left: Seq<u8>, rest: Seq<u8>)
    requires
        forall|i: int| 0 <= i < left.len() ==> #[trigger] left[i] != ('\n' as u8),
    ensures
        line_len(left + seq![('\n' as u8)] + rest) == left.len() + 1,
    decreases left.len(),
{
    let s = left + seq![('\n' as u8)] + rest;
    if left.len() == 0 {
        assert(s[0] == ('\n' as u8));
    } else {
        lemma_line_len_concat(left.drop_first(), rest);
        assert(s[0] == left[0]);
        assert(s.drop_first() =~= left.drop_first() + seq![('\n' as u8)] + rest);
    }
}

/// Splitting into lines peels `left + newline` off the front when `left`
/// holds no newline.
pub proof fn lemma_split_lines_concat(left: Seq<u8>, rest: Seq<u8>)
    requires
        forall|i: int| 0 <= i < left.len() ==> #[trigger] left[i] != ('\n' as u8),
    ensures
        split_lines(left + seq![('\n' as u8)] + rest) == seq![left + seq![('\n' as u8)]]
            + split_lines(rest),
{
    let s = left + seq![('\n' as u8)] + rest;
    lemma_line_len_concat(left, rest);
    assert(s.take(line_len(s) as int) =~= left + seq![('\n' as u8)]);
    assert(s.skip(line_len(s) as int) =~= rest);
}

} // verus!
