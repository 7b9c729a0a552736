//! Byte-string utilities for the schema parser.
//!
//! Schema files are ASCII text, so lines, tokens and names are byte
//! strings throughout the library.  Whitespace here is the ASCII set:
//! space, tab, line feed, form feed and carriage return.

use vstd::prelude::*;

verus! {

/// ASCII whitespace.
pub open spec fn is_space_byte(b: u8) -> bool {
    b == 32 || b == 9 || b == 10 || b == 12 || b == 13
}

fn is_space(b: u8) -> (r: bool)
    ensures
        r == is_space_byte(b),
{
    b == 32 || b == 9 || b == 10 || b == 12 || b == 13
}

/// The sequence without its leading whitespace.
pub open spec fn spec_trim_start(s: Seq<u8>) -> Seq<u8>
    decreases s.len(),
{
    if s.len() == 0 {
        s
    } else if is_space_byte(s[0]) {
        spec_trim_start(s.skip(1))
    } else {
        s
    }
}

/// The sequence without its trailing whitespace.
pub open spec fn spec_trim_end(s: Seq<u8>) -> Seq<u8>
    decreases s.len(),
{
    if s.len() == 0 {
        s
    } else if is_space_byte(s.last()) {
        spec_trim_end(s.drop_last())
    } else {
        s
    }
}

/// The sequence without leading and trailing whitespace.
pub open spec fn spec_trim(s: Seq<u8>) -> Seq<u8> {
    spec_trim_end(spec_trim_start(s))
}

/// Trim ASCII whitespace from both ends.
pub fn trim(s: &[u8]) -> (r: &[u8])
    ensures
        r@ == spec_trim(s@),
{
    let n = s.len();
    let mut i: usize = 0;
    proof {
        assert(s@.skip(0) =~= s@);
    }
    while i < n && is_space(s[i])
        invariant
            i <= n,
            n == s@.len(),
            spec_trim_start(s@) == spec_trim_start(s@.skip(i as int)),
        decreases n - i,
    {
        proof {
            assert(s@.skip(i as int)[0] == s@[i as int]);
            assert(s@.skip(i as int).skip(1) =~= s@.skip(i + 1));
        }
        i = i + 1;
    }
    proof {
        if i < n {
            assert(s@.skip(i as int)[0] == s@[i as int]);
        }
        assert(spec_trim_start(s@) == s@.skip(i as int));
    }
    let ghost t = s@.skip(i as int);
    let mut j: usize = n;
    proof {
        assert(t.take(n - i) =~= t);
    }
    while j > i && is_space(s[j - 1])
        invariant
            i <= j <= n,
            n == s@.len(),
            t == s@.skip(i as int),
            spec_trim_end(t) == spec_trim_end(t.take(j - i)),
        decreases j,
    {
        proof {
            assert(t.take(j - i).last() == s@[j - 1]);
            assert(t.take(j - i).drop_last() =~= t.take(j - 1 - i));
        }
        j = j - 1;
    }
    proof {
        if j > i {
            assert(t.take(j - i).last() == s@[j - 1]);
            assert(spec_trim_end(t.take(j - i)) == t.take(j - i));
        } else {
            assert(t.take(0) =~= Seq::<u8>::empty());
        }
        assert(s@.subrange(i as int, j as int) =~= t.take(j - i));
    }
    vstd::slice::slice_subrange(s, i, j)
}

/// Whitespace-separated tokens, accumulating a token in progress.
pub open spec fn spec_tokens_acc(s: Seq<u8>, cur: Seq<u8>) -> Seq<Seq<u8>>
    decreases s.len(),
{
    if s.len() == 0 {
        if cur.len() == 0 {
            Seq::empty()
        } else {
            seq![cur]
        }
    } else if is_space_byte(s[0]) {
        if cur.len() == 0 {
            spec_tokens_acc(s.skip(1), Seq::empty())
        } else {
            seq![cur] + spec_tokens_acc(s.skip(1), Seq::empty())
        }
    } else {
        spec_tokens_acc(s.skip(1), cur.push(s[0]))
    }
}

/// The whitespace-separated tokens of a byte string, in order.
pub open spec fn spec_tokens(s: Seq<u8>) -> Seq<Seq<u8>> {
    spec_tokens_acc(s, Seq::empty())
}

/// Split into whitespace-separated tokens.
pub fn tokens(s: &[u8]) -> (r: Vec<Vec<u8>>)
    ensures
        r.deep_view() == spec_tokens(s@),
{
    let n = s.len();
    let mut toks: Vec<Vec<u8>> = Vec::new();
    let mut cur: Vec<u8> = Vec::new();
    let mut i: usize = 0;
    proof {
        assert(s@.skip(0) =~= s@);
        assert(toks.deep_view() =~= Seq::<Seq<u8>>::empty());
    }
    while i < n
        invariant
            i <= n,
            n == s@.len(),
            spec_tokens(s@) == toks.deep_view() + spec_tokens_acc(s@.skip(i as int), cur@),
        decreases n - i,
    {
        let ghost pre_toks = toks.deep_view();
        proof {
            assert(s@.skip(i as int)[0] == s@[i as int]);
            assert(s@.skip(i as int).skip(1) =~= s@.skip(i + 1));
        }
        let b = s[i];
        if is_space(b) {
            if cur.len() > 0 {
                let ghost cur_view = cur@;
                toks.push(cur);
                cur = Vec::new();
                proof {
                    let x = spec_tokens_acc(s@.skip(i + 1), Seq::<u8>::empty());
                    assert(cur@ =~= Seq::<u8>::empty());
                    assert(spec_tokens_acc(s@.skip(i as int), cur_view) == seq![cur_view] + x);
                    assert(toks.deep_view()[pre_toks.len() as int] =~= cur_view);
                    assert(toks.deep_view() =~= pre_toks.push(cur_view));
                    assert(pre_toks + (seq![cur_view] + x) =~= pre_toks.push(cur_view) + x);
                    assert(spec_tokens(s@) == toks.deep_view() + spec_tokens_acc(
                        s@.skip(i + 1),
                        cur@,
                    ));
                }
            } else {
                proof {
                    assert(cur@ =~= Seq::<u8>::empty());
                    assert(spec_tokens(s@) == toks.deep_view() + spec_tokens_acc(
                        s@.skip(i + 1),
                        cur@,
                    ));
                }
            }
        } else {
            cur.push(b);
            proof {
                assert(spec_tokens(s@) == toks.deep_view() + spec_tokens_acc(
                    s@.skip(i + 1),
                    cur@,
                ));
            }
        }
        i = i + 1;
    }
    proof {
        assert(s@.skip(n as int) =~= Seq::<u8>::empty());
    }
    if cur.len() > 0 {
        let ghost pre_toks = toks.deep_view();
        let ghost cur_view = cur@;
        toks.push(cur);
        proof {
            assert(toks.deep_view()[pre_toks.len() as int] =~= cur_view);
            assert(toks.deep_view() =~= pre_toks.push(cur_view));
            assert(pre_toks + seq![cur_view] =~= pre_toks.push(cur_view));
        }
    } else {
        proof {
            assert(toks.deep_view() + Seq::<Seq<u8>>::empty() =~~= toks.deep_view());
        }
    }
    toks
}

/// Index of the first occurrence of `b`, or the length if absent.
pub open spec fn spec_find_byte(s: Seq<u8>, b: u8) -> int
    decreases s.len(),
{
    if s.len() == 0 {
        0
    } else if s[0] == b {
        0
    } else {
        1 + spec_find_byte(s.skip(1), b)
    }
}

/// What the index returned by `spec_find_byte` means.
pub proof fn lemma_find_byte_props(s: Seq<u8>, b: u8)
    ensures
        0 <= spec_find_byte(s, b) <= s.len(),
        spec_find_byte(s, b) < s.len() ==> s[spec_find_byte(s, b)] == b,
        forall|k: int| 0 <= k < spec_find_byte(s, b) ==> s[k] != b,
    decreases s.len(),
{
    if s.len() == 0 {
    } else if s[0] == b {
    } else {
        lemma_find_byte_props(s.skip(1), b);
        let f = spec_find_byte(s, b);
        assert forall|k: int| 0 <= k < f implies s[k] != b by {
            if k > 0 {
                assert(s.skip(1)[k - 1] == s[k]);
            }
        }
        if f < s.len() {
            assert(s.skip(1)[f - 1] == s[f]);
        }
    }
}

/// Find the first occurrence of a byte.
pub fn find_byte(s: &[u8], b: u8) -> (r: usize)
    ensures
        r == spec_find_byte(s@, b),
{
    let n = s.len();
    let mut i: usize = 0;
    proof {
        assert(s@.skip(0) =~= s@);
    }
    while i < n
        invariant
            i <= n,
            n == s@.len(),
            spec_find_byte(s@, b) == i + spec_find_byte(s@.skip(i as int), b),
        decreases n - i,
    {
        proof {
            assert(s@.skip(i as int)[0] == s@[i as int]);
            assert(s@.skip(i as int).skip(1) =~= s@.skip(i + 1));
        }
        if s[i] == b {
            return i;
        }
        i = i + 1;
    }
    proof {
        assert(s@.skip(n as int) =~= Seq::<u8>::empty());
    }
    n
}

/// Index of the last occurrence of `b`, or -1 if absent.
pub open spec fn spec_rfind_byte(s: Seq<u8>, b: u8) -> int
    decreases s.len(),
{
    if s.len() == 0 {
        -1
    } else if s.last() == b {
        s.len() - 1
    } else {
        spec_rfind_byte(s.drop_last(), b)
    }
}

/// Find the last occurrence of a byte.
pub fn find_byte_back(s: &[u8], b: u8) -> (r: Option<usize>)
    ensures
        match r {
            Some(k) => spec_rfind_byte(s@, b) == k as int,
            None => spec_rfind_byte(s@, b) == -1,
        },
{
    let n = s.len();
    let mut j: usize = n;
    proof {
        assert(s@.take(n as int) =~= s@);
    }
    while j > 0
        invariant
            j <= n,
            n == s@.len(),
            spec_rfind_byte(s@, b) == spec_rfind_byte(s@.take(j as int), b),
        decreases j,
    {
        proof {
            assert(s@.take(j as int).last() == s@[j - 1]);
            assert(s@.take(j as int).drop_last() =~= s@.take(j - 1));
        }
        if s[j - 1] == b {
            return Some(j - 1);
        }
        j = j - 1;
    }
    proof {
        assert(s@.take(0) =~= Seq::<u8>::empty());
    }
    None
}

/// The two byte strings are equal.
pub fn bytes_eq(a: &[u8], b: &[u8]) -> (r: bool)
    ensures
        r <==> a@ == b@,
{
    if a.len() != b.len() {
        return false;
    }
    let n = a.len();
    let mut i: usize = 0;
    while i < n
        invariant
            i <= n,
            n == a@.len() && n == b@.len(),
            forall|k: int| 0 <= k < i ==> a@[k] == b@[k],
        decreases n - i,
    {
        if a[i] != b[i] {
            return false;
        }
        i = i + 1;
    }
    proof {
        assert(a@ =~= b@);
    }
    true
}

/// Index of the first occurrence of `pat` as a contiguous run, if any.
pub open spec fn spec_find_sub(s: Seq<u8>, pat: Seq<u8>) -> Option<int>
    decreases s.len(),
{
    if s.len() < pat.len() {
        None
    } else if s.take(pat.len() as int) == pat {
        Some(0)
    } else if s.len() == 0 {
        None
    } else {
        match spec_find_sub(s.skip(1), pat) {
            Some(k) => Some(k + 1),
            None => None,
        }
    }
}

/// Find the first occurrence of `pat` as a contiguous run.
pub fn find_sub(s: &[u8], pat: &[u8]) -> (r: Option<usize>)
    ensures
        match r {
            Some(k) => spec_find_sub(s@, pat@) == Some(k as int),
            None => spec_find_sub(s@, pat@) is None,
        },
{
    let n = s.len();
    let m = pat.len();
    if m > n {
        return None;
    }
    if m == 0 {
        proof {
            assert(s@.take(0) =~= pat@);
        }
        return Some(0);
    }
    let mut i: usize = 0;
    proof {
        assert(s@.skip(0) =~= s@);
    }
    while i <= n - m
        invariant
            m <= n,
            i <= n - m + 1,
            n == s@.len(),
            m == pat@.len(),
            spec_find_sub(s@, pat@) == match spec_find_sub(s@.skip(i as int), pat@) {
                Some(k) => Some(k + i),
                None => None::<int>,
            },
        decreases n - i,
    {
        let piece = vstd::slice::slice_subrange(s, i, i + m);
        proof {
            assert(s@.skip(i as int).take(m as int) =~= s@.subrange(i as int, i + m));
        }
        if bytes_eq(piece, pat) {
            return Some(i);
        }
        proof {
            if m == 0 {
                assert(piece@ =~= pat@);
            }
            assert(s@.skip(i as int).skip(1) =~= s@.skip(i + 1));
        }
        i = i + 1;
    }
    proof {
        assert(s@.skip(i as int).len() < pat@.len());
    }
    None
}

/// A decimal digit.
pub open spec fn is_digit(b: u8) -> bool {
    48 <= b <= 57
}

/// Every byte is a decimal digit.
pub open spec fn all_digits(s: Seq<u8>) -> bool {
    forall|i: int| 0 <= i < s.len() ==> is_digit(#[trigger] s[i])
}

/// The number a string of decimal digits denotes.
pub open spec fn spec_dec_value(s: Seq<u8>) -> nat
    recommends
        all_digits(s),
    decreases s.len(),
{
    if s.len() == 0 {
        0
    } else {
        10 * spec_dec_value(s.drop_last()) + (if s.last() >= 48 {
            (s.last() - 48) as nat
        } else {
            0
        })
    }
}

/// A longer digit string never denotes a smaller number.
proof fn lemma_dec_value_prefix(s: Seq<u8>, j: int)
    requires
        0 <= j <= s.len(),
    ensures
        spec_dec_value(s) >= spec_dec_value(s.take(j)),
    decreases s.len(),
{
    if j < s.len() {
        lemma_dec_value_prefix(s.drop_last(), j);
        assert(s.drop_last().take(j) =~= s.take(j));
    } else {
        assert(s.take(j) =~= s);
    }
}

/// Parse an unsigned decimal integer.  Succeeds exactly on a nonempty
/// all-digit string whose value fits in `usize`.
pub fn parse_dec(s: &[u8]) -> (r: Option<usize>)
    ensures
        match r {
            Some(v) => s@.len() > 0 && all_digits(s@) && v == spec_dec_value(s@),
            None => s@.len() == 0 || !all_digits(s@) || spec_dec_value(s@) > usize::MAX,
        },
{
    let n = s.len();
    if n == 0 {
        return None;
    }
    let mut acc: usize = 0;
    let mut i: usize = 0;
    proof {
        assert(s@.take(0) =~= Seq::<u8>::empty());
    }
    while i < n
        invariant
            i <= n,
            n == s@.len(),
            all_digits(s@.take(i as int)),
            acc == spec_dec_value(s@.take(i as int)),
        decreases n - i,
    {
        let b = s[i];
        if b < 48 || b > 57 {
            return None;
        }
        let d = (b - 48) as usize;
        proof {
            assert(s@.take(i + 1).drop_last() =~= s@.take(i as int));
            assert(s@.take(i + 1).last() == s@[i as int]);
            assert(all_digits(s@.take(i + 1)));
        }
        let step = match acc.checked_mul(10) {
            Some(m) => m.checked_add(d),
            None => None,
        };
        match step {
            Some(a2) => {
                acc = a2;
            },
            None => {
                proof {
                    assert(spec_dec_value(s@.take(i + 1)) > usize::MAX);
                    if all_digits(s@) {
                        lemma_dec_value_prefix(s@, i + 1);
                    }
                }
                return None;
            },
        }
        i = i + 1;
    }
    proof {
        assert(s@.take(n as int) =~= s@);
    }
    Some(acc)
}

} // verus!
