//! Character-sequence utilities: lexicographic ordering and substring
//! search, with executable counterparts over `&str`.

use vstd::prelude::*;

verus! {

/// Lexicographic "less than or equal" on character sequences, ordering
/// characters by their Unicode scalar value.
pub open spec fn lex_leq(a: Seq<char>, b: Seq<char>) -> bool
    decreases a.len(),
{
    if a.len() == 0 {
        true
    } else if b.len() == 0 {
        false
    } else if (a[0] as u32) < (b[0] as u32) {
        true
    } else if (a[0] as u32) > (b[0] as u32) {
        false
    } else {
        lex_leq(a.skip(1), b.skip(1))
    }
}

/// Any two character sequences are comparable under `lex_leq`.
pub proof fn lemma_lex_leq_total(a: Seq<char>, b: Seq<char>)
    ensures
        lex_leq(a, b) || lex_leq(b, a),
    decreases a.len(),
{
    if a.len() != 0 && b.len() != 0 && (a[0] as u32) == (b[0] as u32) {
        lemma_lex_leq_total(a.skip(1), b.skip(1));
    }
}

/// Every character sequence compares `lex_leq` with itself.
pub proof fn lemma_lex_leq_refl(a: Seq<char>)
    ensures
        lex_leq(a, a),
{
    lemma_lex_leq_total(a, a);
}

/// `lex_leq` is transitive.
pub proof fn lemma_lex_leq_trans(a: Seq<char>, b: Seq<char>, c: Seq<char>)
    requires
        lex_leq(a, b),
        lex_leq(b, c),
    ensures
        lex_leq(a, c),
    decreases a.len(),
{
    if a.len() != 0 && (a[0] as u32) == (b[0] as u32) && (b[0] as u32) == (c[0] as u32) {
        lemma_lex_leq_trans(a.skip(1), b.skip(1), c.skip(1));
    }
}

/// Dropping a common prefix does not change how two sequences compare.
proof fn lemma_lex_leq_skip(a: Seq<char>, b: Seq<char>, i: int)
    requires
        0 <= i <= a.len(),
        i <= b.len(),
        forall|k: int| 0 <= k < i ==> a[k] == b[k],
    ensures
        lex_leq(a, b) == lex_leq(a.skip(i), b.skip(i)),
    decreases i,
{
    if i > 0 {
        assert(a[0] == b[0]);
        assert(forall|k: int| 0 <= k < i - 1 ==> a.skip(1)[k] == b.skip(1)[k]);
        lemma_lex_leq_skip(a.skip(1), b.skip(1), i - 1);
        assert(a.skip(1).skip(i - 1) =~= a.skip(i));
        assert(b.skip(1).skip(i - 1) =~= b.skip(i));
    } else {
        assert(a.skip(0) =~= a);
        assert(b.skip(0) =~= b);
    }
}

/// Compares two strings lexicographically by Unicode scalar value.
pub fn str_le(a: &str, b: &str) -> (r: bool)
    ensures
        r == lex_leq(a@, b@),
{
    let na = a.unicode_len();
    let nb = b.unicode_len();
    let n = if na < nb { na } else { nb };
    let mut i: usize = 0;
    loop
        invariant
            na == a@.len(),
            nb == b@.len(),
            n == if na < nb { na } else { nb },
            0 <= i <= n,
            forall|k: int| 0 <= k < i ==> a@[k] == b@[k],
        decreases n - i,
    {
        if i == n {
            proof {
                lemma_lex_leq_skip(a@, b@, i as int);
                if na <= nb {
                    assert(a@.skip(i as int).len() == 0);
                } else {
                    assert(b@.skip(i as int).len() == 0);
                    assert(a@.skip(i as int).len() > 0);
                }
            }
            return na <= nb;
        }
        let ca = a.get_char(i);
        let cb = b.get_char(i);
        if ca != cb {
            proof {
                lemma_lex_leq_skip(a@, b@, i as int);
                assert(a@.skip(i as int)[0] == a@[i as int]);
                assert(b@.skip(i as int)[0] == b@[i as int]);
            }
            return (ca as u32) < (cb as u32);
        }
        i = i + 1;
    }
}

/// `needle` occurs in `hay` as a contiguous run of characters. The empty
/// needle occurs in every sequence.
pub open spec fn contains_seq(hay: Seq<char>, needle: Seq<char>) -> bool {
    exists|i: int|
        0 <= i && i + needle.len() <= hay.len() && #[trigger] hay.subrange(i, i + needle.len())
            == needle
}

/// Whether the characters of `k` occur in `s` starting at position `i`.
fn match_at(s: &str, k: &str, i: usize) -> (r: bool)
    requires
        i + k@.len() <= s@.len(),
    ensures
        r == (s@.subrange(i as int, i + k@.len()) == k@),
{
    let n = s.unicode_len();
    let m = k.unicode_len();
    let mut j: usize = 0;
    while j < m
        invariant
            i + m <= n,
            n == s@.len(),
            m == k@.len(),
            0 <= j <= m,
            forall|t: int| 0 <= t < j ==> s@.subrange(i as int, i + m as int)[t] == #[trigger] k@[t],
        decreases m - j,
    {
        if s.get_char(i + j) != k.get_char(j) {
            proof {
                assert(s@.subrange(i as int, i + m as int)[j as int] != k@[j as int]);
            }
            return false;
        }
        proof {
            assert(s@.subrange(i as int, i + m as int)[j as int] == s@[i + j]);
        }
        j = j + 1;
    }
    proof {
        assert(s@.subrange(i as int, i + m as int) =~= k@);
    }
    true
}

/// Substring search: whether `k` occurs in `s` (case-sensitive).
pub fn str_contains(s: &str, k: &str) -> (r: bool)
    ensures
        r == contains_seq(s@, k@),
{
    let n = s.unicode_len();
    let m = k.unicode_len();
    if m > n {
        return false;
    }
    if m == 0 {
        proof {
            assert(s@.subrange(0, 0 + k@.len() as int) =~= k@);
            assert(contains_seq(s@, k@));
        }
        return true;
    }
    let mut i: usize = 0;
    while i <= n - m
        invariant
            1 <= m <= n,
            n == s@.len(),
            m == k@.len(),
            0 <= i <= n - m + 1,
            forall|p: int|
                0 <= p < i ==> #[trigger] s@.subrange(p, p + m as int) != k@,
        decreases n - i,
    {
        if match_at(s, k, i) {
            proof {
                assert(s@.subrange(i as int, i as int + k@.len()) == k@);
                assert(contains_seq(s@, k@));
            }
            return true;
        }
        i = i + 1;
    }
    proof {
        assert forall|p: int| 0 <= p && p + k@.len() <= s@.len() implies #[trigger] s@.subrange(
            p,
            p + k@.len(),
        ) != k@ by {
            assert(p < i);
            assert(s@.subrange(p, p + m as int) != k@);
        }
    }
    false
}

} // verus!
