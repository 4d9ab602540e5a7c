use vstd::prelude::*;

verus! {

/// Whether `pat` occurs in `s` starting at position `p`.
pub open spec fn occurs_at(s: Seq<char>, pat: Seq<char>, p: int) -> bool {
    0 <= p && p + pat.len() <= s.len() && s.subrange(p, p + pat.len() as int) == pat
}

/// `pat` occurs nowhere in `s`.
pub open spec fn no_occurrence(s: Seq<char>, pat: Seq<char>) -> bool {
    forall|p: int| !occurs_at(s, pat, p)
}

/// How many positions at or after `i` an occurrence of `pat` starts at;
/// overlapping occurrences all count.
pub open spec fn count_from(s: Seq<char>, pat: Seq<char>, i: int) -> nat
    decreases s.len() - i,
{
    if pat.len() == 0 || i < 0 || i + pat.len() > s.len() {
        0
    } else {
        (if occurs_at(s, pat, i) {
            1nat
        } else {
            0nat
        }) + count_from(s, pat, i + 1)
    }
}

/// How many positions an occurrence of `pat` starts at in `s`.
pub open spec fn count_occurrences(s: Seq<char>, pat: Seq<char>) -> nat {
    count_from(s, pat, 0)
}

/// One mismatching character refutes an occurrence.
pub proof fn lemma_refute_at(s: Seq<char>, pat: Seq<char>, p: int, k: int)
    requires
        0 <= k < pat.len(),
        0 <= p + k < s.len(),
        s[p + k] != pat[k],
    ensures
        !occurs_at(s, pat, p),
{
    if occurs_at(s, pat, p) {
        assert(s.subrange(p, p + pat.len() as int)[k] == s[p + k]);
    }
}

/// An occurrence of `pat` starts with an occurrence of any of its prefixes.
pub proof fn lemma_prefix_occurrence(s: Seq<char>, pat: Seq<char>, k: int, p: int)
    requires
        occurs_at(s, pat, p),
        0 < k <= pat.len(),
    ensures
        occurs_at(s, pat.subrange(0, k), p),
{
    assert forall|j: int| #![trigger s.subrange(p, p + k)[j]] 0 <= j < k implies s.subrange(
        p,
        p + k,
    )[j] == pat.subrange(0, k)[j] by {
        assert(s.subrange(p, p + pat.len() as int)[j] == s[p + j]);
    }
    assert(s.subrange(p, p + k) =~= pat.subrange(0, k));
}

/// Occurrences wholly inside the right half of a concatenation.
pub proof fn lemma_occurs_right(x: Seq<char>, t: Seq<char>, pat: Seq<char>, q: int)
    requires
        0 <= q,
    ensures
        occurs_at(x + t, pat, x.len() + q) == occurs_at(t, pat, q),
{
    let s = x + t;
    let p = x.len() + q;
    if q + pat.len() <= t.len() {
        assert forall|j: int| #![trigger s.subrange(p, p + pat.len() as int)[j]] 0 <= j
            < pat.len() implies s.subrange(p, p + pat.len() as int)[j] == t.subrange(
            q,
            q + pat.len() as int,
        )[j] by {
            assert(s[p + j] == t[q + j]);
        }
        assert(s.subrange(p, p + pat.len() as int) =~= t.subrange(q, q + pat.len() as int));
    }
}

/// Occurrences wholly inside the left half of a concatenation.
pub proof fn lemma_occurs_left(x: Seq<char>, t: Seq<char>, pat: Seq<char>, p: int)
    requires
        0 <= p,
        p + pat.len() <= x.len(),
    ensures
        occurs_at(x + t, pat, p) == occurs_at(x, pat, p),
{
    let s = x + t;
    assert forall|j: int| #![trigger s.subrange(p, p + pat.len() as int)[j]] 0 <= j
        < pat.len() implies s.subrange(p, p + pat.len() as int)[j] == x.subrange(
        p,
        p + pat.len() as int,
    )[j] by {
        assert(s[p + j] == x[p + j]);
    }
    assert(s.subrange(p, p + pat.len() as int) =~= x.subrange(p, p + pat.len() as int));
}

/// No occurrences at or after `i` means a zero count.
pub proof fn lemma_count_zero_from(s: Seq<char>, pat: Seq<char>, i: int)
    requires
        forall|p: int| i <= p ==> !occurs_at(s, pat, p),
    ensures
        count_from(s, pat, i) == 0,
    decreases s.len() - i,
{
    if !(pat.len() == 0 || i < 0 || i + pat.len() > s.len()) {
        lemma_count_zero_from(s, pat, i + 1);
    }
}

/// Counting a concatenation from its right half counts the right half.
pub proof fn lemma_count_suffix(x: Seq<char>, t: Seq<char>, pat: Seq<char>, q: int)
    requires
        0 <= q,
        pat.len() > 0,
    ensures
        count_from(x + t, pat, x.len() + q) == count_from(t, pat, q),
    decreases t.len() - q,
{
    lemma_occurs_right(x, t, pat, q);
    if q + pat.len() <= t.len() {
        lemma_count_suffix(x, t, pat, q + 1);
    }
}

/// Counting a concatenation from inside its left half splits at the joint.
pub proof fn lemma_count_prefix_part(x: Seq<char>, t: Seq<char>, pat: Seq<char>, i: int)
    requires
        0 <= i <= x.len(),
        pat.len() > 0,
        forall|p: int| x.len() - pat.len() < p < x.len() ==> !occurs_at(x + t, pat, p),
    ensures
        count_from(x + t, pat, i) == count_from(x, pat, i) + count_from(
            x + t,
            pat,
            x.len() as int,
        ),
    decreases x.len() - i,
{
    if i == x.len() {
        assert(count_from(x, pat, i) == 0);
    } else {
        lemma_count_prefix_part(x, t, pat, i + 1);
        if i + pat.len() <= x.len() {
            lemma_occurs_left(x, t, pat, i);
        } else {
            assert(!occurs_at(x + t, pat, i));
            assert(count_from(x, pat, i) == 0);
            assert(count_from(x, pat, i + 1) == 0);
        }
    }
}

/// Counting a concatenation splits into the halves when no occurrence
/// straddles the joint.
pub proof fn lemma_count_concat(x: Seq<char>, t: Seq<char>, pat: Seq<char>)
    requires
        pat.len() > 0,
        forall|p: int| x.len() - pat.len() < p < x.len() ==> !occurs_at(x + t, pat, p),
    ensures
        count_occurrences(x + t, pat) == count_occurrences(x, pat) + count_occurrences(t, pat),
{
    lemma_count_prefix_part(x, t, pat, 0);
    lemma_count_suffix(x, t, pat, 0);
}

} // verus!
