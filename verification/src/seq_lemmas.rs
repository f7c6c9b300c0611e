//! Facts about sequences that the proofs of the pool use.

use vstd::prelude::*;

verus! {

/// A sequence read backwards has the same members, and repeats none if the
/// sequence repeats none.
pub proof fn lemma_reverse_members<A>(s: Seq<A>)
    ensures
        s.reverse().len() == s.len(),
        forall|x: A| #[trigger] s.reverse().contains(x) <==> s.contains(x),
        s.no_duplicates() ==> s.reverse().no_duplicates(),
{
    let r = s.reverse();
    assert forall|x: A| #[trigger] r.contains(x) <==> s.contains(x) by {
        if r.contains(x) {
            let i = choose|i: int| 0 <= i < r.len() && r[i] == x;
            assert(s[s.len() - 1 - i] == x);
        }
        if s.contains(x) {
            let i = choose|i: int| 0 <= i < s.len() && s[i] == x;
            assert(r[s.len() - 1 - i] == x);
        }
    }
}

/// The members of two sequences put together are the members of either.
pub proof fn lemma_concat_members<A>(a: Seq<A>, b: Seq<A>)
    ensures
        forall|x: A| #[trigger] (a + b).contains(x) <==> (a.contains(x) || b.contains(x)),
{
    let c = a + b;
    assert forall|x: A| #[trigger] c.contains(x) <==> (a.contains(x) || b.contains(x)) by {
        if c.contains(x) {
            let i = choose|i: int| 0 <= i < c.len() && c[i] == x;
            if i < a.len() {
                assert(a[i] == x);
            } else {
                assert(b[i - a.len()] == x);
            }
        }
        if a.contains(x) {
            let i = choose|i: int| 0 <= i < a.len() && a[i] == x;
            assert(c[i] == x);
        }
        if b.contains(x) {
            let i = choose|i: int| 0 <= i < b.len() && b[i] == x;
            assert(c[a.len() + i] == x);
        }
    }
}

/// Two sequences that repeat nothing and share no member repeat nothing when
/// put together.
pub proof fn lemma_concat_no_duplicates<A>(a: Seq<A>, b: Seq<A>)
    requires
        a.no_duplicates(),
        b.no_duplicates(),
        forall|x: A| !(#[trigger] a.contains(x) && b.contains(x)),
    ensures
        (a + b).no_duplicates(),
{
    let c = a + b;
    assert forall|i: int, j: int| 0 <= i < c.len() && 0 <= j < c.len() && i != j implies c[i]
        != c[j] by {
        if i < a.len() && j >= a.len() {
            assert(a.contains(a[i]));
            assert(b.contains(b[j - a.len()]));
        }
        if j < a.len() && i >= a.len() {
            assert(a.contains(a[j]));
            assert(b.contains(b[i - a.len()]));
        }
    }
}

/// A sequence that repeats nothing, cut around the place `k`: the part before
/// it, the member at it and the part after it share nothing and make up the
/// members of the whole.
pub proof fn lemma_cut_members<A>(s: Seq<A>, k: int)
    requires
        s.no_duplicates(),
        0 <= k < s.len(),
    ensures
        s.take(k).no_duplicates(),
        s.skip(k + 1).no_duplicates(),
        !s.take(k).contains(s[k]),
        !s.skip(k + 1).contains(s[k]),
        forall|x: A| !(#[trigger] s.take(k).contains(x) && s.skip(k + 1).contains(x)),
        forall|x: A| #[trigger]
            s.contains(x) <==> (s.take(k).contains(x) || x == s[k] || s.skip(k + 1).contains(x)),
{
    let before = s.take(k);
    let after = s.skip(k + 1);
    assert forall|x: A| #[trigger] before.contains(x) implies s.contains(x) && s.index_of(x) < k by {
        let i = choose|i: int| 0 <= i < before.len() && before[i] == x;
        assert(s[i] == x);
    }
    assert forall|x: A| #[trigger] after.contains(x) implies s.contains(x) && s.index_of(x) > k by {
        let i = choose|i: int| 0 <= i < after.len() && after[i] == x;
        assert(s[k + 1 + i] == x);
    }
    assert forall|x: A| #[trigger]
        s.contains(x) implies (before.contains(x) || x == s[k] || after.contains(x)) by {
        let i = s.index_of(x);
        if i < k {
            assert(before[i] == x);
        } else if i > k {
            assert(after[i - k - 1] == x);
        }
    }
    assert(s.contains(s[k]));
}

/// Reading the end of a sequence backwards from one place earlier adds the
/// member at that place at the end.
pub proof fn lemma_reverse_skip_step<A>(s: Seq<A>, n: int)
    requires
        0 < n <= s.len(),
    ensures
        s.skip(n - 1).reverse() == s.skip(n).reverse().push(s[n - 1]),
{
    assert(s.skip(n - 1).reverse() =~= s.skip(n).reverse().push(s[n - 1]));
}

/// Filtering one member more: the member at place `i` follows the filtered
/// part before it if it passes the test, and is left out if not.
pub proof fn lemma_filter_step<A>(s: Seq<A>, pred: spec_fn(A) -> bool, i: int)
    requires
        0 <= i < s.len(),
    ensures
        s.take(i + 1).filter(pred) == if pred(s[i]) {
            s.take(i).filter(pred).push(s[i])
        } else {
            s.take(i).filter(pred)
        },
{
    reveal(Seq::filter);
    assert(s.take(i + 1).drop_last() == s.take(i));
}

/// The members of a filtered sequence are the members that pass the test, and
/// filtering introduces no repetition.
pub proof fn lemma_filter_members<A>(s: Seq<A>, pred: spec_fn(A) -> bool)
    ensures
        forall|x: A| #[trigger] s.filter(pred).contains(x) <==> (s.contains(x) && pred(x)),
        s.no_duplicates() ==> s.filter(pred).no_duplicates(),
    decreases s.len(),
{
    reveal(Seq::filter);
    if s.len() > 0 {
        let rest = s.drop_last();
        let last = s.last();
        lemma_filter_members(rest, pred);
        let f = s.filter(pred);
        let fr = rest.filter(pred);
        assert(f == if pred(last) {
            fr.push(last)
        } else {
            fr
        });
        assert forall|x: A| #[trigger] f.contains(x) <==> (s.contains(x) && pred(x)) by {
            if f.contains(x) {
                let i = choose|i: int| 0 <= i < f.len() && f[i] == x;
                if i < fr.len() {
                    assert(fr[i] == x);
                    assert(fr.contains(x));
                    assert(rest.contains(x));
                    let j = choose|j: int| 0 <= j < rest.len() && rest[j] == x;
                    assert(s[j] == x);
                } else {
                    assert(s[s.len() - 1] == x);
                }
            }
            if s.contains(x) && pred(x) {
                let j = choose|j: int| 0 <= j < s.len() && s[j] == x;
                if j < rest.len() {
                    assert(rest[j] == x);
                    assert(rest.contains(x));
                    assert(fr.contains(x));
                    let i = choose|i: int| 0 <= i < fr.len() && fr[i] == x;
                    assert(f[i] == x);
                } else {
                    assert(f[f.len() - 1] == x);
                }
            }
        }
        if s.no_duplicates() {
            assert(rest.no_duplicates());
            assert(!rest.contains(last)) by {
                if rest.contains(last) {
                    let j = choose|j: int| 0 <= j < rest.len() && rest[j] == last;
                    assert(s[j] == s[s.len() - 1]);
                }
            }
            assert(!fr.contains(last));
            assert forall|i: int, j: int| 0 <= i < f.len() && 0 <= j < f.len() && i != j implies f[i]
                != f[j] by {
                if i < fr.len() {
                    assert(fr.contains(fr[i]));
                }
                if j < fr.len() {
                    assert(fr.contains(fr[j]));
                }
            }
        }
    }
}

/// A sequence whose members all pass the test is its own filtered sequence.
pub proof fn lemma_filter_keeps_all<A>(s: Seq<A>, pred: spec_fn(A) -> bool)
    requires
        forall|i: int| 0 <= i < s.len() ==> pred(#[trigger] s[i]),
    ensures
        s.filter(pred) == s,
    decreases s.len(),
{
    reveal(Seq::filter);
    if s.len() > 0 {
        lemma_filter_keeps_all(s.drop_last(), pred);
        assert(s.drop_last().push(s.last()) =~= s);
    }
}

/// A sequence none of whose members passes the test is filtered to nothing.
pub proof fn lemma_filter_keeps_none<A>(s: Seq<A>, pred: spec_fn(A) -> bool)
    requires
        forall|i: int| 0 <= i < s.len() ==> !pred(#[trigger] s[i]),
    ensures
        s.filter(pred) == Seq::<A>::empty(),
    decreases s.len(),
{
    reveal(Seq::filter);
    if s.len() > 0 {
        lemma_filter_keeps_none(s.drop_last(), pred);
    } else {
        assert(s =~= Seq::<A>::empty());
    }
}

} // verus!
