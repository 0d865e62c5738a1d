//! Facts about counting and removing elements of sequences, used for the
//! per-cell lists of a zone.

use vstd::prelude::*;

verus! {

/// How many times `x` occurs in `s`.
pub open spec fn occurrences<T>(s: Seq<T>, x: T) -> nat
    decreases s.len(),
{
    if s.len() == 0 {
        0
    } else {
        (if s[0] == x {
            1nat
        } else {
            0nat
        }) + occurrences(s.skip(1), x)
    }
}

/// `s` without the first occurrence of `x` (unchanged if there is none).
pub open spec fn remove_first<T>(s: Seq<T>, x: T) -> Seq<T>
    decreases s.len(),
{
    if s.len() == 0 {
        s
    } else if s[0] == x {
        s.skip(1)
    } else {
        seq![s[0]] + remove_first(s.skip(1), x)
    }
}

/// `k` copies of `x`.
pub open spec fn repeat<T>(x: T, k: nat) -> Seq<T> {
    Seq::new(k, |i: int| x)
}

pub proof fn lemma_occurrences_concat<T>(a: Seq<T>, b: Seq<T>, x: T)
    ensures
        occurrences(a + b, x) == occurrences(a, x) + occurrences(b, x),
    decreases a.len(),
{
    if a.len() == 0 {
        assert(a + b =~= b);
    } else {
        assert((a + b).skip(1) =~= a.skip(1) + b);
        lemma_occurrences_concat(a.skip(1), b, x);
    }
}

pub proof fn lemma_occurrences_push<T>(s: Seq<T>, y: T, x: T)
    ensures
        occurrences(s.push(y), x) == occurrences(s, x) + if y == x {
            1nat
        } else {
            0nat
        },
{
    lemma_occurrences_concat(s, seq![y], x);
    assert(s.push(y) =~= s + seq![y]);
    assert(seq![y].skip(1) =~= Seq::<T>::empty());
    assert(occurrences(seq![y].skip(1), x) == 0);
}

pub proof fn lemma_occurrences_repeat<T>(x: T, k: nat, y: T)
    ensures
        occurrences(repeat(x, k), y) == if x == y {
            k
        } else {
            0
        },
    decreases k,
{
    if k > 0 {
        assert(repeat(x, k).skip(1) =~= repeat(x, (k - 1) as nat));
        lemma_occurrences_repeat(x, (k - 1) as nat, y);
    }
}

/// An element occurs in a sequence exactly when it is one of its elements.
pub proof fn lemma_occurrences_contains<T>(s: Seq<T>, x: T)
    ensures
        occurrences(s, x) > 0 <==> s.contains(x),
    decreases s.len(),
{
    if s.len() > 0 {
        lemma_occurrences_contains(s.skip(1), x);
        if s[0] != x && s.contains(x) {
            let i = choose|i: int| 0 <= i < s.len() && s[i] == x;
            assert(s.skip(1)[i - 1] == x);
        }
        if s.skip(1).contains(x) {
            let i = choose|i: int| 0 <= i < s.skip(1).len() && s.skip(1)[i] == x;
            assert(s[i + 1] == x);
        }
    }
}

/// Removing the first occurrence of `y` takes one `y` away, if there is one,
/// and nothing else.
pub proof fn lemma_remove_first_occurrences<T>(s: Seq<T>, y: T, x: T)
    ensures
        occurrences(remove_first(s, y), x) == if x == y && occurrences(s, y) > 0 {
            (occurrences(s, x) - 1) as nat
        } else {
            occurrences(s, x)
        },
        remove_first(s, y).len() == if occurrences(s, y) > 0 {
            (s.len() - 1) as nat
        } else {
            s.len()
        },
    decreases s.len(),
{
    if s.len() > 0 {
        if s[0] != y {
            lemma_remove_first_occurrences(s.skip(1), y, x);
            lemma_occurrences_concat(seq![s[0]], remove_first(s.skip(1), y), x);
            assert(seq![s[0]].skip(1) =~= Seq::<T>::empty());
            assert(occurrences(seq![s[0]].skip(1), x) == 0);
            assert(occurrences(s, y) == occurrences(s.skip(1), y));
        } else {
            assert(remove_first(s, y) == s.skip(1));
        }
    }
}

/// Removing the first occurrence, when it is at `j`, removes index `j`.
pub proof fn lemma_remove_first_at<T>(s: Seq<T>, x: T, j: int)
    requires
        0 <= j < s.len(),
        s[j] == x,
        forall|i: int| 0 <= i < j ==> s[i] != x,
    ensures
        remove_first(s, x) == s.remove(j),
    decreases s.len(),
{
    if j == 0 {
        assert(s.skip(1) =~= s.remove(0));
    } else {
        lemma_remove_first_at(s.skip(1), x, j - 1);
        assert(seq![s[0]] + s.skip(1).remove(j - 1) =~= s.remove(j));
    }
}

/// Removing one `x` from a list that ends in copies of `x`, and holds no
/// other, removes one of the copies.
pub proof fn lemma_remove_first_from_tail<T>(a: Seq<T>, x: T, k: nat)
    requires
        occurrences(a, x) == 0,
        k > 0,
    ensures
        remove_first(a + repeat(x, k), x) == a + repeat(x, (k - 1) as nat),
    decreases a.len(),
{
    if a.len() == 0 {
        assert(a + repeat(x, k) =~= repeat(x, k));
        assert(repeat(x, k).skip(1) =~= repeat(x, (k - 1) as nat));
        assert(a + repeat(x, (k - 1) as nat) =~= repeat(x, (k - 1) as nat));
    } else {
        assert((a + repeat(x, k)).skip(1) =~= a.skip(1) + repeat(x, k));
        assert((a + repeat(x, k))[0] == a[0]);
        lemma_remove_first_from_tail(a.skip(1), x, k);
        assert(seq![a[0]] + (a.skip(1) + repeat(x, (k - 1) as nat)) =~= a + repeat(
            x,
            (k - 1) as nat,
        ));
    }
}

} // verus!
