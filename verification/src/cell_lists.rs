//! Maps from cell index to the list of items registered in that cell, and
//! what registering an item in a run of cells, or removing it from them,
//! does to such a map. A cell whose list becomes empty is dropped.

use vstd::prelude::*;

use crate::lists::{
    occurrences, remove_first, repeat, lemma_occurrences_push, lemma_remove_first_occurrences,
    lemma_remove_first_from_tail, lemma_occurrences_concat, lemma_occurrences_repeat,
};

verus! {

/// The list of cell `c`: empty when the cell has none.
pub open spec fn list_of<T>(m: Map<u32, Seq<T>>, c: u32) -> Seq<T> {
    if m.contains_key(c) {
        m[c]
    } else {
        seq![]
    }
}

/// No cell is stored with an empty list.
pub open spec fn no_empty_lists<T>(m: Map<u32, Seq<T>>) -> bool {
    forall|c: u32| #[trigger] m.contains_key(c) ==> m[c].len() > 0
}

/// Appends `x` to the list of cell `c`.
pub open spec fn add_step<T>(m: Map<u32, Seq<T>>, c: u32, x: T) -> Map<u32, Seq<T>> {
    m.insert(c, list_of(m, c).push(x))
}

/// Appends `x` to the list of each cell of `cells`, in order.
pub open spec fn add_to_cells<T>(m: Map<u32, Seq<T>>, cells: Seq<u32>, x: T) -> Map<u32, Seq<T>>
    decreases cells.len(),
{
    if cells.len() == 0 {
        m
    } else {
        add_step(add_to_cells(m, cells.drop_last(), x), cells.last(), x)
    }
}

/// Removes the first `x` from the list of cell `c`, if the cell has a list,
/// and drops the cell if its list becomes empty.
pub open spec fn remove_step<T>(m: Map<u32, Seq<T>>, c: u32, x: T) -> Map<u32, Seq<T>> {
    if m.contains_key(c) {
        let l = remove_first(m[c], x);
        if l.len() == 0 {
            m.remove(c)
        } else {
            m.insert(c, l)
        }
    } else {
        m
    }
}

/// Removes `x` once from each cell of `cells`, in order.
pub open spec fn remove_from_cells<T>(m: Map<u32, Seq<T>>, cells: Seq<u32>, x: T) -> Map<
    u32,
    Seq<T>,
>
    decreases cells.len(),
{
    if cells.len() == 0 {
        m
    } else {
        remove_step(remove_from_cells(m, cells.drop_last(), x), cells.last(), x)
    }
}

/// Every visit of `remove_from_cells` to a cell with a list finds `x` in it.
pub open spec fn removal_finds<T>(m: Map<u32, Seq<T>>, cells: Seq<u32>, x: T) -> bool
    decreases cells.len(),
{
    if cells.len() == 0 {
        true
    } else {
        let p = remove_from_cells(m, cells.drop_last(), x);
        removal_finds(m, cells.drop_last(), x) && (p.contains_key(cells.last()) ==> occurrences(
            p[cells.last()],
            x,
        ) > 0)
    }
}

/// Adding `x` to a run of cells adds it to each cell as many times as the
/// cell occurs in the run, and changes nothing else.
pub proof fn lemma_add_counts<T>(m: Map<u32, Seq<T>>, cells: Seq<u32>, x: T)
    requires
        no_empty_lists(m),
    ensures
        no_empty_lists(add_to_cells(m, cells, x)),
        forall|c: u32, t: T|
            #![trigger occurrences(list_of(add_to_cells(m, cells, x), c), t)]
            occurrences(list_of(add_to_cells(m, cells, x), c), t) == occurrences(list_of(m, c), t)
                + if t == x {
                occurrences(cells, c)
            } else {
                0
            },
        forall|c: u32|
            #![trigger add_to_cells(m, cells, x).contains_key(c)]
            add_to_cells(m, cells, x).contains_key(c) <==> m.contains_key(c) || occurrences(cells, c)
                > 0,
    decreases cells.len(),
{
    if cells.len() == 0 {
        assert forall|c: u32| occurrences(cells, c) == 0 by {}
    } else {
        let d = cells.drop_last();
        let p = add_to_cells(m, d, x);
        lemma_add_counts(m, d, x);
        assert(cells =~= d.push(cells.last()));
        assert forall|c: u32| occurrences(cells, c) == occurrences(d, c) + if cells.last() == c {
            1nat
        } else {
            0nat
        } by {
            lemma_occurrences_push(d, cells.last(), c);
        }
        assert forall|c: u32, t: T|
            #![trigger occurrences(list_of(add_to_cells(m, cells, x), c), t)]
            occurrences(list_of(add_to_cells(m, cells, x), c), t) == occurrences(list_of(m, c), t)
                + if t == x {
                occurrences(cells, c)
            } else {
                0
            } by {
            if c == cells.last() {
                lemma_occurrences_push(list_of(p, c), x, t);
            } else {
                assert(list_of(add_to_cells(m, cells, x), c) == list_of(p, c));
            }
        }
    }
}

/// Removing `x` from a run of cells whose lists hold it at least as many
/// times as each cell occurs in the run always finds it, takes it away that
/// many times, and changes nothing else.
pub proof fn lemma_remove_counts<T>(m: Map<u32, Seq<T>>, cells: Seq<u32>, x: T)
    requires
        no_empty_lists(m),
        forall|c: u32| #[trigger] occurrences(list_of(m, c), x) >= occurrences(cells, c),
    ensures
        removal_finds(m, cells, x),
        no_empty_lists(remove_from_cells(m, cells, x)),
        forall|c: u32, t: T|
            #![trigger occurrences(list_of(remove_from_cells(m, cells, x), c), t)]
            occurrences(list_of(remove_from_cells(m, cells, x), c), t) == occurrences(
                list_of(m, c),
                t,
            ) - if t == x {
                occurrences(cells, c)
            } else {
                0
            },
    decreases cells.len(),
{
    if cells.len() == 0 {
        assert forall|c: u32| occurrences(cells, c) == 0 by {}
    } else {
        let d = cells.drop_last();
        let last = cells.last();
        assert(cells =~= d.push(last));
        assert forall|c: u32| occurrences(cells, c) == occurrences(d, c) + if last == c {
            1nat
        } else {
            0nat
        } by {
            lemma_occurrences_push(d, last, c);
        }
        lemma_remove_counts(m, d, x);
        let p = remove_from_cells(m, d, x);
        assert(occurrences(list_of(p, last), x) > 0);
        assert(p.contains_key(last)) by {
            if !p.contains_key(last) {
                assert(list_of(p, last) =~= Seq::<T>::empty());
            }
        }
        let l = remove_first(p[last], x);
        assert forall|c: u32, t: T|
            #![trigger occurrences(list_of(remove_from_cells(m, cells, x), c), t)]
            occurrences(list_of(remove_from_cells(m, cells, x), c), t) == occurrences(
                list_of(m, c),
                t,
            ) - if t == x {
                occurrences(cells, c)
            } else {
                0
            } by {
            let r = remove_from_cells(m, cells, x);
            assert(occurrences(list_of(p, c), t) == occurrences(list_of(m, c), t) - if t == x {
                occurrences(d, c)
            } else {
                0
            });
            assert(occurrences(list_of(m, c), x) >= occurrences(cells, c));
            if c == last {
                lemma_remove_first_occurrences(p[last], x, t);
                if l.len() == 0 {
                    assert(list_of(r, c) =~= Seq::<T>::empty());
                    assert(occurrences(Seq::<T>::empty(), t) == 0);
                } else {
                    assert(list_of(r, c) == l);
                }
            } else {
                assert(list_of(r, c) == list_of(p, c));
            }
        }
        lemma_remove_first_occurrences(p[last], x, x);
    }
}

/// What removing `x` from a run of cells does to lists that end in copies
/// of `x`: each cell loses as many copies as it occurs in the run.
proof fn lemma_remove_tails<T>(
    base: Map<u32, Seq<T>>,
    big: Map<u32, Seq<T>>,
    cells: Seq<u32>,
    x: T,
    k: spec_fn(u32) -> nat,
)
    requires
        forall|c: u32| #[trigger] occurrences(list_of(base, c), x) == 0,
        forall|c: u32| #[trigger] list_of(big, c) == list_of(base, c) + repeat(x, k(c)),
        forall|c: u32| #[trigger] k(c) >= occurrences(cells, c),
        forall|c: u32| #[trigger] big.contains_key(c) <==> list_of(big, c).len() > 0,
    ensures
        forall|c: u32|
            #[trigger] list_of(remove_from_cells(big, cells, x), c) == list_of(base, c) + repeat(
                x,
                (k(c) - occurrences(cells, c)) as nat,
            ),
        forall|c: u32|
            #[trigger] remove_from_cells(big, cells, x).contains_key(c) <==> list_of(
                remove_from_cells(big, cells, x),
                c,
            ).len() > 0,
    decreases cells.len(),
{
    if cells.len() == 0 {
        assert forall|c: u32| occurrences(cells, c) == 0 by {}
    } else {
        let d = cells.drop_last();
        let last = cells.last();
        assert(cells =~= d.push(last));
        assert forall|c: u32| occurrences(cells, c) == occurrences(d, c) + if last == c {
            1nat
        } else {
            0nat
        } by {
            lemma_occurrences_push(d, last, c);
        }
        lemma_remove_tails(base, big, d, x, k);
        let p = remove_from_cells(big, d, x);
        let j = (k(last) - occurrences(d, last)) as nat;
        assert(list_of(p, last) == list_of(base, last) + repeat(x, j));
        assert(j > 0);
        assert(p.contains_key(last));
        lemma_remove_first_from_tail(list_of(base, last), x, j);
        let r = remove_from_cells(big, cells, x);
        assert forall|c: u32|
            #[trigger] list_of(r, c) == list_of(base, c) + repeat(
                x,
                (k(c) - occurrences(cells, c)) as nat,
            ) by {
            if c == last {
                if remove_first(p[last], x).len() == 0 {
                    assert(list_of(r, c) =~= list_of(base, c) + repeat(
                        x,
                        (k(c) - occurrences(cells, c)) as nat,
                    ));
                }
            }
        }
    }
}

/// What adding `x` to a run of cells does to a map whose lists do not hold
/// `x`: each list gains as many trailing copies as the cell occurs in the run.
proof fn lemma_add_tails<T>(m: Map<u32, Seq<T>>, cells: Seq<u32>, x: T)
    requires
        no_empty_lists(m),
    ensures
        forall|c: u32|
            #[trigger] list_of(add_to_cells(m, cells, x), c) == list_of(m, c) + repeat(
                x,
                occurrences(cells, c),
            ),
        forall|c: u32|
            #[trigger] add_to_cells(m, cells, x).contains_key(c) <==> list_of(
                add_to_cells(m, cells, x),
                c,
            ).len() > 0,
    decreases cells.len(),
{
    if cells.len() == 0 {
        assert forall|c: u32| list_of(m, c) + repeat(x, occurrences(cells, c)) =~= list_of(m, c) by {}
    } else {
        let d = cells.drop_last();
        let last = cells.last();
        assert(cells =~= d.push(last));
        assert forall|c: u32| occurrences(cells, c) == occurrences(d, c) + if last == c {
            1nat
        } else {
            0nat
        } by {
            lemma_occurrences_push(d, last, c);
        }
        lemma_add_tails(m, d, x);
        let p = add_to_cells(m, d, x);
        assert forall|c: u32|
            #[trigger] list_of(add_to_cells(m, cells, x), c) == list_of(m, c) + repeat(
                x,
                occurrences(cells, c),
            ) by {
            if c == last {
                assert(list_of(p, c).push(x) =~= list_of(m, c) + repeat(x, occurrences(cells, c)));
            }
        }
    }
}

/// Removing an item from the cells it was just added to gives back the map
/// as it was, provided no list held the item before.
pub proof fn lemma_remove_undoes_add<T>(m: Map<u32, Seq<T>>, cells: Seq<u32>, x: T)
    requires
        no_empty_lists(m),
        forall|c: u32| #[trigger] occurrences(list_of(m, c), x) == 0,
    ensures
        remove_from_cells(add_to_cells(m, cells, x), cells, x) == m,
{
    let big = add_to_cells(m, cells, x);
    lemma_add_tails(m, cells, x);
    let k = |c: u32| occurrences(cells, c);
    lemma_remove_tails(m, big, cells, x, k);
    let r = remove_from_cells(big, cells, x);
    assert forall|c: u32| #[trigger] list_of(r, c) == list_of(m, c) by {
        assert(list_of(m, c) + repeat(x, 0) =~= list_of(m, c));
    }
    assert forall|c: u32| r.contains_key(c) <==> m.contains_key(c) by {
        assert(list_of(r, c) == list_of(m, c));
    }
    assert(r =~= m);
}

} // verus!
