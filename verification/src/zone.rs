//! The integer bookkeeping of a zone: which entities are in which cell, and
//! which static colliders cover which cells.
//!
//! Entities and statics are known here by their ids; their positions and
//! shapes stay with the physics. Each entity is listed in exactly one cell,
//! the one it is in. A static is listed in every cell of the rectangle it
//! covers, which is recorded as the index of its lowest cell and its width
//! and height in cells.

use vstd::prelude::*;
use std::collections::HashMap;

use crate::cell_lists::{
    list_of, no_empty_lists, add_step, remove_step, add_to_cells, remove_from_cells,
    removal_finds, lemma_add_counts, lemma_remove_counts,
};
use crate::grid::{
    CellCoords, DIMENSION_CELL_LENGTH, spec_index, index_fits, has_neighbours, spec_surrounding,
    get_cell_and_surrounding_indicies, get_index_at_int_coords,
};
use crate::id_gen::IdGen;
use crate::lists::{
    occurrences, remove_first, lemma_occurrences_contains, lemma_remove_first_at,
    lemma_occurrences_push,
};

verus! {

broadcast use vstd::std_specs::hash::group_hash_axioms;

/// The lists of a map from cell to vector, as sequences.
pub open spec fn lists_view<T>(m: Map<u32, Vec<T>>) -> Map<u32, Seq<T>> {
    m.map_values(|v: Vec<T>| v@)
}

/// Takes the list of cell `c` out of the map (an empty one if it has none).
fn take_list<T>(m: &mut HashMap<u32, Vec<T>>, c: u32) -> (v: Vec<T>)
    ensures
        lists_view(final(m)@) == lists_view(old(m)@).remove(c),
        v@ == list_of(lists_view(old(m)@), c),
{
    let r = m.remove(&c);
    assert(lists_view(m@) =~= lists_view(old(m)@).remove(c));
    match r {
        Some(v) => v,
        None => Vec::new(),
    }
}

/// Puts a list back as the list of cell `c`, unless it is empty.
fn put_list<T>(m: &mut HashMap<u32, Vec<T>>, c: u32, v: Vec<T>)
    requires
        !lists_view(old(m)@).contains_key(c),
    ensures
        lists_view(final(m)@) == if v@.len() == 0 {
            lists_view(old(m)@)
        } else {
            lists_view(old(m)@).insert(c, v@)
        },
{
    if v.len() != 0 {
        m.insert(c, v);
        assert(lists_view(m@) =~= lists_view(old(m)@).insert(c, v@));
    }
}

/// The index of the first `x` in `v`, which must hold one.
fn position_of_u32(v: &Vec<u32>, x: u32) -> (j: usize)
    requires
        occurrences(v@, x) > 0,
    ensures
        j < v@.len(),
        v@[j as int] == x,
        forall|i: int| 0 <= i < j ==> v@[i] != x,
{
    proof {
        lemma_occurrences_contains(v@, x);
    }
    let mut j: usize = 0;
    while j < v.len()
        invariant
            j <= v@.len(),
            v@.contains(x),
            forall|i: int| 0 <= i < j ==> v@[i] != x,
        decreases v@.len() - j,
    {
        if v[j] == x {
            return j;
        }
        j = j + 1;
    }
    assert(false);
    0
}

/// Removes the first `x` from `v`, which must hold one.
fn remove_first_u32(v: &mut Vec<u32>, x: u32)
    requires
        occurrences(old(v)@, x) > 0,
    ensures
        final(v)@ == remove_first(old(v)@, x),
{
    let j = position_of_u32(v, x);
    proof {
        lemma_remove_first_at(v@, x, j as int);
    }
    v.remove(j);
}

/// The index of the first `x` in `v`, which must hold one.
fn position_of_u64(v: &Vec<u64>, x: u64) -> (j: usize)
    requires
        occurrences(v@, x) > 0,
    ensures
        j < v@.len(),
        v@[j as int] == x,
        forall|i: int| 0 <= i < j ==> v@[i] != x,
{
    proof {
        lemma_occurrences_contains(v@, x);
    }
    let mut j: usize = 0;
    while j < v.len()
        invariant
            j <= v@.len(),
            v@.contains(x),
            forall|i: int| 0 <= i < j ==> v@[i] != x,
        decreases v@.len() - j,
    {
        if v[j] == x {
            return j;
        }
        j = j + 1;
    }
    assert(false);
    0
}

/// Removes the first `x` from `v`, which must hold one.
fn remove_first_u64(v: &mut Vec<u64>, x: u64)
    requires
        occurrences(old(v)@, x) > 0,
    ensures
        final(v)@ == remove_first(old(v)@, x),
{
    let j = position_of_u64(v, x);
    proof {
        lemma_remove_first_at(v@, x, j as int);
    }
    v.remove(j);
}

/// Appending to one cell is adding to the run made of that cell alone.
proof fn lemma_single_cell<T>(m: Map<u32, Seq<T>>, c: u32, x: T)
    ensures
        add_to_cells(m, seq![c], x) == add_step(m, c, x),
        remove_from_cells(m, seq![c], x) == remove_step(m, c, x),
        removal_finds(m, seq![c], x) == (m.contains_key(c) ==> occurrences(m[c], x) > 0),
        forall|d: u32| #[trigger] occurrences(seq![c], d) == if d == c {
            1nat
        } else {
            0nat
        },
{
    assert(seq![c].drop_last() =~= Seq::<u32>::empty());
    assert(seq![c].last() == c);
    assert(add_to_cells(m, Seq::<u32>::empty(), x) == m);
    assert(remove_from_cells(m, Seq::<u32>::empty(), x) == m);
    assert(removal_finds(m, Seq::<u32>::empty(), x));
    assert forall|d: u32| #[trigger] occurrences(seq![c], d) == if d == c {
        1nat
    } else {
        0nat
    } by {
        lemma_occurrences_push(Seq::<u32>::empty(), c, d);
        assert(Seq::<u32>::empty().push(c) =~= seq![c]);
    }
}

/// The lists of the cells of `cells`, one after the other.
pub open spec fn gathered<T>(m: Map<u32, Seq<T>>, cells: Seq<u32>) -> Seq<T>
    decreases cells.len(),
{
    if cells.len() == 0 {
        seq![]
    } else {
        gathered(m, cells.drop_last()) + list_of(m, cells.last())
    }
}

/// The rectangle a static covers: the index of its lowest cell, and how many
/// cells it extends to the right and upwards beyond that cell.
#[derive(Debug, Clone, Copy, PartialEq, Eq, Structural)]
pub struct StaticCells {
    pub index: u32,
    pub width: u8,
    pub height: u8,
}

/// The cells of row `y` from column `x0` to column `x1`, left to right.
pub open spec fn row_cells(y: int, x0: int, x1: int) -> Seq<u32> {
    Seq::new(
        if x1 >= x0 {
            (x1 - x0 + 1) as nat
        } else {
            0
        },
        |i: int| (DIMENSION_CELL_LENGTH * y + x0 + i) as u32,
    )
}

/// The cells of the rectangle from (x0, y0) to (x1, y1), row by row from
/// the bottom, each row left to right.
pub open spec fn rect_cells(x0: int, y0: int, x1: int, y1: int) -> Seq<u32>
    decreases (if y1 >= y0 {
        y1 - y0 + 1
    } else {
        0
    }),
{
    if y1 < y0 {
        seq![]
    } else {
        rect_cells(x0, y0, x1, y1 - 1) + row_cells(y1, x0, x1)
    }
}

/// The cells of the rectangle a static record describes.
pub open spec fn static_rect(s: StaticCells) -> Seq<u32> {
    let x0 = s.index as int % DIMENSION_CELL_LENGTH as int;
    let y0 = s.index as int / DIMENSION_CELL_LENGTH as int;
    rect_cells(x0, y0, x0 + s.width, y0 + s.height)
}

/// The indices of all cells a static record describes fit in 32 bits.
pub open spec fn static_fits(s: StaticCells) -> bool {
    let x0 = s.index as int % DIMENSION_CELL_LENGTH as int;
    let y0 = s.index as int / DIMENSION_CELL_LENGTH as int;
    DIMENSION_CELL_LENGTH * (y0 + s.height) + x0 + s.width <= u32::MAX
}

/// The entity and static bookkeeping of a zone.
pub struct ZoneGrid {
    cells: HashMap<u32, Vec<u32>>,
    entity_cells: HashMap<u32, u32>,
    statics: HashMap<u32, Vec<u64>>,
    static_cells: HashMap<u64, StaticCells>,
    entity_id_gen: IdGen,
    static_id_gen: IdGen,
}

impl ZoneGrid {
    /// The entities listed in each cell.
    pub closed spec fn cell_entities(&self) -> Map<u32, Seq<u32>> {
        lists_view(self.cells@)
    }

    /// The cell each entity is in.
    pub closed spec fn entity_cell_map(&self) -> Map<u32, u32> {
        self.entity_cells@
    }

    /// The statics listed in each cell.
    pub closed spec fn cell_statics(&self) -> Map<u32, Seq<u64>> {
        lists_view(self.statics@)
    }

    /// The rectangle of each static.
    pub closed spec fn static_records(&self) -> Map<u64, StaticCells> {
        self.static_cells@
    }

    /// The id the next spawned entity gets.
    pub closed spec fn next_entity_id(&self) -> u32 {
        self.entity_id_gen.next()
    }

    /// The id the next added static gets.
    pub closed spec fn next_static_id(&self) -> u32 {
        self.static_id_gen.next()
    }

    /// The bookkeeping is consistent: every entity is listed once, in its
    /// cell, and nowhere else; every static is listed in each cell of its
    /// rectangle as often as the cell occurs in it, and nowhere else; no cell
    /// keeps an empty list; ids handed out are below the next ones.
    pub closed spec fn wf(&self) -> bool {
        &&& no_empty_lists(self.cell_entities())
        &&& no_empty_lists(self.cell_statics())
        &&& forall|c: u32, e: u32|
            #[trigger] occurrences(list_of(self.cell_entities(), c), e) == if self.entity_cells@.contains_key(e)
                && self.entity_cells@[e] == c {
                1nat
            } else {
                0nat
            }
        &&& forall|e: u32| #[trigger] self.entity_cells@.contains_key(e) ==> e < self.entity_id_gen.next()
        &&& forall|c: u32, s: u64|
            #[trigger] occurrences(list_of(self.cell_statics(), c), s) == if self.static_cells@.contains_key(s) {
                occurrences(static_rect(self.static_cells@[s]), c)
            } else {
                0nat
            }
        &&& forall|s: u64|
            #[trigger] self.static_cells@.contains_key(s) ==> s < self.static_id_gen.next() && static_fits(
                self.static_cells@[s],
            )
    }

    /// An empty zone; entity ids start at 0 and static ids at 1.
    pub fn new() -> (z: Self)
        ensures
            z.wf(),
            z.cell_entities() == Map::<u32, Seq<u32>>::empty(),
            z.entity_cell_map() == Map::<u32, u32>::empty(),
            z.cell_statics() == Map::<u32, Seq<u64>>::empty(),
            z.static_records() == Map::<u64, StaticCells>::empty(),
            z.next_entity_id() == 0,
            z.next_static_id() == 1,
    {
        let z = ZoneGrid {
            cells: HashMap::new(),
            entity_cells: HashMap::new(),
            statics: HashMap::new(),
            static_cells: HashMap::new(),
            entity_id_gen: IdGen::new(0),
            static_id_gen: IdGen::new(1),
        };
        assert(z.cell_entities() =~= Map::<u32, Seq<u32>>::empty());
        assert(z.cell_statics() =~= Map::<u32, Seq<u64>>::empty());
        z
    }

    /// The cell entity `id` is in, if it exists.
    pub fn entity_cell(&self, id: u32) -> (c: Option<u32>)
        ensures
            c == if self.entity_cell_map().contains_key(id) {
                Some(self.entity_cell_map()[id])
            } else {
                None::<u32>
            },
    {
        match self.entity_cells.get(&id) {
            Some(c) => Some(*c),
            None => None,
        }
    }

    /// Registers a new entity in cell `cell_index` and returns its id.
    pub fn spawn_entity(&mut self, cell_index: u32) -> (id: u32)
        requires
            old(self).wf(),
            old(self).next_entity_id() < u32::MAX,
        ensures
            final(self).wf(),
            id == old(self).next_entity_id(),
            final(self).next_entity_id() == old(self).next_entity_id() + 1,
            final(self).cell_entities() == add_step(old(self).cell_entities(), cell_index, id),
            final(self).entity_cell_map() == old(self).entity_cell_map().insert(id, cell_index),
            final(self).cell_statics() == old(self).cell_statics(),
            final(self).static_records() == old(self).static_records(),
            final(self).next_static_id() == old(self).next_static_id(),
    {
        let ghost before = self.cell_entities();
        let id = self.entity_id_gen.get();
        let mut list = take_list(&mut self.cells, cell_index);
        list.push(id);
        put_list(&mut self.cells, cell_index, list);
        self.entity_cells.insert(id, cell_index);
        proof {
            assert(self.cell_entities() =~= add_step(before, cell_index, id));
            lemma_single_cell(before, cell_index, id);
            lemma_add_counts(before, seq![cell_index], id);
            assert(!old(self).entity_cells@.contains_key(id));
            assert forall|c: u32, e: u32|
                #[trigger] occurrences(list_of(self.cell_entities(), c), e) == if self.entity_cells@.contains_key(e)
                    && self.entity_cells@[e] == c {
                    1nat
                } else {
                    0nat
                } by {
                assert(occurrences(list_of(before, c), e) == if old(self).entity_cells@.contains_key(e)
                    && old(self).entity_cells@[e] == c {
                    1nat
                } else {
                    0nat
                });
            }
        }
        id
    }

    /// Unregisters entity `id`; returns the cell it was in, if it existed.
    pub fn despawn_entity(&mut self, id: u32) -> (r: Option<u32>)
        requires
            old(self).wf(),
        ensures
            final(self).wf(),
            final(self).next_entity_id() == old(self).next_entity_id(),
            final(self).cell_statics() == old(self).cell_statics(),
            final(self).static_records() == old(self).static_records(),
            final(self).next_static_id() == old(self).next_static_id(),
            old(self).entity_cell_map().contains_key(id) ==> {
                &&& r == Some(old(self).entity_cell_map()[id])
                &&& final(self).entity_cell_map() == old(self).entity_cell_map().remove(id)
                &&& final(self).cell_entities() == remove_step(
                    old(self).cell_entities(),
                    old(self).entity_cell_map()[id],
                    id,
                )
            },
            !old(self).entity_cell_map().contains_key(id) ==> {
                &&& r is None
                &&& final(self).entity_cell_map() == old(self).entity_cell_map()
                &&& final(self).cell_entities() == old(self).cell_entities()
            },
            forall|c: u32| #[trigger] occurrences(list_of(final(self).cell_entities(), c), id) == 0,
    {
        match self.entity_cells.remove(&id) {
            Some(cell) => {
                let ghost before = self.cell_entities();
                proof {
                    assert(occurrences(list_of(before, cell), id) == 1);
                    assert(before.contains_key(cell)) by {
                        if !before.contains_key(cell) {
                            assert(list_of(before, cell) =~= Seq::<u32>::empty());
                        }
                    }
                }
                let mut list = take_list(&mut self.cells, cell);
                remove_first_u32(&mut list, id);
                put_list(&mut self.cells, cell, list);
                proof {
                    assert(self.cell_entities() =~= remove_step(before, cell, id));
                    lemma_single_cell(before, cell, id);
                    lemma_remove_counts(before, seq![cell], id);
                    assert forall|c: u32, e: u32|
                        #[trigger] occurrences(list_of(self.cell_entities(), c), e) == if self.entity_cells@.contains_key(e)
                            && self.entity_cells@[e] == c {
                            1nat
                        } else {
                            0nat
                        } by {
                        assert(occurrences(list_of(before, c), e) == if old(self).entity_cells@.contains_key(e)
                            && old(self).entity_cells@[e] == c {
                            1nat
                        } else {
                            0nat
                        });
                    }
                }
                Some(cell)
            },
            None => None,
        }
    }

    /// Entity `id` is now in cell `new_cell`; it moves there if that is not
    /// the cell it was in.
    pub fn move_entity(&mut self, id: u32, new_cell: u32)
        requires
            old(self).wf(),
            old(self).entity_cell_map().contains_key(id),
        ensures
            final(self).wf(),
            final(self).next_entity_id() == old(self).next_entity_id(),
            final(self).cell_statics() == old(self).cell_statics(),
            final(self).static_records() == old(self).static_records(),
            final(self).next_static_id() == old(self).next_static_id(),
            final(self).entity_cell_map() == old(self).entity_cell_map().insert(id, new_cell),
            final(self).cell_entities() == if old(self).entity_cell_map()[id] == new_cell {
                old(self).cell_entities()
            } else {
                add_step(
                    remove_step(old(self).cell_entities(), old(self).entity_cell_map()[id], id),
                    new_cell,
                    id,
                )
            },
            forall|c: u32|
                #[trigger] occurrences(list_of(final(self).cell_entities(), c), id) == if c == new_cell {
                    1nat
                } else {
                    0nat
                },
    {
        let last = match self.entity_cells.get(&id) {
            Some(c) => *c,
            None => {
                assert(false);
                0
            },
        };
        if last == new_cell {
            self.entity_cells.insert(id, new_cell);
            assert(self.entity_cells@ =~= old(self).entity_cells@);
            return;
        }
        let ghost before = self.cell_entities();
        proof {
            assert(occurrences(list_of(before, last), id) == 1);
            assert(before.contains_key(last)) by {
                if !before.contains_key(last) {
                    assert(list_of(before, last) =~= Seq::<u32>::empty());
                }
            }
        }
        let mut list = take_list(&mut self.cells, last);
        remove_first_u32(&mut list, id);
        put_list(&mut self.cells, last, list);
        let ghost middle = self.cell_entities();
        proof {
            assert(middle =~= remove_step(before, last, id));
            lemma_single_cell(before, last, id);
            lemma_remove_counts(before, seq![last], id);
        }
        let mut list2 = take_list(&mut self.cells, new_cell);
        list2.push(id);
        put_list(&mut self.cells, new_cell, list2);
        self.entity_cells.insert(id, new_cell);
        proof {
            assert(self.cell_entities() =~= add_step(middle, new_cell, id));
            lemma_single_cell(middle, new_cell, id);
            lemma_add_counts(middle, seq![new_cell], id);
            assert forall|c: u32, e: u32|
                #[trigger] occurrences(list_of(self.cell_entities(), c), e) == if self.entity_cells@.contains_key(e)
                    && self.entity_cells@[e] == c {
                    1nat
                } else {
                    0nat
                } by {
                assert(occurrences(list_of(before, c), e) == if old(self).entity_cells@.contains_key(e)
                    && old(self).entity_cells@[e] == c {
                    1nat
                } else {
                    0nat
                });
                assert(occurrences(list_of(middle, c), e) == occurrences(list_of(before, c), e) - if e
                    == id {
                    occurrences(seq![last], c)
                } else {
                    0
                });
            }
        }
    }

    /// The statics listed in cell `index` and its eight neighbours, in the
    /// order of `spec_surrounding`, each cell's list in order.
    pub fn near_statics(&self, index: u32) -> (v: Vec<u64>)
        requires
            has_neighbours(index),
        ensures
            v@ == gathered(self.cell_statics(), spec_surrounding(index)),
    {
        let around = get_cell_and_surrounding_indicies(index);
        let mut v: Vec<u64> = Vec::new();
        let mut i: usize = 0;
        while i < around.len()
            invariant
                0 <= i <= around@.len(),
                v@ == gathered(self.cell_statics(), around@.take(i as int)),
            decreases around@.len() - i,
        {
            let c = around[i];
            let ghost before = v@;
            match self.statics.get(&c) {
                Some(list) => {
                    let mut j: usize = 0;
                    while j < list.len()
                        invariant
                            0 <= j <= list@.len(),
                            v@ == before + list@.take(j as int),
                        decreases list@.len() - j,
                    {
                        v.push(list[j]);
                        assert(list@.take(j + 1) =~= list@.take(j as int).push(list@[j as int]));
                        j = j + 1;
                    }
                    assert(list@.take(list@.len() as int) =~= list@);
                    assert(list_of(self.cell_statics(), c) == list@);
                },
                None => {
                    assert(list_of(self.cell_statics(), c) =~= Seq::<u64>::empty());
                    assert(v@ =~= before + Seq::<u64>::empty());
                },
            }
            proof {
                let t = around@.take(i + 1);
                assert(t.drop_last() =~= around@.take(i as int));
                assert(t.last() == c);
            }
            i = i + 1;
        }
        assert(around@.take(around@.len() as int) =~= around@);
        v
    }

    /// The entities listed in cell `index` and its eight neighbours, in the
    /// order of `spec_surrounding`, each cell's list in order.
    pub fn near_entities(&self, index: u32) -> (v: Vec<u32>)
        requires
            has_neighbours(index),
        ensures
            v@ == gathered(self.cell_entities(), spec_surrounding(index)),
    {
        let around = get_cell_and_surrounding_indicies(index);
        let mut v: Vec<u32> = Vec::new();
        let mut i: usize = 0;
        while i < around.len()
            invariant
                0 <= i <= around@.len(),
                v@ == gathered(self.cell_entities(), around@.take(i as int)),
            decreases around@.len() - i,
        {
            let c = around[i];
            let ghost before = v@;
            match self.cells.get(&c) {
                Some(list) => {
                    let mut j: usize = 0;
                    while j < list.len()
                        invariant
                            0 <= j <= list@.len(),
                            v@ == before + list@.take(j as int),
                        decreases list@.len() - j,
                    {
                        v.push(list[j]);
                        assert(list@.take(j + 1) =~= list@.take(j as int).push(list@[j as int]));
                        j = j + 1;
                    }
                    assert(list@.take(list@.len() as int) =~= list@);
                    assert(list_of(self.cell_entities(), c) == list@);
                },
                None => {
                    assert(list_of(self.cell_entities(), c) =~= Seq::<u32>::empty());
                    assert(v@ =~= before + Seq::<u32>::empty());
                },
            }
            proof {
                let t = around@.take(i + 1);
                assert(t.drop_last() =~= around@.take(i as int));
                assert(t.last() == c);
            }
            i = i + 1;
        }
        assert(around@.take(around@.len() as int) =~= around@);
        v
    }

    /// Registers a new static covering the cells from `min` to `max` and
    /// returns its id. The static is listed in each cell of the rectangle,
    /// row by row from the bottom; its rectangle is recorded as the index of
    /// `min` and the extent in cells. When `min` lies inside the grid (its
    /// `x` below the grid width, as for every position in the world) the
    /// bookkeeping stays consistent.
    pub fn add_static(&mut self, min: CellCoords, max: CellCoords) -> (id: u64)
        requires
            old(self).wf(),
            old(self).next_static_id() < u32::MAX,
            min.x <= max.x,
            min.y <= max.y,
            max.x - min.x <= 255,
            max.y - min.y <= 255,
            index_fits(max),
        ensures
            id == old(self).next_static_id(),
            final(self).next_static_id() == old(self).next_static_id() + 1,
            final(self).cell_statics() == add_to_cells(
                old(self).cell_statics(),
                rect_cells(min.x as int, min.y as int, max.x as int, max.y as int),
                id,
            ),
            final(self).static_records() == old(self).static_records().insert(
                id,
                StaticCells {
                    index: spec_index(min) as u32,
                    width: (max.x - min.x) as u8,
                    height: (max.y - min.y) as u8,
                },
            ),
            final(self).cell_entities() == old(self).cell_entities(),
            final(self).entity_cell_map() == old(self).entity_cell_map(),
            final(self).next_entity_id() == old(self).next_entity_id(),
            min.x < DIMENSION_CELL_LENGTH ==> final(self).wf(),
    {
        let id = self.static_id_gen.get() as u64;
        let cells = rect_indices(min, max);
        let ghost before = self.cell_statics();
        let mut i: usize = 0;
        while i < cells.len()
            invariant
                0 <= i <= cells@.len(),
                self.cell_statics() == add_to_cells(before, cells@.take(i as int), id),
                self.static_cells@ == old(self).static_cells@,
                self.cells@ == old(self).cells@,
                self.entity_cells@ == old(self).entity_cells@,
                self.entity_id_gen == old(self).entity_id_gen,
                self.static_id_gen.next() == old(self).static_id_gen.next() + 1,
            decreases cells@.len() - i,
        {
            let c = cells[i];
            let mut list = take_list(&mut self.statics, c);
            list.push(id);
            put_list(&mut self.statics, c, list);
            proof {
                let t = cells@.take(i + 1);
                assert(t.drop_last() =~= cells@.take(i as int));
                assert(t.last() == c);
                assert(self.cell_statics() =~= add_step(
                    add_to_cells(before, cells@.take(i as int), id),
                    c,
                    id,
                ));
            }
            i = i + 1;
        }
        assert(cells@.take(cells@.len() as int) =~= cells@);
        let index = get_index_at_int_coords(min);
        let width = (max.x - min.x) as u8;
        let height = (max.y - min.y) as u8;
        let record = StaticCells { index, width, height };
        self.static_cells.insert(id, record);
        proof {
            let rect = rect_cells(min.x as int, min.y as int, max.x as int, max.y as int);
            lemma_add_counts(before, rect, id);
            if min.x < DIMENSION_CELL_LENGTH {
                crate::grid::lemma_index_coords_roundtrip(min, min);
                assert(static_rect(record) == rect);
                assert(!old(self).static_cells@.contains_key(id));
                assert forall|c: u32, s: u64|
                    #[trigger] occurrences(list_of(self.cell_statics(), c), s) == if self.static_cells@.contains_key(s) {
                        occurrences(static_rect(self.static_cells@[s]), c)
                    } else {
                        0nat
                    } by {
                    assert(occurrences(list_of(before, c), s) == if old(self).static_cells@.contains_key(s) {
                        occurrences(static_rect(old(self).static_cells@[s]), c)
                    } else {
                        0nat
                    });
                }
                assert forall|e: u32| #[trigger] self.entity_cells@.contains_key(e) implies e
                    < self.entity_id_gen.next() by {
                    assert(old(self).entity_cells@.contains_key(e));
                }
                assert forall|c: u32, e: u32|
                    #[trigger] occurrences(list_of(self.cell_entities(), c), e) == if self.entity_cells@.contains_key(e)
                        && self.entity_cells@[e] == c {
                        1nat
                    } else {
                        0nat
                    } by {
                    assert(occurrences(list_of(old(self).cell_entities(), c), e) == if old(self).entity_cells@.contains_key(e)
                        && old(self).entity_cells@[e] == c {
                        1nat
                    } else {
                        0nat
                    });
                }
            }
        }
        id
    }

    /// Unregisters static `id`, taking it once out of each cell of its
    /// rectangle, in the order it was added.
    pub fn remove_static(&mut self, id: u64)
        requires
            old(self).wf(),
            old(self).static_records().contains_key(id),
        ensures
            final(self).wf(),
            final(self).cell_statics() == remove_from_cells(
                old(self).cell_statics(),
                static_rect(old(self).static_records()[id]),
                id,
            ),
            final(self).static_records() == old(self).static_records().remove(id),
            forall|c: u32| #[trigger] occurrences(list_of(final(self).cell_statics(), c), id) == 0,
            final(self).next_static_id() == old(self).next_static_id(),
            final(self).cell_entities() == old(self).cell_entities(),
            final(self).entity_cell_map() == old(self).entity_cell_map(),
            final(self).next_entity_id() == old(self).next_entity_id(),
    {
        let record = match self.static_cells.remove(&id) {
            Some(r) => r,
            None => {
                assert(false);
                StaticCells { index: 0, width: 0, height: 0 }
            },
        };
        let coords = crate::grid::get_int_coords_at_index(record.index);
        let max = CellCoords { x: coords.x + record.width as u32, y: coords.y + record.height as u32 };
        let cells = rect_indices(coords, max);
        assert(cells@ == static_rect(record));
        let ghost before = self.cell_statics();
        let ghost rect = cells@;
        proof {
            assert forall|c: u32| #[trigger] occurrences(list_of(before, c), id) >= occurrences(
                rect,
                c,
            ) by {
                assert(occurrences(list_of(before, c), id) == if old(self).static_cells@.contains_key(id) {
                    occurrences(static_rect(old(self).static_cells@[id]), c)
                } else {
                    0nat
                });
            }
            lemma_remove_counts(before, rect, id);
        }
        let mut i: usize = 0;
        while i < cells.len()
            invariant
                0 <= i <= cells@.len(),
                rect == cells@,
                removal_finds(before, rect, id),
                self.cell_statics() == remove_from_cells(before, cells@.take(i as int), id),
                self.static_cells@ == old(self).static_cells@.remove(id),
                self.cells@ == old(self).cells@,
                self.entity_cells@ == old(self).entity_cells@,
                self.entity_id_gen == old(self).entity_id_gen,
                self.static_id_gen == old(self).static_id_gen,
            decreases cells@.len() - i,
        {
            let c = cells[i];
            let ghost cur = self.cell_statics();
            proof {
                lemma_removal_finds_prefix(before, rect, id, i + 1);
                let t = cells@.take(i + 1);
                assert(t.drop_last() =~= cells@.take(i as int));
                assert(t.last() == c);
            }
            let mut list = take_list(&mut self.statics, c);
            if list.len() > 0 {
                remove_first_u64(&mut list, id);
            }
            put_list(&mut self.statics, c, list);
            proof {
                assert(self.cell_statics() =~= remove_step(cur, c, id));
            }
            i = i + 1;
        }
        assert(cells@.take(cells@.len() as int) =~= cells@);
        proof {
            assert forall|c: u32, s: u64|
                #[trigger] occurrences(list_of(self.cell_statics(), c), s) == if self.static_cells@.contains_key(s) {
                    occurrences(static_rect(self.static_cells@[s]), c)
                } else {
                    0nat
                } by {
                assert(occurrences(list_of(before, c), s) == if old(self).static_cells@.contains_key(s) {
                    occurrences(static_rect(old(self).static_cells@[s]), c)
                } else {
                    0nat
                });
            }
            assert forall|c: u32, e: u32|
                #[trigger] occurrences(list_of(self.cell_entities(), c), e) == if self.entity_cells@.contains_key(e)
                    && self.entity_cells@[e] == c {
                    1nat
                } else {
                    0nat
                } by {
                assert(occurrences(list_of(old(self).cell_entities(), c), e) == if old(self).entity_cells@.contains_key(e)
                    && old(self).entity_cells@[e] == c {
                    1nat
                } else {
                    0nat
                });
            }
        }
    }
}

/// The indices of the cells from `min` to `max`, row by row from the bottom,
/// each row left to right.
pub fn rect_indices(min: CellCoords, max: CellCoords) -> (v: Vec<u32>)
    requires
        min.x <= max.x,
        min.y <= max.y,
        index_fits(max),
    ensures
        v@ == rect_cells(min.x as int, min.y as int, max.x as int, max.y as int),
{
    let mut v: Vec<u32> = Vec::new();
    let mut y: u64 = min.y as u64;
    assert(rect_cells(min.x as int, min.y as int, max.x as int, min.y - 1) =~= Seq::<u32>::empty());
    while y <= max.y as u64
        invariant
            min.x <= max.x,
            min.y <= y <= max.y + 1,
            index_fits(max),
            v@ == rect_cells(min.x as int, min.y as int, max.x as int, y - 1),
        decreases max.y + 1 - y,
    {
        let mut x: u64 = min.x as u64;
        let ghost rows = v@;
        assert(row_cells(y as int, min.x as int, min.x - 1) =~= Seq::<u32>::empty());
        assert(rows + Seq::<u32>::empty() =~= rows);
        while x <= max.x as u64
            invariant
                min.x <= x <= max.x + 1,
                min.y <= y <= max.y,
                index_fits(max),
                rows == rect_cells(min.x as int, min.y as int, max.x as int, y - 1),
                v@ == rows + row_cells(y as int, min.x as int, x - 1),
            decreases max.x + 1 - x,
        {
            assert(DIMENSION_CELL_LENGTH * y + x <= DIMENSION_CELL_LENGTH * max.y + max.x);
            let index = (8192 * y + x) as u32;
            v.push(index);
            assert(row_cells(y as int, min.x as int, x as int) =~= row_cells(
                y as int,
                min.x as int,
                x - 1,
            ).push(index));
            assert(v@ =~= rows + row_cells(y as int, min.x as int, x as int));
            x = x + 1;
        }
        y = y + 1;
    }
    v
}

/// Every prefix of a run whose removal always finds the item also has that
/// property.
pub proof fn lemma_removal_finds_prefix<T>(m: Map<u32, Seq<T>>, cells: Seq<u32>, x: T, i: int)
    requires
        removal_finds(m, cells, x),
        0 <= i <= cells.len(),
    ensures
        removal_finds(m, cells.take(i), x),
    decreases cells.len(),
{
    if i == cells.len() {
        assert(cells.take(i) =~= cells);
    } else {
        lemma_removal_finds_prefix(m, cells.drop_last(), x, i);
        assert(cells.drop_last().take(i) =~= cells.take(i));
    }
}

/// Despawning an entity right after spawning it gives back the cell
/// lists as they were.
pub proof fn lemma_despawn_undoes_spawn(m: Map<u32, Seq<u32>>, cell: u32, id: u32)
    requires
        no_empty_lists(m),
        forall|c: u32| #[trigger] occurrences(list_of(m, c), id) == 0,
    ensures
        remove_step(add_step(m, cell, id), cell, id) == m,
{
    lemma_single_cell(m, cell, id);
    lemma_single_cell(add_step(m, cell, id), cell, id);
    crate::cell_lists::lemma_remove_undoes_add(m, seq![cell], id);
}

/// Removing a static right after adding it gives back the cell lists as
/// they were, for a static whose lowest cell lies inside the grid.
pub proof fn lemma_remove_static_undoes_add_static(
    m: Map<u32, Seq<u64>>,
    min: CellCoords,
    max: CellCoords,
    id: u64,
)
    requires
        no_empty_lists(m),
        forall|c: u32| #[trigger] occurrences(list_of(m, c), id) == 0,
        min.x < DIMENSION_CELL_LENGTH,
        min.x <= max.x,
        min.y <= max.y,
        max.x - min.x <= 255,
        max.y - min.y <= 255,
        index_fits(max),
    ensures
        remove_from_cells(
            add_to_cells(m, rect_cells(min.x as int, min.y as int, max.x as int, max.y as int), id),
            static_rect(
                StaticCells {
                    index: spec_index(min) as u32,
                    width: (max.x - min.x) as u8,
                    height: (max.y - min.y) as u8,
                },
            ),
            id,
        ) == m,
{
    crate::grid::lemma_index_coords_roundtrip(min, min);
    let rect = rect_cells(min.x as int, min.y as int, max.x as int, max.y as int);
    assert(static_rect(
        StaticCells {
            index: spec_index(min) as u32,
            width: (max.x - min.x) as u8,
            height: (max.y - min.y) as u8,
        },
    ) == rect);
    crate::cell_lists::lemma_remove_undoes_add(m, rect, id);
}

impl ZoneGrid {
    /// What well-formedness gives a caller: no cell keeps an empty list, and
    /// the ids the zone hands out next are listed nowhere and recorded
    /// nowhere.
    pub proof fn lemma_wf_facts(&self)
        requires
            self.wf(),
        ensures
            no_empty_lists(self.cell_entities()),
            no_empty_lists(self.cell_statics()),
            !self.entity_cell_map().contains_key(self.next_entity_id()),
            !self.static_records().contains_key(self.next_static_id() as u64),
            forall|c: u32|
                #[trigger] occurrences(list_of(self.cell_entities(), c), self.next_entity_id()) == 0,
            forall|c: u32|
                #[trigger] occurrences(list_of(self.cell_statics(), c), self.next_static_id() as u64)
                    == 0,
    {
        assert forall|c: u32|
            #[trigger] occurrences(list_of(self.cell_statics(), c), self.next_static_id() as u64)
                == 0 by {
            assert(!self.static_cells@.contains_key(self.next_static_id() as u64));
        }
    }

    /// What well-formedness counts: each entity is listed exactly once, in
    /// the cell recorded for it, and no cell lists an unknown entity; each
    /// static is listed in each cell as often as the cell occurs in its
    /// rectangle, and nowhere else; recorded ids are below the next ones.
    pub proof fn lemma_wf_counts(&self)
        requires
            self.wf(),
        ensures
            forall|c: u32, e: u32|
                #[trigger] occurrences(list_of(self.cell_entities(), c), e) == if self.entity_cell_map().contains_key(e)
                    && self.entity_cell_map()[e] == c {
                    1nat
                } else {
                    0nat
                },
            forall|c: u32, s: u64|
                #[trigger] occurrences(list_of(self.cell_statics(), c), s) == if self.static_records().contains_key(s) {
                    occurrences(static_rect(self.static_records()[s]), c)
                } else {
                    0nat
                },
            forall|e: u32| #[trigger] self.entity_cell_map().contains_key(e) ==> e < self.next_entity_id(),
            forall|s: u64|
                #[trigger] self.static_records().contains_key(s) ==> s < self.next_static_id(),
    {
    }

    /// In a zone, despawning the entity that was just spawned gives back the
    /// cell lists and the entity cells as they were: spawning lists the next
    /// id in `cell`, and despawning takes it out of the cell it was put in.
    pub proof fn lemma_zone_despawn_undoes_spawn(&self, cell: u32)
        requires
            self.wf(),
        ensures
            ({
                let id = self.next_entity_id();
                let spawned = self.entity_cell_map().insert(id, cell);
                &&& spawned[id] == cell
                &&& remove_step(add_step(self.cell_entities(), cell, id), spawned[id], id)
                    == self.cell_entities()
                &&& spawned.remove(id) == self.entity_cell_map()
            }),
    {
        self.lemma_wf_facts();
        let id = self.next_entity_id();
        lemma_despawn_undoes_spawn(self.cell_entities(), cell, id);
        assert(self.entity_cell_map().insert(id, cell).remove(id) =~= self.entity_cell_map());
    }

    /// In a zone, removing the static that was just added gives back the
    /// cell lists and the static records as they were.
    pub proof fn lemma_zone_remove_static_undoes_add_static(&self, min: CellCoords, max: CellCoords)
        requires
            self.wf(),
            min.x < DIMENSION_CELL_LENGTH,
            min.x <= max.x,
            min.y <= max.y,
            max.x - min.x <= 255,
            max.y - min.y <= 255,
            index_fits(max),
        ensures
            ({
                let id = self.next_static_id() as u64;
                let added = self.static_records().insert(
                    id,
                    StaticCells {
                        index: spec_index(min) as u32,
                        width: (max.x - min.x) as u8,
                        height: (max.y - min.y) as u8,
                    },
                );
                &&& remove_from_cells(
                    add_to_cells(
                        self.cell_statics(),
                        rect_cells(min.x as int, min.y as int, max.x as int, max.y as int),
                        id,
                    ),
                    static_rect(added[id]),
                    id,
                ) == self.cell_statics()
                &&& added.remove(id) == self.static_records()
            }),
    {
        self.lemma_wf_facts();
        let id = self.next_static_id() as u64;
        lemma_remove_static_undoes_add_static(self.cell_statics(), min, max, id);
        let rec = StaticCells {
            index: spec_index(min) as u32,
            width: (max.x - min.x) as u8,
            height: (max.y - min.y) as u8,
        };
        assert(self.static_records().insert(id, rec).remove(id) =~= self.static_records());
    }
}

} // verus!
