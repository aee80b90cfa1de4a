//! One discrete step of Conway's Game of Life over a sparse, unbounded set of
//! active cells.
//!
//! The step collects the Moore neighbours of every active cell, tallies how
//! often each square was named, and keeps exactly the squares named three
//! times and the already-active squares named twice.

use vstd::prelude::*;

use crate::booleans::{lift_bool, And, Boolean, Or};
use crate::functions::{filter_list, filter_spec, map_list, map_spec, Function, Predicate};
use crate::lists::{lemma_list_of_seq_of, lemma_seq_of_list_of, list_of, seq_of, List, ListConcatAll};
use crate::numbers::{from_int, increment, numeral_of, to_int, wf, Numeral};
use crate::numbers::{lemma_from_int_wf, lemma_to_int_from_int, PeanoAdd, PeanoEqual};

verus! {

/// A lattice coordinate of the unbounded board.
#[derive(Debug, PartialEq, Eq)]
pub struct Cell {
    pub x: Numeral,
    pub y: Numeral,
}

impl Clone for Cell {
    fn clone(&self) -> (r: Cell)
        ensures
            r == *self,
    {
        Cell { x: self.x.clone(), y: self.y.clone() }
    }
}

impl Clone for List<Cell> {
    fn clone(&self) -> (r: List<Cell>)
        ensures
            r == *self,
        decreases *self,
    {
        match self {
            List::Nil => List::Nil,
            List::Cons(h, t) => List::Cons(h.clone(), Box::new((**t).clone())),
        }
    }
}

/// A lattice offset.
#[derive(Debug, PartialEq, Eq)]
pub struct Delta {
    pub dx: Numeral,
    pub dy: Numeral,
}

/// A cell's coordinates are well-formed numerals; they may be negative.
pub open spec fn cell_wf(c: Cell) -> bool {
    wf(c.x) && wf(c.y)
}

/// Every cell of a sequence is well formed.
pub open spec fn cells_wf(cs: Seq<Cell>) -> bool {
    forall|i: int| 0 <= i < cs.len() ==> cell_wf(#[trigger] cs[i])
}

/// Whether two cells name the same square.
pub open spec fn spec_cell_eq(a: Cell, b: Cell) -> bool {
    to_int(a.x) == to_int(b.x) && to_int(a.y) == to_int(b.y)
}

/// The canonical cell of a pair of integers.
pub open spec fn cell_at(x: int, y: int) -> Cell {
    Cell { x: from_int(x), y: from_int(y) }
}

/// The eight Moore-neighbourhood cells of a cell, in a fixed order: the three
/// columns left to right, and within each column bottom to top, the cell
/// itself excluded.
pub open spec fn spec_neighbors(c: Cell) -> Seq<Cell> {
    let x = to_int(c.x);
    let y = to_int(c.y);
    seq![
        cell_at(x - 1, y - 1),
        cell_at(x - 1, y),
        cell_at(x - 1, y + 1),
        cell_at(x, y - 1),
        cell_at(x, y + 1),
        cell_at(x + 1, y - 1),
        cell_at(x + 1, y),
        cell_at(x + 1, y + 1),
    ]
}

/// Every neighbour of a well-formed cell is well formed.
pub proof fn lemma_neighbors_wf(c: Cell)
    ensures
        cells_wf(spec_neighbors(c)),
{
    let x = to_int(c.x);
    let y = to_int(c.y);
    lemma_from_int_wf(x - 1);
    lemma_from_int_wf(x);
    lemma_from_int_wf(x + 1);
    lemma_from_int_wf(y - 1);
    lemma_from_int_wf(y);
    lemma_from_int_wf(y + 1);
}

/// Partial application of cell translation to a cell: each offset it is
/// applied to yields the shifted cell.
pub struct ApplyDeltaToCell {
    pub cell: Cell,
}

impl Function<Delta, Cell> for ApplyDeltaToCell {
    open spec fn in_dom(&self, d: Delta) -> bool {
        cell_wf(self.cell) && wf(d.dx) && wf(d.dy)
    }

    open spec fn result_of(&self, d: Delta) -> Cell {
        cell_at(to_int(self.cell.x) + to_int(d.dx), to_int(self.cell.y) + to_int(d.dy))
    }

    fn apply(&self, d: &Delta) -> Cell {
        Cell { x: self.cell.x.peano_add(&d.dx), y: self.cell.y.peano_add(&d.dy) }
    }
}

/// The eight Moore-neighbourhood offsets, in the order `spec_neighbors` lists
/// the neighbours.
pub fn neighborly_deltas() -> (r: List<Delta>)
    ensures
        r@.len() == 8,
        forall|i: int|
            0 <= i < 8 ==> wf(#[trigger] r@[i].dx) && wf(r@[i].dy),
        r@[0].dx == from_int(-1) && r@[0].dy == from_int(-1),
        r@[1].dx == from_int(-1) && r@[1].dy == from_int(0),
        r@[2].dx == from_int(-1) && r@[2].dy == from_int(1),
        r@[3].dx == from_int(0) && r@[3].dy == from_int(-1),
        r@[4].dx == from_int(0) && r@[4].dy == from_int(1),
        r@[5].dx == from_int(1) && r@[5].dy == from_int(-1),
        r@[6].dx == from_int(1) && r@[6].dy == from_int(0),
        r@[7].dx == from_int(1) && r@[7].dy == from_int(1),
{
    let m1 = Numeral::Negative(Box::new(Numeral::Successor(Box::new(Numeral::Zero))));
    let z = Numeral::Zero;
    let p1 = Numeral::Successor(Box::new(Numeral::Zero));
    proof {
        reveal_with_fuel(from_int, 3);
        lemma_from_int_wf(-1);
        lemma_from_int_wf(0);
        lemma_from_int_wf(1);
    }
    let t8: List<Delta> = List::Nil;
    let t7 = List::Cons(Delta { dx: p1.clone(), dy: p1.clone() }, Box::new(t8));
    let t6 = List::Cons(Delta { dx: p1.clone(), dy: z.clone() }, Box::new(t7));
    let t5 = List::Cons(Delta { dx: p1.clone(), dy: m1.clone() }, Box::new(t6));
    let t4 = List::Cons(Delta { dx: z.clone(), dy: p1.clone() }, Box::new(t5));
    let t3 = List::Cons(Delta { dx: z.clone(), dy: m1.clone() }, Box::new(t4));
    let t2 = List::Cons(Delta { dx: m1.clone(), dy: p1.clone() }, Box::new(t3));
    let t1 = List::Cons(Delta { dx: m1.clone(), dy: z.clone() }, Box::new(t2));
    let r = List::Cons(Delta { dx: m1.clone(), dy: m1 }, Box::new(t1));
    proof {
        assert(t8@ =~= Seq::<Delta>::empty());
        assert(t7@ =~= seq![Delta { dx: from_int(1), dy: from_int(1) }] + t8@);
        assert(t6@ =~= seq![Delta { dx: from_int(1), dy: from_int(0) }] + t7@);
        assert(t5@ =~= seq![Delta { dx: from_int(1), dy: from_int(-1) }] + t6@);
        assert(t4@ =~= seq![Delta { dx: from_int(0), dy: from_int(1) }] + t5@);
        assert(t3@ =~= seq![Delta { dx: from_int(0), dy: from_int(-1) }] + t4@);
        assert(t2@ =~= seq![Delta { dx: from_int(-1), dy: from_int(1) }] + t3@);
        assert(t1@ =~= seq![Delta { dx: from_int(-1), dy: from_int(0) }] + t2@);
        assert(r@ =~= seq![Delta { dx: from_int(-1), dy: from_int(-1) }] + t1@);
    }
    r
}

/// The function from an active cell to its eight Moore neighbours.
pub struct GetCellNeighbors;

impl Function<Cell, List<Cell>> for GetCellNeighbors {
    open spec fn in_dom(&self, c: Cell) -> bool {
        cell_wf(c)
    }

    open spec fn result_of(&self, c: Cell) -> List<Cell> {
        list_of(spec_neighbors(c))
    }

    fn apply(&self, c: &Cell) -> (r: List<Cell>) {
        let deltas = neighborly_deltas();
        let shift = ApplyDeltaToCell { cell: c.clone() };
        proof {
            lemma_to_int_from_int(-1);
            lemma_to_int_from_int(0);
            lemma_to_int_from_int(1);
        }
        let r = map_list(&shift, &deltas);
        proof {
            assert(r@ =~= spec_neighbors(*c));
            lemma_list_of_seq_of(r);
            assert(seq_of(r) == spec_neighbors(*c));
        }
        r
    }
}

/// Equality of two cells as a first-class predicate over pairs of cells.
pub struct CellComparisonFunction;

impl Function<(Cell, Cell), Boolean> for CellComparisonFunction {
    open spec fn in_dom(&self, p: (Cell, Cell)) -> bool {
        cell_wf(p.0) && cell_wf(p.1)
    }

    open spec fn result_of(&self, p: (Cell, Cell)) -> Boolean {
        lift_bool(spec_cell_eq(p.0, p.1))
    }

    fn apply(&self, p: &(Cell, Cell)) -> Boolean {
        let same_x = p.0.x.peano_equal(&p.1.x);
        let same_y = p.0.y.peano_equal(&p.1.y);
        same_x.and(&same_y)
    }
}

/// The tally after one more sighting of `key` under the equality `cmp`: the
/// first matching entry's count goes up by one, and a key never seen before
/// is appended with count one, so first-seen order is preserved.
pub open spec fn counter_bump_spec<K, Cmp: Predicate<(K, K)>>(
    cmp: Cmp,
    entries: Seq<(K, Numeral)>,
    key: K,
) -> Seq<(K, Numeral)>
    decreases entries.len(),
{
    if entries.len() == 0 {
        seq![(key, from_int(1))]
    } else if cmp.result_of((key, entries.first().0)) is True {
        seq![(entries.first().0, from_int(to_int(entries.first().1) + 1))] + entries.drop_first()
    } else {
        seq![entries.first()] + counter_bump_spec(cmp, entries.drop_first(), key)
    }
}

/// A tally step keeps counts well formed and introduces no key but the one
/// just seen.
pub proof fn lemma_counter_bump_entries<K, Cmp: Predicate<(K, K)>>(
    cmp: Cmp,
    entries: Seq<(K, Numeral)>,
    key: K,
)
    requires
        forall|i: int| 0 <= i < entries.len() ==> wf(#[trigger] entries[i].1),
    ensures
        forall|i: int|
            0 <= i < counter_bump_spec(cmp, entries, key).len() ==> wf(
                #[trigger] counter_bump_spec(cmp, entries, key)[i].1,
            ),
        forall|i: int|
            0 <= i < counter_bump_spec(cmp, entries, key).len() ==> (
            #[trigger] counter_bump_spec(cmp, entries, key)[i].0 == key || exists|j: int|
                0 <= j < entries.len() && entries[j].0 == counter_bump_spec(
                    cmp,
                    entries,
                    key,
                )[i].0),
    decreases entries.len(),
{
    let out = counter_bump_spec(cmp, entries, key);
    if entries.len() == 0 {
        lemma_from_int_wf(1);
    } else if cmp.result_of((key, entries.first().0)) is True {
        lemma_from_int_wf(to_int(entries.first().1) + 1);
        assert forall|i: int| 0 <= i < out.len() implies wf(#[trigger] out[i].1) && (out[i].0
            == key || exists|j: int| 0 <= j < entries.len() && entries[j].0 == out[i].0) by {
            if i == 0 {
                assert(entries[0].0 == out[0].0);
            } else {
                assert(out[i] == entries[i]);
                assert(entries[i].0 == out[i].0);
            }
        }
    } else {
        assert forall|i: int| 0 <= i < entries.drop_first().len() implies wf(
            #[trigger] entries.drop_first()[i].1,
        ) by {
            assert(entries.drop_first()[i] == entries[i + 1]);
        }
        lemma_counter_bump_entries(cmp, entries.drop_first(), key);
        let rest = counter_bump_spec(cmp, entries.drop_first(), key);
        assert forall|i: int| 0 <= i < out.len() implies wf(#[trigger] out[i].1) && (out[i].0
            == key || exists|j: int| 0 <= j < entries.len() && entries[j].0 == out[i].0) by {
            if i == 0 {
                assert(out[0] == entries.first());
                assert(entries[0].0 == out[0].0);
            } else {
                assert(out[i] == rest[i - 1]);
                let prev = rest[i - 1];
                if prev.0 != key {
                    let j = choose|j: int|
                        0 <= j < entries.drop_first().len() && entries.drop_first()[j].0 == prev.0;
                    assert(entries[j + 1].0 == out[i].0);
                }
            }
        }
    }
}

/// The generic tally step of the original engine: collapse one more sighting
/// of a key into a list of key-and-count pairs under a caller-supplied
/// equality.
pub trait IncrementItemCounter<K, Cmp>: Sized {
    /// The inputs on which the step is defined.
    spec fn increment_ok(&self, key: K, cmp: Cmp) -> bool;

    fn increment_item_counter(self, key: K, cmp: &Cmp) -> Self
        requires
            self.increment_ok(key, *cmp),
    ;
}

impl<K, Cmp: Predicate<(K, K)>> IncrementItemCounter<K, Cmp> for List<(K, Numeral)> {
    open spec fn increment_ok(&self, key: K, cmp: Cmp) -> bool {
        (forall|i: int| 0 <= i < self@.len() ==> #[trigger] cmp.in_dom((key, self@[i].0)))
            && (forall|i: int| 0 <= i < self@.len() ==> wf(#[trigger] self@[i].1))
    }

    fn increment_item_counter(self, key: K, cmp: &Cmp) -> (r: List<(K, Numeral)>)
        ensures
            r@ == counter_bump_spec(*cmp, self@, key),
        decreases self,
    {
        match self {
            List::Nil => {
                let one = Numeral::Successor(Box::new(Numeral::Zero));
                let r = List::Cons((key, one), Box::new(List::Nil));
                proof {
                    reveal_with_fuel(from_int, 2);
                    assert(r@ =~= counter_bump_spec(*cmp, seq_of(List::<(K, Numeral)>::Nil), key));
                }
                r
            },
            List::Cons(entry, rest) => {
                proof {
                    assert(self@[0] == entry);
                    assert(self@.first() == entry);
                    assert(self@.drop_first() =~= rest@);
                }
                let (k2, count) = entry;
                let pair = (key, k2);
                let same = cmp.apply(&pair);
                match same {
                    Boolean::True => {
                        let (_, k2b) = pair;
                        let c1 = increment(&count);
                        let r = List::Cons((k2b, c1), rest);
                        proof {
                            assert(r@ =~= counter_bump_spec(*cmp, self@, key));
                        }
                        r
                    },
                    Boolean::False => {
                        let (key2, k2b) = pair;
                        proof {
                            assert(forall|i: int|
                                0 <= i < rest@.len() ==> rest@[i] == self@[i + 1]);
                        }
                        let bumped = (*rest).increment_item_counter(key2, cmp);
                        let r = List::Cons((k2b, count), Box::new(bumped));
                        proof {
                            assert(r@ =~= counter_bump_spec(*cmp, self@, key));
                        }
                        r
                    },
                }
            },
        }
    }
}

/// The running tally of a stream of keys under an equality: `(key, count)`
/// pairs in first-seen order, counts going up on repeats.
pub open spec fn count_instances_spec<K, Cmp: Predicate<(K, K)>>(
    cmp: Cmp,
    acc: Seq<(K, Numeral)>,
    items: Seq<K>,
) -> Seq<(K, Numeral)>
    decreases items.len(),
{
    if items.len() == 0 {
        acc
    } else {
        count_instances_spec(cmp, counter_bump_spec(cmp, acc, items.first()), items.drop_first())
    }
}

/// `CountInstances`: fold the tally step over a list of keys, starting from
/// an accumulator of earlier sightings.
pub fn count_instances<K, Cmp: Predicate<(K, K)>>(
    cmp: &Cmp,
    acc: List<(K, Numeral)>,
    items: List<K>,
) -> (r: List<(K, Numeral)>)
    requires
        forall|i: int| 0 <= i < acc@.len() ==> wf(#[trigger] acc@[i].1),
        forall|i: int, j: int|
            0 <= i < items@.len() && 0 <= j < acc@.len() ==> #[trigger] cmp.in_dom(
                (items@[i], acc@[j].0),
            ),
        forall|i: int, j: int|
            0 <= i < items@.len() && 0 <= j < items@.len() ==> #[trigger] cmp.in_dom(
                (items@[i], items@[j]),
            ),
    ensures
        r@ == count_instances_spec(*cmp, acc@, items@),
    decreases items,
{
    match items {
        List::Nil => acc,
        List::Cons(k, ks) => {
            let ghost key0 = k;
            let ghost old_acc = acc@;
            let ghost old_items = items@;
            proof {
                assert(old_items[0] == k);
                assert(old_items.first() == k);
                assert(old_items.drop_first() =~= ks@);
                assert(forall|i: int| 0 <= i < ks@.len() ==> ks@[i] == old_items[i + 1]);
                assert forall|i: int| 0 <= i < acc@.len() implies #[trigger] cmp.in_dom(
                    (key0, acc@[i].0),
                ) by {
                    assert(cmp.in_dom((old_items[0], acc@[i].0)));
                }
            }
            let acc1 = acc.increment_item_counter(k, cmp);
            proof {
                lemma_counter_bump_entries(*cmp, old_acc, key0);
                assert forall|i: int, j: int|
                    0 <= i < ks@.len() && 0 <= j < acc1@.len() implies #[trigger] cmp.in_dom(
                    (ks@[i], acc1@[j].0),
                ) by {
                    assert(ks@[i] == old_items[i + 1]);
                    if acc1@[j].0 == key0 {
                        assert(cmp.in_dom((old_items[i + 1], old_items[0])));
                    } else {
                        let j0 = choose|j0: int|
                            0 <= j0 < old_acc.len() && old_acc[j0].0 == counter_bump_spec(
                                *cmp,
                                old_acc,
                                key0,
                            )[j].0;
                        assert(cmp.in_dom((old_items[i + 1], old_acc[j0].0)));
                    }
                }
                assert forall|i: int, j: int|
                    0 <= i < ks@.len() && 0 <= j < ks@.len() implies #[trigger] cmp.in_dom(
                    (ks@[i], ks@[j]),
                ) by {
                    assert(cmp.in_dom((old_items[i + 1], old_items[j + 1])));
                }
            }
            count_instances(cmp, acc1, *ks)
        },
    }
}

/// The Moore neighbours of every active cell, flattened in cell order, each
/// cell's neighbours in offset order. Duplicates are kept: each sighting of a
/// square counts.
pub open spec fn neighbors_of_all_spec(cells: Seq<Cell>) -> Seq<Cell>
    decreases cells.len(),
{
    if cells.len() == 0 {
        Seq::empty()
    } else {
        spec_neighbors(cells.first()) + neighbors_of_all_spec(cells.drop_first())
    }
}

/// Every flattened neighbour of well-formed cells is well formed.
pub proof fn lemma_neighbors_of_all_wf(cells: Seq<Cell>)
    requires
        cells_wf(cells),
    ensures
        cells_wf(neighbors_of_all_spec(cells)),
    decreases cells.len(),
{
    if cells.len() > 0 {
        assert forall|i: int| 0 <= i < cells.drop_first().len() implies cell_wf(
            #[trigger] cells.drop_first()[i],
        ) by {
            assert(cells.drop_first()[i] == cells[i + 1]);
        }
        lemma_neighbors_of_all_wf(cells.drop_first());
        lemma_neighbors_wf(cells.first());
        let head = spec_neighbors(cells.first());
        let rest = neighbors_of_all_spec(cells.drop_first());
        let out = neighbors_of_all_spec(cells);
        assert(out == head + rest);
        assert forall|i: int| 0 <= i < out.len() implies cell_wf(#[trigger] out[i]) by {
            if i < head.len() {
                assert(out[i] == head[i]);
            } else {
                assert(out[i] == rest[i - head.len()]);
            }
        }
    }
}

/// Flat-mapping the neighbour function over the active cells is the
/// flattened neighbour sequence.
proof fn lemma_flat_neighbors_eq(cells: Seq<Cell>)
    ensures
        crate::lists::flatten_views(map_spec(GetCellNeighbors, cells)) == neighbors_of_all_spec(
            cells,
        ),
    decreases cells.len(),
{
    let m = map_spec(GetCellNeighbors, cells);
    let flat = crate::lists::flatten_views(m);
    if cells.len() == 0 {
        assert(m.len() == 0);
        assert(flat =~= neighbors_of_all_spec(cells));
    } else {
        lemma_flat_neighbors_eq(cells.drop_first());
        lemma_seq_of_list_of(spec_neighbors(cells.first()));
        assert(m.first() == GetCellNeighbors.result_of(cells.first()));
        assert(m.first()@ == spec_neighbors(cells.first()));
        assert(m.drop_first() =~= map_spec(GetCellNeighbors, cells.drop_first()));
        assert(flat == m.first()@ + crate::lists::flatten_views(m.drop_first()));
        assert(flat =~= neighbors_of_all_spec(cells));
    }
}

/// The tally after one more sighting of a square, under cell equality.
pub open spec fn cell_bump_spec(entries: Seq<(Cell, Numeral)>, key: Cell) -> Seq<(Cell, Numeral)>
    decreases entries.len(),
{
    if entries.len() == 0 {
        seq![(key, from_int(1))]
    } else if spec_cell_eq(key, entries.first().0) {
        seq![(entries.first().0, from_int(to_int(entries.first().1) + 1))] + entries.drop_first()
    } else {
        seq![entries.first()] + cell_bump_spec(entries.drop_first(), key)
    }
}

/// The tally of a stream of squares: `(cell, count)` pairs in first-seen
/// order.
pub open spec fn cell_tally_spec(acc: Seq<(Cell, Numeral)>, items: Seq<Cell>) -> Seq<
    (Cell, Numeral),
>
    decreases items.len(),
{
    if items.len() == 0 {
        acc
    } else {
        cell_tally_spec(cell_bump_spec(acc, items.first()), items.drop_first())
    }
}

/// The generic tally under the cell comparator is the cell tally.
proof fn lemma_cell_bump_eq(entries: Seq<(Cell, Numeral)>, key: Cell)
    ensures
        counter_bump_spec(CellComparisonFunction, entries, key) == cell_bump_spec(entries, key),
    decreases entries.len(),
{
    if entries.len() > 0 {
        lemma_cell_bump_eq(entries.drop_first(), key);
    }
}

/// Folding the generic tally under the cell comparator is the cell tally.
proof fn lemma_cell_tally_eq(acc: Seq<(Cell, Numeral)>, items: Seq<Cell>)
    ensures
        count_instances_spec(CellComparisonFunction, acc, items) == cell_tally_spec(acc, items),
    decreases items.len(),
{
    if items.len() > 0 {
        lemma_cell_bump_eq(acc, items.first());
        lemma_cell_tally_eq(cell_bump_spec(acc, items.first()), items.drop_first());
    }
}

/// A tally step keeps every entry well formed.
proof fn lemma_cell_bump_wf(entries: Seq<(Cell, Numeral)>, key: Cell)
    requires
        forall|i: int|
            0 <= i < entries.len() ==> cell_wf(#[trigger] entries[i].0) && wf(entries[i].1),
        cell_wf(key),
    ensures
        forall|i: int|
            0 <= i < cell_bump_spec(entries, key).len() ==> cell_wf(
                #[trigger] cell_bump_spec(entries, key)[i].0,
            ) && wf(cell_bump_spec(entries, key)[i].1),
    decreases entries.len(),
{
    let out = cell_bump_spec(entries, key);
    if entries.len() == 0 {
        lemma_from_int_wf(1);
    } else if spec_cell_eq(key, entries.first().0) {
        lemma_from_int_wf(to_int(entries.first().1) + 1);
        assert forall|i: int| 0 <= i < out.len() implies cell_wf(#[trigger] out[i].0) && wf(
            out[i].1,
        ) by {
            if i > 0 {
                assert(out[i] == entries[i]);
            }
        }
    } else {
        assert forall|i: int| 0 <= i < entries.drop_first().len() implies cell_wf(
            #[trigger] entries.drop_first()[i].0,
        ) && wf(entries.drop_first()[i].1) by {
            assert(entries.drop_first()[i] == entries[i + 1]);
        }
        lemma_cell_bump_wf(entries.drop_first(), key);
        let rest = cell_bump_spec(entries.drop_first(), key);
        assert forall|i: int| 0 <= i < out.len() implies cell_wf(#[trigger] out[i].0) && wf(
            out[i].1,
        ) by {
            if i == 0 {
                assert(out[0] == entries.first());
            } else {
                assert(out[i] == rest[i - 1]);
            }
        }
    }
}

/// A whole tally of well-formed squares has well-formed entries.
proof fn lemma_cell_tally_wf(acc: Seq<(Cell, Numeral)>, items: Seq<Cell>)
    requires
        forall|i: int| 0 <= i < acc.len() ==> cell_wf(#[trigger] acc[i].0) && wf(acc[i].1),
        cells_wf(items),
    ensures
        forall|i: int|
            0 <= i < cell_tally_spec(acc, items).len() ==> cell_wf(
                #[trigger] cell_tally_spec(acc, items)[i].0,
            ) && wf(cell_tally_spec(acc, items)[i].1),
    decreases items.len(),
{
    if items.len() > 0 {
        lemma_cell_bump_wf(acc, items.first());
        assert forall|i: int| 0 <= i < items.drop_first().len() implies cell_wf(
            #[trigger] items.drop_first()[i],
        ) by {
            assert(items.drop_first()[i] == items[i + 1]);
        }
        lemma_cell_tally_wf(cell_bump_spec(acc, items.first()), items.drop_first());
        let out = cell_tally_spec(acc, items);
        let rec = cell_tally_spec(cell_bump_spec(acc, items.first()), items.drop_first());
        assert(out == rec);
        assert forall|i: int| 0 <= i < out.len() implies cell_wf(#[trigger] out[i].0) && wf(
            out[i].1,
        ) by {
            assert(cell_wf(rec[i].0) && wf(rec[i].1));
        }
    }
}

/// Whether a sequence of cells holds a given square.
pub open spec fn cell_list_contains(cells: Seq<Cell>, c: Cell) -> bool {
    exists|i: int| 0 <= i < cells.len() && spec_cell_eq(#[trigger] cells[i], c)
}

/// Whether a list of active cells holds a given square.
pub fn contains_cell(cells: &List<Cell>, target: &Cell) -> (r: Boolean)
    requires
        cells_wf(cells@),
        cell_wf(*target),
    ensures
        r == lift_bool(cell_list_contains(cells@, *target)),
    decreases *cells,
{
    match cells {
        List::Nil => Boolean::False,
        List::Cons(h, t) => {
            proof {
                assert(cells@[0] == *h);
                assert(cells@.drop_first() =~= t@);
                assert(forall|i: int| 0 <= i < t@.len() ==> t@[i] == cells@[i + 1]);
            }
            let cmp = CellComparisonFunction;
            let pair = (h.clone(), target.clone());
            let same = cmp.apply(&pair);
            match same {
                Boolean::True => {
                    proof {
                        assert(spec_cell_eq(cells@[0], *target));
                    }
                    Boolean::True
                },
                Boolean::False => {
                    let r = contains_cell(t, target);
                    proof {
                        if cell_list_contains(t@, *target) {
                            let i = choose|i: int|
                                0 <= i < t@.len() && spec_cell_eq(t@[i], *target);
                            assert(spec_cell_eq(cells@[i + 1], *target));
                        } else if cell_list_contains(cells@, *target) {
                            let i = choose|i: int|
                                0 <= i < cells@.len() && spec_cell_eq(cells@[i], *target);
                            assert(i != 0);
                            assert(spec_cell_eq(t@[i - 1], *target));
                        }
                    }
                    r
                },
            }
        },
    }
}

/// The survival rule: a square lives when it was named exactly three times,
/// or exactly twice while already active. Any other count dies.
pub open spec fn spec_should_live(alive: Seq<Cell>, c: Cell, count: Numeral) -> Boolean {
    lift_bool(to_int(count) == 3 || (cell_list_contains(alive, c) && to_int(count) == 2))
}

/// The survival rule bound to the current generation's active cells, as a
/// predicate over tally entries.
pub struct CellShouldLive {
    pub alive: List<Cell>,
}

impl Function<(Cell, Numeral), Boolean> for CellShouldLive {
    open spec fn in_dom(&self, p: (Cell, Numeral)) -> bool {
        cells_wf(self.alive@) && cell_wf(p.0) && wf(p.1)
    }

    open spec fn result_of(&self, p: (Cell, Numeral)) -> Boolean {
        spec_should_live(self.alive@, p.0, p.1)
    }

    fn apply(&self, p: &(Cell, Numeral)) -> Boolean {
        let three = numeral_of(3);
        let two = numeral_of(2);
        proof {
            lemma_to_int_from_int(3);
            lemma_to_int_from_int(2);
            lemma_from_int_wf(3);
            lemma_from_int_wf(2);
        }
        let is_three = p.1.peano_equal(&three);
        let inside = contains_cell(&self.alive, &p.0);
        let is_two = p.1.peano_equal(&two);
        is_three.or(&inside.and(&is_two))
    }
}

/// The tally entries the survival rule keeps, in tally order.
pub open spec fn survivors_spec(alive: Seq<Cell>, tallies: Seq<(Cell, Numeral)>) -> Seq<
    (Cell, Numeral),
>
    decreases tallies.len(),
{
    if tallies.len() == 0 {
        Seq::empty()
    } else if spec_should_live(alive, tallies.first().0, tallies.first().1) is True {
        seq![tallies.first()] + survivors_spec(alive, tallies.drop_first())
    } else {
        survivors_spec(alive, tallies.drop_first())
    }
}

/// Filtering tallies by the bound survival rule is the survivor sequence.
proof fn lemma_filter_survivors_eq(alive: List<Cell>, tallies: Seq<(Cell, Numeral)>)
    ensures
        filter_spec(CellShouldLive { alive }, tallies) == survivors_spec(alive@, tallies),
    decreases tallies.len(),
{
    if tallies.len() > 0 {
        lemma_filter_survivors_eq(alive, tallies.drop_first());
    }
}

/// The projection of a tally entry to the square it names.
pub struct FirstTupleElement;

impl Function<(Cell, Numeral), Cell> for FirstTupleElement {
    open spec fn in_dom(&self, p: (Cell, Numeral)) -> bool {
        true
    }

    open spec fn result_of(&self, p: (Cell, Numeral)) -> Cell {
        p.0
    }

    fn apply(&self, p: &(Cell, Numeral)) -> Cell {
        p.0.clone()
    }
}

/// One generation: every square named three times by the neighbour tally, or
/// twice while already active, in first-seen tally order.
pub open spec fn spec_gol_step(cells: Seq<Cell>) -> Seq<Cell> {
    let tallies = cell_tally_spec(Seq::empty(), neighbors_of_all_spec(cells));
    let live = survivors_spec(cells, tallies);
    Seq::new(live.len(), |i: int| live[i].0)
}

/// One generation of the Game of Life as a first-class function on the list
/// of active cells: collect every cell's Moore neighbours, tally the
/// sightings of each square, keep the squares the survival rule names, and
/// project the tally back to the squares.
pub struct SingleGOLIter;

impl Function<List<Cell>, List<Cell>> for SingleGOLIter {
    open spec fn in_dom(&self, cells: List<Cell>) -> bool {
        cells_wf(cells@)
    }

    open spec fn result_of(&self, cells: List<Cell>) -> List<Cell> {
        list_of(spec_gol_step(cells@))
    }

    fn apply(&self, cells: &List<Cell>) -> (r: List<Cell>) {
        let neighbor_lists = map_list(&GetCellNeighbors, cells);
        let all = neighbor_lists.concat_all();
        proof {
            lemma_flat_neighbors_eq(cells@);
            lemma_neighbors_of_all_wf(cells@);
            assert(seq_of(List::<(Cell, Numeral)>::Nil) =~= Seq::<(Cell, Numeral)>::empty());
        }
        let cmp = CellComparisonFunction;
        let tallies = count_instances(&cmp, List::Nil, all);
        proof {
            lemma_cell_tally_eq(Seq::empty(), all@);
            lemma_cell_tally_wf(Seq::empty(), all@);
        }
        let rule = CellShouldLive { alive: cells.clone() };
        let live = filter_list(&rule, tallies);
        proof {
            lemma_filter_survivors_eq(*cells, cell_tally_spec(Seq::empty(), all@));
        }
        let r = map_list(&FirstTupleElement, &live);
        proof {
            assert(r@ =~= spec_gol_step(cells@));
            lemma_list_of_seq_of(r);
        }
        r
    }
}

} // verus!
