//! Row-by-row N-Queens solution enumeration.
//!
//! The enumerator keeps a frontier: the list of all partial placements found
//! safe so far. Each row contributes every safe extension of every
//! configuration, and after the last row the frontier holds exactly the
//! complete solutions.

use vstd::prelude::*;

use crate::booleans::{lift_bool, Boolean, Not, Or};
use crate::functions::{filter_spec, map_spec, Function};
use crate::functions::{filter_list, flat_map_list, flat_map_spec, map_list, AnyTrue};
use crate::lists::{list_of, seq_of, List};
use crate::lists::{lemma_list_of_seq_of, lemma_seq_of_list_of};
use crate::numbers::{abs_int, from_int, to_int, wf, Numeral};
use crate::numbers::{
    increment, lemma_canonical, lemma_from_int_wf, lemma_to_int_from_int, numeral_of,
    range_seq, PeanoAbsDiff, PeanoEqual, PeanoLT, Range,
};

verus! {

/// A queen standing on the square with the given column and row coordinates.
#[derive(Debug, PartialEq, Eq)]
pub struct Queen {
    pub x: Numeral,
    pub y: Numeral,
}

impl Clone for Queen {
    fn clone(&self) -> (r: Queen)
        ensures
            r == *self,
    {
        Queen { x: self.x.clone(), y: self.y.clone() }
    }
}

impl Clone for List<Queen> {
    fn clone(&self) -> (r: List<Queen>)
        ensures
            r == *self,
        decreases *self,
    {
        match self {
            List::Nil => List::Nil,
            List::Cons(h, t) => List::Cons(h.clone(), Box::new((**t).clone())),
        }
    }
}

/// A queen's coordinates are well-formed, non-negative numerals.
pub open spec fn queen_wf(q: Queen) -> bool {
    wf(q.x) && wf(q.y) && to_int(q.x) >= 0 && to_int(q.y) >= 0
}

/// Every queen of a configuration is well formed.
pub open spec fn config_wf(c: Seq<Queen>) -> bool {
    forall|i: int| 0 <= i < c.len() ==> queen_wf(#[trigger] c[i])
}

/// Every configuration of a frontier is well formed.
pub open spec fn configs_wf(cs: Seq<List<Queen>>) -> bool {
    forall|i: int| 0 <= i < cs.len() ==> config_wf(#[trigger] cs[i]@)
}

/// Whether one queen threatens another: same column, same row, or on a
/// common diagonal. A queen always threatens itself.
pub open spec fn spec_threatens(a: Queen, b: Queen) -> Boolean {
    lift_bool(abs_int(to_int(a.x) - to_int(b.x)) == abs_int(to_int(a.y) - to_int(b.y))
        || to_int(a.x) == to_int(b.x) || to_int(a.y) == to_int(b.y))
}

/// Whether a new queen is threatened by no queen of an existing
/// configuration.
pub open spec fn spec_safe(config: Seq<Queen>, q: Queen) -> Boolean {
    lift_bool(forall|i: int| 0 <= i < config.len() ==> spec_threatens(q, #[trigger] config[i]) is False)
}

/// Queen self-threat (law): a square always threatens itself.
pub proof fn lemma_threatens_self(q: Queen)
    ensures
        spec_threatens(q, q) == Boolean::True,
{
}

/// Mutual threat between two queens.
pub trait Threatens {
    /// The inputs on which the test is defined: both queens well formed.
    spec fn threatens_ok(&self, other: &Queen) -> bool;

    fn threatens(&self, other: &Queen) -> (r: Boolean)
        requires
            self.threatens_ok(other),
    ;
}

impl Threatens for Queen {
    open spec fn threatens_ok(&self, other: &Queen) -> bool {
        queen_wf(*self) && queen_wf(*other)
    }

    fn threatens(&self, other: &Queen) -> (r: Boolean)
        ensures
            r == spec_threatens(*self, *other),
    {
        proof {
            lemma_to_int_from_int(abs_int(to_int(self.x) - to_int(other.x)));
            lemma_to_int_from_int(abs_int(to_int(self.y) - to_int(other.y)));
            lemma_from_int_wf(abs_int(to_int(self.x) - to_int(other.x)));
            lemma_from_int_wf(abs_int(to_int(self.y) - to_int(other.y)));
        }
        let same_x = self.x.peano_equal(&other.x);
        let same_y = self.y.peano_equal(&other.y);
        let dx = self.x.peano_abs_diff(&other.x);
        let dy = self.y.peano_abs_diff(&other.y);
        let diagonal = dx.peano_equal(&dy);
        diagonal.or(&same_x.or(&same_y))
    }
}

/// Partial application of `Threatens` to the queen under test, so that lists
/// of queens can be mapped over it.
pub struct Threatens1 {
    pub queen: Queen,
}

impl Function<Queen, Boolean> for Threatens1 {
    open spec fn in_dom(&self, x: Queen) -> bool {
        queen_wf(self.queen) && queen_wf(x)
    }

    open spec fn result_of(&self, x: Queen) -> Boolean {
        spec_threatens(self.queen, x)
    }

    fn apply(&self, x: &Queen) -> Boolean {
        self.queen.threatens(x)
    }
}

/// Whether a new queen can safely join an existing configuration: it must be
/// threatened by none of the queens already placed.
pub trait Safe {
    /// The inputs on which the test is defined: the configuration and the
    /// new queen well formed.
    spec fn safe_ok(&self, new_queen: &Queen) -> bool;

    fn safe(&self, new_queen: &Queen) -> (r: Boolean)
        requires
            self.safe_ok(new_queen),
    ;
}

impl Safe for List<Queen> {
    open spec fn safe_ok(&self, new_queen: &Queen) -> bool {
        config_wf(self@) && queen_wf(*new_queen)
    }

    fn safe(&self, new_queen: &Queen) -> (r: Boolean)
        ensures
            r == spec_safe(self@, *new_queen),
    {
        let threat = Threatens1 { queen: new_queen.clone() };
        let threats = map_list(&threat, self);
        let any = threats.any_true();
        let r = any.not();
        proof {
            let m = map_spec(threat, self@);
            if m.contains(Boolean::True) {
                let i = choose|i: int| 0 <= i < m.len() && m[i] == Boolean::True;
                assert(spec_threatens(*new_queen, self@[i]) is True);
            } else {
                assert forall|i: int| 0 <= i < self@.len() implies spec_threatens(
                    *new_queen,
                    #[trigger] self@[i],
                ) is False by {
                    if m[i] == Boolean::True {
                        assert(m.contains(Boolean::True));
                    }
                }
            }
        }
        r
    }
}

/// Partial application of `Safe` to a configuration, so that candidate queens
/// can be filtered by it.
pub struct Safe1 {
    pub config: List<Queen>,
}

impl Function<Queen, Boolean> for Safe1 {
    open spec fn in_dom(&self, x: Queen) -> bool {
        config_wf(self.config@) && queen_wf(x)
    }

    open spec fn result_of(&self, x: Queen) -> Boolean {
        spec_safe(self.config@, x)
    }

    fn apply(&self, x: &Queen) -> Boolean {
        self.config.safe(x)
    }
}

/// Partial application of the `Queen` constructor to a column, mapping each
/// row to the queen on that square.
pub struct Queen1 {
    pub x: Numeral,
}

impl Function<Numeral, Queen> for Queen1 {
    open spec fn in_dom(&self, y: Numeral) -> bool {
        wf(self.x) && to_int(self.x) >= 0 && wf(y) && to_int(y) >= 0
    }

    open spec fn result_of(&self, y: Numeral) -> Queen {
        Queen { x: self.x, y }
    }

    fn apply(&self, y: &Numeral) -> Queen {
        Queen { x: self.x.clone(), y: y.clone() }
    }
}

/// The queens of one row: every queen with the given column coordinate and a
/// row coordinate below the board size, in descending row order.
pub open spec fn queens_in_row_spec(n: int, x: Numeral) -> Seq<Queen> {
    Seq::new((if n <= 0 { 0int } else { n }) as nat, |i: int| Queen { x, y: from_int(n - 1 - i) })
}

/// All candidate squares of one row of an `n` by `n` board.
pub trait QueensInRow {
    /// The inputs on which the row is defined: board size and column well
    /// formed and non-negative.
    spec fn queens_in_row_ok(&self, x: &Numeral) -> bool;

    fn queens_in_row(&self, x: &Numeral) -> (r: List<Queen>)
        requires
            self.queens_in_row_ok(x),
    ;
}

impl QueensInRow for Numeral {
    open spec fn queens_in_row_ok(&self, x: &Numeral) -> bool {
        wf(*self) && to_int(*self) >= 0 && wf(*x) && to_int(*x) >= 0
    }

    fn queens_in_row(&self, x: &Numeral) -> (r: List<Queen>)
        ensures
            r@ == queens_in_row_spec(to_int(*self), *x),
    {
        let ys = self.range();
        let make = Queen1 { x: x.clone() };
        proof {
            assert forall|i: int| 0 <= i < ys@.len() implies make.in_dom(#[trigger] ys@[i]) by {
                lemma_from_int_wf(to_int(*self) - 1 - i);
                lemma_to_int_from_int(to_int(*self) - 1 - i);
            }
        }
        let r = map_list(&make, &ys);
        proof {
            assert(r@ =~= queens_in_row_spec(to_int(*self), *x));
        }
        r
    }
}

/// Every queen a row offers is well formed.
pub proof fn lemma_queens_in_row_wf(n: int, x: Numeral)
    requires
        wf(x),
        to_int(x) >= 0,
    ensures
        forall|i: int|
            0 <= i < queens_in_row_spec(n, x).len() ==> queen_wf(
                #[trigger] queens_in_row_spec(n, x)[i],
            ),
{
    assert forall|i: int| 0 <= i < queens_in_row_spec(n, x).len() implies queen_wf(
        #[trigger] queens_in_row_spec(n, x)[i],
    ) by {
        lemma_from_int_wf(n - 1 - i);
        lemma_to_int_from_int(n - 1 - i);
    }
}

/// The numeral operations the engine needs of a coordinate: equality and
/// absolute difference.
pub trait NumberOps: PeanoEqual + PeanoAbsDiff {

}

impl<T: PeanoEqual + PeanoAbsDiff> NumberOps for T {

}

/// Partial application of list construction to a configuration: each queen it
/// is applied to is prepended to that configuration.
pub struct Prepend {
    pub items: List<Queen>,
}

impl Function<Queen, List<Queen>> for Prepend {
    open spec fn in_dom(&self, x: Queen) -> bool {
        true
    }

    open spec fn result_of(&self, x: Queen) -> List<Queen> {
        List::Cons(x, Box::new(self.items))
    }

    fn apply(&self, x: &Queen) -> List<Queen> {
        List::Cons(x.clone(), Box::new(self.items.clone()))
    }
}

/// The safe squares of a row with respect to one configuration, in row
/// order.
pub open spec fn safe_squares_spec(config: Seq<Queen>, row: Seq<Queen>) -> Seq<Queen>
    decreases row.len(),
{
    if row.len() == 0 {
        Seq::empty()
    } else if spec_safe(config, row.first()) is True {
        seq![row.first()] + safe_squares_spec(config, row.drop_first())
    } else {
        safe_squares_spec(config, row.drop_first())
    }
}

/// Each queen of a sequence prepended to one configuration, in order.
pub open spec fn prepended_spec(config: List<Queen>, qs: Seq<Queen>) -> Seq<List<Queen>> {
    Seq::new(qs.len(), |i: int| List::Cons(qs[i], Box::new(config)))
}

/// The configurations got by extending one configuration with every safe
/// queen of row `x` on an `n` by `n` board.
pub open spec fn add_queen_spec(config: List<Queen>, n: int, x: Numeral) -> Seq<List<Queen>> {
    prepended_spec(config, safe_squares_spec(config@, queens_in_row_spec(n, x)))
}

/// Filtering a row by safety against a configuration is the same whether
/// done by the generic combinator or written out directly.
proof fn lemma_filter_safe_eq(config: List<Queen>, row: Seq<Queen>)
    ensures
        filter_spec(Safe1 { config }, row) == safe_squares_spec(config@, row),
    decreases row.len(),
{
    if row.len() > 0 {
        lemma_filter_safe_eq(config, row.drop_first());
    }
}

/// Every safe square of a row is a square of that row.
proof fn lemma_safe_squares_elements(config: Seq<Queen>, row: Seq<Queen>)
    ensures
        forall|i: int|
            0 <= i < safe_squares_spec(config, row).len() ==> row.contains(
                #[trigger] safe_squares_spec(config, row)[i],
            ),
    decreases row.len(),
{
    if row.len() > 0 {
        lemma_safe_squares_elements(config, row.drop_first());
        let out = safe_squares_spec(config, row);
        let rest = safe_squares_spec(config, row.drop_first());
        assert forall|i: int| 0 <= i < out.len() implies row.contains(#[trigger] out[i]) by {
            if spec_safe(config, row.first()) is True && i == 0 {
                assert(row[0] == row.first());
            } else {
                let k: int = if spec_safe(config, row.first()) is True {
                    i - 1
                } else {
                    i
                };
                assert(out[i] == rest[k]);
                let j = choose|j: int|
                    0 <= j < row.drop_first().len() && row.drop_first()[j] == rest[k];
                assert(row[j + 1] == rest[k]);
            }
        }
    }
}

/// Every configuration `add_queen` produces is well formed.
pub proof fn lemma_add_queen_spec_wf(config: List<Queen>, n: int, x: Numeral)
    requires
        config_wf(config@),
        wf(x),
        to_int(x) >= 0,
    ensures
        configs_wf(add_queen_spec(config, n, x)),
{
    let qs = queens_in_row_spec(n, x);
    let kept = safe_squares_spec(config@, qs);
    let out = add_queen_spec(config, n, x);
    lemma_queens_in_row_wf(n, x);
    lemma_safe_squares_elements(config@, qs);
    assert forall|i: int| 0 <= i < out.len() implies config_wf(#[trigger] out[i]@) by {
        let q = kept[i];
        assert(qs.contains(q));
        let j = choose|j: int| 0 <= j < qs.len() && qs[j] == q;
        assert(queen_wf(qs[j]));
        assert(out[i] == List::Cons(q, Box::new(config)));
        assert(out[i]@ =~= seq![q] + config@);
        assert forall|k: int| 0 <= k < out[i]@.len() implies queen_wf(#[trigger] out[i]@[k]) by {
            if k > 0 {
                assert(out[i]@[k] == config@[k - 1]);
            }
        }
    }
}

/// Extending one configuration with every safe queen of one row: the filtered
/// candidates of the row, each prepended to the configuration.
pub trait AddQueen {
    /// The inputs on which the extension is defined.
    spec fn add_queen_ok(&self, n: &Numeral, x: &Numeral) -> bool;

    fn add_queen(&self, n: &Numeral, x: &Numeral) -> (r: List<List<Queen>>)
        requires
            self.add_queen_ok(n, x),
    ;
}

impl AddQueen for List<Queen> {
    open spec fn add_queen_ok(&self, n: &Numeral, x: &Numeral) -> bool {
        config_wf(self@) && wf(*n) && to_int(*n) >= 0 && wf(*x) && to_int(*x) >= 0
    }

    fn add_queen(&self, n: &Numeral, x: &Numeral) -> (r: List<List<Queen>>)
        ensures
            r@ == add_queen_spec(*self, to_int(*n), *x),
            configs_wf(r@),
    {
        let row = n.queens_in_row(x);
        let sieve = Safe1 { config: self.clone() };
        proof {
            lemma_queens_in_row_wf(to_int(*n), *x);
            assert forall|i: int| 0 <= i < row@.len() implies sieve.in_dom(#[trigger] row@[i]) by {
                assert(queen_wf(queens_in_row_spec(to_int(*n), *x)[i]));
            }
        }
        let safe_squares = filter_list(&sieve, row);
        let grow = Prepend { items: self.clone() };
        let r = map_list(&grow, &safe_squares);
        proof {
            lemma_filter_safe_eq(*self, queens_in_row_spec(to_int(*n), *x));
            assert(r@ =~= add_queen_spec(*self, to_int(*n), *x));
            lemma_add_queen_spec_wf(*self, to_int(*n), *x);
        }
        r
    }
}

/// Partial application of `AddQueen` to a board size and a row, so that whole
/// frontiers can be flat-mapped over it.
pub struct AddQueen2 {
    pub n: Numeral,
    pub x: Numeral,
}

impl Function<List<Queen>, List<List<Queen>>> for AddQueen2 {
    open spec fn in_dom(&self, config: List<Queen>) -> bool {
        config_wf(config@) && wf(self.n) && to_int(self.n) >= 0 && wf(self.x) && to_int(self.x)
            >= 0
    }

    open spec fn result_of(&self, config: List<Queen>) -> List<List<Queen>> {
        list_of(add_queen_spec(config, to_int(self.n), self.x))
    }

    fn apply(&self, config: &List<Queen>) -> (r: List<List<Queen>>) {
        let r = config.add_queen(&self.n, &self.x);
        proof {
            lemma_list_of_seq_of(r);
        }
        r
    }
}

/// One frontier expansion: every configuration extended with every safe queen
/// of row `x`, all results concatenated in order.
pub open spec fn step_spec(n: int, x: Numeral, configs: Seq<List<Queen>>) -> Seq<List<Queen>>
    decreases configs.len(),
{
    if configs.len() == 0 {
        Seq::empty()
    } else {
        add_queen_spec(configs.first(), n, x) + step_spec(n, x, configs.drop_first())
    }
}

/// Flat-mapping the single-configuration extension over a frontier is one
/// expansion step.
proof fn lemma_flat_map_step_eq(f: AddQueen2, configs: Seq<List<Queen>>)
    ensures
        flat_map_spec(f, configs) == step_spec(to_int(f.n), f.x, configs),
    decreases configs.len(),
{
    let m = map_spec(f, configs);
    let flat = crate::lists::flatten_views(m);
    if configs.len() == 0 {
        assert(m.len() == 0);
        assert(flat =~= step_spec(to_int(f.n), f.x, configs));
    } else {
        lemma_flat_map_step_eq(f, configs.drop_first());
        let spec0 = add_queen_spec(configs.first(), to_int(f.n), f.x);
        lemma_seq_of_list_of(spec0);
        assert(m.first() == f.result_of(configs.first()));
        assert(m.first()@ == spec0);
        assert(m.drop_first() =~= map_spec(f, configs.drop_first()));
        assert(flat == m.first()@ + crate::lists::flatten_views(m.drop_first()));
        assert(flat =~= step_spec(to_int(f.n), f.x, configs));
    }
}

/// One expansion step keeps every configuration of the frontier well formed.
proof fn lemma_step_spec_wf(n: int, x: Numeral, configs: Seq<List<Queen>>)
    requires
        configs_wf(configs),
        wf(x),
        to_int(x) >= 0,
    ensures
        configs_wf(step_spec(n, x, configs)),
    decreases configs.len(),
{
    if configs.len() > 0 {
        assert forall|i: int| 0 <= i < configs.drop_first().len() implies config_wf(
            #[trigger] configs.drop_first()[i]@,
        ) by {
            assert(configs.drop_first()[i] == configs[i + 1]);
        }
        lemma_step_spec_wf(n, x, configs.drop_first());
        assert(config_wf(configs[0]@));
        lemma_add_queen_spec_wf(configs.first(), n, x);
        let head = add_queen_spec(configs.first(), n, x);
        let rest = step_spec(n, x, configs.drop_first());
        let out = step_spec(n, x, configs);
        assert(out == head + rest);
        assert forall|i: int| 0 <= i < out.len() implies config_wf(#[trigger] out[i]@) by {
            if i < head.len() {
                assert(out[i] == head[i]);
                assert(config_wf(head[i]@));
            } else {
                assert(out[i] == rest[i - head.len()]);
                assert(config_wf(rest[i - head.len()]@));
            }
        }
    }
}

/// One row of frontier expansion over every configuration at once.
pub trait AddQueenToAll {
    /// The inputs on which the expansion is defined.
    spec fn add_queen_to_all_ok(&self, n: &Numeral, x: &Numeral) -> bool;

    fn add_queen_to_all(&self, n: &Numeral, x: &Numeral) -> (r: List<List<Queen>>)
        requires
            self.add_queen_to_all_ok(n, x),
    ;
}

impl AddQueenToAll for List<List<Queen>> {
    open spec fn add_queen_to_all_ok(&self, n: &Numeral, x: &Numeral) -> bool {
        configs_wf(self@) && wf(*n) && to_int(*n) >= 0 && wf(*x) && to_int(*x) >= 0
    }

    fn add_queen_to_all(&self, n: &Numeral, x: &Numeral) -> (r: List<List<Queen>>)
        ensures
            r@ == step_spec(to_int(*n), *x, self@),
            configs_wf(r@),
    {
        let f = AddQueen2 { n: n.clone(), x: x.clone() };
        proof {
            assert forall|i: int| 0 <= i < self@.len() implies f.in_dom(#[trigger] self@[i]) by {
                assert(config_wf(self@[i]@));
            }
            lemma_flat_map_step_eq(f, self@);
            lemma_step_spec_wf(to_int(*n), *x, self@);
        }
        flat_map_list(&f, self)
    }
}

/// The frontier after all rows from `x` up to the board size have been
/// filled.
pub open spec fn add_queens_spec(n: int, x: int, configs: Seq<List<Queen>>) -> Seq<List<Queen>>
    decreases (if x < n { n - x } else { 0int }),
{
    if x < n {
        add_queens_spec(n, x + 1, step_spec(n, from_int(x), configs))
    } else {
        configs
    }
}

/// The conditional step of the row recursion: expand and continue while rows
/// are left, otherwise the frontier is final.
pub trait AddQueensIf: Sized {
    /// The inputs on which the step is defined; the condition must be the
    /// comparison of the current row against the board size.
    spec fn add_queens_if_ok(&self, cond: &Boolean, n: &Numeral, x: &Numeral) -> bool;

    fn add_queens_if(self, cond: &Boolean, n: &Numeral, x: &Numeral) -> Self
        requires
            self.add_queens_if_ok(cond, n, x),
    ;
}

/// Row-by-row frontier expansion from row `x` through the last row.
pub trait AddQueens: Sized {
    /// The inputs on which the expansion is defined.
    spec fn add_queens_ok(&self, n: &Numeral, x: &Numeral) -> bool;

    fn add_queens(self, n: &Numeral, x: &Numeral) -> Self
        requires
            self.add_queens_ok(n, x),
    ;
}

impl AddQueensIf for List<List<Queen>> {
    open spec fn add_queens_if_ok(&self, cond: &Boolean, n: &Numeral, x: &Numeral) -> bool {
        configs_wf(self@) && wf(*n) && to_int(*n) >= 0 && wf(*x) && to_int(*x) >= 0 && *cond
            == crate::numbers::spec_lt(*x, *n)
    }

    fn add_queens_if(self, cond: &Boolean, n: &Numeral, x: &Numeral) -> (r: List<List<Queen>>)
        ensures
            r@ == add_queens_spec(to_int(*n), to_int(*x), self@),
            configs_wf(r@),
    {
        match cond {
            Boolean::False => self,
            Boolean::True => {
                let expanded = self.add_queen_to_all(n, x);
                let x1 = increment(x);
                proof {
                    lemma_from_int_wf(to_int(*x) + 1);
                    lemma_to_int_from_int(to_int(*x) + 1);
                    lemma_canonical(*x);
                }
                expanded.add_queens(n, &x1)
            },
        }
    }
}

impl AddQueens for List<List<Queen>> {
    open spec fn add_queens_ok(&self, n: &Numeral, x: &Numeral) -> bool {
        configs_wf(self@) && wf(*n) && to_int(*n) >= 0 && wf(*x) && to_int(*x) >= 0
    }

    fn add_queens(self, n: &Numeral, x: &Numeral) -> (r: List<List<Queen>>)
        ensures
            r@ == add_queens_spec(to_int(*n), to_int(*x), self@),
            configs_wf(r@),
        decreases
            (if to_int(*x) <= to_int(*n) {
                to_int(*n) - to_int(*x)
            } else {
                0int
            }),
    {
        let cond = x.peano_lt(n);
        match cond {
            Boolean::False => self,
            Boolean::True => {
                let expanded = self.add_queen_to_all(n, x);
                let x1 = increment(x);
                proof {
                    lemma_from_int_wf(to_int(*x) + 1);
                    lemma_to_int_from_int(to_int(*x) + 1);
                    lemma_canonical(*x);
                }
                expanded.add_queens(n, &x1)
            },
        }
    }
}

/// Every complete solution of the `n` by `n` board, grown row by row from the
/// single empty configuration.
pub open spec fn nqueens_spec(n: int) -> Seq<List<Queen>> {
    add_queens_spec(n, 0, seq![List::<Queen>::Nil])
}

/// The N-Queens enumerator: from a board size to the list of all complete
/// safe configurations, each a list of that many queens.
pub struct NQueensSolution;

impl Function<Numeral, List<List<Queen>>> for NQueensSolution {
    open spec fn in_dom(&self, n: Numeral) -> bool {
        wf(n) && to_int(n) >= 0
    }

    open spec fn result_of(&self, n: Numeral) -> List<List<Queen>> {
        list_of(nqueens_spec(to_int(n)))
    }

    fn apply(&self, n: &Numeral) -> (r: List<List<Queen>>) {
        let seed: List<List<Queen>> = List::Cons(List::Nil, Box::new(List::Nil));
        proof {
            assert(seq_of(List::<Queen>::Nil) =~= Seq::<Queen>::empty());
            assert(seq_of(List::<List<Queen>>::Nil) =~= Seq::<List<Queen>>::empty());
            assert(seed@ =~= seq![List::<Queen>::Nil]);
            assert(configs_wf(seed@));
        }
        let zero = Numeral::Zero;
        let r = seed.add_queens(n, &zero);
        proof {
            lemma_list_of_seq_of(r);
        }
        r
    }
}

/// Concrete probes of the threat test, one per geometric case: shared
/// column, shared row, the two diagonal directions, and a pair off every
/// line.
pub fn threatens_type_test() {
    proof {
        lemma_to_int_from_int(0);
        lemma_to_int_from_int(1);
        lemma_to_int_from_int(3);
        lemma_to_int_from_int(4);
        lemma_to_int_from_int(8);
        lemma_from_int_wf(0);
        lemma_from_int_wf(1);
        lemma_from_int_wf(3);
        lemma_from_int_wf(4);
        lemma_from_int_wf(8);
    }
    let q_0_0 = Queen { x: numeral_of(0), y: numeral_of(0) };
    let q_0_8 = Queen { x: numeral_of(0), y: numeral_of(8) };
    let q_4_0 = Queen { x: numeral_of(4), y: numeral_of(0) };
    let q_4_4 = Queen { x: numeral_of(4), y: numeral_of(4) };
    let q_4_3 = Queen { x: numeral_of(4), y: numeral_of(3) };
    let q_1_0 = Queen { x: numeral_of(1), y: numeral_of(0) };
    let same_column = q_0_0.threatens(&q_0_8);
    assert(same_column is True);
    let same_row = q_0_0.threatens(&q_4_0);
    assert(same_row is True);
    let diagonal = q_0_0.threatens(&q_4_4);
    assert(diagonal is True);
    let diagonal_back = q_4_4.threatens(&q_0_0);
    assert(diagonal_back is True);
    let off_every_line = q_4_3.threatens(&q_0_0);
    assert(off_every_line is False);
    let other_diagonal = q_4_3.threatens(&q_1_0);
    assert(other_diagonal is True);
    let other_diagonal_back = q_1_0.threatens(&q_4_3);
    assert(other_diagonal_back is True);
}

/// A probe of prepending a queen to the empty configuration.
pub fn test_prepend() {
    let grow = Prepend { items: List::Nil };
    let q = Queen { x: Numeral::Zero, y: Numeral::Zero };
    let extended = grow.apply(&q);
    proof {
        assert(seq_of(List::<Queen>::Nil) =~= Seq::<Queen>::empty());
        assert(extended@ =~= seq![Queen { x: Numeral::Zero, y: Numeral::Zero }]);
    }
}

/// A probe of extending the empty configuration on a one-square board: the
/// single square is safe, so exactly one configuration comes back.
pub fn test_add_queen() {
    proof {
        lemma_to_int_from_int(0);
        lemma_to_int_from_int(1);
        lemma_from_int_wf(0);
        lemma_from_int_wf(1);
    }
    let config: List<Queen> = List::Nil;
    let n = numeral_of(1);
    let x = numeral_of(0);
    proof {
        assert(config@ =~= Seq::<Queen>::empty());
    }
    let extensions = config.add_queen(&n, &x);
    proof {
        let qs = queens_in_row_spec(1, from_int(0));
        assert(qs.len() == 1);
        assert(spec_safe(config@, qs.first()) is True);
        assert(safe_squares_spec(config@, qs.drop_first()) =~= Seq::<Queen>::empty());
        assert(safe_squares_spec(config@, qs).len() == 1);
        assert(extensions@.len() == 1);
    }
}

/// A probe of the packaged single-configuration extension.
pub fn test_add_queen2() {
    proof {
        lemma_to_int_from_int(0);
        lemma_to_int_from_int(1);
        lemma_from_int_wf(0);
        lemma_from_int_wf(1);
    }
    let f = AddQueen2 { n: numeral_of(1), x: numeral_of(0) };
    let config: List<Queen> = List::Nil;
    proof {
        assert(config@ =~= Seq::<Queen>::empty());
    }
    let extensions = f.apply(&config);
    proof {
        let s = add_queen_spec(List::<Queen>::Nil, 1, from_int(0));
        lemma_seq_of_list_of(s);
        let qs = queens_in_row_spec(1, from_int(0));
        assert(qs.len() == 1);
        assert(spec_safe(Seq::<Queen>::empty(), qs.first()) is True);
        assert(safe_squares_spec(seq_of(List::<Queen>::Nil), qs.drop_first()) =~= Seq::<
            Queen,
        >::empty());
        assert(extensions@.len() == 1);
    }
}

/// A probe of one whole-frontier expansion step over the singleton frontier.
pub fn test_add_queen_to_all() {
    proof {
        lemma_to_int_from_int(0);
        lemma_to_int_from_int(1);
        lemma_from_int_wf(0);
        lemma_from_int_wf(1);
    }
    let seed: List<List<Queen>> = List::Cons(List::Nil, Box::new(List::Nil));
    let n = numeral_of(1);
    let x = numeral_of(0);
    proof {
        assert(seq_of(List::<Queen>::Nil) =~= Seq::<Queen>::empty());
        assert(seq_of(List::<List<Queen>>::Nil) =~= Seq::<List<Queen>>::empty());
        assert(seed@ =~= seq![List::<Queen>::Nil]);
        assert(configs_wf(seed@));
    }
    let expanded = seed.add_queen_to_all(&n, &x);
    proof {
        let frontier = seq![List::<Queen>::Nil];
        assert(frontier.drop_first() =~= Seq::<List<Queen>>::empty());
        assert(step_spec(1, from_int(0), frontier.drop_first()) =~= Seq::<List<Queen>>::empty());
        let qs = queens_in_row_spec(1, from_int(0));
        assert(qs.len() == 1);
        assert(spec_safe(Seq::<Queen>::empty(), qs.first()) is True);
        assert(safe_squares_spec(seq_of(List::<Queen>::Nil), qs.drop_first()) =~= Seq::<
            Queen,
        >::empty());
        assert(add_queen_spec(List::<Queen>::Nil, 1, from_int(0)).len() == 1);
        assert(expanded@.len() == 1);
    }
}

} // verus!
