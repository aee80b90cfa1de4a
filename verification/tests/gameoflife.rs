use peano_core::functions::Function;
use peano_core::gameoflife::{
    Cell, CellComparisonFunction, GetCellNeighbors, IncrementItemCounter, SingleGOLIter,
    count_instances,
};
use peano_core::lists::List;
use peano_core::numbers::{numeral_of, numeral_of_int, Number, Numeral};

fn cell(x: i64, y: i64) -> Cell {
    Cell { x: numeral_of_int(x), y: numeral_of_int(y) }
}

fn cell_list(coords: &[(i64, i64)]) -> List<Cell> {
    let mut l = List::Nil;
    for &(x, y) in coords.iter().rev() {
        l = List::Cons(cell(x, y), Box::new(l));
    }
    l
}

fn to_pairs(l: &List<Cell>) -> Vec<(i64, i64)> {
    let mut v = Vec::new();
    let mut walker = l;
    while let List::Cons(c, rest) = walker {
        v.push((c.x.value(), c.y.value()));
        walker = rest;
    }
    v
}

fn sorted_pairs(l: &List<Cell>) -> Vec<(i64, i64)> {
    let mut v = to_pairs(l);
    v.sort();
    v
}

#[test]
fn test_cell_neighbors() {
    let left = cell(-1, 0);
    let origin = cell(0, 0);
    let right = cell(1, 0);
    let cells = List::Cons(
        left,
        Box::new(List::Cons(origin, Box::new(List::Cons(right, Box::new(List::Nil))))),
    );
    let result = SingleGOLIter.apply(&cells);
    println!("{:?}", to_pairs(&result));
    let result2 = SingleGOLIter.apply(&result);
    println!("{:?}", to_pairs(&result2));
}

#[test]
fn test_increment_item_counter() {
    let apple = cell(0, 0);
    let banana = cell(1, 0);
    let orange = cell(2, 0);
    let counter: List<(Cell, Numeral)> = List::Cons(
        (apple, numeral_of(1)),
        Box::new(List::Cons(
            (banana, numeral_of(3)),
            Box::new(List::Cons((orange, numeral_of(2)), Box::new(List::Nil))),
        )),
    );
    println!("{:?}", counter);
    let incremented = counter.increment_item_counter(cell(2, 0), &CellComparisonFunction);
    println!("{:?}", incremented);
}

#[test]
fn tally_counts_in_first_seen_order() {
    let items = cell_list(&[(0, 0), (5, 5), (0, 0), (7, -3), (5, 5), (0, 0)]);
    let tallies = count_instances(&CellComparisonFunction, List::Nil, items);
    let expected: List<(Cell, Numeral)> = List::Cons(
        (cell(0, 0), numeral_of(3)),
        Box::new(List::Cons(
            (cell(5, 5), numeral_of(2)),
            Box::new(List::Cons((cell(7, -3), numeral_of(1)), Box::new(List::Nil))),
        )),
    );
    assert_eq!(tallies, expected);
}

#[test]
fn neighbors_in_fixed_order() {
    let c = cell(0, 0);
    let neighbors = GetCellNeighbors.apply(&c);
    assert_eq!(
        to_pairs(&neighbors),
        vec![(-1, -1), (-1, 0), (-1, 1), (0, -1), (0, 1), (1, -1), (1, 0), (1, 1)],
    );
}

#[test]
fn glider_one_step() {
    let glider = cell_list(&[(0, 0), (1, -1), (2, -1), (2, 0), (2, 1)]);
    let next = SingleGOLIter.apply(&glider);
    assert_eq!(sorted_pairs(&next), vec![(1, -1), (1, 1), (2, -1), (2, 0), (3, 0)]);
}

#[test]
fn glider_four_steps_translates_diagonally() {
    let start: Vec<(i64, i64)> = vec![(0, 0), (1, -1), (2, -1), (2, 0), (2, 1)];
    let mut board = cell_list(&start);
    for _ in 0..4 {
        board = SingleGOLIter.apply(&board);
    }
    let mut expected: Vec<(i64, i64)> = start.iter().map(|&(x, y)| (x + 1, y - 1)).collect();
    expected.sort();
    assert_eq!(sorted_pairs(&board), expected);
}

#[test]
fn blinker_oscillates_with_period_two() {
    let horizontal = cell_list(&[(-1, 0), (0, 0), (1, 0)]);
    let vertical = SingleGOLIter.apply(&horizontal);
    assert_eq!(sorted_pairs(&vertical), vec![(0, -1), (0, 0), (0, 1)]);
    let back = SingleGOLIter.apply(&vertical);
    assert_eq!(sorted_pairs(&back), vec![(-1, 0), (0, 0), (1, 0)]);
}
