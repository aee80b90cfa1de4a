use peano_core::booleans::Boolean;
use peano_core::functions::Function;
use peano_core::lists::List;
use peano_core::nqueens::{NQueensSolution, Queen, Safe, Threatens};
use peano_core::numbers::{numeral_of, Numeral};

fn queen(x: u64, y: u64) -> Queen {
    Queen { x: numeral_of(x), y: numeral_of(y) }
}

fn solution_count(n: u64) -> usize {
    let board = numeral_of(n);
    let solutions = NQueensSolution.apply(&board);
    solutions.length()
}

#[test]
fn queen_threatens_itself() {
    for &(x, y) in [(0u64, 0u64), (3, 5), (7, 7)].iter() {
        let a = queen(x, y);
        let b = queen(x, y);
        assert_eq!(a.threatens(&b), Boolean::True);
    }
}

#[test]
fn threat_geometry() {
    assert_eq!(queen(0, 0).threatens(&queen(0, 8)), Boolean::True);
    assert_eq!(queen(0, 0).threatens(&queen(4, 0)), Boolean::True);
    assert_eq!(queen(0, 0).threatens(&queen(4, 4)), Boolean::True);
    assert_eq!(queen(4, 3).threatens(&queen(0, 0)), Boolean::False);
    assert_eq!(queen(4, 3).threatens(&queen(1, 0)), Boolean::True);
}

#[test]
fn safety_against_a_configuration() {
    let config = List::Cons(queen(0, 1), Box::new(List::Nil));
    assert_eq!(config.safe(&queen(1, 3)), Boolean::True);
    assert_eq!(config.safe(&queen(1, 2)), Boolean::False);
    assert_eq!(config.safe(&queen(1, 1)), Boolean::False);
    let empty: List<Queen> = List::Nil;
    assert_eq!(empty.safe(&queen(0, 0)), Boolean::True);
}

#[test]
fn small_boards() {
    assert_eq!(solution_count(0), 1);
    assert_eq!(solution_count(1), 1);
    assert_eq!(solution_count(2), 0);
    assert_eq!(solution_count(3), 0);
}

#[test]
fn four_queens_has_two_solutions() {
    assert_eq!(solution_count(4), 2);
}

#[test]
fn five_queens_has_ten_solutions() {
    assert_eq!(solution_count(5), 10);
}

#[test]
fn eight_queens_has_ninety_two_solutions() {
    assert_eq!(solution_count(8), 92);
}

#[test]
fn solutions_are_complete_boards() {
    let board = numeral_of(4);
    let solutions = NQueensSolution.apply(&board);
    let mut walker = &solutions;
    while let List::Cons(config, rest) = walker {
        assert_eq!(config.length(), 4);
        walker = rest;
    }
}
