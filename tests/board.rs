use game_of_life::board::{Board, BoardTrait};
use game_of_life::cell::{Cell, CellTrait};
use game_of_life::location::Location;

#[test]
fn test_board_get() {
    let board: Board<Cell> = BoardTrait::new_with(10, 10, vec![Location { x: 0, y: 0 }]);
    assert!(board.get(0, 0).is_some());

    let board: Board<Cell> = BoardTrait::new_with(10, 10, vec![Location { x: 11, y: 11 }]);
    assert!(board.get(11, 11).is_none());
}

#[test]
fn test_board_insert() {
    let mut board: Board<Cell> = BoardTrait::new_with(10, 10, vec![]);
    board.insert(4, 5, CellTrait::new_alive());
    assert!(board.get(4, 5).is_some_and(|v| v.is_alive()));

    let mut board: Board<Cell> = BoardTrait::new_with(10, 10, vec![]);
    board.insert(11, 11, CellTrait::new_alive());
    assert!(board.is_empty());
}

#[test]
fn test_board_is_empty() {
    let board: Board<Cell> = BoardTrait::new_with(10, 10, vec![]);
    assert!(board.is_empty());

    let board: Board<Cell> = BoardTrait::new_with(10, 10, vec![Location { x: 1, y: 1 }]);
    assert!(!board.is_empty());
}

/// Each cell with one or no neighbors dies, as if by solitude.
#[test]
fn test_board_step_rule1() {
    let mut board: Board<Cell> = BoardTrait::new_with(10, 10, vec![Location { x: 0, y: 0 }]);
    board.step();
    assert!(board.is_empty());
}

/// Each cell with three neighbors becomes populated.
/// Each cell with two or three neighbors survives.
#[test]
fn test_board_step_rule2() {
    let mut board: Board<Cell> = BoardTrait::new_with(
        10,
        10,
        vec![
            Location { x: 3, y: 2 },
            Location { x: 3, y: 3 },
            Location { x: 3, y: 4 },
        ],
    );

    board.step();

    let cells = vec![board.get(2, 3), board.get(3, 3), board.get(4, 3)];

    assert!(cells.into_iter().all(|c| c.is_some_and(|c| c.is_alive())));
}

/// Each cell with four or more neighbors dies, as if by overpopulation.
#[test]
fn test_board_step_rule3() {
    let mut board: Board<Cell> = BoardTrait::new_with(
        10,
        10,
        vec![
            Location { x: 3, y: 3 },
            Location { x: 4, y: 3 },
            Location { x: 5, y: 3 },
            Location { x: 3, y: 4 },
            Location { x: 4, y: 4 },
        ],
    );

    board.step();

    assert!(board.get(4, 4).is_some_and(|c| !c.is_alive()));
}

#[test]
fn test_board_formatted() {
    let mut board: Board<Cell> = BoardTrait::new_with(10, 10, vec![Location { x: 0, y: 0 }]);
    let s1 = board.formatted();

    board.step();
    let s2 = board.formatted();

    assert_ne!(s1, s2)
}
