use game_of_life::cell::{Cell, CellTrait};

#[test]
fn test_cell_invert() {
    let mut cell: Cell = CellTrait::new_alive();
    let is_alive = cell.is_alive();
    cell.invert();
    assert_ne!(is_alive, cell.is_alive());
}

#[test]
fn test_cell_new_dead() {
    let cell: Cell = CellTrait::new_dead();
    assert_eq!(false, cell.is_alive());
}

#[test]
fn test_cell_new_alive() {
    let cell: Cell = CellTrait::new_alive();
    assert_eq!(true, cell.is_alive());
}

#[test]
fn test_cell_is_alive() {
    let cell: Cell = CellTrait::new_alive();
    let is_alive = cell.is_alive();
    assert_eq!(is_alive, cell.is_alive());
}

#[test]
fn test_cell_formatted() {
    let cell0: Cell = CellTrait::new_alive();
    let cell1: Cell = CellTrait::new_dead();
    assert_ne!(cell0.formatted(), cell1.formatted());
}

/// Builds the next state of a cell whose neighbours, in the order above,
/// below, next, before, above-before, above-next, below-before, below-next,
/// are alive where `flags` says so.
fn next_of(is_alive: bool, flags: [bool; 8]) -> Cell {
    let n: Vec<Cell> = flags
        .iter()
        .map(|&f| if f { CellTrait::new_alive() } else { CellTrait::new_dead() })
        .collect();
    CellTrait::new_with(
        is_alive,
        Some(&n[0]),
        Some(&n[1]),
        Some(&n[2]),
        Some(&n[3]),
        Some(&n[4]),
        Some(&n[5]),
        Some(&n[6]),
        Some(&n[7]),
    )
}

#[test]
fn test_cell_new_with() {
    // 3 alive and self not active
    let cell = next_of(false, [true, true, true, false, false, false, false, false]);
    assert!(cell.is_alive());

    // empty
    let cell = next_of(true, [false; 8]);
    assert!(!cell.is_alive());

    // 2 alive
    let cell = next_of(true, [true, true, false, false, false, false, false, false]);
    assert!(cell.is_alive());

    // 3 alive
    let cell = next_of(true, [true, true, true, false, false, false, false, false]);
    assert!(cell.is_alive());

    // 4 alive
    let cell = next_of(true, [true, true, true, true, false, false, false, false]);
    assert!(!cell.is_alive())
}

#[test]
fn cell_rule_for_every_count() {
    for n in 0..=8usize {
        let mut flags = [false; 8];
        for f in flags.iter_mut().take(n) {
            *f = true;
        }
        assert_eq!(next_of(true, flags).is_alive(), n == 2 || n == 3, "alive, {} neighbours", n);
        assert_eq!(next_of(false, flags).is_alive(), n == 3, "dead, {} neighbours", n);
    }
}

#[test]
fn cell_absent_neighbours_count_as_dead() {
    let a: Cell = CellTrait::new_alive();
    let born: Cell =
        CellTrait::new_with(false, Some(&a), Some(&a), Some(&a), None, None, None, None, None);
    assert!(born.is_alive());
    let lonely: Cell = CellTrait::new_with(true, None, None, None, None, None, None, None, None);
    assert!(!lonely.is_alive());
}

#[test]
fn cell_glyphs() {
    let alive: Cell = CellTrait::new_alive();
    let dead: Cell = CellTrait::new_dead();
    assert_eq!(alive.formatted(), "#");
    assert_eq!(dead.formatted(), " ");
}

#[test]
fn cell_default_is_dead_and_invert_twice_restores() {
    let mut cell = Cell::default();
    assert!(!cell.is_alive());
    cell.invert();
    assert!(cell.is_alive());
    cell.invert();
    assert!(!cell.is_alive());
}
