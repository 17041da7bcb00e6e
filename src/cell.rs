use vstd::prelude::*;
use vstd::string::*;

verus! {

/// The character that stands for a cell in a rendered grid: `#` for a live
/// cell, a space for a dead one.
pub open spec fn glyph(alive: bool) -> char {
    if alive {
        '#'
    } else {
        ' '
    }
}

/// Conway's transition rule: a live cell survives with two or three live
/// neighbours, a dead cell comes to life with exactly three.
pub open spec fn next_state(alive: bool, live_neighbors: nat) -> bool {
    if alive {
        live_neighbors == 2 || live_neighbors == 3
    } else {
        live_neighbors == 3
    }
}

/// 1 for a live neighbour, 0 for a dead or absent one.
pub open spec fn weight(live: bool) -> nat {
    if live {
        1
    } else {
        0
    }
}

/// The number of live neighbours among the eight slots around a cell.
pub open spec fn live_count(
    above: bool,
    below: bool,
    next: bool,
    before: bool,
    above_before: bool,
    above_next: bool,
    below_before: bool,
    below_next: bool,
) -> nat {
    weight(above) + weight(below) + weight(next) + weight(before) + weight(above_before) + weight(
        above_next,
    ) + weight(below_before) + weight(below_next)
}

/// A two-state cell of the grid.
pub trait CellTrait: Sized {
    /// Whether the cell is alive.
    spec fn alive(&self) -> bool;

    fn invert(&mut self)
        ensures
            final(self).alive() == !old(self).alive(),
    ;

    fn is_alive(&self) -> (r: bool)
        ensures
            r == self.alive(),
    ;

    /// The one-character rendering of the cell.
    fn formatted(&self) -> (r: String)
        ensures
            r@ == seq![glyph(self.alive())],
    ;

    fn new_alive() -> (r: Self)
        ensures
            r.alive(),
    ;

    fn new_dead() -> (r: Self)
        ensures
            !r.alive(),
    ;

    /// The next generation of a cell that is `is_alive` now, given its eight
    /// neighbours; `None` stands for a position off the grid.
    fn new_with(
        is_alive: bool,
        above: Option<&Self>,
        below: Option<&Self>,
        next: Option<&Self>,
        before: Option<&Self>,
        above_before: Option<&Self>,
        above_next: Option<&Self>,
        below_before: Option<&Self>,
        below_next: Option<&Self>,
    ) -> (r: Self)
        ensures
            r.alive() == next_state(
                is_alive,
                live_count(
                    above matches Some(c) && c.alive(),
                    below matches Some(c) && c.alive(),
                    next matches Some(c) && c.alive(),
                    before matches Some(c) && c.alive(),
                    above_before matches Some(c) && c.alive(),
                    above_next matches Some(c) && c.alive(),
                    below_before matches Some(c) && c.alive(),
                    below_next matches Some(c) && c.alive(),
                ),
            ),
    ;
}

/// A cell that is either alive or dead; dead by default.
#[derive(Clone, Debug)]
pub struct Cell {
    is_alive: bool,
}

impl Default for Cell {
    fn default() -> (r: Self)
        ensures
            !r.alive(),
    {
        Cell { is_alive: false }
    }
}

/// 1 where the slot holds a live cell, else 0.
fn count_of(c: Option<&Cell>) -> (r: u8)
    ensures
        r as nat == weight(c matches Some(c) && c.alive()),
{
    match c {
        Some(c) => if c.is_alive {
            1
        } else {
            0
        },
        None => 0,
    }
}

impl CellTrait for Cell {
    closed spec fn alive(&self) -> bool {
        self.is_alive
    }

    fn invert(&mut self) {
        self.is_alive = !self.is_alive;
    }

    fn is_alive(&self) -> (r: bool) {
        self.is_alive
    }

    fn formatted(&self) -> (r: String) {
        proof {
            reveal_strlit("#");
            reveal_strlit(" ");
        }
        if self.is_alive {
            String::from_str("#")
        } else {
            String::from_str(" ")
        }
    }

    fn new_alive() -> (r: Self) {
        Cell { is_alive: true }
    }

    fn new_dead() -> (r: Self) {
        Cell { is_alive: false }
    }

    fn new_with(
        is_alive: bool,
        above: Option<&Self>,
        below: Option<&Self>,
        next: Option<&Self>,
        before: Option<&Self>,
        above_before: Option<&Self>,
        above_next: Option<&Self>,
        below_before: Option<&Self>,
        below_next: Option<&Self>,
    ) -> (r: Self) {
        let alive: u8 = count_of(above) + count_of(below) + count_of(next) + count_of(before)
            + count_of(above_before) + count_of(above_next) + count_of(below_before) + count_of(
            below_next,
        );
        let survives = if is_alive {
            alive == 2 || alive == 3
        } else {
            alive == 3
        };
        if survives {
            Cell::new_alive()
        } else {
            Cell::new_dead()
        }
    }
}

} // verus!
