use vstd::prelude::*;
use vstd::string::*;

use crate::cell::{glyph, live_count, next_state, CellTrait};
use crate::location::Location;

verus! {

/// `g` has `h` rows of `w` entries each.
pub open spec fn shaped<A>(g: Seq<Seq<A>>, w: nat, h: nat) -> bool {
    &&& g.len() == h
    &&& forall|y: int| 0 <= y < h ==> (#[trigger] g[y]).len() == w
}

/// The liveness of each cell of a grid of cells.
pub open spec fn alive_grid<T: CellTrait>(cells: Seq<Seq<T>>) -> Seq<Seq<bool>> {
    cells.map_values(|row: Seq<T>| row.map_values(|c: T| c.alive()))
}

/// Whether the position `(x, y)` lies on the grid and holds a live cell;
/// positions off the grid count as dead.
pub open spec fn live_at(g: Seq<Seq<bool>>, x: int, y: int) -> bool {
    0 <= y < g.len() && 0 <= x < g[y].len() && g[y][x]
}

/// The number of live cells among the eight neighbours of `(x, y)`.
pub open spec fn neighbors(g: Seq<Seq<bool>>, x: int, y: int) -> nat {
    live_count(
        live_at(g, x, y - 1),
        live_at(g, x, y + 1),
        live_at(g, x + 1, y),
        live_at(g, x - 1, y),
        live_at(g, x - 1, y - 1),
        live_at(g, x + 1, y - 1),
        live_at(g, x - 1, y + 1),
        live_at(g, x + 1, y + 1),
    )
}

/// The next generation of a whole grid, every cell computed from the
/// current generation alone.
pub open spec fn step_grid(g: Seq<Seq<bool>>) -> Seq<Seq<bool>> {
    Seq::new(
        g.len(),
        |y: int| Seq::new(g[y].len(), |x: int| next_state(g[y][x], neighbors(g, x, y))),
    )
}

/// No cell of the grid is alive.
pub open spec fn no_live(g: Seq<Seq<bool>>) -> bool {
    forall|y: int, x: int| 0 <= y < g.len() && 0 <= x < g[y].len() ==> !g[y][x]
}

/// A `w` by `h` grid of dead cells.
pub open spec fn dead_grid(w: nat, h: nat) -> Seq<Seq<bool>> {
    Seq::new(h, |y: int| Seq::new(w, |x: int| false))
}

/// A `w` by `h` grid whose live cells are exactly the listed positions that
/// lie on it.
pub open spec fn seeded_grid(w: nat, h: nat, locs: Seq<Location>) -> Seq<Seq<bool>> {
    Seq::new(
        h,
        |y: int|
            Seq::new(
                w,
                |x: int| exists|i: int| 0 <= i < locs.len() && locs[i].x == x && locs[i].y == y,
            ),
    )
}

/// `g` with the entry at column `x`, row `y` replaced by `v`; unchanged when
/// the position is off the grid.
pub open spec fn put<A>(g: Seq<Seq<A>>, x: int, y: int, v: A) -> Seq<Seq<A>> {
    if 0 <= y < g.len() && 0 <= x < g[y].len() {
        g.update(y, g[y].update(x, v))
    } else {
        g
    }
}

/// One rendered row: a glyph per cell, left to right, then a newline.
pub open spec fn render_line(row: Seq<bool>) -> Seq<char> {
    row.map_values(|c: bool| glyph(c)).push('\n')
}

/// The rendered grid: its rows from top to bottom.
pub open spec fn render(g: Seq<Seq<bool>>) -> Seq<char>
    decreases g.len(),
{
    if g.len() == 0 {
        Seq::empty()
    } else {
        render(g.drop_last()) + render_line(g.last())
    }
}

/// Writing a cell into a grid of cells writes its liveness into the grid of
/// liveness.
pub proof fn lemma_alive_grid_put<T: CellTrait>(cells: Seq<Seq<T>>, x: int, y: int, v: T)
    ensures
        alive_grid(put(cells, x, y, v)) == put(alive_grid(cells), x, y, v.alive()),
{
    assert(alive_grid(put(cells, x, y, v)) =~~= put(alive_grid(cells), x, y, v.alive()));
}

/// A rendered non-empty grid is non-empty and ends in a newline.
proof fn lemma_render_ends_in_newline(g: Seq<Seq<bool>>)
    requires
        g.len() > 0,
    ensures
        render(g).len() > 0,
        render(g).last() == '\n',
{
    assert(render(g) == render(g.drop_last()) + render_line(g.last()));
}

/// A rendered row holds a newline only at its end.
proof fn lemma_line_glyphs(row: Seq<bool>, i: int)
    requires
        0 <= i < row.len(),
    ensures
        render_line(row)[i] == glyph(row[i]),
        render_line(row)[i] != '\n',
{
}

/// Where two grids render alike, the last line of the first is no shorter
/// than that of the second.
proof fn lemma_last_line_not_shorter(g1: Seq<Seq<bool>>, g2: Seq<Seq<bool>>)
    requires
        g1.len() > 0,
        g2.len() > 0,
        render(g1) == render(g2),
    ensures
        render_line(g1.last()).len() >= render_line(g2.last()).len(),
{
    let s = render(g1);
    let (a1, l1) = (render(g1.drop_last()), render_line(g1.last()));
    let (a2, l2) = (render(g2.drop_last()), render_line(g2.last()));
    assert(s == a1 + l1);
    assert(s == a2 + l2);
    if l1.len() < l2.len() {
        if g1.drop_last().len() == 0 {
            assert(a1.len() == 0);
        } else {
            lemma_render_ends_in_newline(g1.drop_last());
            let p = a1.len() - 1;
            assert(s[p] == a1.last());
            let q = p - a2.len();
            assert(0 <= q < l2.len() - 1);
            assert(s[p] == l2[q]);
            lemma_line_glyphs(g2.last(), q);
        }
    }
}

/// Rendering tells grids apart: two grids render to the same text exactly
/// when they are the same grid, so rendering a grid twice gives the same text
/// and grids with different live cells never render alike.
pub proof fn lemma_render_injective(g1: Seq<Seq<bool>>, g2: Seq<Seq<bool>>)
    ensures
        render(g1) == render(g2) <==> g1 == g2,
    decreases g1.len() + g2.len(),
{
    if render(g1) == render(g2) {
        if g1.len() == 0 || g2.len() == 0 {
            if g1.len() > 0 {
                lemma_render_ends_in_newline(g1);
            }
            if g2.len() > 0 {
                lemma_render_ends_in_newline(g2);
            }
            assert(g1 =~= g2);
        } else {
            lemma_last_line_not_shorter(g1, g2);
            lemma_last_line_not_shorter(g2, g1);
            let s = render(g1);
            let (a1, l1) = (render(g1.drop_last()), render_line(g1.last()));
            let (a2, l2) = (render(g2.drop_last()), render_line(g2.last()));
            assert(s == a1 + l1);
            assert(s == a2 + l2);
            assert(a1 =~= s.take(a1.len() as int));
            assert(a2 =~= s.take(a2.len() as int));
            assert(l1 =~= l2) by {
                assert forall|i: int| 0 <= i < l1.len() implies l1[i] == l2[i] by {
                    assert(l1[i] == s[a1.len() + i]);
                    assert(l2[i] == s[a2.len() + i]);
                }
            }
            lemma_render_injective(g1.drop_last(), g2.drop_last());
            assert(g1.last() =~= g2.last()) by {
                assert forall|i: int| 0 <= i < g1.last().len() implies g1.last()[i]
                    == g2.last()[i] by {
                    lemma_line_glyphs(g1.last(), i);
                    lemma_line_glyphs(g2.last(), i);
                }
            }
            assert(g1 =~= g1.drop_last().push(g1.last()));
            assert(g2 =~= g2.drop_last().push(g2.last()));
        }
    }
}

/// Writing a cell at a position off a `w` by `h` grid leaves the grid, and so
/// whether it has a live cell, as it was.
pub proof fn lemma_insert_off_grid<T: CellTrait>(
    cells: Seq<Seq<T>>,
    w: nat,
    h: nat,
    x: int,
    y: int,
    data: T,
)
    requires
        shaped(cells, w, h),
        x >= w || y >= h,
    ensures
        put(cells, x, y, data) == cells,
        no_live(alive_grid(put(cells, x, y, data))) == no_live(alive_grid(cells)),
{
    if 0 <= y < h {
        assert(cells[y].len() == w);
    }
}

/// A grid with no live cell stays without one after a step: a birth needs
/// exactly three live neighbours.
pub proof fn lemma_step_of_dead_grid(g: Seq<Seq<bool>>)
    requires
        no_live(g),
    ensures
        no_live(step_grid(g)),
{
    assert forall|y: int, x: int|
        0 <= y < step_grid(g).len() && 0 <= x < step_grid(g)[y].len() implies !step_grid(
        g,
    )[y][x] by {
        assert(!g[y][x]);
        assert(neighbors(g, x, y) == 0);
    }
}

/// A fixed-size grid of cells that advances one generation at a time.
pub trait BoardTrait<T: CellTrait>: Sized {
    /// The number of columns.
    spec fn width(&self) -> nat;

    /// The number of rows.
    spec fn height(&self) -> nat;

    /// The cells, indexed by row, then by column.
    spec fn cells(&self) -> Seq<Seq<T>>;

    /// The cell at column `x`, row `y`; `None` off the grid.
    fn get(&self, x: usize, y: usize) -> (r: Option<&T>)
        requires
            shaped(self.cells(), self.width(), self.height()),
        ensures
            r is Some <==> (x < self.width() && y < self.height()),
            r matches Some(c) ==> *c == self.cells()[y as int][x as int],
    ;

    /// Replaces the cell at column `x`, row `y`; does nothing off the grid.
    fn insert(&mut self, x: usize, y: usize, data: T)
        requires
            shaped(old(self).cells(), old(self).width(), old(self).height()),
        ensures
            final(self).width() == old(self).width(),
            final(self).height() == old(self).height(),
            final(self).cells() == put(old(self).cells(), x as int, y as int, data),
            shaped(final(self).cells(), final(self).width(), final(self).height()),
    ;

    /// Advances every cell by one generation at once.
    fn step(&mut self)
        requires
            shaped(old(self).cells(), old(self).width(), old(self).height()),
        ensures
            final(self).width() == old(self).width(),
            final(self).height() == old(self).height(),
            alive_grid(final(self).cells()) == step_grid(alive_grid(old(self).cells())),
            shaped(final(self).cells(), final(self).width(), final(self).height()),
    ;

    /// Whether no cell is alive.
    fn is_empty(&self) -> (r: bool)
        requires
            shaped(self.cells(), self.width(), self.height()),
        ensures
            r == no_live(alive_grid(self.cells())),
    ;

    /// The grid as text: one line per row, one glyph per cell.
    fn formatted(&self) -> (r: String)
        requires
            shaped(self.cells(), self.width(), self.height()),
        ensures
            r@ == render(alive_grid(self.cells())),
    ;

    /// A `x` by `y` board whose live cells are the listed positions that lie
    /// on it; the others are ignored.
    fn new_with(x: usize, y: usize, data: Vec<Location>) -> (r: Self)
        ensures
            r.width() == x,
            r.height() == y,
            alive_grid(r.cells()) == seeded_grid(x as nat, y as nat, data@),
            shaped(r.cells(), r.width(), r.height()),
    ;

    /// A `x` by `y` board of dead cells.
    fn new(x: usize, y: usize) -> (r: Self)
        ensures
            r.width() == x,
            r.height() == y,
            alive_grid(r.cells()) == dead_grid(x as nat, y as nat),
            shaped(r.cells(), r.width(), r.height()),
    ;
}

/// A `width` by `height` grid stored row by row; every row holds `width`
/// cells.
pub struct Board<T: CellTrait> {
    width: usize,
    height: usize,
    rows: Vec<Vec<T>>,
}

impl<T: CellTrait> Board<T> {
    /// `get`, with what the result says of the position's liveness.
    fn probe(&self, x: usize, y: usize) -> (r: Option<&T>)
        requires
            shaped(self.cells(), self.width(), self.height()),
        ensures
            (r matches Some(c) && c.alive()) == live_at(alive_grid(self.cells()), x as int, y as int),
    {
        self.get(x, y)
    }

    /// The next generation of the cell at column `x`, row `y`.
    fn next_cell(&self, x: usize, y: usize) -> (r: T)
        requires
            shaped(self.cells(), self.width(), self.height()),
            x < self.width(),
            y < self.height(),
        ensures
            r.alive() == step_grid(alive_grid(self.cells()))[y as int][x as int],
    {
        let ghost g = alive_grid(self.cells());
        assert(self.rows@[y as int]@ == self.cells()[y as int]);
        let is_alive = self.rows[y][x].is_alive();
        let above = if y > 0 {
            self.probe(x, y - 1)
        } else {
            None
        };
        let below = self.probe(x, y + 1);
        let next = self.probe(x + 1, y);
        let before = if x > 0 {
            self.probe(x - 1, y)
        } else {
            None
        };
        let above_before = if y > 0 && x > 0 {
            self.probe(x - 1, y - 1)
        } else {
            None
        };
        let above_next = if y > 0 {
            self.probe(x + 1, y - 1)
        } else {
            None
        };
        let below_before = if x > 0 {
            self.probe(x - 1, y + 1)
        } else {
            None
        };
        let below_next = self.probe(x + 1, y + 1);
        assert(is_alive == g[y as int][x as int]);
        T::new_with(
            is_alive,
            above,
            below,
            next,
            before,
            above_before,
            above_next,
            below_before,
            below_next,
        )
    }
}

impl<T: CellTrait> BoardTrait<T> for Board<T> {
    closed spec fn width(&self) -> nat {
        self.width as nat
    }

    closed spec fn height(&self) -> nat {
        self.height as nat
    }

    closed spec fn cells(&self) -> Seq<Seq<T>> {
        self.rows@.map_values(|row: Vec<T>| row@)
    }

    fn get(&self, x: usize, y: usize) -> (r: Option<&T>) {
        if y < self.height && x < self.width {
            assert(self.rows@[y as int]@ == self.cells()[y as int]);
            Some(&self.rows[y][x])
        } else {
            None
        }
    }

    fn insert(&mut self, x: usize, y: usize, data: T) {
        if y < self.height && x < self.width {
            self.rows[y][x] = data;
        }
        assert(self.cells() =~~= put(old(self).cells(), x as int, y as int, data));
    }

    fn step(&mut self) {
        let ghost g = alive_grid(self.cells());
        let ghost next = step_grid(g);
        let mut rows: Vec<Vec<T>> = Vec::new();
        let mut y: usize = 0;
        while y < self.height
            invariant
                shaped(self.cells(), self.width(), self.height()),
                g == alive_grid(self.cells()),
                next == step_grid(g),
                y <= self.height,
                rows@.len() == y,
                forall|i: int| 0 <= i < y ==> (#[trigger] rows@[i])@.len() == self.width,
                forall|i: int, j: int|
                    0 <= i < y && 0 <= j < self.width ==> (#[trigger] rows@[i]@[j]).alive()
                        == next[i][j],
            decreases self.height - y,
        {
            let mut row: Vec<T> = Vec::new();
            let mut x: usize = 0;
            while x < self.width
                invariant
                    shaped(self.cells(), self.width(), self.height()),
                    g == alive_grid(self.cells()),
                    next == step_grid(g),
                    y < self.height,
                    x <= self.width,
                    row@.len() == x,
                    forall|j: int| 0 <= j < x ==> (#[trigger] row@[j]).alive() == next[y as int][j],
                decreases self.width - x,
            {
                let cell = self.next_cell(x, y);
                row.push(cell);
                x += 1;
            }
            rows.push(row);
            y += 1;
        }
        self.rows = rows;
        assert(alive_grid(self.cells()) =~~= next);
    }

    fn is_empty(&self) -> (r: bool) {
        let ghost g = alive_grid(self.cells());
        let mut y: usize = 0;
        while y < self.height
            invariant
                shaped(self.cells(), self.width(), self.height()),
                g == alive_grid(self.cells()),
                y <= self.height,
                forall|i: int, j: int| 0 <= i < y && 0 <= j < self.width ==> !g[i][j],
            decreases self.height - y,
        {
            let mut x: usize = 0;
            while x < self.width
                invariant
                    shaped(self.cells(), self.width(), self.height()),
                    g == alive_grid(self.cells()),
                    y < self.height,
                    x <= self.width,
                    forall|i: int, j: int| 0 <= i < y && 0 <= j < self.width ==> !g[i][j],
                    forall|j: int| 0 <= j < x ==> !g[y as int][j],
                decreases self.width - x,
            {
                assert(self.rows@[y as int]@ == self.cells()[y as int]);
                assert(g[y as int][x as int] == self.cells()[y as int][x as int].alive());
                if self.rows[y][x].is_alive() {
                    return false;
                }
                x += 1;
            }
            y += 1;
        }
        true
    }

    fn formatted(&self) -> (r: String) {
        let ghost g = alive_grid(self.cells());
        let mut s = String::new();
        let mut y: usize = 0;
        proof {
            assert(g.take(0) =~= Seq::<Seq<bool>>::empty());
        }
        while y < self.height
            invariant
                shaped(self.cells(), self.width(), self.height()),
                g == alive_grid(self.cells()),
                y <= self.height,
                s@ == render(g.take(y as int)),
            decreases self.height - y,
        {
            let ghost before = s@;
            let mut x: usize = 0;
            while x < self.width
                invariant
                    shaped(self.cells(), self.width(), self.height()),
                    g == alive_grid(self.cells()),
                    y < self.height,
                    x <= self.width,
                    s@ == before + g[y as int].take(x as int).map_values(|c: bool| glyph(c)),
                decreases self.width - x,
            {
                assert(self.rows@[y as int]@ == self.cells()[y as int]);
                let piece = self.rows[y][x].formatted();
                s.append(piece.as_str());
                assert(g[y as int].take(x + 1).map_values(|c: bool| glyph(c)) =~= g[
                    y as int].take(x as int).map_values(|c: bool| glyph(c)).push(
                    glyph(g[y as int][x as int]),
                ));
                x += 1;
            }
            s.append("\n");
            proof {
                reveal_strlit("\n");
                let row = g[y as int];
                let t = g.take(y + 1);
                assert(row.take(x as int) =~= row);
                assert(t.last() == row);
                assert(t.drop_last() =~= g.take(y as int));
                assert(render(t) == render(g.take(y as int)) + render_line(row));
                assert(render_line(row) =~= row.map_values(|c: bool| glyph(c)) + "\n"@);
                assert(s@ =~= render(g.take(y as int)) + render_line(row));
            }
            y += 1;
        }
        assert(g.take(y as int) =~= g);
        s
    }

    fn new_with(x: usize, y: usize, data: Vec<Location>) -> (r: Self) {
        let mut board = Self::new(x, y);
        let mut i: usize = 0;
        assert(seeded_grid(x as nat, y as nat, data@.take(0)) =~~= dead_grid(x as nat, y as nat));
        while i < data.len()
            invariant
                i <= data.len(),
                board.width() == x,
                board.height() == y,
                shaped(board.cells(), board.width(), board.height()),
                alive_grid(board.cells()) == seeded_grid(x as nat, y as nat, data@.take(i as int)),
            decreases data.len() - i,
        {
            let loc = data[i];
            let ghost prev_cells = board.cells();
            let ghost prev = alive_grid(prev_cells);
            let cell = T::new_alive();
            let ghost seeded_cell = cell;
            board.insert(loc.x, loc.y, cell);
            proof {
                let taken = data@.take(i + 1);
                let before = data@.take(i as int);
                let now = alive_grid(board.cells());
                let want = seeded_grid(x as nat, y as nat, taken);
                lemma_alive_grid_put(prev_cells, loc.x as int, loc.y as int, seeded_cell);
                assert(taken[i as int] == loc);
                assert forall|yy: int, xx: int| 0 <= yy < y && 0 <= xx < x implies now[yy][xx]
                    == want[yy][xx] by {
                    if xx == loc.x && yy == loc.y {
                        assert(now[yy][xx]);
                        assert(want[yy][xx]);
                    } else {
                        assert(now[yy][xx] == prev[yy][xx]);
                        if prev[yy][xx] {
                            let k = choose|k: int|
                                0 <= k < before.len() && before[k].x == xx && before[k].y == yy;
                            assert(taken[k] == before[k]);
                        }
                        if want[yy][xx] {
                            let k = choose|k: int|
                                0 <= k < taken.len() && taken[k].x == xx && taken[k].y == yy;
                            assert(before[k] == taken[k]);
                        }
                    }
                }
                assert(now =~~= want);
            }
            i += 1;
        }
        assert(data@.take(i as int) =~= data@);
        board
    }

    fn new(x: usize, y: usize) -> (r: Self) {
        let mut rows: Vec<Vec<T>> = Vec::new();
        let mut j: usize = 0;
        while j < y
            invariant
                j <= y,
                rows@.len() == j,
                forall|i: int| 0 <= i < j ==> (#[trigger] rows@[i])@.len() == x,
                forall|i: int, k: int|
                    0 <= i < j && 0 <= k < x ==> !(#[trigger] rows@[i]@[k]).alive(),
            decreases y - j,
        {
            let mut row: Vec<T> = Vec::new();
            let mut k: usize = 0;
            while k < x
                invariant
                    k <= x,
                    row@.len() == k,
                    forall|i: int| 0 <= i < k ==> !(#[trigger] row@[i]).alive(),
                decreases x - k,
            {
                row.push(T::new_dead());
                k += 1;
            }
            rows.push(row);
            j += 1;
        }
        let r = Board { width: x, height: y, rows };
        assert(alive_grid(r.cells()) =~~= dead_grid(x as nat, y as nat));
        r
    }
}

} // verus!
