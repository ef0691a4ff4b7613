//! The mathematical model: a rectangular grid of cells and the rule by which
//! one generation follows another.

use vstd::prelude::*;

verus! {

/// A generation: the dimensions of the grid and the state of every cell,
/// row by row. `true` is a live cell.
pub struct Grid {
    pub rows: nat,
    pub columns: nat,
    pub cells: Seq<Seq<bool>>,
}

/// One for a live cell, zero for a dead one.
pub open spec fn count(alive: bool) -> nat {
    if alive {
        1
    } else {
        0
    }
}

/// The transition rule for one cell: a live cell survives with two or three
/// live neighbours, a dead cell comes alive with exactly three.
pub open spec fn rule(alive: bool, neighbours: nat) -> bool {
    if alive {
        neighbours == 2 || neighbours == 3
    } else {
        neighbours == 3
    }
}

/// The cell `(i, j)` touches the cell `(r, c)`: it is one of the eight cells
/// around it, beside it or across a corner.
pub open spec fn touches(r: int, c: int, i: int, j: int) -> bool {
    r - 1 <= i <= r + 1 && c - 1 <= j <= c + 1 && !(i == r && j == c)
}

/// The character that stands for a cell in the text of a grid.
pub open spec fn symbol(alive: bool) -> char {
    if alive {
        'x'
    } else {
        'o'
    }
}

impl Grid {
    /// The cells form a rectangle of `rows` by `columns`.
    pub open spec fn wf(self) -> bool {
        &&& self.cells.len() == self.rows
        &&& forall|r: int| 0 <= r < self.rows ==> (#[trigger] self.cells[r]).len() == self.columns
    }

    /// `(r, c)` names a cell of the grid.
    pub open spec fn in_bounds(self, r: int, c: int) -> bool {
        0 <= r < self.rows && 0 <= c < self.columns
    }

    /// The cell at `(r, c)` is alive. The edges are hard: no cell lives
    /// outside the grid.
    pub open spec fn alive(self, r: int, c: int) -> bool {
        self.in_bounds(r, c) && self.cells[r][c]
    }

    /// The grid of the given dimensions in which every cell is dead.
    pub open spec fn dead(rows: nat, columns: nat) -> Grid {
        Grid {
            rows,
            columns,
            cells: Seq::new(rows, |r: int| Seq::new(columns, |c: int| false)),
        }
    }

    /// The grid with the cell at `(r, c)` set to `value` and every other
    /// cell as it was.
    pub open spec fn set(self, r: int, c: int, value: bool) -> Grid {
        Grid {
            rows: self.rows,
            columns: self.columns,
            cells: self.cells.update(r, self.cells[r].update(c, value)),
        }
    }

    /// The number of live cells among the eight cells that touch `(r, c)`.
    pub open spec fn live_neighbours(self, r: int, c: int) -> nat {
        count(self.alive(r - 1, c - 1)) + count(self.alive(r - 1, c)) + count(
            self.alive(r - 1, c + 1),
        ) + count(self.alive(r, c - 1)) + count(self.alive(r, c + 1)) + count(
            self.alive(r + 1, c - 1),
        ) + count(self.alive(r + 1, c)) + count(self.alive(r + 1, c + 1))
    }

    /// The live cells that touch `(r, c)`.
    pub open spec fn live_neighbourhood(self, r: int, c: int) -> Set<(int, int)> {
        Set::new(|p: (int, int)| touches(r, c, p.0, p.1) && self.alive(p.0, p.1))
    }

    /// The state of the cell at `(r, c)` in the next generation.
    pub open spec fn next_cell(self, r: int, c: int) -> bool {
        rule(self.alive(r, c), self.live_neighbours(r, c))
    }

    /// The coordinates of row `r`, by ascending column.
    pub open spec fn row_coordinates(self, r: int) -> Seq<(int, int)> {
        Seq::new(self.columns, |c: int| (r, c))
    }

    /// The coordinates of every cell in row-major order: the rows ascending,
    /// and within a row the columns ascending.
    pub open spec fn coordinates(self) -> Seq<(int, int)> {
        Seq::new(self.rows, |r: int| self.row_coordinates(r)).flatten()
    }

    /// The place of the cell `(r, c)` in row-major order.
    pub open spec fn position(self, r: int, c: int) -> int {
        r * self.columns + c
    }

    /// The number of characters in the line of text for one row.
    pub open spec fn line_length(self) -> nat {
        self.columns + 1
    }

    /// The place in the text at which the line for row `r` begins.
    pub open spec fn line_start(self, r: int) -> int {
        r * self.line_length()
    }

    /// The line of text for row `r`: a line break, then one symbol for each
    /// cell of the row.
    pub open spec fn row_text(self, r: int) -> Seq<char> {
        seq!['\n'] + Seq::new(self.columns, |c: int| symbol(self.alive(r, c)))
    }

    /// The text of the grid: the lines of its rows, one after another.
    pub open spec fn render(self) -> Seq<char> {
        Seq::new(self.rows, |r: int| self.row_text(r)).flatten()
    }

    /// The next generation: every cell follows the rule, each judged by the
    /// current generation alone.
    pub open spec fn step(self) -> Grid {
        Grid {
            rows: self.rows,
            columns: self.columns,
            cells: Seq::new(
                self.rows,
                |r: int| Seq::new(self.columns, |c: int| self.next_cell(r, c)),
            ),
        }
    }
}

} // verus!
