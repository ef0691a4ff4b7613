//! The executable grid.

use crate::grid::{symbol, Grid};
use vstd::prelude::*;
use vstd::string::StringExecFns;

verus! {

/// A rectangular grid of cells, each alive or dead.
pub struct World {
    rows: u32,
    columns: u32,
    cells: Vec<Vec<bool>>,
}

impl View for World {
    type V = Grid;

    closed spec fn view(&self) -> Grid {
        Grid {
            rows: self.rows as nat,
            columns: self.columns as nat,
            cells: Seq::new(self.cells@.len(), |r: int| self.cells@[r]@),
        }
    }
}

impl World {
    /// The stored cells form a rectangle of the stored dimensions.
    pub open spec fn wf(&self) -> bool {
        self@.wf()
    }

    /// Makes a grid of the given dimensions in which every cell is dead.
    pub fn new(rows: u32, columns: u32) -> (world: World)
        ensures
            world.wf(),
            world@ == Grid::dead(rows as nat, columns as nat),
    {
        let mut cells: Vec<Vec<bool>> = Vec::new();
        let mut r: u32 = 0;
        while r < rows
            invariant
                r <= rows,
                cells@.len() == r,
                forall|i: int| 0 <= i < r ==> (#[trigger] cells@[i])@ == Seq::new(columns as nat, |c: int| false),
            decreases rows - r,
        {
            let mut row: Vec<bool> = Vec::new();
            let mut c: u32 = 0;
            while c < columns
                invariant
                    c <= columns,
                    row@ == Seq::new(c as nat, |k: int| false),
                decreases columns - c,
            {
                row.push(false);
                c = c + 1;
            }
            cells.push(row);
            r = r + 1;
        }
        let world = World { rows, columns, cells };
        assert(world@.cells =~~= Grid::dead(rows as nat, columns as nat).cells);
        world
    }

    /// The number of rows.
    pub fn rows(&self) -> (rows: u32)
        ensures
            rows == self@.rows,
    {
        self.rows
    }

    /// The number of columns.
    pub fn columns(&self) -> (columns: u32)
        ensures
            columns == self@.columns,
    {
        self.columns
    }

    /// Whether the cell at `(row, column)` is alive.
    pub fn is_alive(&self, row: u32, column: u32) -> (alive: bool)
        requires
            self.wf(),
            self@.in_bounds(row as int, column as int),
        ensures
            alive == self@.alive(row as int, column as int),
    {
        assert(self@.cells[row as int] == self.cells@[row as int]@);
        self.cells[row as usize][column as usize]
    }

    /// Sets the cell at `(row, column)` to `value`.
    pub fn update_cell(&mut self, row: u32, column: u32, value: bool)
        requires
            old(self).wf(),
            old(self)@.in_bounds(row as int, column as int),
        ensures
            final(self).wf(),
            final(self)@ == old(self)@.set(row as int, column as int, value),
    {
        assert(self@.cells[row as int] == self.cells@[row as int]@);
        self.cells[row as usize][column as usize] = value;
        assert(self@.cells =~~= old(self)@.set(row as int, column as int, value).cells);
    }

    /// Counts the live cells among the up to eight cells that touch
    /// `(row, column)`. Cells beyond an edge do not exist and count for nothing.
    pub fn count_living_neighbours(&self, row: u32, column: u32) -> (count: u32)
        requires
            self.wf(),
            self@.in_bounds(row as int, column as int),
        ensures
            count == self@.live_neighbours(row as int, column as int),
            count <= 8,
    {
        let mut result: u32 = 0;
        if (row > 0 && column > 0) && self.is_alive(row - 1, column - 1) {
            result += 1
        }
        if (row > 0) && self.is_alive(row - 1, column) {
            result += 1
        }
        if (row > 0 && column < self.columns - 1) && self.is_alive(row - 1, column + 1) {
            result += 1
        }
        if (column > 0) && self.is_alive(row, column - 1) {
            result += 1
        }
        if (column < self.columns - 1) && self.is_alive(row, column + 1) {
            result += 1
        }
        if (row < self.rows - 1 && column > 0) && self.is_alive(row + 1, column - 1) {
            result += 1
        }
        if (row < self.rows - 1) && self.is_alive(row + 1, column) {
            result += 1
        }
        if (row < self.rows - 1 && column < self.columns - 1) && self.is_alive(
            row + 1,
            column + 1,
        ) {
            result += 1
        }
        result
    }

    /// The state of the cell at `(row, column)` in the next generation.
    pub fn next_state_of_cell(&self, row: u32, column: u32) -> (alive: bool)
        requires
            self.wf(),
            self@.in_bounds(row as int, column as int),
        ensures
            alive == self@.next_cell(row as int, column as int),
    {
        let neighbours = self.count_living_neighbours(row, column);
        if self.is_alive(row, column) {
            if neighbours < 2 {
                return false;
            }
            if neighbours > 3 {
                return false;
            }
        } else {
            if neighbours != 3 {
                return false;
            }
        }
        true
    }

    /// Computes the next generation as a new grid of the same dimensions.
    /// Every cell is judged by this generation alone.
    pub fn next_state(&self) -> (next: World)
        requires
            self.wf(),
        ensures
            next.wf(),
            next@ == self@.step(),
    {
        let mut new_world = World::new(self.rows, self.columns);
        let mut row: u32 = 0;
        while row < self.rows
            invariant
                self.wf(),
                new_world.wf(),
                row <= self.rows,
                new_world@.rows == self@.rows,
                new_world@.columns == self@.columns,
                forall|r: int, c: int|
                    0 <= r < row && 0 <= c < self.columns ==> #[trigger] new_world@.cells[r][c]
                        == self@.next_cell(r, c),
            decreases self.rows - row,
        {
            let mut column: u32 = 0;
            while column < self.columns
                invariant
                    self.wf(),
                    new_world.wf(),
                    row < self.rows,
                    column <= self.columns,
                    new_world@.rows == self@.rows,
                    new_world@.columns == self@.columns,
                    forall|r: int, c: int|
                        0 <= r < row && 0 <= c < self.columns
                            ==> #[trigger] new_world@.cells[r][c] == self@.next_cell(r, c),
                    forall|c: int|
                        0 <= c < column ==> #[trigger] new_world@.cells[row as int][c]
                            == self@.next_cell(row as int, c),
                decreases self.columns - column,
            {
                let cell_next_state = self.next_state_of_cell(row, column);
                new_world.update_cell(row, column, cell_next_state);
                column += 1;
            }
            row += 1;
        }
        assert(new_world@.cells =~~= self@.step().cells);
        new_world
    }

    /// Calls `func` on the coordinates of every cell: row by row from the
    /// first, and within a row column by column from the first, as
    /// [`coordinates`](World::coordinates) lists them. What `func` promises
    /// of a call then holds of every cell.
    pub fn for_each_cell<F>(&self, mut func: F) where F: FnMut(u32, u32)
        requires
            forall|i: u32, j: u32|
                self@.in_bounds(i as int, j as int) ==> #[trigger] call_requires(func, (i, j)),
        ensures
            forall|i: u32, j: u32|
                self@.in_bounds(i as int, j as int) ==> #[trigger] call_ensures(func, (i, j), ()),
    {
        let ghost visitor = func;
        let rows = self.rows;
        let columns = self.columns;
        let mut i: u32 = 0;
        while i < rows
            invariant
                i <= rows,
                rows == self@.rows,
                columns == self@.columns,
                func == visitor,
                forall|a: u32, b: u32|
                    self@.in_bounds(a as int, b as int) ==> #[trigger] call_requires(func, (a, b)),
                forall|a: u32, b: u32|
                    a < i && b < columns ==> #[trigger] call_ensures(func, (a, b), ()),
            decreases rows - i,
        {
            let mut j: u32 = 0;
            while j < columns
                invariant
                    i < rows,
                    j <= columns,
                    rows == self@.rows,
                    columns == self@.columns,
                    func == visitor,
                    forall|a: u32, b: u32|
                        self@.in_bounds(a as int, b as int) ==> #[trigger] call_requires(
                            func,
                            (a, b),
                        ),
                    forall|a: u32, b: u32|
                        a < i && b < columns ==> #[trigger] call_ensures(func, (a, b), ()),
                    forall|b: u32| b < j ==> #[trigger] call_ensures(func, (i, b), ()),
                decreases columns - j,
            {
                func(i, j);
                j += 1;
            }
            i += 1;
        }
    }

    /// Lists the coordinates of every cell in the order of the traversal:
    /// row by row from the first, and within a row column by column from
    /// the first.
    pub fn coordinates(&self) -> (cells: Vec<(u32, u32)>)
        ensures
            cells@.map_values(|p: (u32, u32)| (p.0 as int, p.1 as int)) == self@.coordinates(),
    {
        let mut cells: Vec<(u32, u32)> = Vec::new();
        let mut i: u32 = 0;
        while i < self.rows
            invariant
                i <= self.rows,
                cells@.map_values(|p: (u32, u32)| (p.0 as int, p.1 as int)) == Seq::new(
                    i as nat,
                    |r: int| self@.row_coordinates(r),
                ).flatten(),
            decreases self.rows - i,
        {
            let ghost before = cells@.map_values(|p: (u32, u32)| (p.0 as int, p.1 as int));
            let mut j: u32 = 0;
            while j < self.columns
                invariant
                    j <= self.columns,
                    cells@.map_values(|p: (u32, u32)| (p.0 as int, p.1 as int)) == before
                        + Seq::new(j as nat, |c: int| (i as int, c)),
                decreases self.columns - j,
            {
                let ghost listed = cells@;
                cells.push((i, j));
                assert(cells@.map_values(|p: (u32, u32)| (p.0 as int, p.1 as int))
                    =~= listed.map_values(|p: (u32, u32)| (p.0 as int, p.1 as int)).push(
                    (i as int, j as int),
                ));
                j += 1;
            }
            proof {
                let done = Seq::new(i as nat, |r: int| self@.row_coordinates(r));
                done.lemma_flatten_push(self@.row_coordinates(i as int));
                assert(Seq::new((i + 1) as nat, |r: int| self@.row_coordinates(r)) =~= done.push(
                    self@.row_coordinates(i as int),
                ));
            }
            i += 1;
        }
        cells
    }

    /// Writes the grid as text: for each row a line break followed by one
    /// character per cell, `x` for a live cell and `o` for a dead one.
    pub fn render_text(&self) -> (text: String)
        requires
            self.wf(),
        ensures
            text@ == self@.render(),
    {
        let mut output = String::new();
        let mut i: u32 = 0;
        while i < self.rows
            invariant
                self.wf(),
                i <= self.rows,
                output@ == Seq::new(i as nat, |r: int| self@.row_text(r)).flatten(),
            decreases self.rows - i,
        {
            let ghost before = output@;
            output.append("\n");
            let mut j: u32 = 0;
            while j < self.columns
                invariant
                    self.wf(),
                    i < self.rows,
                    j <= self.columns,
                    output@ == before + "\n"@ + Seq::new(
                        j as nat,
                        |c: int| symbol(self@.alive(i as int, c)),
                    ),
                decreases self.columns - j,
            {
                let cell = if self.is_alive(i, j) {
                    "x"
                } else {
                    "o"
                };
                output.append(cell);
                proof {
                    reveal_strlit("x");
                    reveal_strlit("o");
                }
                j += 1;
            }
            proof {
                reveal_strlit("\n");
                let done = Seq::new(i as nat, |r: int| self@.row_text(r));
                done.lemma_flatten_push(self@.row_text(i as int));
                assert(Seq::new((i + 1) as nat, |r: int| self@.row_text(r)) =~= done.push(
                    self@.row_text(i as int),
                ));
                assert("\n"@ =~= seq!['\n']);
            }
            i += 1;
        }
        output
    }
}

} // verus!
