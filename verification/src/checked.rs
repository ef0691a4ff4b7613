//! The operations of a [`World`] for callers that cannot promise good
//! input: each tests what it is given and reports what is wrong with it.

use crate::error::{valid_dimension, GridError};
use crate::grid::Grid;
use crate::world::World;
use vstd::prelude::*;

verus! {

impl World {
    /// Makes a grid of the given dimensions in which every cell is dead, or
    /// refuses dimensions that no grid can have.
    pub fn try_new(rows: i64, columns: i64) -> (result: Result<World, GridError>)
        ensures
            valid_dimension(rows as int) && valid_dimension(columns as int) ==> result is Ok
                && result->Ok_0.wf() && result->Ok_0@ == Grid::dead(rows as nat, columns as nat),
            !(valid_dimension(rows as int) && valid_dimension(columns as int)) ==> result is Err
                && result->Err_0 == GridError::InvalidDimension,
    {
        if rows < 0 || rows > 0xffff_ffff || columns < 0 || columns > 0xffff_ffff {
            return Err(GridError::InvalidDimension);
        }
        Ok(World::new(rows as u32, columns as u32))
    }

    /// Whether the cell at `(row, column)` is alive, if there is such a cell.
    pub fn try_is_alive(&self, row: u32, column: u32) -> (result: Result<bool, GridError>)
        requires
            self.wf(),
        ensures
            self@.in_bounds(row as int, column as int) ==> result == Ok::<bool, GridError>(
                self@.alive(row as int, column as int),
            ),
            !self@.in_bounds(row as int, column as int) ==> result == Err::<bool, GridError>(
                GridError::OutOfBounds,
            ),
    {
        if row >= self.rows() || column >= self.columns() {
            return Err(GridError::OutOfBounds);
        }
        Ok(self.is_alive(row, column))
    }

    /// Sets the cell at `(row, column)` to `value`, if there is such a cell;
    /// leaves the grid as it is if there is none.
    pub fn try_update_cell(&mut self, row: u32, column: u32, value: bool) -> (result: Result<
        (),
        GridError,
    >)
        requires
            old(self).wf(),
        ensures
            final(self).wf(),
            old(self)@.in_bounds(row as int, column as int) ==> result is Ok && final(self)@
                == old(self)@.set(row as int, column as int, value),
            !old(self)@.in_bounds(row as int, column as int) ==> result == Err::<(), GridError>(
                GridError::OutOfBounds,
            ) && *final(self) == *old(self),
    {
        if row >= self.rows() || column >= self.columns() {
            return Err(GridError::OutOfBounds);
        }
        self.update_cell(row, column, value);
        Ok(())
    }

    /// Counts the live cells that touch `(row, column)`, if there is such a
    /// cell.
    pub fn try_count_living_neighbours(&self, row: u32, column: u32) -> (result: Result<
        u32,
        GridError,
    >)
        requires
            self.wf(),
        ensures
            self@.in_bounds(row as int, column as int) ==> result is Ok && result->Ok_0
                == self@.live_neighbours(row as int, column as int),
            !self@.in_bounds(row as int, column as int) ==> result == Err::<u32, GridError>(
                GridError::OutOfBounds,
            ),
    {
        if row >= self.rows() || column >= self.columns() {
            return Err(GridError::OutOfBounds);
        }
        Ok(self.count_living_neighbours(row, column))
    }

    /// The state of the cell at `(row, column)` in the next generation, if
    /// there is such a cell.
    pub fn try_next_state_of_cell(&self, row: u32, column: u32) -> (result: Result<
        bool,
        GridError,
    >)
        requires
            self.wf(),
        ensures
            self@.in_bounds(row as int, column as int) ==> result == Ok::<bool, GridError>(
                self@.next_cell(row as int, column as int),
            ),
            !self@.in_bounds(row as int, column as int) ==> result == Err::<bool, GridError>(
                GridError::OutOfBounds,
            ),
    {
        if row >= self.rows() || column >= self.columns() {
            return Err(GridError::OutOfBounds);
        }
        Ok(self.next_state_of_cell(row, column))
    }
}

} // verus!
