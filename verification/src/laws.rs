//! What holds of every grid: statements about the model that relate the
//! operations of a [`World`](crate::world::World) to one another.

use crate::grid::{count, symbol, Grid};
use vstd::arithmetic::div_mod::lemma_fundamental_div_mod;
use vstd::prelude::*;
use vstd::seq_lib::lemma_multiset_commutative;

verus! {

/// Where `lines` sequences of `width` elements each are laid end to end,
/// element `c` of sequence `r` stands at position `r * width + c`.
proof fn lemma_flatten_uniform<A>(lines: Seq<Seq<A>>, width: nat)
    requires
        forall|r: int| 0 <= r < lines.len() ==> (#[trigger] lines[r]).len() == width,
    ensures
        lines.flatten().len() == lines.len() * width,
        forall|r: int, c: int|
            0 <= r < lines.len() && 0 <= c < width ==> lines.flatten()[r * width + c]
                == #[trigger] lines[r][c],
    decreases lines.len(),
{
    if lines.len() == 0 {
        assert(lines.flatten().len() == 0);
        assert(lines.len() * width == 0) by (nonlinear_arith)
            requires
                lines.len() == 0,
        ;
    } else {
        let front = lines.drop_last();
        let last = lines.last();
        lemma_flatten_uniform(front, width);
        front.lemma_flatten_push(last);
        assert(front.push(last) =~= lines);
        assert(lines.flatten() =~= front.flatten() + last);
        assert(lines.len() * width == front.len() * width + width) by (nonlinear_arith)
            requires
                lines.len() == front.len() + 1,
        ;
        assert forall|r: int, c: int| 0 <= r < lines.len() && 0 <= c < width implies lines.flatten()[r
            * width + c] == #[trigger] lines[r][c] by {
            if r < front.len() {
                assert(r * width + c < front.len() * width) by (nonlinear_arith)
                    requires
                        0 <= r < front.len(),
                        0 <= c < width,
                ;
                assert(0 <= r * width + c) by (nonlinear_arith)
                    requires
                        0 <= r,
                        0 <= c,
                        0 <= width,
                ;
                assert(front[r][c] == lines[r][c]);
            } else {
                assert(r * width == front.len() * width);
            }
        }
    }
}

/// A position below `lines * width` splits into a line and a place in it.
proof fn lemma_position_splits(k: int, lines: nat, width: nat)
    requires
        0 <= k < lines * width,
    ensures
        width > 0,
        0 <= k / (width as int) < lines,
        0 <= k % (width as int) < width,
        k == (k / (width as int)) * width + k % (width as int),
{
    assert(width > 0) by (nonlinear_arith)
        requires
            0 <= k < lines * width,
    ;
    let w = width as int;
    lemma_fundamental_div_mod(k, w);
    let q = k / w;
    let m = k % w;
    assert(0 <= m < w);
    assert(w * q == q * w) by (nonlinear_arith);
    assert(0 <= q < lines) by (nonlinear_arith)
        requires
            k == q * w + m,
            0 <= m < w,
            0 <= k < lines * w,
    ;
}

/// A grid that was just made holds no live cell.
pub proof fn lemma_fresh_grid_is_dead(rows: nat, columns: nat)
    ensures
        Grid::dead(rows, columns).wf(),
        Grid::dead(rows, columns).rows == rows,
        Grid::dead(rows, columns).columns == columns,
        forall|r: int, c: int| !#[trigger] Grid::dead(rows, columns).alive(r, c),
{
}

/// Setting a cell changes that cell and no other: the cell then reads as
/// the value given, every other cell reads as before, and the grid keeps
/// its dimensions.
pub proof fn lemma_set_changes_one_cell(g: Grid, r: int, c: int, value: bool)
    requires
        g.wf(),
        g.in_bounds(r, c),
    ensures
        g.set(r, c, value).wf(),
        g.set(r, c, value).rows == g.rows,
        g.set(r, c, value).columns == g.columns,
        g.set(r, c, value).alive(r, c) == value,
        forall|i: int, j: int|
            (i != r || j != c) ==> #[trigger] g.set(r, c, value).alive(i, j) == g.alive(i, j),
{
}

/// The next generation has the dimensions of the current one, and each of
/// its cells is what the rule makes of that cell in the current one.
pub proof fn lemma_step_follows_the_rule(g: Grid)
    ensures
        g.step().wf(),
        g.step().rows == g.rows,
        g.step().columns == g.columns,
        forall|r: int, c: int|
            g.in_bounds(r, c) ==> #[trigger] g.step().alive(r, c) == g.next_cell(r, c),
{
}

/// The traversal lists every cell exactly once and nothing else: it has
/// `rows * columns` entries, the cell `(r, c)` is the entry at its row-major
/// position, every entry names a cell of the grid, and no entry occurs
/// twice.
pub proof fn lemma_coordinates_cover_the_grid(g: Grid)
    ensures
        g.coordinates().len() == g.rows * g.columns,
        forall|r: int, c: int|
            g.in_bounds(r, c) ==> 0 <= #[trigger] g.position(r, c) < g.coordinates().len()
                && g.coordinates()[g.position(r, c)] == (r, c),
        forall|k: int|
            0 <= k < g.coordinates().len() ==> (#[trigger] g.coordinates()[k]) == (
                k / (g.columns as int),
                k % (g.columns as int),
            ) && g.in_bounds(g.coordinates()[k].0, g.coordinates()[k].1),
        g.coordinates().no_duplicates(),
{
    let lines = Seq::new(g.rows, |r: int| g.row_coordinates(r));
    lemma_flatten_uniform(lines, g.columns);
    assert forall|r: int, c: int| g.in_bounds(r, c) implies 0 <= #[trigger] g.position(r, c)
        < g.coordinates().len() && g.coordinates()[g.position(r, c)] == (r, c) by {
        assert(0 <= r * g.columns + c < g.rows * g.columns) by (nonlinear_arith)
            requires
                0 <= r < g.rows,
                0 <= c < g.columns,
        ;
        assert(lines[r][c] == (r, c));
    }
    assert forall|k: int| 0 <= k < g.coordinates().len() implies (#[trigger] g.coordinates()[k])
        == (k / (g.columns as int), k % (g.columns as int)) && g.in_bounds(
        g.coordinates()[k].0,
        g.coordinates()[k].1,
    ) by {
        lemma_position_splits(k, g.rows, g.columns);
        let r = k / (g.columns as int);
        let c = k % (g.columns as int);
        assert(g.in_bounds(r, c));
        assert(g.position(r, c) == k);
    }
    assert forall|i: int, j: int|
        0 <= i < g.coordinates().len() && 0 <= j < g.coordinates().len() && i != j implies g.coordinates()[i]
        != g.coordinates()[j] by {
        lemma_position_splits(i, g.rows, g.columns);
        lemma_position_splits(j, g.rows, g.columns);
    }
}

/// The text of a grid has one line for each row: a line break followed by
/// one symbol for each cell of the row. So it holds `rows * (columns + 1)`
/// characters, the line of row `r` begins with a line break, the symbol of
/// the cell `(r, c)` follows that line break at a distance of `c + 1`, and
/// the text holds nothing else.
pub proof fn lemma_render_layout(g: Grid)
    ensures
        g.render().len() == g.rows * g.line_length(),
        forall|r: int|
            0 <= r < g.rows ==> 0 <= #[trigger] g.line_start(r) < g.render().len()
                && g.render()[g.line_start(r)] == '\n',
        forall|r: int, c: int| #[trigger]
            g.in_bounds(r, c) ==> 0 <= g.line_start(r) + 1 + c < g.render().len() && g.render()[g.line_start(
                r,
            ) + 1 + c] == symbol(g.alive(r, c)),
        forall|k: int|
            0 <= k < g.render().len() ==> (#[trigger] g.render()[k]) == (if k % (
            g.line_length() as int) == 0 {
                '\n'
            } else {
                symbol(
                    g.alive(k / (g.line_length() as int), k % (g.line_length() as int) - 1),
                )
            }),
{
    let lines = Seq::new(g.rows, |r: int| g.row_text(r));
    let width = g.line_length();
    lemma_flatten_uniform(lines, width);
    assert forall|r: int| 0 <= r < g.rows implies 0 <= #[trigger] g.line_start(r)
        < g.render().len() && g.render()[g.line_start(r)] == '\n' by {
        assert(0 <= r * width + 0 < g.rows * width) by (nonlinear_arith)
            requires
                0 <= r < g.rows,
                0 < width,
        ;
        assert(lines[r][0] == '\n');
    }
    assert forall|r: int, c: int| #[trigger] g.in_bounds(r, c) implies 0 <= g.line_start(r) + 1
        + c < g.render().len() && g.render()[g.line_start(r) + 1 + c] == symbol(
        g.alive(r, c),
    ) by {
        assert(0 <= r * width + (1 + c) < g.rows * width) by (nonlinear_arith)
            requires
                0 <= r < g.rows,
                0 <= 1 + c < width,
        ;
        assert(lines[r][1 + c] == symbol(g.alive(r, c)));
    }
    assert forall|k: int| 0 <= k < g.render().len() implies (#[trigger] g.render()[k]) == (if k
        % (g.line_length() as int) == 0 {
        '\n'
    } else {
        symbol(g.alive(k / (g.line_length() as int), k % (g.line_length() as int) - 1))
    }) by {
        lemma_position_splits(k, g.rows, width);
        let r = k / (width as int);
        let c = k % (width as int);
        assert(g.render()[r * width + c] == lines[r][c]);
    }
}

/// A block of two by two live cells, alone on the grid, is a still life:
/// the next generation is the same grid.
pub proof fn lemma_block_is_still_life(g: Grid, r: int, c: int)
    requires
        g.wf(),
        g.in_bounds(r, c),
        g.in_bounds(r + 1, c + 1),
        forall|i: int, j: int| #[trigger]
            g.alive(i, j) <==> (r <= i <= r + 1 && c <= j <= c + 1),
    ensures
        g.step() == g,
{
    assert forall|i: int, j: int| g.in_bounds(i, j) implies g.next_cell(i, j) == g.cells[i][j] by {
        assert(g.alive(i, j) == g.cells[i][j]);
        let n = g.live_neighbours(i, j);
        assert(n == count(g.alive(i - 1, j - 1)) + count(g.alive(i - 1, j)) + count(
            g.alive(i - 1, j + 1),
        ) + count(g.alive(i, j - 1)) + count(g.alive(i, j + 1)) + count(g.alive(i + 1, j - 1))
            + count(g.alive(i + 1, j)) + count(g.alive(i + 1, j + 1)));
    }
    assert(g.step().cells =~~= g.cells);
}

/// Adds the cell `p` to a finite set of cells if it is alive: the set grows
/// by one for a live cell that it did not hold, and stays as it is for a
/// dead one.
proof fn lemma_count_one_more(found: Set<(int, int)>, p: (int, int), alive: bool) -> (all: Set<
    (int, int),
>)
    requires
        found.finite(),
        !found.contains(p),
    ensures
        all == (if alive {
            found.insert(p)
        } else {
            found
        }),
        all.finite(),
        all.len() == found.len() + count(alive),
{
    if alive {
        found.insert(p)
    } else {
        found
    }
}

/// The neighbours counted are the live cells around the cell, each once and
/// whichever side it lies on: the count is the size of the set of live
/// cells that touch `(r, c)`, and so at most eight.
pub proof fn lemma_neighbours_are_the_live_cells_around(g: Grid, r: int, c: int)
    ensures
        g.live_neighbourhood(r, c).finite(),
        g.live_neighbours(r, c) == g.live_neighbourhood(r, c).len(),
        g.live_neighbours(r, c) <= 8,
{
    let s0 = Set::<(int, int)>::empty();
    let s1 = lemma_count_one_more(s0, (r - 1, c - 1), g.alive(r - 1, c - 1));
    let s2 = lemma_count_one_more(s1, (r - 1, c), g.alive(r - 1, c));
    let s3 = lemma_count_one_more(s2, (r - 1, c + 1), g.alive(r - 1, c + 1));
    let s4 = lemma_count_one_more(s3, (r, c - 1), g.alive(r, c - 1));
    let s5 = lemma_count_one_more(s4, (r, c + 1), g.alive(r, c + 1));
    let s6 = lemma_count_one_more(s5, (r + 1, c - 1), g.alive(r + 1, c - 1));
    let s7 = lemma_count_one_more(s6, (r + 1, c), g.alive(r + 1, c));
    let s8 = lemma_count_one_more(s7, (r + 1, c + 1), g.alive(r + 1, c + 1));
    assert(s8 =~= g.live_neighbourhood(r, c));
}

/// The text of the first `n` rows holds `n` line breaks.
proof fn lemma_line_breaks_of_rows(g: Grid, n: nat)
    ensures
        Seq::new(n, |r: int| g.row_text(r)).flatten().to_multiset().count('\n') == n,
    decreases n,
{
    let lines = Seq::new(n, |r: int| g.row_text(r));
    if n == 0 {
        assert(lines.flatten() =~= Seq::<char>::empty());
        lines.flatten().to_multiset_ensures();
    } else {
        let front = Seq::new((n - 1) as nat, |r: int| g.row_text(r));
        let symbols = Seq::new(g.columns, |c: int| symbol(g.alive(n - 1, c)));
        let line = g.row_text(n - 1);
        lemma_line_breaks_of_rows(g, (n - 1) as nat);
        assert(lines =~= front.push(line));
        front.lemma_flatten_push(line);
        lemma_multiset_commutative(front.flatten(), line);
        assert(line =~= seq!['\n'] + symbols);
        lemma_multiset_commutative(seq!['\n'], symbols);
        assert(seq!['\n'] =~= Seq::<char>::empty().push('\n'));
        Seq::<char>::empty().to_multiset_ensures();
        symbols.to_multiset_ensures();
        assert(!symbols.contains('\n'));
    }
}

/// The text of a grid holds exactly one line break for each row.
pub proof fn lemma_render_line_breaks(g: Grid)
    ensures
        g.render().to_multiset().count('\n') == g.rows,
{
    lemma_line_breaks_of_rows(g, g.rows);
}

} // verus!
