//! The minefield engine: a fixed-size rectangular grid of cells, generated
//! once with a seeded uniform mine placement, with exact neighbor-mine counts
//! on every non-mine cell, and coordinate-addressed reveal/flag mutations.

use vstd::prelude::*;

use crate::cell::{Cell, CellContent, DisplayState};
use crate::rng::{rng_from_seed, sample_below};

verus! {

/// The difficulty configuration the game ships with: a 30 by 16 board.
pub const MINEFIELD_WIDTH: usize = 30;

pub const MINEFIELD_HEIGHT: usize = 16;

pub const MINE_COUNT: usize = 99;

/// Caller errors: a configuration that asks for at least as many mines as
/// there are cells, or a coordinate outside the grid.
#[derive(Clone, Copy, PartialEq, Eq, Structural, Debug)]
pub enum MinefieldError {
    InvalidConfiguration,
    IndexOutOfBounds,
}

/// Whether `(row, col)` lies on a `width` by `height` grid.
pub open spec fn in_grid(width: int, height: int, row: int, col: int) -> bool {
    0 <= row < height && 0 <= col < width
}

/// The cell at `(row, col)` of a row-major grid.
pub open spec fn cell_at(cells: Seq<Cell>, width: int, row: int, col: int) -> Cell {
    cells[row * width + col]
}

/// 1 if the cell holds a mine, else 0.
pub open spec fn mine_flag(c: Cell) -> int {
    if c.content is Mine {
        1
    } else {
        0
    }
}

/// 1 if `(row, col)` is on the grid and holds a mine, else 0; coordinates off
/// the edge contribute nothing.
pub open spec fn mine_ind(cells: Seq<Cell>, width: int, height: int, row: int, col: int) -> int {
    if in_grid(width, height, row, col) {
        mine_flag(cell_at(cells, width, row, col))
    } else {
        0
    }
}

/// The number of mines among the up-to-8 Moore neighbors of `(row, col)`,
/// clipped at the grid boundary (no wraparound).
pub open spec fn adjacent_mines(
    cells: Seq<Cell>,
    width: int,
    height: int,
    row: int,
    col: int,
) -> int {
    mine_ind(cells, width, height, row - 1, col - 1) + mine_ind(
        cells,
        width,
        height,
        row - 1,
        col,
    ) + mine_ind(cells, width, height, row - 1, col + 1) + mine_ind(
        cells,
        width,
        height,
        row,
        col - 1,
    ) + mine_ind(cells, width, height, row, col + 1) + mine_ind(
        cells,
        width,
        height,
        row + 1,
        col - 1,
    ) + mine_ind(cells, width, height, row + 1, col) + mine_ind(
        cells,
        width,
        height,
        row + 1,
        col + 1,
    )
}

/// The total number of mine cells in the grid.
pub open spec fn count_mines(cells: Seq<Cell>) -> int
    decreases cells.len(),
{
    if cells.len() == 0 {
        0
    } else {
        count_mines(cells.drop_last()) + mine_flag(cells.last())
    }
}

/// A non-mine cell at `(row, col)` stores exactly its Moore-neighbor mine
/// count; a mine cell stores no count.
pub open spec fn counts_correct_at(
    cells: Seq<Cell>,
    width: int,
    height: int,
    row: int,
    col: int,
) -> bool {
    match cell_at(cells, width, row, col).content {
        CellContent::Empty { count } => count as int == adjacent_mines(
            cells,
            width,
            height,
            row,
            col,
        ),
        CellContent::Mine => true,
    }
}

/// The cell after a reveal: shown, content and flag untouched.
pub open spec fn revealed_cell(c: Cell) -> Cell {
    Cell { content: c.content, hidden: false, flagged: c.flagged }
}

/// The cell after a flag toggle: flag flipped, content and cover untouched.
pub open spec fn toggled_cell(c: Cell) -> Cell {
    Cell { content: c.content, hidden: c.hidden, flagged: !c.flagged }
}

/// The grid after revealing `(row, col)`.
pub open spec fn reveal_at(cells: Seq<Cell>, width: int, row: int, col: int) -> Seq<Cell> {
    cells.update(row * width + col, revealed_cell(cell_at(cells, width, row, col)))
}

/// The grid after toggling the flag of `(row, col)`.
pub open spec fn toggle_at(cells: Seq<Cell>, width: int, row: int, col: int) -> Seq<Cell> {
    cells.update(row * width + col, toggled_cell(cell_at(cells, width, row, col)))
}

/// A row-major index stays inside the grid's cell array.
pub proof fn lemma_grid_index_bounds(width: int, height: int, row: int, col: int)
    requires
        in_grid(width, height, row, col),
    ensures
        0 <= row * width + col < width * height,
{
    assert(0 <= row * width + col) by (nonlinear_arith)
        requires
            0 <= row,
            0 <= col,
            col < width,
    ;
    assert(row * width + col < width * height) by (nonlinear_arith)
        requires
            0 <= row < height,
            0 <= col < width,
    ;
}

/// Distinct coordinates have distinct row-major indices.
pub proof fn lemma_grid_index_injective(
    width: int,
    height: int,
    r1: int,
    c1: int,
    r2: int,
    c2: int,
)
    requires
        in_grid(width, height, r1, c1),
        in_grid(width, height, r2, c2),
        r1 * width + c1 == r2 * width + c2,
    ensures
        r1 == r2 && c1 == c2,
{
    assert(r1 == r2) by (nonlinear_arith)
        requires
            0 <= c1 < width,
            0 <= c2 < width,
            r1 * width + c1 == r2 * width + c2,
    ;
}

proof fn lemma_count_mines_push(cells: Seq<Cell>, c: Cell)
    ensures
        count_mines(cells.push(c)) == count_mines(cells) + mine_flag(c),
{
    assert(cells.push(c).drop_last() =~= cells);
}

proof fn lemma_count_mines_update(cells: Seq<Cell>, i: int, c: Cell)
    requires
        0 <= i < cells.len(),
    ensures
        count_mines(cells.update(i, c)) == count_mines(cells) - mine_flag(cells[i]) + mine_flag(c),
    decreases cells.len(),
{
    let s2 = cells.update(i, c);
    if i == cells.len() - 1 {
        assert(s2.drop_last() =~= cells.drop_last());
    } else {
        assert(s2.drop_last() =~= cells.drop_last().update(i, c));
        lemma_count_mines_update(cells.drop_last(), i, c);
    }
}

/// Neighbor-mine counts depend only on where the mines sit: two grids whose
/// cells agree on mine placement agree on every adjacency count.
pub proof fn lemma_adjacent_mines_same(
    s1: Seq<Cell>,
    s2: Seq<Cell>,
    width: int,
    height: int,
    row: int,
    col: int,
)
    requires
        s1.len() == width * height,
        s2.len() == s1.len(),
        forall|j: int| 0 <= j < s1.len() ==> mine_flag(#[trigger] s1[j]) == mine_flag(s2[j]),
    ensures
        adjacent_mines(s1, width, height, row, col) == adjacent_mines(s2, width, height, row, col),
{
    lemma_mine_ind_same(s1, s2, width, height, row - 1, col - 1);
    lemma_mine_ind_same(s1, s2, width, height, row - 1, col);
    lemma_mine_ind_same(s1, s2, width, height, row - 1, col + 1);
    lemma_mine_ind_same(s1, s2, width, height, row, col - 1);
    lemma_mine_ind_same(s1, s2, width, height, row, col + 1);
    lemma_mine_ind_same(s1, s2, width, height, row + 1, col - 1);
    lemma_mine_ind_same(s1, s2, width, height, row + 1, col);
    lemma_mine_ind_same(s1, s2, width, height, row + 1, col + 1);
}

proof fn lemma_mine_ind_same(
    s1: Seq<Cell>,
    s2: Seq<Cell>,
    width: int,
    height: int,
    row: int,
    col: int,
)
    requires
        s1.len() == width * height,
        s2.len() == s1.len(),
        forall|j: int| 0 <= j < s1.len() ==> mine_flag(#[trigger] s1[j]) == mine_flag(s2[j]),
    ensures
        mine_ind(s1, width, height, row, col) == mine_ind(s2, width, height, row, col),
{
    if in_grid(width, height, row, col) {
        lemma_grid_index_bounds(width, height, row, col);
        assert(mine_flag(s1[row * width + col]) == mine_flag(s2[row * width + col]));
    }
}

/// Revealing a coordinate twice leaves the same grid as revealing it once.
pub proof fn lemma_reveal_idempotent(cells: Seq<Cell>, width: int, row: int, col: int)
    requires
        0 <= row * width + col < cells.len(),
    ensures
        reveal_at(reveal_at(cells, width, row, col), width, row, col) == reveal_at(
            cells,
            width,
            row,
            col,
        ),
{
    let i = row * width + col;
    let s1 = reveal_at(cells, width, row, col);
    assert(revealed_cell(s1[i]) == s1[i]);
    assert(reveal_at(s1, width, row, col) =~= s1);
}

/// Toggling a coordinate's flag twice restores the original grid.
pub proof fn lemma_toggle_flag_involution(cells: Seq<Cell>, width: int, row: int, col: int)
    requires
        0 <= row * width + col < cells.len(),
    ensures
        toggle_at(toggle_at(cells, width, row, col), width, row, col) == cells,
{
    let i = row * width + col;
    let s1 = toggle_at(cells, width, row, col);
    assert(toggled_cell(toggled_cell(cells[i])) == cells[i]);
    assert(toggle_at(s1, width, row, col) =~= cells);
}

/// The minefield: a `width` by `height` row-major grid of cells with a fixed
/// mine budget. Created once by `generate`; afterwards only the cells'
/// `hidden` and `flagged` flags change.
#[derive(Debug)]
pub struct Minefield {
    pub width: usize,
    pub height: usize,
    pub mine_count: usize,
    pub cells: Vec<Cell>,
}

impl Minefield {
    pub open spec fn in_bounds(self, row: int, col: int) -> bool {
        in_grid(self.width as int, self.height as int, row, col)
    }

    pub open spec fn cell(self, row: int, col: int) -> Cell {
        cell_at(self.cells@, self.width as int, row, col)
    }

    /// The grid's invariant: positive dimensions, a full cell array, exactly
    /// `mine_count` mines (fewer than there are cells), and an exact
    /// neighbor-mine count on every non-mine cell.
    pub open spec fn well_formed(self) -> bool {
        &&& 1 <= self.width
        &&& 1 <= self.height
        &&& self.cells@.len() == self.width * self.height
        &&& self.mine_count < self.width * self.height
        &&& count_mines(self.cells@) == self.mine_count
        &&& forall|row: int, col: int|
            in_grid(self.width as int, self.height as int, row, col)
                ==> #[trigger] counts_correct_at(
                self.cells@,
                self.width as int,
                self.height as int,
                row,
                col,
            )
    }

    pub fn width(&self) -> (w: usize)
        ensures
            w == self.width,
    {
        self.width
    }

    pub fn height(&self) -> (h: usize)
        ensures
            h == self.height,
    {
        self.height
    }

    /// The remaining-mine readout shown by the presentation layer: the
    /// configured mine total.
    pub fn mine_count(&self) -> (n: usize)
        ensures
            n == self.mine_count,
    {
        self.mine_count
    }

    pub fn content_at(&self, row: usize, col: usize) -> (c: CellContent)
        requires
            self.well_formed(),
            self.in_bounds(row as int, col as int),
        ensures
            c == self.cell(row as int, col as int).content,
    {
        proof {
            lemma_grid_index_bounds(self.width as int, self.height as int, row as int, col as int);
        }
        let _bound: usize = self.cells.len();
        let i: usize = row * self.width + col;
        self.cells[i].content
    }

    pub fn is_hidden(&self, row: usize, col: usize) -> (h: bool)
        requires
            self.well_formed(),
            self.in_bounds(row as int, col as int),
        ensures
            h == self.cell(row as int, col as int).hidden,
    {
        proof {
            lemma_grid_index_bounds(self.width as int, self.height as int, row as int, col as int);
        }
        let _bound: usize = self.cells.len();
        let i: usize = row * self.width + col;
        self.cells[i].hidden
    }

    pub fn is_flagged(&self, row: usize, col: usize) -> (f: bool)
        requires
            self.well_formed(),
            self.in_bounds(row as int, col as int),
        ensures
            f == self.cell(row as int, col as int).flagged,
    {
        proof {
            lemma_grid_index_bounds(self.width as int, self.height as int, row as int, col as int);
        }
        let _bound: usize = self.cells.len();
        let i: usize = row * self.width + col;
        self.cells[i].flagged
    }

    /// What the renderer shows at `(row, col)`: `Flag` if flagged, else
    /// `Hidden` if hidden, else the cell's content.
    pub fn cell_display_state(&self, row: usize, col: usize) -> (d: DisplayState)
        requires
            self.well_formed(),
            self.in_bounds(row as int, col as int),
        ensures
            d == self.cell(row as int, col as int).spec_display(),
    {
        proof {
            lemma_grid_index_bounds(self.width as int, self.height as int, row as int, col as int);
        }
        let _bound: usize = self.cells.len();
        let i: usize = row * self.width + col;
        self.cells[i].display()
    }

    /// Sets `hidden = false` at `(row, col)`; content and flag are untouched,
    /// every other cell is untouched. Out-of-bounds coordinates are rejected
    /// and leave the grid unchanged. Succeeds exactly on in-bounds
    /// coordinates, so revealing an already-revealed cell is a no-op.
    pub fn reveal_cell(&mut self, row: usize, col: usize) -> (r: Result<(), MinefieldError>)
        requires
            old(self).well_formed(),
        ensures
            final(self).well_formed(),
            final(self).width == old(self).width,
            final(self).height == old(self).height,
            final(self).mine_count == old(self).mine_count,
            r is Ok <==> old(self).in_bounds(row as int, col as int),
            old(self).in_bounds(row as int, col as int) ==> final(self).cells@ == reveal_at(
                old(self).cells@,
                old(self).width as int,
                row as int,
                col as int,
            ),
            r is Err ==> r == Err::<(), MinefieldError>(MinefieldError::IndexOutOfBounds)
                && *final(self) == *old(self),
    {
        if row < self.height && col < self.width {
            proof {
                lemma_grid_index_bounds(
                    self.width as int,
                    self.height as int,
                    row as int,
                    col as int,
                );
            }
            let _bound: usize = self.cells.len();
            let i: usize = row * self.width + col;
            let c: Cell = self.cells[i];
            let newc = Cell { content: c.content, hidden: false, flagged: c.flagged };
            self.cells[i] = newc;
            proof {
                self.lemma_flags_update_keeps_well_formed(*old(self), i as int, newc);
            }
            Ok(())
        } else {
            Err(MinefieldError::IndexOutOfBounds)
        }
    }

    /// Flips `flagged` at `(row, col)` regardless of hidden state; content and
    /// cover are untouched, every other cell is untouched. Out-of-bounds
    /// coordinates are rejected and leave the grid unchanged.
    pub fn toggle_flag(&mut self, row: usize, col: usize) -> (r: Result<(), MinefieldError>)
        requires
            old(self).well_formed(),
        ensures
            final(self).well_formed(),
            final(self).width == old(self).width,
            final(self).height == old(self).height,
            final(self).mine_count == old(self).mine_count,
            r is Ok <==> old(self).in_bounds(row as int, col as int),
            old(self).in_bounds(row as int, col as int) ==> final(self).cells@ == toggle_at(
                old(self).cells@,
                old(self).width as int,
                row as int,
                col as int,
            ),
            r is Err ==> r == Err::<(), MinefieldError>(MinefieldError::IndexOutOfBounds)
                && *final(self) == *old(self),
    {
        if row < self.height && col < self.width {
            proof {
                lemma_grid_index_bounds(
                    self.width as int,
                    self.height as int,
                    row as int,
                    col as int,
                );
            }
            let _bound: usize = self.cells.len();
            let i: usize = row * self.width + col;
            let c: Cell = self.cells[i];
            let newc = Cell { content: c.content, hidden: c.hidden, flagged: !c.flagged };
            self.cells[i] = newc;
            proof {
                self.lemma_flags_update_keeps_well_formed(*old(self), i as int, newc);
            }
            Ok(())
        } else {
            Err(MinefieldError::IndexOutOfBounds)
        }
    }

    /// Replacing one cell with a cell of the same content preserves the
    /// invariant: mine placement, and with it every adjacency count, is
    /// untouched.
    proof fn lemma_flags_update_keeps_well_formed(self, prev: Minefield, i: int, newc: Cell)
        requires
            prev.well_formed(),
            0 <= i < prev.cells@.len(),
            newc.content == prev.cells@[i].content,
            self.width == prev.width,
            self.height == prev.height,
            self.mine_count == prev.mine_count,
            self.cells@ == prev.cells@.update(i, newc),
        ensures
            self.well_formed(),
    {
        let s1 = prev.cells@;
        let s2 = self.cells@;
        let w = self.width as int;
        let h = self.height as int;
        lemma_count_mines_update(s1, i, newc);
        assert forall|j: int| 0 <= j < s1.len() implies mine_flag(#[trigger] s1[j]) == mine_flag(
            s2[j],
        ) by {}
        assert forall|row: int, col: int| in_grid(w, h, row, col) implies #[trigger]
        counts_correct_at(s2, w, h, row, col) by {
            lemma_grid_index_bounds(w, h, row, col);
            lemma_adjacent_mines_same(s1, s2, w, h, row, col);
            assert(counts_correct_at(s1, w, h, row, col));
            assert(cell_at(s2, w, row, col).content == cell_at(s1, w, row, col).content);
        }
    }

    /// Places `mine_count` mines, each drawn uniformly at random among the
    /// cells that are still free, so no coordinate is picked twice; then
    /// stores in every non-mine cell the exact count of mines among its Moore
    /// neighbors. Every cell of the result is hidden and unflagged. Succeeds
    /// exactly when `mine_count` leaves at least one cell free; a larger
    /// `mine_count` is rejected as an invalid configuration.
    pub fn generate(width: usize, height: usize, mine_count: usize, seed: u64) -> (r: Result<
        Minefield,
        MinefieldError,
    >)
        requires
            width * height <= usize::MAX,
        ensures
            r is Ok <==> mine_count < width * height,
            r is Err ==> r == Err::<Minefield, MinefieldError>(MinefieldError::InvalidConfiguration),
            r matches Ok(g) ==> {
                &&& g.well_formed()
                &&& g.width == width
                &&& g.height == height
                &&& g.mine_count == mine_count
                &&& count_mines(g.cells@) == mine_count
                &&& forall|j: int|
                    0 <= j < g.cells@.len() ==> (#[trigger] g.cells@[j]).hidden
                        && !g.cells@[j].flagged
            },
    {
        let area: usize = width * height;
        if mine_count >= area {
            return Err(MinefieldError::InvalidConfiguration);
        }
        let mut cells: Vec<Cell> = Vec::new();
        let mut i: usize = 0;
        while i < area
            invariant
                i <= area,
                cells@.len() == i,
                count_mines(cells@) == 0,
                forall|j: int| 0 <= j < cells@.len() ==> #[trigger] cells@[j] == Cell::spec_blank(),
            decreases area - i,
        {
            let ghost pre = cells@;
            cells.push(Cell::blank());
            proof {
                lemma_count_mines_push(pre, Cell::spec_blank());
            }
            i += 1;
        }
        let mut rng = rng_from_seed(seed);
        let mut placed: usize = 0;
        while placed < mine_count
            invariant
                placed <= mine_count,
                mine_count < area,
                cells@.len() == area,
                count_mines(cells@) == placed,
                forall|j: int|
                    0 <= j < cells@.len() ==> (#[trigger] cells@[j]).hidden && !cells@[j].flagged,
            decreases mine_count - placed,
        {
            let k: usize = sample_below(&mut rng, area - placed);
            let j: usize = kth_free(&cells, k);
            let ghost pre = cells@;
            let mine = Cell { content: CellContent::Mine, hidden: true, flagged: false };
            cells[j] = mine;
            proof {
                lemma_count_mines_update(pre, j as int, mine);
            }
            placed += 1;
        }
        let mut row: usize = 0;
        while row < height
            invariant
                row <= height,
                area == width * height,
                mine_count < area,
                cells@.len() == area,
                count_mines(cells@) == mine_count,
                forall|j: int|
                    0 <= j < cells@.len() ==> (#[trigger] cells@[j]).hidden && !cells@[j].flagged,
                forall|r: int, c: int|
                    in_grid(width as int, height as int, r, c) && r < row
                        ==> #[trigger] counts_correct_at(
                        cells@,
                        width as int,
                        height as int,
                        r,
                        c,
                    ),
            decreases height - row,
        {
            let mut col: usize = 0;
            while col < width
                invariant
                    col <= width,
                    row < height,
                    area == width * height,
                    mine_count < area,
                    cells@.len() == area,
                    count_mines(cells@) == mine_count,
                    forall|j: int|
                        0 <= j < cells@.len() ==> (#[trigger] cells@[j]).hidden
                            && !cells@[j].flagged,
                    forall|r: int, c: int|
                        in_grid(width as int, height as int, r, c) && r < row
                            ==> #[trigger] counts_correct_at(
                            cells@,
                            width as int,
                            height as int,
                            r,
                            c,
                        ),
                    forall|c: int|
                        0 <= c < col ==> #[trigger] counts_correct_at(
                            cells@,
                            width as int,
                            height as int,
                            row as int,
                            c,
                        ),
                decreases width - col,
            {
                proof {
                    lemma_grid_index_bounds(width as int, height as int, row as int, col as int);
                }
                let i: usize = row * width + col;
                let c: Cell = cells[i];
                match c.content {
                    CellContent::Mine => {
                        assert(counts_correct_at(
                            cells@,
                            width as int,
                            height as int,
                            row as int,
                            col as int,
                        ));
                    },
                    CellContent::Empty { .. } => {
                        let n: u8 = count_adjacent_mines(&cells, width, height, row, col);
                        let ghost s1 = cells@;
                        let newc = Cell {
                            content: CellContent::Empty { count: n },
                            hidden: c.hidden,
                            flagged: c.flagged,
                        };
                        cells[i] = newc;
                        proof {
                            let s2 = cells@;
                            let w = width as int;
                            let h = height as int;
                            lemma_count_mines_update(s1, i as int, newc);
                            assert forall|j: int| 0 <= j < s1.len() implies mine_flag(
                                #[trigger] s1[j],
                            ) == mine_flag(s2[j]) by {}
                            lemma_adjacent_mines_same(s1, s2, w, h, row as int, col as int);
                            assert(counts_correct_at(s2, w, h, row as int, col as int));
                            assert forall|r: int, c2: int|
                                in_grid(w, h, r, c2) && (r < row || (r == row && c2
                                    < col)) implies #[trigger] counts_correct_at(
                                s2,
                                w,
                                h,
                                r,
                                c2,
                            ) by {
                                lemma_grid_index_bounds(w, h, r, c2);
                                lemma_adjacent_mines_same(s1, s2, w, h, r, c2);
                                if r * w + c2 == i {
                                    lemma_grid_index_injective(
                                        w,
                                        h,
                                        r,
                                        c2,
                                        row as int,
                                        col as int,
                                    );
                                } else {
                                    assert(cell_at(s2, w, r, c2) == cell_at(s1, w, r, c2));
                                }
                                assert(counts_correct_at(s1, w, h, r, c2));
                            }
                        }
                    },
                }
                col += 1;
            }
            row += 1;
        }
        let g = Minefield { width, height, mine_count, cells };
        Ok(g)
    }
}

/// The index of the cell of rank `k` (0-based, in row-major order) among the
/// cells that do not hold a mine. Drawing the rank uniformly and taking the
/// cell it names picks a mine position uniformly among the free cells.
fn kth_free(cells: &Vec<Cell>, k: usize) -> (j: usize)
    requires
        count_mines(cells@) + k < cells@.len(),
    ensures
        j < cells@.len(),
        !(cells@[j as int].content is Mine),
{
    let len: usize = cells.len();
    let mut j: usize = 0;
    let mut seen: usize = 0;
    loop
        invariant
            j <= len,
            len == cells@.len(),
            seen <= k,
            count_mines(cells@) + k < cells@.len(),
            seen + count_mines(cells@.take(j as int)) == j,
        decreases len - j,
    {
        proof {
            if j == len {
                assert(cells@.take(j as int) =~= cells@);
                assert(false);
            }
        }
        let c: Cell = cells[j];
        proof {
            assert(cells@.take(j + 1 as int) =~= cells@.take(j as int).push(cells@[j as int]));
            lemma_count_mines_push(cells@.take(j as int), cells@[j as int]);
        }
        match c.content {
            CellContent::Mine => {
                j += 1;
            },
            CellContent::Empty { .. } => {
                if seen == k {
                    return j;
                }
                seen += 1;
                j += 1;
            },
        }
    }
}

/// True exactly when `(row, col)` is on the grid and holds a mine; used by the
/// adjacency counter, which probes coordinates that may lie off the edge.
fn probe_mine(cells: &Vec<Cell>, width: usize, height: usize, row: usize, col: usize) -> (b: bool)
    requires
        cells@.len() == width * height,
    ensures
        b == (mine_ind(cells@, width as int, height as int, row as int, col as int) == 1),
{
    if row < height && col < width {
        proof {
            lemma_grid_index_bounds(width as int, height as int, row as int, col as int);
        }
        let _bound: usize = cells.len();
        let i: usize = row * width + col;
        match cells[i].content {
            CellContent::Mine => true,
            CellContent::Empty { .. } => false,
        }
    } else {
        false
    }
}

/// The exact number of mines among the Moore neighbors of `(row, col)`,
/// clipped at the grid boundary.
fn count_adjacent_mines(
    cells: &Vec<Cell>,
    width: usize,
    height: usize,
    row: usize,
    col: usize,
) -> (n: u8)
    requires
        cells@.len() == width * height,
        row < height,
        col < width,
    ensures
        n as int == adjacent_mines(cells@, width as int, height as int, row as int, col as int),
        n <= 8,
{
    let mut n: u8 = 0;
    if row >= 1 {
        if col >= 1 {
            if probe_mine(cells, width, height, row - 1, col - 1) {
                n += 1;
            }
        }
        if probe_mine(cells, width, height, row - 1, col) {
            n += 1;
        }
        if probe_mine(cells, width, height, row - 1, col + 1) {
            n += 1;
        }
    }
    if col >= 1 {
        if probe_mine(cells, width, height, row, col - 1) {
            n += 1;
        }
    }
    if probe_mine(cells, width, height, row, col + 1) {
        n += 1;
    }
    if col >= 1 {
        if probe_mine(cells, width, height, row + 1, col - 1) {
            n += 1;
        }
    }
    if probe_mine(cells, width, height, row + 1, col) {
        n += 1;
    }
    if probe_mine(cells, width, height, row + 1, col + 1) {
        n += 1;
    }
    n
}

} // verus!
