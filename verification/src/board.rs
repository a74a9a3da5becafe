//! The playfield: a fixed-width grid of rows with three wall columns on each
//! side of ten playable columns, and two solid floor rows at the bottom. The
//! board owns collision testing, committing pieces, and row-clear compaction.

use vstd::prelude::*;

use crate::block::{occupied, Block, BlockType};
use crate::block::{is_occupied, lemma_shape_has_cell, spawn_block};
use crate::drawable::Drawable;

verus! {

/// Total width of the grid, walls included.
pub const BOARD_SIZE_X: usize = 16;

/// Total height of the grid, floor rows included.
pub const BOARD_SIZE_Y: usize = 27;

/// The playable-but-unoccupied cell value.
pub const EMPTY: i8 = -2;

/// The immovable border cell value; never cleared.
pub const WALL: i8 = -1;

/// An interior row of the border template: walls in the three outermost
/// columns on each side, empty cells in the ten playable columns between.
pub open spec fn border_row() -> Seq<i8> {
    Seq::new(16, |x: int| if 3 <= x < 13 { EMPTY } else { WALL })
}

/// A solid floor row.
pub open spec fn floor_row() -> Seq<i8> {
    Seq::new(16, |x: int| WALL)
}

/// The grid as `init` leaves it: 25 border rows over 2 floor rows.
pub open spec fn fresh_grid() -> Seq<Seq<i8>> {
    Seq::new(27, |y: int| if y < 25 { border_row() } else { floor_row() })
}

/// Every cell of `g` lies in the range that collision testing understands:
/// walls, empties and colors, nothing stranger.
pub open spec fn wf_grid(g: Seq<Seq<i8>>) -> bool {
    forall|y: int, x: int|
        0 <= y < g.len() && 0 <= x < g[y].len() ==> -2 <= #[trigger] g[y][x] <= 6
}

/// Occupied matrix cell `(i, j)` of piece `b` meets no obstacle on grid `g`:
/// it lies in a grid column, and either projects above row 0 or lands on an
/// `EMPTY` cell. Cells out of the grid sideways or below count as blocked.
pub open spec fn cell_free(g: Seq<Seq<i8>>, b: Block, i: int, j: int) -> bool {
    let y = b.y + i;
    let x = b.x + j;
    if x < 0 || x >= BOARD_SIZE_X {
        false
    } else if y < 0 {
        true
    } else if y >= g.len() {
        false
    } else if x >= g[y].len() {
        false
    } else {
        g[y][x] == EMPTY
    }
}

/// Piece `b` meets no obstacle on grid `g`: every occupied cell of its
/// matrix is free. This is what `check_with_block` reports as `Ok(0)`.
pub open spec fn fits(g: Seq<Seq<i8>>, b: Block) -> bool {
    forall|i: int, j: int|
        #![trigger occupied(b.shape, b.rotation as int, i, j)]
        #![trigger cell_free(g, b, i, j)]
        occupied(b.shape, b.rotation as int, i, j) ==> cell_free(g, b, i, j)
}

/// Grid position `(y, x)` is covered by an occupied cell of piece `b`.
pub open spec fn covered(b: Block, y: int, x: int) -> bool {
    exists|i: int, j: int|
        occupied(b.shape, b.rotation as int, i, j) && y == b.y + i && x == b.x + j
}

/// Grid `g` with every cell covered by piece `b` repainted to `color` and no
/// other cell changed. This is what `set_with_block` leaves behind.
pub open spec fn painted(g: Seq<Seq<i8>>, b: Block, color: i8) -> Seq<Seq<i8>> {
    Seq::new(
        g.len(),
        |y: int| Seq::new(g[y].len(), |x: int| if covered(b, y, x) { color } else { g[y][x] }),
    )
}

/// The count of cells in `row` holding a color (a positive value).
pub open spec fn colored_count(row: Seq<i8>) -> nat
    decreases row.len(),
{
    if row.len() == 0 {
        0
    } else {
        colored_count(row.drop_last()) + (if row.last() > 0 {
            1nat
        } else {
            0nat
        })
    }
}

/// A row is complete when its colored cells fill all ten playable columns.
pub open spec fn row_complete(row: Seq<i8>) -> bool {
    colored_count(row) == 10
}

/// The count of complete rows of `g`.
pub open spec fn completed_rows(g: Seq<Seq<i8>>) -> nat
    decreases g.len(),
{
    if g.len() == 0 {
        0
    } else {
        completed_rows(g.drop_last()) + (if row_complete(g.last()) {
            1nat
        } else {
            0nat
        })
    }
}

/// The rows of `g` that are not complete, in order.
pub open spec fn keep_incomplete(g: Seq<Seq<i8>>) -> Seq<Seq<i8>>
    decreases g.len(),
{
    if g.len() == 0 {
        Seq::empty()
    } else {
        let rest = keep_incomplete(g.drop_last());
        if row_complete(g.last()) {
            rest
        } else {
            rest.push(g.last())
        }
    }
}

/// Grid `g` after row clearing: as many fresh border rows on top as rows
/// were complete, then the incomplete rows in their old order.
pub open spec fn cleared_grid(g: Seq<Seq<i8>>) -> Seq<Seq<i8>> {
    Seq::new(completed_rows(g), |y: int| border_row()) + keep_incomplete(g)
}

/// Counting and keeping partition the rows, so clearing preserves length.
proof fn lemma_clear_preserves_len(g: Seq<Seq<i8>>)
    ensures
        completed_rows(g) + keep_incomplete(g).len() == g.len(),
    decreases g.len(),
{
    if g.len() > 0 {
        lemma_clear_preserves_len(g.drop_last());
    }
}

/// The playfield.
pub struct Board {
    data: Vec<Vec<i8>>,
}

/// Write `color` into the single cell `(yu, xu)` of `data`.
fn paint_cell(data: &mut Vec<Vec<i8>>, yu: usize, xu: usize, color: i8)
    requires
        yu < old(data)@.len(),
        xu < old(data)@[yu as int]@.len(),
    ensures
        final(data)@.len() == old(data)@.len(),
        forall|y: int|
            0 <= y < old(data)@.len() ==> (#[trigger] final(data)@[y])@.len()
                == old(data)@[y]@.len(),
        forall|y: int, x: int|
            0 <= y < old(data)@.len() && 0 <= x < old(data)@[y]@.len()
                ==> #[trigger] final(data)@[y]@[x] == (if y == yu && x == xu {
                color
            } else {
                old(data)@[y]@[x]
            }),
{
    let ghost d0 = data@;
    let row = &mut data[yu];
    let ghost r0 = row@;
    row[xu] = color;
    proof {
        assert(data@ == d0.update(yu as int, data@[yu as int]));
        assert(data@[yu as int]@ == r0.update(xu as int, color));
        assert forall|y: int| 0 <= y < d0.len() implies (#[trigger] data@[y])@.len()
            == d0[y]@.len() by {
            if y != yu {
                assert(data@[y] == d0[y]);
            }
        }
        assert forall|y: int, x: int|
            0 <= y < d0.len() && 0 <= x < d0[y]@.len() implies #[trigger] data@[y]@[x] == (if y
            == yu && x == xu {
            color
        } else {
            d0[y]@[x]
        }) by {
            if y != yu {
                assert(data@[y] == d0[y]);
            }
        }
    }
}

impl View for Board {
    type V = Seq<Seq<i8>>;

    closed spec fn view(&self) -> Seq<Seq<i8>> {
        Seq::new(self.data@.len(), |y: int| self.data@[y]@)
    }
}

/// Build one border-template row.
fn make_border_row() -> (row: Vec<i8>)
    ensures
        row@ == border_row(),
{
    let mut row: Vec<i8> = Vec::new();
    let mut x: usize = 0;
    while x < 16
        invariant
            x <= 16,
            row@.len() == x,
            forall|k: int| 0 <= k < x ==> row@[k] == border_row()[k],
        decreases 16 - x,
    {
        if 3 <= x && x < 13 {
            row.push(EMPTY);
        } else {
            row.push(WALL);
        }
        x = x + 1;
    }
    assert(row@ =~= border_row());
    row
}

/// Build one solid floor row.
fn make_floor_row() -> (row: Vec<i8>)
    ensures
        row@ == floor_row(),
{
    let mut row: Vec<i8> = Vec::new();
    let mut x: usize = 0;
    while x < 16
        invariant
            x <= 16,
            row@.len() == x,
            forall|k: int| 0 <= k < x ==> row@[k] == floor_row()[k],
        decreases 16 - x,
    {
        row.push(WALL);
        x = x + 1;
    }
    assert(row@ =~= floor_row());
    row
}

/// Decide whether a row's colored cells fill all ten playable columns.
fn row_is_complete(row: &Vec<i8>) -> (b: bool)
    ensures
        b == row_complete(row@),
{
    let mut count: usize = 0;
    let mut x: usize = 0;
    while x < row.len()
        invariant
            x <= row@.len(),
            count == colored_count(row@.subrange(0, x as int)),
            count <= x,
        decreases row@.len() - x,
    {
        proof {
            assert(row@.subrange(0, x + 1).drop_last() =~= row@.subrange(0, x as int));
            assert(row@.subrange(0, x + 1).last() == row@[x as int]);
        }
        if row[x] > 0 {
            count = count + 1;
        }
        x = x + 1;
    }
    proof {
        assert(row@.subrange(0, row@.len() as int) =~= row@);
    }
    count == 10
}

impl Board {
    /// An empty board; `init` gives it its rows.
    pub fn new() -> (b: Board)
        ensures
            b@.len() == 0,
    {
        Board { data: Vec::new() }
    }

    /// Clear all rows, then lay out 25 border-template rows over 2 floor rows.
    pub fn init(&mut self)
        ensures
            final(self)@ == fresh_grid(),
    {
        self.data = Vec::new();
        let mut y: usize = 0;
        while y < 27
            invariant
                y <= 27,
                self.data@.len() == y,
                forall|k: int| 0 <= k < y ==> #[trigger] self.data@[k]@ == fresh_grid()[k],
            decreases 27 - y,
        {
            if y < 25 {
                self.data.push(make_border_row());
            } else {
                self.data.push(make_floor_row());
            }
            y = y + 1;
        }
        assert(self@ =~= fresh_grid());
    }

    /// Test the piece against the grid: `Ok(0)` when every occupied cell is
    /// free, `Ok(1)` when some occupied cell is blocked by a wall, a locked
    /// color or the grid's edge, and `Err(cell)` for a cell value outside the
    /// board's vocabulary — unreachable while the grid is well formed.
    pub fn check_with_block(&mut self, block: &Block) -> (r: Result<u8, i8>)
        requires
            block.rotation < 4,
        ensures
            *final(self) == *old(self),
            (r == Ok::<u8, i8>(0)) <==> fits(old(self)@, *block),
            wf_grid(old(self)@) ==> (r == Ok::<u8, i8>(0) || r == Ok::<u8, i8>(1)),
            r is Err ==> exists|y: int, x: int|
                0 <= y < old(self)@.len() && 0 <= x < old(self)@[y].len() && covered(*block, y, x)
                    && old(self)@[y][x] == r->Err_0 && !(-2 <= r->Err_0 <= 6),
    {
        let mut i: usize = 0;
        while i < 4
            invariant
                block.rotation < 4,
                *self == *old(self),
                i <= 4,
                forall|i0: int, j0: int|
                    0 <= i0 < i && occupied(block.shape, block.rotation as int, i0, j0)
                        ==> cell_free(self@, *block, i0, j0),
            decreases 4 - i,
        {
            let mut j: usize = 0;
            while j < 4
                invariant
                    block.rotation < 4,
                    *self == *old(self),
                    i < 4,
                    j <= 4,
                    forall|i0: int, j0: int|
                        0 <= i0 < i && occupied(block.shape, block.rotation as int, i0, j0)
                            ==> cell_free(self@, *block, i0, j0),
                    forall|j0: int|
                        0 <= j0 < j && occupied(block.shape, block.rotation as int, i as int, j0)
                            ==> cell_free(self@, *block, i as int, j0),
                decreases 4 - j,
            {
                if is_occupied(block.shape, block.rotation, i, j) {
                    let y_: isize = block.y as isize + i as isize;
                    let x_: isize = block.x as isize + j as isize;
                    if x_ < 0 || x_ >= 16 {
                        assert(!cell_free(self@, *block, i as int, j as int));
                        return Ok(1);
                    }
                    if y_ >= 0 {
                        let yu = y_ as usize;
                        let xu = x_ as usize;
                        if yu >= self.data.len() {
                            assert(!cell_free(self@, *block, i as int, j as int));
                            return Ok(1);
                        }
                        let row = &self.data[yu];
                        if xu >= row.len() {
                            assert(!cell_free(self@, *block, i as int, j as int));
                            return Ok(1);
                        }
                        let cell = row[xu];
                        if cell == EMPTY {
                            // free; keep scanning
                        } else if -1 <= cell && cell <= 6 {
                            assert(!cell_free(self@, *block, i as int, j as int));
                            return Ok(1);
                        } else {
                            assert(covered(*block, y_ as int, x_ as int));
                            assert(!cell_free(self@, *block, i as int, j as int));
                            return Err(cell);
                        }
                    }
                }
                j = j + 1;
            }
            i = i + 1;
        }
        Ok(0)
    }

    /// Commit the piece: write `color` into every grid cell its matrix
    /// occupies; cells its matrix leaves empty, and cells off the grid, are
    /// untouched. Always succeeds.
    pub fn set_with_block(&mut self, block: &Block, color: i8) -> (r: Result<u8, &'static str>)
        requires
            block.rotation < 4,
        ensures
            final(self)@ == painted(old(self)@, *block, color),
            r == Ok::<u8, &'static str>(0),
    {
        let ghost g0 = self@;
        let mut i: usize = 0;
        while i < 4
            invariant
                block.rotation < 4,
                i <= 4,
                self@.len() == g0.len(),
                forall|y: int| 0 <= y < g0.len() ==> (#[trigger] self@[y]).len() == g0[y].len(),
                forall|y: int, x: int|
                    0 <= y < g0.len() && 0 <= x < g0[y].len() ==> #[trigger] self@[y][x] == (
                    if covered_before(*block, y, x, i as int, 0) {
                        color
                    } else {
                        g0[y][x]
                    }),
            decreases 4 - i,
        {
            let mut j: usize = 0;
            while j < 4
                invariant
                    block.rotation < 4,
                    i < 4,
                    j <= 4,
                    self@.len() == g0.len(),
                    forall|y: int| 0 <= y < g0.len() ==> (#[trigger] self@[y]).len() == g0[y].len(),
                    forall|y: int, x: int|
                        0 <= y < g0.len() && 0 <= x < g0[y].len() ==> #[trigger] self@[y][x] == (
                        if covered_before(*block, y, x, i as int, j as int) {
                            color
                        } else {
                            g0[y][x]
                        }),
                decreases 4 - j,
            {
                let ghost pre = self@;
                if is_occupied(block.shape, block.rotation, i, j) {
                    let y_: isize = block.y as isize + i as isize;
                    let x_: isize = block.x as isize + j as isize;
                    if y_ >= 0 && x_ >= 0 {
                        let yu = y_ as usize;
                        let xu = x_ as usize;
                        if yu < self.data.len() {
                            let row_len = self.data[yu].len();
                            if xu < row_len {
                                paint_cell(&mut self.data, yu, xu, color);
                            }
                        }
                    }
                }
                proof {
                    assert forall|y: int| 0 <= y < g0.len() implies (#[trigger] self@[y]).len()
                        == g0[y].len() by {
                        assert((pre[y]).len() == g0[y].len());
                    }
                    assert forall|y: int, x: int|
                        0 <= y < g0.len() && 0 <= x < g0[y].len() implies #[trigger] self@[y][x]
                        == (if covered_before(*block, y, x, i as int, j + 1) {
                        color
                    } else {
                        g0[y][x]
                    }) by {
                        lemma_covered_before_step(*block, y, x, i as int, j as int);
                        if y == block.y + i && x == block.x + j {
                        } else {
                            assert(self@[y][x] == pre[y][x]);
                        }
                    }
                }
                j = j + 1;
            }
            proof {
                assert forall|y: int, x: int|
                    0 <= y < g0.len() && 0 <= x < g0[y].len() implies covered_before(
                    *block,
                    y,
                    x,
                    i as int,
                    4,
                ) == covered_before(*block, y, x, i + 1, 0) by {
                    lemma_covered_row_wrap(*block, y, x, i as int);
                }
            }
            i = i + 1;
        }
        proof {
            assert forall|y: int, x: int|
                0 <= y < g0.len() && 0 <= x < g0[y].len() implies covered_before(
                *block,
                y,
                x,
                4,
                0,
            ) == covered(*block, y, x) by {
                lemma_covered_before_full(*block, y, x);
            }
            assert(self@ =~~= painted(g0, *block, color));
        }
        Ok(0)
    }

    /// Remove every complete row, insert an equal number of fresh border
    /// rows at the top, and report how many rows were removed.
    pub fn check_completion(&mut self) -> (r: u32)
        requires
            old(self)@.len() <= u32::MAX,
        ensures
            r as nat == completed_rows(old(self)@),
            final(self)@ == cleared_grid(old(self)@),
            final(self)@.len() == old(self)@.len(),
            r <= old(self)@.len(),
    {
        let ghost g0 = self@;
        let mut kept: Vec<Vec<i8>> = Vec::new();
        let mut counter: u32 = 0;
        let ghost mut k: int = 0;
        proof {
            assert(g0.subrange(0, 0) =~= Seq::<Seq<i8>>::empty());
        }
        while self.data.len() > 0
            invariant
                g0.len() <= u32::MAX,
                0 <= k <= g0.len(),
                self.data@.len() == g0.len() - k,
                forall|y: int|
                    0 <= y < self.data@.len() ==> #[trigger] self.data@[y]@ == g0[k + y],
                counter as nat == completed_rows(g0.subrange(0, k)),
                counter <= k,
                kept@.len() == keep_incomplete(g0.subrange(0, k)).len(),
                forall|y: int|
                    0 <= y < kept@.len() ==> #[trigger] kept@[y]@ == keep_incomplete(
                        g0.subrange(0, k),
                    )[y],
            decreases self.data@.len(),
        {
            let row = self.data.remove(0);
            proof {
                assert(row@ == g0[k]);
                assert(g0.subrange(0, k + 1).drop_last() =~= g0.subrange(0, k));
                assert(g0.subrange(0, k + 1).last() == g0[k]);
                lemma_completed_bounded(g0.subrange(0, k));
            }
            if row_is_complete(&row) {
                counter = counter + 1;
            } else {
                kept.push(row);
            }
            proof {
                k = k + 1;
            }
        }
        proof {
            assert(g0.subrange(0, g0.len() as int) =~= g0);
        }
        let mut fresh: Vec<Vec<i8>> = Vec::new();
        let mut c: u32 = 0;
        while c < counter
            invariant
                c <= counter,
                fresh@.len() == c,
                forall|y: int| 0 <= y < c ==> #[trigger] fresh@[y]@ == border_row(),
            decreases counter - c,
        {
            fresh.push(make_border_row());
            c = c + 1;
        }
        fresh.append(&mut kept);
        self.data = fresh;
        proof {
            lemma_clear_preserves_len(g0);
            assert(self@ =~~= cleared_grid(g0));
        }
        counter
    }
}

/// A row's complete count never exceeds its length; needed so the row
/// counter fits its integer type.
proof fn lemma_completed_bounded(g: Seq<Seq<i8>>)
    ensures
        completed_rows(g) <= g.len(),
    decreases g.len(),
{
    if g.len() > 0 {
        lemma_completed_bounded(g.drop_last());
    }
}

/// Grid position `(y, x)` is covered by an occupied matrix cell that a
/// row-major scan visits strictly before position `(i, j)`.
pub open spec fn covered_before(b: Block, y: int, x: int, i: int, j: int) -> bool {
    exists|i0: int, j0: int|
        occupied(b.shape, b.rotation as int, i0, j0) && (i0 < i || (i0 == i && j0 < j)) && y == b.y
            + i0 && x == b.x + j0
}

proof fn lemma_covered_before_step(b: Block, y: int, x: int, i: int, j: int)
    requires
        0 <= i < 4,
        0 <= j < 4,
    ensures
        covered_before(b, y, x, i, j + 1) == (covered_before(b, y, x, i, j) || (occupied(
            b.shape,
            b.rotation as int,
            i,
            j,
        ) && y == b.y + i && x == b.x + j)),
{
    if covered_before(b, y, x, i, j + 1) {
        let (i0, j0) = choose|i0: int, j0: int|
            occupied(b.shape, b.rotation as int, i0, j0) && (i0 < i || (i0 == i && j0 < j + 1))
                && y == b.y + i0 && x == b.x + j0;
        if i0 == i && j0 == j {
        } else {
            assert(covered_before(b, y, x, i, j));
        }
    }
    if covered_before(b, y, x, i, j) {
        assert(covered_before(b, y, x, i, j + 1));
    }
    if occupied(b.shape, b.rotation as int, i, j) && y == b.y + i && x == b.x + j {
        assert(covered_before(b, y, x, i, j + 1));
    }
}

proof fn lemma_covered_row_wrap(b: Block, y: int, x: int, i: int)
    ensures
        covered_before(b, y, x, i, 4) == covered_before(b, y, x, i + 1, 0),
{
    if covered_before(b, y, x, i, 4) {
        let (i0, j0) = choose|i0: int, j0: int|
            occupied(b.shape, b.rotation as int, i0, j0) && (i0 < i || (i0 == i && j0 < 4)) && y
                == b.y + i0 && x == b.x + j0;
        assert(j0 < 4);
        assert(covered_before(b, y, x, i + 1, 0));
    }
    if covered_before(b, y, x, i + 1, 0) {
        let (i0, j0) = choose|i0: int, j0: int|
            occupied(b.shape, b.rotation as int, i0, j0) && (i0 < i + 1 || (i0 == i + 1 && j0 < 0))
                && y == b.y + i0 && x == b.x + j0;
        assert(occupied(b.shape, b.rotation as int, i0, j0));
        assert(j0 < 4);
        assert(covered_before(b, y, x, i, 4));
    }
}

proof fn lemma_covered_before_full(b: Block, y: int, x: int)
    ensures
        covered_before(b, y, x, 4, 0) == covered(b, y, x),
{
    if covered_before(b, y, x, 4, 0) {
        assert(covered(b, y, x));
    }
    if covered(b, y, x) {
        let (i0, j0) = choose|i0: int, j0: int|
            occupied(b.shape, b.rotation as int, i0, j0) && y == b.y + i0 && x == b.x + j0;
        assert(i0 < 4);
        assert(covered_before(b, y, x, 4, 0));
    }
}

/// A freshly initialized grid is well formed and has its full height.
pub proof fn lemma_fresh_wf()
    ensures
        wf_grid(fresh_grid()),
        fresh_grid().len() == 27,
{
    let g = fresh_grid();
    assert forall|y: int, x: int|
        0 <= y < g.len() && 0 <= x < g[y].len() implies -2 <= #[trigger] g[y][x] <= 6 by {
        if y < 25 {
            assert(g[y] == border_row());
        } else {
            assert(g[y] == floor_row());
        }
    }
}

/// Painting a piece with a color in the board's vocabulary keeps the grid
/// well formed and its dimensions unchanged.
pub proof fn lemma_painted_wf(g: Seq<Seq<i8>>, b: Block, color: i8)
    requires
        wf_grid(g),
        -2 <= color <= 6,
    ensures
        wf_grid(painted(g, b, color)),
        painted(g, b, color).len() == g.len(),
        forall|y: int|
            0 <= y < g.len() ==> (#[trigger] painted(g, b, color)[y]).len() == g[y].len(),
{
    let p = painted(g, b, color);
    assert forall|y: int, x: int|
        0 <= y < p.len() && 0 <= x < p[y].len() implies -2 <= #[trigger] p[y][x] <= 6 by {
        if !covered(b, y, x) {
            assert(p[y][x] == g[y][x]);
        }
    }
}

/// Every row that row clearing keeps is a row of the original grid.
proof fn lemma_keep_incomplete_rows(g: Seq<Seq<i8>>, i: int)
    requires
        0 <= i < keep_incomplete(g).len(),
    ensures
        exists|y: int| 0 <= y < g.len() && keep_incomplete(g)[i] == g[y],
    decreases g.len(),
{
    let rest = keep_incomplete(g.drop_last());
    if row_complete(g.last()) || i < rest.len() {
        lemma_keep_incomplete_rows(g.drop_last(), i);
        let y = choose|y: int|
            0 <= y < g.drop_last().len() && keep_incomplete(g.drop_last())[i] == g.drop_last()[y];
        assert(g.drop_last()[y] == g[y]);
        assert(0 <= y < g.len() && keep_incomplete(g)[i] == g[y]);
    } else {
        let y = g.len() - 1;
        assert(keep_incomplete(g)[i] == g[y]);
    }
}

/// Row clearing keeps the grid well formed.
pub proof fn lemma_cleared_wf(g: Seq<Seq<i8>>)
    requires
        wf_grid(g),
    ensures
        wf_grid(cleared_grid(g)),
{
    let c = cleared_grid(g);
    let n = completed_rows(g) as int;
    assert forall|y: int, x: int|
        0 <= y < c.len() && 0 <= x < c[y].len() implies -2 <= #[trigger] c[y][x] <= 6 by {
        if y < n {
            assert(c[y] == border_row());
        } else {
            assert(c[y] == keep_incomplete(g)[y - n]);
            lemma_keep_incomplete_rows(g, y - n);
            let yy = choose|yy: int|
                0 <= yy < g.len() && keep_incomplete(g)[y - n] == g[yy];
            assert(-2 <= g[yy][x] <= 6);
        }
    }
}

/// Law: on a freshly initialized grid, a piece at its spawn position fits,
/// whatever its shape, rotation and color (spawn safety).
pub proof fn lemma_spawn_clear(t: BlockType, r: u8, color: u8)
    requires
        r < 4,
        1 <= color <= 5,
    ensures
        fits(fresh_grid(), spawn_block(t, r, color)),
{
    let b = spawn_block(t, r, color);
    let g = fresh_grid();
    assert forall|i: int, j: int|
        occupied(b.shape, b.rotation as int, i, j) implies cell_free(g, b, i, j) by {
        assert(0 <= i < 4 && 0 <= j < 4);
        assert(6 <= b.x + j <= 9);
        if b.y + i >= 0 {
            assert(b.y + i <= 2);
            assert(g[b.y + i] == border_row());
            assert(g[b.y + i][b.x + j] == EMPTY);
        }
    };
}

/// A piece that fits on a grid of at most 27 rows sits within the board's
/// coordinate range.
pub proof fn lemma_fits_bounds(g: Seq<Seq<i8>>, b: Block)
    requires
        fits(g, b),
        b.rotation < 4,
        g.len() <= 27,
    ensures
        -3 <= b.x <= 15,
        b.y <= 26,
{
    lemma_shape_has_cell(b.shape, b.rotation as int);
    let (i, j) = choose|i: int, j: int| occupied(b.shape, b.rotation as int, i, j);
    assert(cell_free(g, b, i, j));
}

impl Drawable for Board {
    open spec fn spec_size(&self) -> (usize, usize) {
        (BOARD_SIZE_X, BOARD_SIZE_Y)
    }

    open spec fn valid_at(&self, x: int, y: int) -> bool {
        0 <= x < self@.len() && 0 <= y < self@[x].len()
    }

    open spec fn spec_data(&self, x: int, y: int) -> i8 {
        self@[x][y]
    }

    fn get_size(&self) -> (s: (usize, usize)) {
        (BOARD_SIZE_X, BOARD_SIZE_Y)
    }

    fn get_data(&self, x: usize, y: usize) -> (d: i8) {
        let row = &self.data[x];
        row[y]
    }
}

} // verus!
