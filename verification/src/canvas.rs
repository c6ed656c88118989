//! The canvas store: a fixed-size grid of 32-bit colours, written one cell at
//! a time.

use vstd::prelude::*;

verus! {

/// Colour of a cell that has never been written.
pub const BLANK: u32 = 0xFFFF_FFFF;

/// Width of the canvas when none is configured.
pub const DEFAULT_WIDTH: usize = 500;

/// Height of the canvas when none is configured.
pub const DEFAULT_HEIGHT: usize = 500;

/// A request to set one cell to a colour.
#[derive(Clone, Copy, Debug, PartialEq, Eq, Structural)]
pub struct PixelUpdate {
    pub x: u32,
    pub y: u32,
    pub color: u32,
}

/// Mathematical model of a canvas: its dimensions and its cells in row-major
/// order.
pub struct Grid {
    pub width: nat,
    pub height: nat,
    pub cells: Seq<u32>,
}

impl Grid {
    /// The grid holds exactly one colour per cell.
    pub open spec fn wf(self) -> bool {
        self.cells.len() == self.width * self.height
    }

    pub open spec fn in_bounds(self, x: int, y: int) -> bool {
        0 <= x < self.width && 0 <= y < self.height
    }

    /// Position of cell `(x, y)` in the row-major sequence of cells.
    pub open spec fn offset(self, x: int, y: int) -> int {
        y * self.width + x
    }

    pub open spec fn cell(self, x: int, y: int) -> u32 {
        self.cells[self.offset(x, y)]
    }

    /// The grid of the given size in which every cell is blank.
    pub open spec fn blank(width: nat, height: nat) -> Grid {
        Grid { width, height, cells: Seq::new(width * height, |i: int| BLANK) }
    }

    /// The grid after a write of `color` to `(x, y)`. A write outside the grid
    /// changes nothing.
    pub open spec fn paint(self, x: int, y: int, color: u32) -> Grid {
        if self.in_bounds(x, y) {
            Grid { cells: self.cells.update(self.offset(x, y), color), ..self }
        } else {
            self
        }
    }

    /// The grid after the given writes, first to last.
    pub open spec fn paint_all(self, writes: Seq<PixelUpdate>) -> Grid
        decreases writes.len(),
    {
        if writes.len() == 0 {
            self
        } else {
            let w = writes.last();
            self.paint_all(writes.drop_last()).paint(w.x as int, w.y as int, w.color)
        }
    }

    /// The write lands on the cell at position `k` of the sequence of cells.
    pub open spec fn hits(self, w: PixelUpdate, k: int) -> bool {
        self.in_bounds(w.x as int, w.y as int) && self.offset(w.x as int, w.y as int) == k
    }

    /// The colour of the last of the writes that lands on position `k`, if
    /// any does.
    pub open spec fn last_hit(self, writes: Seq<PixelUpdate>, k: int) -> Option<u32>
        decreases writes.len(),
    {
        if writes.len() == 0 {
            None
        } else if self.hits(writes.last(), k) {
            Some(writes.last().color)
        } else {
            self.last_hit(writes.drop_last(), k)
        }
    }
}

/// No two of the writes name the same cell.
pub open spec fn distinct_cells(writes: Seq<PixelUpdate>) -> bool {
    forall|i: int, j: int|
        0 <= i < j < writes.len() ==> !((#[trigger] writes[i]).x == (#[trigger] writes[j]).x
            && writes[i].y == writes[j].y)
}

/// Cells inside the grid have their own position in the sequence of cells.
pub proof fn lemma_offset_in_range(grid: Grid, x: int, y: int)
    requires
        grid.in_bounds(x, y),
    ensures
        0 <= y * grid.width <= grid.offset(x, y) < grid.width * grid.height,
{
    assert(y * grid.width + x < grid.width * grid.height) by (nonlinear_arith)
        requires
            0 <= x < grid.width,
            0 <= y < grid.height,
    ;
    assert(0 <= y * grid.width) by (nonlinear_arith)
        requires
            0 <= y,
            0 <= grid.width,
    ;
}

/// Two cells of the grid at the same position are the same cell.
pub proof fn lemma_offset_injective(grid: Grid, x1: int, y1: int, x2: int, y2: int)
    requires
        grid.in_bounds(x1, y1),
        grid.in_bounds(x2, y2),
        grid.offset(x1, y1) == grid.offset(x2, y2),
    ensures
        x1 == x2,
        y1 == y2,
{
    let w = grid.width as int;
    if y1 < y2 {
        assert(y1 * w + w <= y2 * w) by (nonlinear_arith)
            requires
                y1 + 1 <= y2,
                0 <= w,
        ;
    } else if y2 < y1 {
        assert(y2 * w + w <= y1 * w) by (nonlinear_arith)
            requires
                y2 + 1 <= y1,
                0 <= w,
        ;
    }
}

/// A blank grid is well formed and blank in every cell.
pub proof fn lemma_blank(width: nat, height: nat, x: int, y: int)
    ensures
        Grid::blank(width, height).wf(),
        Grid::blank(width, height).in_bounds(x, y) ==> Grid::blank(width, height).cell(x, y) == BLANK,
{
    let grid = Grid::blank(width, height);
    if grid.in_bounds(x, y) {
        lemma_offset_in_range(grid, x, y);
    }
}

/// A write sets its own cell and leaves every other cell as it was.
pub proof fn lemma_paint_cell(grid: Grid, x: int, y: int, color: u32, x2: int, y2: int)
    requires
        grid.wf(),
        grid.in_bounds(x, y),
        grid.in_bounds(x2, y2),
    ensures
        grid.paint(x, y, color).wf(),
        grid.paint(x, y, color).cell(x2, y2) == (if x2 == x && y2 == y {
            color
        } else {
            grid.cell(x2, y2)
        }),
{
    lemma_offset_in_range(grid, x, y);
    lemma_offset_in_range(grid, x2, y2);
    if grid.offset(x, y) == grid.offset(x2, y2) {
        lemma_offset_injective(grid, x, y, x2, y2);
    }
}

/// Writes change neither the size of a grid nor its well-formedness.
pub proof fn lemma_paint_all_shape(grid: Grid, writes: Seq<PixelUpdate>)
    ensures
        grid.paint_all(writes).width == grid.width,
        grid.paint_all(writes).height == grid.height,
        grid.wf() ==> grid.paint_all(writes).wf(),
    decreases writes.len(),
{
    if writes.len() > 0 {
        let w = writes.last();
        let before = grid.paint_all(writes.drop_last());
        lemma_paint_all_shape(grid, writes.drop_last());
        if before.wf() && before.in_bounds(w.x as int, w.y as int) {
            lemma_offset_in_range(before, w.x as int, w.y as int);
        }
    }
}

/// After a sequence of writes every cell holds the colour of the last write
/// to it, or what it held before if none was to it.
pub proof fn lemma_last_write_wins(grid: Grid, writes: Seq<PixelUpdate>, k: int)
    requires
        grid.wf(),
        0 <= k < grid.cells.len(),
    ensures
        grid.paint_all(writes).cells[k] == (match grid.last_hit(writes, k) {
            Some(color) => color,
            None => grid.cells[k],
        }),
    decreases writes.len(),
{
    if writes.len() > 0 {
        let w = writes.last();
        let before = grid.paint_all(writes.drop_last());
        lemma_last_write_wins(grid, writes.drop_last(), k);
        lemma_paint_all_shape(grid, writes.drop_last());
        if before.in_bounds(w.x as int, w.y as int) {
            lemma_offset_in_range(before, w.x as int, w.y as int);
        }
    }
}

/// The colour that `last_hit` reports is that of one of the writes landing
/// on the position, and it reports none only if no write lands there.
pub proof fn lemma_last_hit_is_a_write(grid: Grid, writes: Seq<PixelUpdate>, k: int)
    ensures
        grid.last_hit(writes, k) matches Some(color) ==> exists|i: int|
            0 <= i < writes.len() && grid.hits(#[trigger] writes[i], k) && writes[i].color == color,
        grid.last_hit(writes, k) is None ==> forall|i: int|
            0 <= i < writes.len() ==> !grid.hits(#[trigger] writes[i], k),
    decreases writes.len(),
{
    if writes.len() > 0 {
        let rest = writes.drop_last();
        lemma_last_hit_is_a_write(grid, rest, k);
        if grid.hits(writes.last(), k) {
            assert(grid.hits(writes[writes.len() - 1], k));
        } else {
            if grid.last_hit(rest, k) is Some {
                let i = choose|i: int|
                    0 <= i < rest.len() && grid.hits(#[trigger] rest[i], k) && rest[i].color
                        == grid.last_hit(rest, k)->0;
                assert(writes[i] == rest[i]);
            } else {
                assert forall|i: int| 0 <= i < writes.len() implies !grid.hits(
                    #[trigger] writes[i],
                    k,
                ) by {
                    if i < rest.len() {
                        assert(writes[i] == rest[i]);
                    }
                }
            }
        }
    }
}

/// Writes to cells that are all different may be applied in any order: two
/// sequences that hold the same writes lead to the same grid.
pub proof fn lemma_distinct_writes_commute(grid: Grid, a: Seq<PixelUpdate>, b: Seq<PixelUpdate>)
    requires
        grid.wf(),
        distinct_cells(a),
        a.to_multiset() == b.to_multiset(),
    ensures
        grid.paint_all(a) == grid.paint_all(b),
{
    lemma_paint_all_shape(grid, a);
    lemma_paint_all_shape(grid, b);
    a.to_multiset_ensures();
    b.to_multiset_ensures();
    let ga = grid.paint_all(a);
    let gb = grid.paint_all(b);
    assert forall|k: int| 0 <= k < ga.cells.len() implies ga.cells[k] == gb.cells[k] by {
        lemma_last_write_wins(grid, a, k);
        lemma_last_write_wins(grid, b, k);
        lemma_last_hit_is_a_write(grid, a, k);
        lemma_last_hit_is_a_write(grid, b, k);
        if grid.last_hit(a, k) is Some {
            let i = choose|i: int|
                0 <= i < a.len() && grid.hits(#[trigger] a[i], k) && a[i].color == grid.last_hit(
                    a,
                    k,
                )->0;
            assert(a.contains(a[i]));
            assert(a.to_multiset().count(a[i]) > 0);
            assert(b.contains(a[i]));
            let j0 = choose|j: int| 0 <= j < b.len() && b[j] == a[i];
            assert(grid.hits(b[j0], k));
            assert(grid.last_hit(b, k) is Some);
            let j = choose|j: int|
                0 <= j < b.len() && grid.hits(#[trigger] b[j], k) && b[j].color == grid.last_hit(
                    b,
                    k,
                )->0;
            assert(b.contains(b[j]));
            assert(b.to_multiset().count(b[j]) > 0);
            assert(a.contains(b[j]));
            let m = choose|m: int| 0 <= m < a.len() && a[m] == b[j];
            lemma_offset_injective(
                grid,
                a[m].x as int,
                a[m].y as int,
                a[i].x as int,
                a[i].y as int,
            );
            assert(m == i);
        } else {
            if grid.last_hit(b, k) is Some {
                let j = choose|j: int|
                    0 <= j < b.len() && grid.hits(#[trigger] b[j], k) && b[j].color
                        == grid.last_hit(b, k)->0;
                assert(b.contains(b[j]));
                assert(b.to_multiset().count(b[j]) > 0);
                assert(a.contains(b[j]));
                let m = choose|m: int| 0 <= m < a.len() && a[m] == b[j];
                assert(grid.hits(a[m], k));
            }
        }
    }
    assert(ga.cells =~= gb.cells);
}

/// The coordinates were outside the canvas.
#[derive(Clone, Copy, Debug, PartialEq, Eq, Structural)]
pub struct OutOfBounds;

/// The authoritative grid of cell colours.
pub struct Canvas {
    width: usize,
    height: usize,
    cells: Vec<u32>,
}

impl View for Canvas {
    type V = Grid;

    closed spec fn view(&self) -> Grid {
        Grid { width: self.width as nat, height: self.height as nat, cells: self.cells@ }
    }
}

impl Canvas {
    #[verifier::type_invariant]
    spec fn inv(self) -> bool {
        self.cells@.len() == self.width * self.height
    }

    /// Creates a blank canvas. Fails only when the number of cells does not
    /// fit the machine's address range.
    pub fn new(width: usize, height: usize) -> (canvas: Option<Canvas>)
        ensures
            canvas is Some <==> width * height <= usize::MAX,
            canvas matches Some(c) ==> c@ == Grid::blank(width as nat, height as nat),
    {
        match width.checked_mul(height) {
            Some(n) => {
                let cells = vec![BLANK; n];
                assert(cells@ =~= Seq::new((width * height) as nat, |i: int| BLANK));
                Some(Canvas { width, height, cells })
            },
            None => None,
        }
    }

    pub fn width(&self) -> (w: usize)
        ensures
            w == self@.width,
            self@.wf(),
    {
        proof {
            use_type_invariant(self);
        }
        self.width
    }

    pub fn height(&self) -> (h: usize)
        ensures
            h == self@.height,
            self@.wf(),
    {
        proof {
            use_type_invariant(self);
        }
        self.height
    }

    /// Position of cell `(x, y)` in `cells`, if the canvas has such a cell.
    fn locate(&self, x: u32, y: u32) -> (at: Option<usize>)
        ensures
            at is Some <==> self@.in_bounds(x as int, y as int),
            at matches Some(i) ==> i == self@.offset(x as int, y as int) && i < self.cells@.len(),
    {
        proof {
            use_type_invariant(self);
        }
        let col: usize = x as usize;
        let row: usize = y as usize;
        if col < self.width && row < self.height {
            proof {
                lemma_offset_in_range(self@, col as int, row as int);
                assert(self.cells.len() <= usize::MAX);
            }
            Some(row * self.width + col)
        } else {
            None
        }
    }

    /// Colour of cell `(x, y)`, if the canvas has such a cell.
    pub fn get(&self, x: u32, y: u32) -> (color: Option<u32>)
        ensures
            color == (if self@.in_bounds(x as int, y as int) {
                Some(self@.cell(x as int, y as int))
            } else {
                None
            }),
    {
        match self.locate(x, y) {
            Some(i) => Some(self.cells[i]),
            None => None,
        }
    }

    /// A copy of the whole grid, row by row.
    pub fn snapshot(&self) -> (cells: Vec<u32>)
        ensures
            cells@ == self@.cells,
            self@.wf(),
    {
        proof {
            use_type_invariant(self);
        }
        self.cells.clone()
    }

    /// Replaces the colour of one cell. Coordinates outside the canvas are
    /// rejected and leave it as it was.
    pub fn write(&mut self, x: u32, y: u32, color: u32) -> (r: Result<(), OutOfBounds>)
        ensures
            r is Ok <==> old(self)@.in_bounds(x as int, y as int),
            r is Err ==> final(self)@ == old(self)@,
            final(self)@ == old(self)@.paint(x as int, y as int, color),
    {
        proof {
            use_type_invariant(&*self);
        }
        match self.locate(x, y) {
            Some(i) => {
                self.cells[i] = color;
                Ok(())
            },
            None => Err(OutOfBounds),
        }
    }
}

} // verus!
