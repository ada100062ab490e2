//! The tile grid of one canvas layer: which tiles the layer holds, where the
//! grid sits on the screen, and the queue of tiles waiting to be computed.
//!
//! A tile is named by its grid cell: its column and row counted in whole
//! tiles from the first tile the layer was made with, rows growing
//! downwards. Where the layer sits in the complex plane, and how large a
//! tile is drawn at the layer's zoom, are the caller's: the grid only needs
//! the drawn tile size in pixels.
use vstd::prelude::*;
use vstd::arithmetic::div_mod::{
    lemma_div_by_multiple, lemma_div_is_ordered, lemma_fundamental_div_mod,
    lemma_fundamental_div_mod_converse, lemma_mod_bound,
};
use crate::geometry::ScreenPoint;

verus! {

broadcast use vstd::seq_lib::group_seq_properties;

/// A tile's place in the layer grid, counted in tiles from the layer's first tile.
#[derive(Debug, Clone, Copy, PartialEq, Eq, Structural, Hash)]
pub struct GridCell {
    pub column: i64,
    pub row: i64,
}

/// A tile waiting to be computed, with the row and column it had in the grid
/// when it was queued.
#[derive(Debug, Clone, Copy, PartialEq, Eq, Structural)]
pub struct QueuedTile {
    pub cell: GridCell,
    pub row: usize,
    pub column: usize,
}

/// What a grid is: the first cell, the grid's extent in tiles, the screen
/// position of its top-left pixel, the drawn tile size and the work queue.
pub struct TileGridView {
    pub first_column: int,
    pub first_row: int,
    pub columns: int,
    pub rows: int,
    pub x: int,
    pub y: int,
    pub tile_width: int,
    pub tile_height: int,
    pub pending: Seq<QueuedTile>,
}

/// Tiles of `size` pixels to add before a grid starting at `start` so that it
/// starts at or before `limit`.
pub open spec fn tiles_before(start: int, limit: int, size: int) -> int {
    if start > limit {
        (start - limit + size - 1) / size
    } else {
        0
    }
}

/// Tiles of `size` pixels to add after `count` tiles starting at `start` so
/// that the grid's last pixel lies at or after `limit`.
pub open spec fn tiles_after(start: int, count: int, limit: int, size: int) -> int {
    let end = start + count * size - 1;
    if end < limit {
        (limit - end + size - 1) / size
    } else {
        0
    }
}

/// The queue entries of one column of `rows` tiles at grid column `column`,
/// starting at grid row `first_row`, queued as column `index`.
pub open spec fn column_entries(column: int, first_row: int, rows: int, index: int) -> Seq<
    QueuedTile,
> {
    Seq::new(
        rows as nat,
        |r: int|
            QueuedTile {
                cell: GridCell { column: column as i64, row: (first_row + r) as i64 },
                row: r as usize,
                column: index as usize,
            },
    )
}

/// The queue entries of one row of `columns` tiles at grid row `row`,
/// starting at grid column `first_column`, queued as row `index`.
pub open spec fn row_entries(first_column: int, row: int, columns: int, index: int) -> Seq<
    QueuedTile,
> {
    Seq::new(
        columns as nat,
        |c: int|
            QueuedTile {
                cell: GridCell { column: (first_column + c) as i64, row: row as i64 },
                row: index as usize,
                column: c as usize,
            },
    )
}

/// The entries queued while `k` columns are added, one at a time, in front of
/// a grid whose first column is `first_column`: each new column is column 0.
pub open spec fn columns_before(first_column: int, first_row: int, rows: int, k: int) -> Seq<
    QueuedTile,
>
    decreases k,
{
    if k <= 0 {
        Seq::empty()
    } else {
        columns_before(first_column, first_row, rows, k - 1) + column_entries(
            first_column - k,
            first_row,
            rows,
            0,
        )
    }
}

/// The entries queued while `k` rows are added, one at a time, above a grid
/// whose first row is `first_row`: each new row is row 0.
pub open spec fn rows_above(first_column: int, first_row: int, columns: int, k: int) -> Seq<
    QueuedTile,
>
    decreases k,
{
    if k <= 0 {
        Seq::empty()
    } else {
        rows_above(first_column, first_row, columns, k - 1) + row_entries(
            first_column,
            first_row - k,
            columns,
            0,
        )
    }
}

/// The entries queued while `k` columns are appended to a grid of `columns`
/// columns: the `i`-th new column is queued as column `columns + i`.
pub open spec fn columns_after(
    first_column: int,
    first_row: int,
    columns: int,
    rows: int,
    k: int,
) -> Seq<QueuedTile>
    decreases k,
{
    if k <= 0 {
        Seq::empty()
    } else {
        columns_after(first_column, first_row, columns, rows, k - 1) + column_entries(
            first_column + columns + k - 1,
            first_row,
            rows,
            columns + k - 1,
        )
    }
}

/// The entries queued while `k` rows are appended to a grid of `rows` rows:
/// the `i`-th new row is queued as row `rows + i`.
pub open spec fn rows_below(first_column: int, first_row: int, columns: int, rows: int, k: int) -> Seq<
    QueuedTile,
>
    decreases k,
{
    if k <= 0 {
        Seq::empty()
    } else {
        rows_below(first_column, first_row, columns, rows, k - 1) + row_entries(
            first_column,
            first_row + rows + k - 1,
            columns,
            rows + k - 1,
        )
    }
}

/// Leading tiles of `size` pixels, out of `count` starting at `start`, that
/// lie wholly before `limit`, keeping at least one tile.
pub open spec fn tiles_trimmed_before(start: int, limit: int, size: int, count: int) -> int {
    if start + size - 1 < limit {
        let outside = (limit - start) / size;
        if outside < count - 1 {
            outside
        } else {
            count - 1
        }
    } else {
        0
    }
}

/// Trailing tiles of `size` pixels, out of `count` starting at `start`, that
/// lie wholly after `limit`, keeping at least one tile.
pub open spec fn tiles_trimmed_after(start: int, count: int, limit: int, size: int) -> int {
    let last = start + (count - 1) * size;
    if last > limit {
        let outside = (last - limit + size - 1) / size;
        if outside < count - 1 {
            outside
        } else {
            count - 1
        }
    } else {
        0
    }
}

/// Whether a queued tile is one of `grid`'s tiles.
pub open spec fn queued_in(grid: TileGridView) -> spec_fn(QueuedTile) -> bool {
    |q: QueuedTile| grid.contains(q.cell)
}

impl TileGridView {
    /// Whether `cell` is one of the grid's tiles.
    pub open spec fn contains(self, cell: GridCell) -> bool {
        &&& self.first_column <= cell.column < self.first_column + self.columns
        &&& self.first_row <= cell.row < self.first_row + self.rows
    }

    /// The screen position of the top-left pixel of `cell`.
    pub open spec fn cell_x(self, cell: GridCell) -> int {
        self.x + (cell.column - self.first_column) * self.tile_width
    }

    pub open spec fn cell_y(self, cell: GridCell) -> int {
        self.y + (cell.row - self.first_row) * self.tile_height
    }

    /// Whether every quantity of the grid fits the machine types that hold it:
    /// screen coordinates of all its pixels in `i32`, its drawn size in `u32`,
    /// its cells in `i64` and its extent in `usize`.
    pub open spec fn representable(self) -> bool {
        &&& i32::MIN <= self.x
        &&& self.x + self.columns * self.tile_width <= i32::MAX
        &&& i32::MIN <= self.y
        &&& self.y + self.rows * self.tile_height <= i32::MAX
        &&& i64::MIN <= self.first_column
        &&& self.first_column + self.columns <= i64::MAX
        &&& i64::MIN <= self.first_row
        &&& self.first_row + self.rows <= i64::MAX
        &&& self.columns <= usize::MAX
        &&& self.rows <= usize::MAX
    }

    /// The queue entries of every tile of the grid in row-major order, each at
    /// its current row and column.
    pub open spec fn all_entries(self) -> Seq<QueuedTile> {
        rows_below(self.first_column, self.first_row, self.columns, 0, self.rows)
    }

    /// The grid with its top-left pixel moved to `(x, y)`.
    pub open spec fn moved_to(self, x: int, y: int) -> TileGridView {
        TileGridView { x, y, ..self }
    }

    /// The grid with its tiles drawn `tile_width` by `tile_height` pixels.
    pub open spec fn resized_to(self, tile_width: int, tile_height: int) -> TileGridView {
        TileGridView { tile_width, tile_height, ..self }
    }

    /// The grid's extent after whole columns and rows that lie outside the
    /// screen bounds `(left, top, right, bottom)` are dropped, left, right,
    /// top and bottom in turn, keeping at least one column and one row.
    pub open spec fn trimmed_extent(self, bounds: (i32, i32, i32, i32)) -> TileGridView {
        let kl = tiles_trimmed_before(self.x, bounds.0 as int, self.tile_width, self.columns);
        let x = self.x + kl * self.tile_width;
        let columns = self.columns - kl;
        let kr = tiles_trimmed_after(x, columns, bounds.2 as int, self.tile_width);
        let kt = tiles_trimmed_before(self.y, bounds.1 as int, self.tile_height, self.rows);
        let y = self.y + kt * self.tile_height;
        let rows = self.rows - kt;
        let kb = tiles_trimmed_after(y, rows, bounds.3 as int, self.tile_height);
        TileGridView {
            first_column: self.first_column + kl,
            first_row: self.first_row + kt,
            columns: columns - kr,
            rows: rows - kb,
            x,
            y,
            ..self
        }
    }

    /// The grid after trimming to `bounds`: the dropped tiles also leave the
    /// work queue, the others keep their order in it.
    pub open spec fn trimmed(self, bounds: (i32, i32, i32, i32)) -> TileGridView {
        let extent = self.trimmed_extent(bounds);
        TileGridView { pending: self.pending.filter(queued_in(extent)), ..extent }
    }

    /// The grid after tiles are added on each side until it covers the screen
    /// bounds `(left, top, right, bottom)`, inclusive: first columns on the
    /// left, then rows on top, then columns on the right and rows at the
    /// bottom, each new tile queued as it is added.
    pub open spec fn covering(self, bounds: (i32, i32, i32, i32)) -> TileGridView {
        let kl = tiles_before(self.x, bounds.0 as int, self.tile_width);
        let kt = tiles_before(self.y, bounds.1 as int, self.tile_height);
        let kr = tiles_after(self.x, self.columns, bounds.2 as int, self.tile_width);
        let kb = tiles_after(self.y, self.rows, bounds.3 as int, self.tile_height);
        let first_column = self.first_column - kl;
        let first_row = self.first_row - kt;
        let columns = self.columns + kl;
        let rows = self.rows + kt;
        TileGridView {
            first_column,
            first_row,
            columns: columns + kr,
            rows: rows + kb,
            x: self.x - kl * self.tile_width,
            y: self.y - kt * self.tile_height,
            tile_width: self.tile_width,
            tile_height: self.tile_height,
            pending: self.pending + columns_before(self.first_column, self.first_row, self.rows, kl)
                + rows_above(first_column, self.first_row, columns, kt) + columns_after(
                first_column,
                first_row,
                columns,
                rows,
                kr,
            ) + rows_below(first_column, first_row, columns + kr, rows, kb),
        }
    }
}

/// The tiles of one layer of the canvas, laid out as a rectangular grid.
pub struct TileGrid {
    first: GridCell,
    columns: usize,
    rows: usize,
    screen_position: ScreenPoint,
    tile_width: u32,
    tile_height: u32,
    pending: Vec<QueuedTile>,
}

impl View for TileGrid {
    type V = TileGridView;

    closed spec fn view(&self) -> TileGridView {
        TileGridView {
            first_column: self.first.column as int,
            first_row: self.first.row as int,
            columns: self.columns as int,
            rows: self.rows as int,
            x: self.screen_position.x as int,
            y: self.screen_position.y as int,
            tile_width: self.tile_width as int,
            tile_height: self.tile_height as int,
            pending: self.pending@,
        }
    }
}

/// Whether a grid view is one a layer can be in: at least one tile, tiles
/// drawn at least one pixel wide and high, every quantity representable, and
/// every queued tile one of the grid's tiles.
pub open spec fn valid_grid(v: TileGridView) -> bool {
    &&& v.columns >= 1
    &&& v.rows >= 1
    &&& v.tile_width >= 1
    &&& v.tile_height >= 1
    &&& v.representable()
    &&& forall|i: int| 0 <= i < v.pending.len() ==> v.contains(#[trigger] v.pending[i].cell)
}

/// A valid grid spans fewer than 2^32 pixels, hence fewer than 2^32 tiles,
/// along each axis.
proof fn lemma_extent_bounds(v: TileGridView)
    requires
        v.columns >= 1,
        v.rows >= 1,
        v.tile_width >= 1,
        v.tile_height >= 1,
        v.representable(),
    ensures
        v.columns <= v.columns * v.tile_width <= u32::MAX,
        v.rows <= v.rows * v.tile_height <= u32::MAX,
{
    assert(v.columns <= v.columns * v.tile_width) by (nonlinear_arith)
        requires
            v.columns >= 1,
            v.tile_width >= 1,
    ;
    assert(v.rows <= v.rows * v.tile_height) by (nonlinear_arith)
        requires
            v.rows >= 1,
            v.tile_height >= 1,
    ;
}

/// `k` whole tiles of `size` pixels fit in `n` pixels: `k` is at most `n / size`.
proof fn lemma_tiles_fit(n: int, size: int, k: int)
    requires
        size >= 1,
        0 <= k,
        k * size <= n,
    ensures
        k <= n / size,
{
    lemma_div_is_ordered(k * size, n, size);
    lemma_div_by_multiple(k, size);
}

/// `n` pixels hold `k` whole tiles of `size` pixels and part of no other.
proof fn lemma_tiles_exact(n: int, size: int, k: int)
    requires
        size >= 1,
        k * size <= n < k * size + size,
    ensures
        n / size == k,
{
    lemma_fundamental_div_mod_converse(n, size, k, n - k * size);
}

/// The number of tiles added before a grid is the one that moves its start
/// to `limit` or just past it.
proof fn lemma_tiles_before_is(start: int, limit: int, size: int, i: int)
    requires
        size >= 1,
        i >= 0,
        start - i * size <= limit,
        i > 0 ==> start - i * size + size > limit,
    ensures
        tiles_before(start, limit, size) == i,
{
    if i > 0 {
        assert(i * size >= size) by (nonlinear_arith)
            requires
                i >= 1,
                size >= 1,
        ;
        lemma_tiles_exact(start - limit + size - 1, size, i);
    }
}

/// While a grid still starts after `limit`, another tile is to be added before it.
proof fn lemma_tiles_before_more(start: int, limit: int, size: int, i: int)
    requires
        size >= 1,
        i >= 0,
        start - i * size > limit,
    ensures
        i + 1 <= tiles_before(start, limit, size),
{
    assert(i * size >= 0) by (nonlinear_arith)
        requires
            i >= 0,
            size >= 1,
    ;
    assert((i + 1) * size == i * size + size) by (nonlinear_arith);
    lemma_tiles_fit(start - limit + size - 1, size, i + 1);
}

/// The number of tiles appended after a grid ending (one past its last pixel)
/// at `end` is the one that moves its last pixel to `limit` or just past it.
proof fn lemma_tiles_after_is(start: int, count: int, limit: int, size: int, j: int)
    requires
        size >= 1,
        j >= 0,
        start + count * size + j * size - 1 >= limit,
        j > 0 ==> start + count * size + j * size - size - 1 < limit,
    ensures
        tiles_after(start, count, limit, size) == j,
{
    if j > 0 {
        assert(j * size >= size) by (nonlinear_arith)
            requires
                j >= 1,
                size >= 1,
        ;
        lemma_tiles_exact(limit - (start + count * size - 1) + size - 1, size, j);
    }
}

/// While a grid's last pixel still lies before `limit`, another tile is to be
/// appended.
proof fn lemma_tiles_after_more(start: int, count: int, limit: int, size: int, j: int)
    requires
        size >= 1,
        j >= 0,
        start + count * size + j * size - 1 < limit,
    ensures
        j + 1 <= tiles_after(start, count, limit, size),
{
    assert(j * size >= 0) by (nonlinear_arith)
        requires
            j >= 0,
            size >= 1,
    ;
    assert((j + 1) * size == j * size + size) by (nonlinear_arith);
    lemma_tiles_fit(limit - (start + count * size - 1) + size - 1, size, j + 1);
}

/// Every count of tiles to add or drop is at least zero, and a trim keeps a tile.
proof fn lemma_counts_nonnegative(start: int, count: int, limit: int, size: int)
    requires
        size >= 1,
        count >= 1,
    ensures
        0 <= tiles_before(start, limit, size),
        0 <= tiles_after(start, count, limit, size),
        0 <= tiles_trimmed_before(start, limit, size, count) <= count - 1,
        0 <= tiles_trimmed_after(start, count, limit, size) <= count - 1,
{
    assert(0 * size == 0);
    if start > limit {
        lemma_tiles_fit(start - limit + size - 1, size, 0);
    }
    if start + count * size - 1 < limit {
        lemma_tiles_fit(limit - (start + count * size - 1) + size - 1, size, 0);
    }
    if start + size - 1 < limit {
        lemma_tiles_fit(limit - start, size, 0);
    }
    if start + (count - 1) * size > limit {
        lemma_tiles_fit(start + (count - 1) * size - limit + size - 1, size, 0);
    }
}

/// The number of leading tiles dropped is the one at which the next tile
/// reaches `limit`, or the one that leaves a single tile.
proof fn lemma_trimmed_before_is(start: int, limit: int, size: int, count: int, i: int)
    requires
        size >= 1,
        0 <= i <= count - 1,
        i < count - 1 ==> start + i * size + size - 1 >= limit,
        i > 0 ==> start + i * size <= limit,
    ensures
        tiles_trimmed_before(start, limit, size, count) == i,
{
    assert(0 * size == 0);
    if i == 0 {
        if start + size - 1 < limit {
            lemma_tiles_fit(limit - start, size, 0);
        }
    } else {
        assert(i * size >= size) by (nonlinear_arith)
            requires
                i >= 1,
                size >= 1,
        ;
        lemma_tiles_fit(limit - start, size, i);
        if i < count - 1 {
            lemma_tiles_exact(limit - start, size, i);
        }
    }
}

/// The number of trailing tiles dropped is the one at which the last kept
/// tile starts at or before `limit`, or the one that leaves a single tile.
proof fn lemma_trimmed_after_is(start: int, count: int, limit: int, size: int, j: int)
    requires
        size >= 1,
        0 <= j <= count - 1,
        j < count - 1 ==> start + (count - 1) * size - j * size <= limit,
        j > 0 ==> start + (count - 1) * size - j * size + size > limit,
    ensures
        tiles_trimmed_after(start, count, limit, size) == j,
{
    let last = start + (count - 1) * size;
    assert(0 * size == 0);
    if j == 0 {
        if last > limit {
            lemma_tiles_fit(last - limit + size - 1, size, 0);
        }
    } else {
        assert(j * size >= size) by (nonlinear_arith)
            requires
                j >= 1,
                size >= 1,
        ;
        lemma_tiles_fit(last - limit + size - 1, size, j);
        if j < count - 1 {
            lemma_tiles_exact(last - limit + size - 1, size, j);
        }
    }
}

/// `n` pixels hold `n / size` whole tiles and less than one more.
proof fn lemma_whole_tiles(n: int, size: int)
    requires
        size >= 1,
    ensures
        (n / size) * size <= n < (n / size) * size + size,
{
    lemma_fundamental_div_mod(n, size);
    lemma_mod_bound(n, size);
    assert((n / size) * size == size * (n / size)) by (nonlinear_arith);
}

/// A count of whole tiles is at most the number of pixels.
proof fn lemma_tiles_at_most(n: int, size: int)
    requires
        n >= 0,
        size >= 1,
    ensures
        0 <= n / size <= n,
{
    lemma_whole_tiles(n, size);
    let q = n / size;
    assert(0 <= q <= n) by (nonlinear_arith)
        requires
            q * size <= n < q * size + size,
            n >= 0,
            size >= 1,
    ;
}

/// After the tiles counted by `tiles_before` are added, the grid starts at or
/// before `limit`, and less than a tile before it when any were added.
proof fn lemma_tiles_before_reaches(start: int, limit: int, size: int)
    requires
        size >= 1,
    ensures
        start - tiles_before(start, limit, size) * size <= limit,
        tiles_before(start, limit, size) > 0 ==> start - tiles_before(start, limit, size) * size
            + size > limit,
{
    let k = tiles_before(start, limit, size);
    if start > limit {
        lemma_whole_tiles(start - limit + size - 1, size);
    } else {
        assert(k * size == 0);
    }
}

/// After the tiles counted by `tiles_after` are appended, the grid's last
/// pixel lies at or after `limit`, and less than a tile after it when any
/// were appended.
proof fn lemma_tiles_after_reaches(start: int, count: int, limit: int, size: int)
    requires
        size >= 1,
    ensures
        start + count * size + tiles_after(start, count, limit, size) * size - 1 >= limit,
        tiles_after(start, count, limit, size) > 0 ==> start + count * size + tiles_after(
            start,
            count,
            limit,
            size,
        ) * size - size - 1 < limit,
{
    let k = tiles_after(start, count, limit, size);
    if start + count * size - 1 < limit {
        lemma_whole_tiles(limit - (start + count * size - 1) + size - 1, size);
    } else {
        assert(k * size == 0);
    }
}

/// The leading tiles dropped by a trim all end before `limit`.
proof fn lemma_trimmed_before_outside(start: int, limit: int, size: int, count: int)
    requires
        size >= 1,
        count >= 1,
    ensures
        tiles_trimmed_before(start, limit, size, count) > 0 ==> start + tiles_trimmed_before(
            start,
            limit,
            size,
            count,
        ) * size <= limit,
{
    let k = tiles_trimmed_before(start, limit, size, count);
    if k > 0 {
        let q = (limit - start) / size;
        lemma_whole_tiles(limit - start, size);
        assert(k * size <= q * size) by (nonlinear_arith)
            requires
                k <= q,
                size >= 1,
        ;
    }
}

/// The trailing tiles dropped by a trim all start after `limit`.
proof fn lemma_trimmed_after_outside(start: int, count: int, limit: int, size: int)
    requires
        size >= 1,
        count >= 1,
    ensures
        tiles_trimmed_after(start, count, limit, size) > 0 ==> start + (count - tiles_trimmed_after(
            start,
            count,
            limit,
            size,
        )) * size > limit,
{
    let k = tiles_trimmed_after(start, count, limit, size);
    let last = start + (count - 1) * size;
    if k > 0 {
        let q = (last - limit + size - 1) / size;
        lemma_whole_tiles(last - limit + size - 1, size);
        assert(k * size <= q * size) by (nonlinear_arith)
            requires
                k <= q,
                size >= 1,
        ;
        assert(start + (count - k) * size == last - k * size + size) by (nonlinear_arith)
            requires
                last == start + (count - 1) * size,
        ;
    }
}

/// Where a cell lies when its coordinates fit in `i64`.
pub open spec fn cell_in(cell: GridCell, columns_from: int, columns_to: int, rows_from: int, rows_to: int) -> bool {
    &&& columns_from <= cell.column < columns_to
    &&& rows_from <= cell.row < rows_to
}

proof fn lemma_column_entries_cells(column: int, first_row: int, rows: int, index: int)
    requires
        i64::MIN <= column <= i64::MAX,
        i64::MIN <= first_row,
        0 <= rows,
        first_row + rows <= i64::MAX + 1,
    ensures
        forall|i: int|
            0 <= i < column_entries(column, first_row, rows, index).len() ==> cell_in(
                #[trigger] column_entries(column, first_row, rows, index)[i].cell,
                column,
                column + 1,
                first_row,
                first_row + rows,
            ),
{
}

proof fn lemma_row_entries_cells(first_column: int, row: int, columns: int, index: int)
    requires
        i64::MIN <= row <= i64::MAX,
        i64::MIN <= first_column,
        0 <= columns,
        first_column + columns <= i64::MAX + 1,
    ensures
        forall|i: int|
            0 <= i < row_entries(first_column, row, columns, index).len() ==> cell_in(
                #[trigger] row_entries(first_column, row, columns, index)[i].cell,
                first_column,
                first_column + columns,
                row,
                row + 1,
            ),
{
}

/// The columns added in front of a grid lie just before its first column.
proof fn lemma_columns_before_cells(first_column: int, first_row: int, rows: int, k: int)
    requires
        0 <= k,
        i64::MIN <= first_column - k,
        first_column <= i64::MAX + 1,
        i64::MIN <= first_row,
        0 <= rows,
        first_row + rows <= i64::MAX + 1,
    ensures
        forall|i: int|
            0 <= i < columns_before(first_column, first_row, rows, k).len() ==> cell_in(
                #[trigger] columns_before(first_column, first_row, rows, k)[i].cell,
                first_column - k,
                first_column,
                first_row,
                first_row + rows,
            ),
    decreases k,
{
    if k > 0 {
        lemma_columns_before_cells(first_column, first_row, rows, k - 1);
        lemma_column_entries_cells(first_column - k, first_row, rows, 0);
        let front = columns_before(first_column, first_row, rows, k - 1);
        let back = column_entries(first_column - k, first_row, rows, 0);
        assert forall|i: int|
            0 <= i < columns_before(first_column, first_row, rows, k).len() implies cell_in(
                #[trigger] columns_before(first_column, first_row, rows, k)[i].cell,
                first_column - k,
                first_column,
                first_row,
                first_row + rows,
            ) by {
            if i < front.len() {
                assert(cell_in(front[i].cell, first_column - (k - 1), first_column, first_row, first_row + rows));
            } else {
                assert(cell_in(back[i - front.len()].cell, first_column - k, first_column - k + 1, first_row, first_row + rows));
            }
        }
    }
}

/// The rows added above a grid lie just above its first row.
proof fn lemma_rows_above_cells(first_column: int, first_row: int, columns: int, k: int)
    requires
        0 <= k,
        i64::MIN <= first_row - k,
        first_row <= i64::MAX + 1,
        i64::MIN <= first_column,
        0 <= columns,
        first_column + columns <= i64::MAX + 1,
    ensures
        forall|i: int|
            0 <= i < rows_above(first_column, first_row, columns, k).len() ==> cell_in(
                #[trigger] rows_above(first_column, first_row, columns, k)[i].cell,
                first_column,
                first_column + columns,
                first_row - k,
                first_row,
            ),
    decreases k,
{
    if k > 0 {
        lemma_rows_above_cells(first_column, first_row, columns, k - 1);
        lemma_row_entries_cells(first_column, first_row - k, columns, 0);
        let front = rows_above(first_column, first_row, columns, k - 1);
        let back = row_entries(first_column, first_row - k, columns, 0);
        assert forall|i: int|
            0 <= i < rows_above(first_column, first_row, columns, k).len() implies cell_in(
                #[trigger] rows_above(first_column, first_row, columns, k)[i].cell,
                first_column,
                first_column + columns,
                first_row - k,
                first_row,
            ) by {
            if i < front.len() {
                assert(cell_in(front[i].cell, first_column, first_column + columns, first_row - (k - 1), first_row));
            } else {
                assert(cell_in(back[i - front.len()].cell, first_column, first_column + columns, first_row - k, first_row - k + 1));
            }
        }
    }
}

/// The columns appended to a grid lie just after its last column.
proof fn lemma_columns_after_cells(first_column: int, first_row: int, columns: int, rows: int, k: int)
    requires
        0 <= k,
        0 <= columns,
        i64::MIN <= first_column,
        first_column + columns + k <= i64::MAX + 1,
        i64::MIN <= first_row,
        0 <= rows,
        first_row + rows <= i64::MAX + 1,
    ensures
        forall|i: int|
            0 <= i < columns_after(first_column, first_row, columns, rows, k).len() ==> cell_in(
                #[trigger] columns_after(first_column, first_row, columns, rows, k)[i].cell,
                first_column + columns,
                first_column + columns + k,
                first_row,
                first_row + rows,
            ),
    decreases k,
{
    if k > 0 {
        lemma_columns_after_cells(first_column, first_row, columns, rows, k - 1);
        lemma_column_entries_cells(first_column + columns + k - 1, first_row, rows, columns + k - 1);
        let front = columns_after(first_column, first_row, columns, rows, k - 1);
        let back = column_entries(first_column + columns + k - 1, first_row, rows, columns + k - 1);
        assert forall|i: int|
            0 <= i < columns_after(first_column, first_row, columns, rows, k).len() implies cell_in(
                #[trigger] columns_after(first_column, first_row, columns, rows, k)[i].cell,
                first_column + columns,
                first_column + columns + k,
                first_row,
                first_row + rows,
            ) by {
            if i < front.len() {
                assert(cell_in(front[i].cell, first_column + columns, first_column + columns + k - 1, first_row, first_row + rows));
            } else {
                assert(cell_in(back[i - front.len()].cell, first_column + columns + k - 1, first_column + columns + k, first_row, first_row + rows));
            }
        }
    }
}

/// The rows appended to a grid lie just below its last row.
proof fn lemma_rows_below_cells(first_column: int, first_row: int, columns: int, rows: int, k: int)
    requires
        0 <= k,
        0 <= rows,
        i64::MIN <= first_row,
        first_row + rows + k <= i64::MAX + 1,
        i64::MIN <= first_column,
        0 <= columns,
        first_column + columns <= i64::MAX + 1,
    ensures
        forall|i: int|
            0 <= i < rows_below(first_column, first_row, columns, rows, k).len() ==> cell_in(
                #[trigger] rows_below(first_column, first_row, columns, rows, k)[i].cell,
                first_column,
                first_column + columns,
                first_row + rows,
                first_row + rows + k,
            ),
    decreases k,
{
    if k > 0 {
        lemma_rows_below_cells(first_column, first_row, columns, rows, k - 1);
        lemma_row_entries_cells(first_column, first_row + rows + k - 1, columns, rows + k - 1);
        let front = rows_below(first_column, first_row, columns, rows, k - 1);
        let back = row_entries(first_column, first_row + rows + k - 1, columns, rows + k - 1);
        assert forall|i: int|
            0 <= i < rows_below(first_column, first_row, columns, rows, k).len() implies cell_in(
                #[trigger] rows_below(first_column, first_row, columns, rows, k)[i].cell,
                first_column,
                first_column + columns,
                first_row + rows,
                first_row + rows + k,
            ) by {
            if i < front.len() {
                assert(cell_in(front[i].cell, first_column, first_column + columns, first_row + rows, first_row + rows + k - 1));
            } else {
                assert(cell_in(back[i - front.len()].cell, first_column, first_column + columns, first_row + rows + k - 1, first_row + rows + k));
            }
        }
    }
}

/// Queues one column of `rows` tiles at grid column `column`, as column `index`.
fn queue_column(pending: &mut Vec<QueuedTile>, column: i64, first_row: i64, rows: usize, index: usize)
    requires
        first_row + rows <= i64::MAX + 1,
        rows <= i64::MAX,
    ensures
        final(pending)@ == old(pending)@ + column_entries(
            column as int,
            first_row as int,
            rows as int,
            index as int,
        ),
{
    let ghost start = pending@;
    let mut r: usize = 0;
    while r < rows
        invariant
            r <= rows,
            first_row + rows <= i64::MAX + 1,
            rows <= i64::MAX,
            pending@ == start + column_entries(column as int, first_row as int, r as int, index as int),
        decreases rows - r,
    {
        let entry = QueuedTile { cell: GridCell { column, row: first_row + r as i64 }, row: r, column: index };
        pending.push(entry);
        proof {
            assert(column_entries(column as int, first_row as int, r + 1, index as int) =~= column_entries(
                column as int,
                first_row as int,
                r as int,
                index as int,
            ).push(entry));
        }
        r += 1;
    }
}

/// Queues one row of `columns` tiles at grid row `row`, as row `index`.
fn queue_row(pending: &mut Vec<QueuedTile>, first_column: i64, row: i64, columns: usize, index: usize)
    requires
        first_column + columns <= i64::MAX + 1,
        columns <= i64::MAX,
    ensures
        final(pending)@ == old(pending)@ + row_entries(
            first_column as int,
            row as int,
            columns as int,
            index as int,
        ),
{
    let ghost start = pending@;
    let mut c: usize = 0;
    while c < columns
        invariant
            c <= columns,
            first_column + columns <= i64::MAX + 1,
            columns <= i64::MAX,
            pending@ == start + row_entries(first_column as int, row as int, c as int, index as int),
        decreases columns - c,
    {
        let entry = QueuedTile { cell: GridCell { column: first_column + c as i64, row }, row: index, column: c };
        pending.push(entry);
        proof {
            assert(row_entries(first_column as int, row as int, c + 1, index as int) =~= row_entries(
                first_column as int,
                row as int,
                c as int,
                index as int,
            ).push(entry));
        }
        c += 1;
    }
}

/// Trimming keeps a grid valid: it stays within the old grid on the screen and
/// in the plane, and only tiles that stay in the grid stay queued.
proof fn lemma_trimmed_is_valid(v: TileGridView, bounds: (i32, i32, i32, i32))
    requires
        valid_grid(v),
    ensures
        valid_grid(v.trimmed(bounds)),
        v.trimmed(bounds).x + v.trimmed(bounds).columns * v.tile_width <= v.x + v.columns * v.tile_width,
        v.trimmed(bounds).y + v.trimmed(bounds).rows * v.tile_height <= v.y + v.rows * v.tile_height,
{
    broadcast use vstd::seq_lib::group_filter_ensures;

    let t = v.trimmed(bounds);
    let kl = tiles_trimmed_before(v.x, bounds.0 as int, v.tile_width, v.columns);
    let kt = tiles_trimmed_before(v.y, bounds.1 as int, v.tile_height, v.rows);
    lemma_counts_nonnegative(v.x, v.columns, bounds.0 as int, v.tile_width);
    lemma_counts_nonnegative(v.y, v.rows, bounds.1 as int, v.tile_height);
    let x1 = v.x + kl * v.tile_width;
    let y1 = v.y + kt * v.tile_height;
    lemma_counts_nonnegative(x1, v.columns - kl, bounds.2 as int, v.tile_width);
    lemma_counts_nonnegative(y1, v.rows - kt, bounds.3 as int, v.tile_height);
    let kr = tiles_trimmed_after(x1, v.columns - kl, bounds.2 as int, v.tile_width);
    let kb = tiles_trimmed_after(y1, v.rows - kt, bounds.3 as int, v.tile_height);
    assert(kl * v.tile_width >= 0 && (v.columns - kl - kr) * v.tile_width + kl * v.tile_width
        <= v.columns * v.tile_width) by (nonlinear_arith)
        requires
            0 <= kl,
            0 <= kr,
            v.tile_width >= 1,
    ;
    assert(kt * v.tile_height >= 0 && (v.rows - kt - kb) * v.tile_height + kt * v.tile_height
        <= v.rows * v.tile_height) by (nonlinear_arith)
        requires
            0 <= kt,
            0 <= kb,
            v.tile_height >= 1,
    ;
    assert forall|i: int| 0 <= i < t.pending.len() implies t.contains(#[trigger] t.pending[i].cell) by {
        assert(queued_in(v.trimmed_extent(bounds))(t.pending[i]));
    }
}

impl TileGrid {
    #[verifier::type_invariant]
    closed spec fn well_formed(self) -> bool {
        valid_grid(self@)
    }

    /// A layer holding one tile, cell (0, 0), drawn `tile_width` by
    /// `tile_height` pixels with its top-left pixel at `screen_position`; the
    /// tile is queued at row 0, column 0.
    pub fn new(tile_width: u32, tile_height: u32, screen_position: ScreenPoint) -> (grid: Self)
        requires
            tile_width >= 1,
            tile_height >= 1,
            screen_position.x + tile_width <= i32::MAX,
            screen_position.y + tile_height <= i32::MAX,
        ensures
            grid@ == (TileGridView {
                first_column: 0,
                first_row: 0,
                columns: 1,
                rows: 1,
                x: screen_position.x as int,
                y: screen_position.y as int,
                tile_width: tile_width as int,
                tile_height: tile_height as int,
                pending: seq![QueuedTile { cell: GridCell { column: 0, row: 0 }, row: 0, column: 0 }],
            }),
    {
        let first = GridCell { column: 0, row: 0 };
        let mut pending: Vec<QueuedTile> = Vec::new();
        pending.push(QueuedTile { cell: first, row: 0, column: 0 });
        TileGrid {
            first,
            columns: 1,
            rows: 1,
            screen_position,
            tile_width,
            tile_height,
            pending,
        }
    }

    pub fn row_count(&self) -> (count: usize)
        ensures
            count == self@.rows,
    {
        self.rows
    }

    pub fn column_count(&self) -> (count: usize)
        ensures
            count == self@.columns,
    {
        self.columns
    }

    pub fn screen_position(&self) -> (position: ScreenPoint)
        ensures
            position.x == self@.x,
            position.y == self@.y,
    {
        self.screen_position
    }

    /// The drawn size of one tile in pixels.
    pub fn tile_screen_size(&self) -> (size: (u32, u32))
        ensures
            size.0 == self@.tile_width,
            size.1 == self@.tile_height,
    {
        (self.tile_width, self.tile_height)
    }

    /// The cell at `row`, `column` of the grid, if the grid has one there.
    pub fn tile(&self, row: usize, column: usize) -> (cell: Option<GridCell>)
        ensures
            match cell {
                Some(c) => row < self@.rows && column < self@.columns && c.column == self@.first_column
                    + column && c.row == self@.first_row + row,
                None => row >= self@.rows || column >= self@.columns,
            },
    {
        proof {
            use_type_invariant(self);
            lemma_extent_bounds(self@);
        }
        if row < self.rows && column < self.columns {
            Some(
                GridCell {
                    column: self.first.column + column as i64,
                    row: self.first.row + row as i64,
                },
            )
        } else {
            None
        }
    }

    /// The top-left cell of the grid.
    pub fn corner_tile(&self) -> (cell: Option<GridCell>)
        ensures
            cell == Some(GridCell { column: self@.first_column as i64, row: self@.first_row as i64 }),
    {
        proof {
            use_type_invariant(self);
        }
        self.tile(0, 0)
    }

    /// The cell at half the grid's extent on both axes, rounded down.
    pub fn center_tile(&self) -> (cell: Option<GridCell>)
        ensures
            cell == Some(
                GridCell {
                    column: (self@.first_column + self@.columns / 2) as i64,
                    row: (self@.first_row + self@.rows / 2) as i64,
                },
            ),
    {
        proof {
            use_type_invariant(self);
        }
        self.tile(self.rows / 2, self.columns / 2)
    }

    /// Whether covering `bounds` keeps every quantity of the grid
    /// representable, so that `ensure_screen_coverage` may be called.
    pub fn can_cover(&self, bounds: (i32, i32, i32, i32)) -> (ok: bool)
        ensures
            ok == self@.covering(bounds).representable(),
    {
        proof {
            use_type_invariant(self);
            lemma_extent_bounds(self@);
        }
        let ghost v = self@;
        let (left, top, right, bottom) = bounds;
        let tw = self.tile_width as i128;
        let th = self.tile_height as i128;
        let x = self.screen_position.x as i128;
        let y = self.screen_position.y as i128;
        let columns = self.columns as i128;
        let rows = self.rows as i128;
        proof {
            assert(v.columns * v.tile_width == columns * tw);
            assert(v.rows * v.tile_height == rows * th);
        }
        let right_end = x + columns * tw - 1;
        let bottom_end = y + rows * th - 1;
        let kl: i128 = if x > left as i128 { (x - left as i128 + tw - 1) / tw } else { 0 };
        let kt: i128 = if y > top as i128 { (y - top as i128 + th - 1) / th } else { 0 };
        let kr: i128 = if right_end < right as i128 { (right as i128 - right_end + tw - 1) / tw } else { 0 };
        let kb: i128 = if bottom_end < bottom as i128 { (bottom as i128 - bottom_end + th - 1) / th } else { 0 };
        proof {
            lemma_counts_nonnegative(v.x, v.columns, left as int, v.tile_width);
            lemma_counts_nonnegative(v.y, v.rows, top as int, v.tile_height);
            lemma_counts_nonnegative(v.x, v.columns, right as int, v.tile_width);
            lemma_counts_nonnegative(v.y, v.rows, bottom as int, v.tile_height);
            assert(kl == tiles_before(v.x, left as int, v.tile_width));
            assert(kt == tiles_before(v.y, top as int, v.tile_height));
            assert(kr == tiles_after(v.x, v.columns, right as int, v.tile_width));
            assert(kb == tiles_after(v.y, v.rows, bottom as int, v.tile_height));
            if x > left as i128 {
                lemma_tiles_at_most(x - left + tw - 1, tw as int);
            }
            if y > top as i128 {
                lemma_tiles_at_most(y - top + th - 1, th as int);
            }
            if right_end < right as i128 {
                lemma_tiles_at_most(right - right_end + tw - 1, tw as int);
            }
            if bottom_end < bottom as i128 {
                lemma_tiles_at_most(bottom - bottom_end + th - 1, th as int);
            }
            assert(kl * tw <= 0x3_0000_0000 * 0x1_0000_0000 && kt * th <= 0x3_0000_0000 * 0x1_0000_0000)
                by (nonlinear_arith)
                requires
                    0 <= kl <= 0x3_0000_0000,
                    0 <= kt <= 0x3_0000_0000,
                    1 <= tw <= 0x1_0000_0000,
                    1 <= th <= 0x1_0000_0000,
            ;
        }
        let new_x = x - kl * tw;
        let new_y = y - kt * th;
        let new_columns = columns + kl + kr;
        let new_rows = rows + kt + kb;
        let first_column = self.first.column as i128 - kl;
        let first_row = self.first.row as i128 - kt;
        proof {
            assert(new_columns * tw <= 0x7_0000_0000 * 0x1_0000_0000) by (nonlinear_arith)
                requires
                    0 <= new_columns <= 0x7_0000_0000,
                    0 <= tw <= 0x1_0000_0000,
            ;
            assert(new_rows * th <= 0x7_0000_0000 * 0x1_0000_0000) by (nonlinear_arith)
                requires
                    0 <= new_rows <= 0x7_0000_0000,
                    0 <= th <= 0x1_0000_0000,
            ;
        }
        i32::MIN as i128 <= new_x && new_x + new_columns * tw <= i32::MAX as i128 && i32::MIN as i128
            <= new_y && new_y + new_rows * th <= i32::MAX as i128 && i64::MIN as i128 <= first_column
            && first_column + new_columns <= i64::MAX as i128 && i64::MIN as i128 <= first_row
            && first_row + new_rows <= i64::MAX as i128 && new_columns <= usize::MAX as i128
            && new_rows <= usize::MAX as i128
    }

    /// Adds tiles on every side until the grid covers the screen bounds
    /// `(left, top, right, bottom)`, inclusive, queueing each new tile.
    /// Existing tiles keep their cells and their screen positions.
    pub fn ensure_screen_coverage(&mut self, bounds: (i32, i32, i32, i32))
        requires
            old(self)@.covering(bounds).representable(),
        ensures
            final(self)@ == old(self)@.covering(bounds),
    {
        proof {
            use_type_invariant(&*self);
            lemma_extent_bounds(self@);
        }
        let ghost v = self@;
        let ghost target = v.covering(bounds);
        let (left, top, right, bottom) = bounds;
        let tile_width = self.tile_width;
        let tile_height = self.tile_height;
        let tw = tile_width as i64;
        let th = tile_height as i64;
        let mut pending: Vec<QueuedTile> = Vec::new();
        std::mem::swap(&mut pending, &mut self.pending);
        let first_row0 = self.first.row;
        let rows0 = self.rows;
        let mut x: i64 = self.screen_position.x as i64;
        let mut first_column: i64 = self.first.column;
        let mut columns: usize = self.columns;
        let ghost kl = tiles_before(v.x, left as int, v.tile_width);
        let ghost kt = tiles_before(v.y, top as int, v.tile_height);
        let ghost kr = tiles_after(v.x, v.columns, right as int, v.tile_width);
        let ghost kb = tiles_after(v.y, v.rows, bottom as int, v.tile_height);
        proof {
            lemma_extent_bounds(target);
            lemma_counts_nonnegative(v.x, v.columns, left as int, v.tile_width);
            lemma_counts_nonnegative(v.y, v.rows, top as int, v.tile_height);
            lemma_counts_nonnegative(v.x, v.columns, right as int, v.tile_width);
            lemma_counts_nonnegative(v.y, v.rows, bottom as int, v.tile_height);
        }
        // Columns on the left.
        while x > left as i64
            invariant
                v.columns <= columns <= v.columns + kl,
                kl == tiles_before(v.x, left as int, v.tile_width),
                x == v.x - (columns - v.columns) * v.tile_width,
                first_column == v.first_column - (columns - v.columns),
                columns > v.columns ==> x + v.tile_width > left,
                pending@ == v.pending + columns_before(v.first_column, v.first_row, v.rows, columns - v.columns),
                tw == v.tile_width,
                tw >= 1,
                tw <= u32::MAX,
                left <= i32::MAX,
                rows0 == v.rows,
                first_row0 == v.first_row,
                v.rows <= u32::MAX,
                v.first_row + v.rows <= i64::MAX,
                target.first_column == v.first_column - kl,
                target.columns == v.columns + kl + kr,
                0 <= kr,
                target.representable(),
            decreases if x > left { x - left } else { 0 },
        {
            let ghost i = columns - v.columns;
            proof {
                lemma_tiles_before_more(v.x, left as int, v.tile_width, i);
                assert((i + 1) * v.tile_width == i * v.tile_width + v.tile_width) by (nonlinear_arith);
            }
            x = x - tw;
            first_column = first_column - 1;
            columns = columns + 1;
            queue_column(&mut pending, first_column, first_row0, rows0, 0);
        }
        proof {
            lemma_tiles_before_is(v.x, left as int, v.tile_width, columns - v.columns);
        }
        // Rows on top.
        let mut y: i64 = self.screen_position.y as i64;
        let mut first_row: i64 = first_row0;
        let mut rows: usize = rows0;
        while y > top as i64
            invariant
                v.rows <= rows <= v.rows + kt,
                kt == tiles_before(v.y, top as int, v.tile_height),
                y == v.y - (rows - v.rows) * v.tile_height,
                first_row == v.first_row - (rows - v.rows),
                rows > v.rows ==> y + v.tile_height > top,
                pending@ == v.pending + columns_before(v.first_column, v.first_row, v.rows, kl)
                    + rows_above(v.first_column - kl, v.first_row, v.columns + kl, rows - v.rows),
                th == v.tile_height,
                th >= 1,
                th <= u32::MAX,
                columns == v.columns + kl,
                first_column == v.first_column - kl,
                columns <= u32::MAX,
                first_column + columns <= i64::MAX,
                target.first_row == v.first_row - kt,
                target.rows == v.rows + kt + kb,
                0 <= kb,
                target.representable(),
            decreases if y > top { y - top } else { 0 },
        {
            let ghost i = rows - v.rows;
            proof {
                lemma_tiles_before_more(v.y, top as int, v.tile_height, i);
                assert((i + 1) * v.tile_height == i * v.tile_height + v.tile_height) by (nonlinear_arith);
            }
            y = y - th;
            first_row = first_row - 1;
            rows = rows + 1;
            queue_row(&mut pending, first_column, first_row, columns, 0);
        }
        proof {
            lemma_tiles_before_is(v.y, top as int, v.tile_height, rows - v.rows);
        }
        let ghost c1 = v.first_column - kl;
        let ghost r1 = v.first_row - kt;
        let ghost c_after_left = v.columns + kl;
        let ghost r_after_top = v.rows + kt;
        // Columns on the right; the grid's end does not move while columns are
        // added on the left.
        let mut end: i64 = self.screen_position.x as i64 + self.columns as i64 * tw;
        while end - 1 < right as i64
            invariant
                c_after_left <= columns <= c_after_left + kr,
                kr == tiles_after(v.x, v.columns, right as int, v.tile_width),
                end == v.x + v.columns * v.tile_width + (columns - c_after_left) * v.tile_width,
                columns > c_after_left ==> end - v.tile_width - 1 < right,
                i32::MIN <= end <= i32::MAX + u32::MAX,
                target.columns <= u32::MAX,
                pending@ == v.pending + columns_before(v.first_column, v.first_row, v.rows, kl)
                    + rows_above(c1, v.first_row, c_after_left, kt) + columns_after(
                    c1,
                    r1,
                    c_after_left,
                    r_after_top,
                    columns - c_after_left,
                ),
                tw == v.tile_width,
                tw >= 1,
                tw <= u32::MAX,
                rows == r_after_top,
                first_row == r1,
                first_column == c1,
                rows <= u32::MAX,
                first_row + rows <= i64::MAX,
                target.first_column == c1,
                target.columns == c_after_left + kr,
                target.representable(),
                v.columns * v.tile_width <= u32::MAX,
                i32::MIN <= v.x <= i32::MAX,
            decreases if end <= right { right - end + 1 } else { 0 },
        {
            let ghost j = columns - c_after_left;
            proof {
                lemma_tiles_after_more(v.x, v.columns, right as int, v.tile_width, j);
                assert((j + 1) * v.tile_width == j * v.tile_width + v.tile_width) by (nonlinear_arith);
            }
            queue_column(&mut pending, first_column + columns as i64, first_row, rows, columns);
            columns = columns + 1;
            end = end + tw;
        }
        proof {
            lemma_tiles_after_is(v.x, v.columns, right as int, v.tile_width, columns - c_after_left);
        }
        let ghost c_final = c_after_left + kr;
        // Rows at the bottom.
        let mut bottom_end: i64 = self.screen_position.y as i64 + self.rows as i64 * th;
        while bottom_end - 1 < bottom as i64
            invariant
                r_after_top <= rows <= r_after_top + kb,
                kb == tiles_after(v.y, v.rows, bottom as int, v.tile_height),
                bottom_end == v.y + v.rows * v.tile_height + (rows - r_after_top) * v.tile_height,
                rows > r_after_top ==> bottom_end - v.tile_height - 1 < bottom,
                i32::MIN <= bottom_end <= i32::MAX + u32::MAX,
                target.rows <= u32::MAX,
                pending@ == v.pending + columns_before(v.first_column, v.first_row, v.rows, kl)
                    + rows_above(c1, v.first_row, c_after_left, kt) + columns_after(
                    c1,
                    r1,
                    c_after_left,
                    r_after_top,
                    kr,
                ) + rows_below(c1, r1, c_final, r_after_top, rows - r_after_top),
                th == v.tile_height,
                th >= 1,
                th <= u32::MAX,
                columns == c_final,
                first_row == r1,
                first_column == c1,
                columns <= u32::MAX,
                first_column + columns <= i64::MAX,
                target.first_row == r1,
                target.rows == r_after_top + kb,
                target.representable(),
                v.rows * v.tile_height <= u32::MAX,
                i32::MIN <= v.y <= i32::MAX,
            decreases if bottom_end <= bottom { bottom - bottom_end + 1 } else { 0 },
        {
            let ghost j = rows - r_after_top;
            proof {
                lemma_tiles_after_more(v.y, v.rows, bottom as int, v.tile_height, j);
                assert((j + 1) * v.tile_height == j * v.tile_height + v.tile_height) by (nonlinear_arith);
            }
            queue_row(&mut pending, first_column, first_row + rows as i64, columns, rows);
            rows = rows + 1;
            bottom_end = bottom_end + th;
        }
        proof {
            lemma_tiles_after_is(v.y, v.rows, bottom as int, v.tile_height, rows - r_after_top);
            lemma_columns_before_cells(v.first_column, v.first_row, v.rows, kl);
            lemma_rows_above_cells(c1, v.first_row, c_after_left, kt);
            lemma_columns_after_cells(c1, r1, c_after_left, r_after_top, kr);
            lemma_rows_below_cells(c1, r1, c_final, r_after_top, kb);
            let a = columns_before(v.first_column, v.first_row, v.rows, kl);
            let b = rows_above(c1, v.first_row, c_after_left, kt);
            let c = columns_after(c1, r1, c_after_left, r_after_top, kr);
            let d = rows_below(c1, r1, c_final, r_after_top, kb);
            assert forall|i: int| 0 <= i < pending@.len() implies target.contains(
                #[trigger] pending@[i].cell,
            ) by {
                let n0 = v.pending.len();
                let n1 = n0 + a.len();
                let n2 = n1 + b.len();
                let n3 = n2 + c.len();
                if i < n0 {
                    assert(v.contains(v.pending[i].cell));
                } else if i < n1 {
                    assert(cell_in(a[i - n0].cell, v.first_column - kl, v.first_column, v.first_row, v.first_row + v.rows));
                } else if i < n2 {
                    assert(cell_in(b[i - n1].cell, c1, c1 + c_after_left, v.first_row - kt, v.first_row));
                } else if i < n3 {
                    assert(cell_in(c[i - n2].cell, c1 + c_after_left, c1 + c_after_left + kr, r1, r1 + r_after_top));
                } else {
                    assert(cell_in(d[i - n3].cell, c1, c1 + c_final, r1 + r_after_top, r1 + r_after_top + kb));
                }
            }
        }
        *self = TileGrid {
            first: GridCell { column: first_column, row: first_row },
            columns,
            rows,
            screen_position: ScreenPoint { x: x as i32, y: y as i32 },
            tile_width,
            tile_height,
            pending,
        };
    }

    /// Drops whole columns and rows that lie outside the screen bounds
    /// `(left, top, right, bottom)`, left, right, top and bottom in turn,
    /// always keeping one column and one row; dropped tiles leave the queue.
    pub fn trim_outside_allocation(&mut self, bounds: (i32, i32, i32, i32))
        ensures
            final(self)@ == old(self)@.trimmed(bounds),
    {
        proof {
            use_type_invariant(&*self);
            lemma_extent_bounds(self@);
            lemma_trimmed_is_valid(self@, bounds);
        }
        let ghost v = self@;
        let ghost target = v.trimmed(bounds);
        let (left, top, right, bottom) = bounds;
        let tile_width = self.tile_width;
        let tile_height = self.tile_height;
        let tw = tile_width as i64;
        let th = tile_height as i64;
        let mut pending: Vec<QueuedTile> = Vec::new();
        std::mem::swap(&mut pending, &mut self.pending);
        // Columns on the left.
        let mut x: i64 = self.screen_position.x as i64;
        let mut first_column: i64 = self.first.column;
        let mut columns: usize = self.columns;
        proof {
            assert((v.columns - columns) * v.tile_width == 0) by (nonlinear_arith)
                requires
                    columns == v.columns,
            ;
        }
        while columns > 1 && x + tw - 1 < left as i64
            invariant
                1 <= columns <= v.columns,
                i32::MIN <= x <= i32::MAX,
                x == v.x + (v.columns - columns) * v.tile_width,
                first_column == v.first_column + (v.columns - columns),
                columns < v.columns ==> x <= left,
                tw == v.tile_width,
                1 <= tw <= u32::MAX,
                v.first_column + v.columns <= i64::MAX,
            decreases columns,
        {
            proof {
                let i = v.columns - columns;
                assert((i + 1) * v.tile_width == i * v.tile_width + v.tile_width) by (nonlinear_arith);
            }
            x = x + tw;
            first_column = first_column + 1;
            columns = columns - 1;
        }
        proof {
            lemma_trimmed_before_is(v.x, left as int, v.tile_width, v.columns, v.columns - columns);
        }
        // Columns on the right.
        let ghost x1 = x as int;
        let ghost c1 = columns as int;
        let mut last: i64 = self.screen_position.x as i64 + self.columns as i64 * tw - tw;
        proof {
            let i = v.columns - c1;
            assert(x1 + (c1 - 1) * v.tile_width == v.x + v.columns * v.tile_width - v.tile_width)
                by (nonlinear_arith)
                requires
                    x1 == v.x + i * v.tile_width,
                    c1 == v.columns - i,
            ;
            assert((c1 - columns) * v.tile_width == 0) by (nonlinear_arith)
                requires
                    columns == c1,
            ;
        }
        while columns > 1 && last > right as i64
            invariant
                1 <= columns <= c1,
                last == x1 + (c1 - 1) * v.tile_width - (c1 - columns) * v.tile_width,
                columns < c1 ==> last + v.tile_width > right,
                tw == v.tile_width,
                1 <= tw <= u32::MAX,
            decreases columns,
        {
            proof {
                let j = c1 - columns;
                assert((j + 1) * v.tile_width == j * v.tile_width + v.tile_width) by (nonlinear_arith);
            }
            last = last - tw;
            columns = columns - 1;
        }
        proof {
            lemma_trimmed_after_is(x1, c1, right as int, v.tile_width, c1 - columns);
        }
        // Rows on top.
        let mut y: i64 = self.screen_position.y as i64;
        let mut first_row: i64 = self.first.row;
        let mut rows: usize = self.rows;
        proof {
            assert((v.rows - rows) * v.tile_height == 0) by (nonlinear_arith)
                requires
                    rows == v.rows,
            ;
        }
        while rows > 1 && y + th - 1 < top as i64
            invariant
                1 <= rows <= v.rows,
                i32::MIN <= y <= i32::MAX,
                y == v.y + (v.rows - rows) * v.tile_height,
                first_row == v.first_row + (v.rows - rows),
                rows < v.rows ==> y <= top,
                th == v.tile_height,
                1 <= th <= u32::MAX,
                v.first_row + v.rows <= i64::MAX,
            decreases rows,
        {
            proof {
                let i = v.rows - rows;
                assert((i + 1) * v.tile_height == i * v.tile_height + v.tile_height) by (nonlinear_arith);
            }
            y = y + th;
            first_row = first_row + 1;
            rows = rows - 1;
        }
        proof {
            lemma_trimmed_before_is(v.y, top as int, v.tile_height, v.rows, v.rows - rows);
        }
        // Rows at the bottom.
        let ghost y1 = y as int;
        let ghost r1 = rows as int;
        let mut last_row: i64 = self.screen_position.y as i64 + self.rows as i64 * th - th;
        proof {
            let i = v.rows - r1;
            assert(y1 + (r1 - 1) * v.tile_height == v.y + v.rows * v.tile_height - v.tile_height)
                by (nonlinear_arith)
                requires
                    y1 == v.y + i * v.tile_height,
                    r1 == v.rows - i,
            ;
            assert((r1 - rows) * v.tile_height == 0) by (nonlinear_arith)
                requires
                    rows == r1,
            ;
        }
        while rows > 1 && last_row > bottom as i64
            invariant
                1 <= rows <= r1,
                last_row == y1 + (r1 - 1) * v.tile_height - (r1 - rows) * v.tile_height,
                rows < r1 ==> last_row + v.tile_height > bottom,
                th == v.tile_height,
                1 <= th <= u32::MAX,
            decreases rows,
        {
            proof {
                let j = r1 - rows;
                assert((j + 1) * v.tile_height == j * v.tile_height + v.tile_height) by (nonlinear_arith);
            }
            last_row = last_row - th;
            rows = rows - 1;
        }
        proof {
            lemma_trimmed_after_is(y1, r1, bottom as int, v.tile_height, r1 - rows);
        }
        // Tiles that left the grid leave the queue.
        let ghost extent = v.trimmed_extent(bounds);
        let end_column: i64 = first_column + columns as i64;
        let end_row: i64 = first_row + rows as i64;
        let mut kept: Vec<QueuedTile> = Vec::new();
        let mut i: usize = 0;
        while i < pending.len()
            invariant
                i <= pending@.len(),
                pending@ == v.pending,
                kept@ == v.pending.take(i as int).filter(queued_in(extent)),
                first_column == extent.first_column,
                end_column == extent.first_column + extent.columns,
                first_row == extent.first_row,
                end_row == extent.first_row + extent.rows,
            decreases pending@.len() - i,
        {
            let queued = pending[i];
            proof {
                assert(v.pending.take(i + 1) =~= v.pending.take(i as int).push(queued));
                v.pending.take(i as int).lemma_filter_push(queued, queued_in(extent));
            }
            if first_column <= queued.cell.column && queued.cell.column < end_column && first_row
                <= queued.cell.row && queued.cell.row < end_row {
                kept.push(queued);
            }
            i = i + 1;
        }
        proof {
            assert(v.pending.take(v.pending.len() as int) =~= v.pending);
        }
        *self = TileGrid {
            first: GridCell { column: first_column, row: first_row },
            columns,
            rows,
            screen_position: ScreenPoint { x: x as i32, y: y as i32 },
            tile_width,
            tile_height,
            pending: kept,
        };
    }

    /// The drawn size of the whole grid in pixels.
    pub fn screen_size(&self) -> (size: (u32, u32))
        ensures
            size.0 == self@.columns * self@.tile_width,
            size.1 == self@.rows * self@.tile_height,
    {
        proof {
            use_type_invariant(self);
            lemma_extent_bounds(self@);
        }
        (self.columns as u32 * self.tile_width, self.rows as u32 * self.tile_height)
    }

    /// Whether the grid may be moved to `position`: every pixel of it must
    /// then still have a screen coordinate.
    pub fn can_move_to(&self, position: ScreenPoint) -> (ok: bool)
        ensures
            ok == self@.moved_to(position.x as int, position.y as int).representable(),
    {
        proof {
            use_type_invariant(self);
            lemma_extent_bounds(self@);
        }
        let width = self.columns as i64 * self.tile_width as i64;
        let height = self.rows as i64 * self.tile_height as i64;
        position.x as i64 + width <= i32::MAX as i64 && position.y as i64 + height <= i32::MAX as i64
    }

    /// Moves the grid so that its top-left pixel is at `position`.
    pub fn set_screen_position(&mut self, position: ScreenPoint)
        requires
            old(self)@.moved_to(position.x as int, position.y as int).representable(),
        ensures
            final(self)@ == old(self)@.moved_to(position.x as int, position.y as int),
    {
        proof {
            use_type_invariant(&*self);
        }
        self.screen_position = position;
    }

    /// Whether the grid's tiles may be drawn `tile_width` by `tile_height`
    /// pixels: at least one pixel each, and every pixel of the grid with a
    /// screen coordinate.
    pub fn can_resize_tiles(&self, tile_width: u32, tile_height: u32) -> (ok: bool)
        ensures
            ok == (tile_width >= 1 && tile_height >= 1 && self@.resized_to(
                tile_width as int,
                tile_height as int,
            ).representable()),
    {
        proof {
            use_type_invariant(self);
            lemma_extent_bounds(self@);
        }
        proof {
            assert(self@.columns * tile_width <= u32::MAX * u32::MAX) by (nonlinear_arith)
                requires
                    self@.columns <= u32::MAX,
                    tile_width <= u32::MAX,
            ;
            assert(self@.rows * tile_height <= u32::MAX * u32::MAX) by (nonlinear_arith)
                requires
                    self@.rows <= u32::MAX,
                    tile_height <= u32::MAX,
            ;
        }
        let width = self.columns as i128 * tile_width as i128;
        let height = self.rows as i128 * tile_height as i128;
        tile_width >= 1 && tile_height >= 1 && self.screen_position.x as i128 + width
            <= i32::MAX as i128 && self.screen_position.y as i128 + height <= i32::MAX as i128
    }

    /// Draws the grid's tiles `tile_width` by `tile_height` pixels, as when
    /// the layer's zoom changes; the grid's top-left pixel stays in place.
    pub fn set_tile_screen_size(&mut self, tile_width: u32, tile_height: u32)
        requires
            tile_width >= 1,
            tile_height >= 1,
            old(self)@.resized_to(tile_width as int, tile_height as int).representable(),
        ensures
            final(self)@ == old(self)@.resized_to(tile_width as int, tile_height as int),
    {
        proof {
            use_type_invariant(&*self);
        }
        self.tile_width = tile_width;
        self.tile_height = tile_height;
    }

    /// Takes the oldest queued tile for computing, if any.
    pub fn take_next_tile(&mut self) -> (next: Option<QueuedTile>)
        ensures
            old(self)@.pending.len() == 0 ==> next is None && final(self)@ == old(self)@,
            old(self)@.pending.len() > 0 ==> next == Some(old(self)@.pending[0]) && final(self)@
                == (TileGridView { pending: old(self)@.pending.drop_first(), ..old(self)@ }),
    {
        proof {
            use_type_invariant(&*self);
        }
        if self.pending.len() == 0 {
            return None;
        }
        let mut pending: Vec<QueuedTile> = Vec::new();
        std::mem::swap(&mut pending, &mut self.pending);
        let next = pending.remove(0);
        proof {
            assert(pending@ =~= old(self)@.pending.drop_first());
            assert forall|i: int| 0 <= i < pending@.len() implies self@.contains(
                #[trigger] pending@[i].cell,
            ) by {
                assert(pending@[i] == old(self)@.pending[i + 1]);
            }
        }
        self.pending = pending;
        Some(next)
    }

    /// Marks every tile for computing again: the queue then holds every tile
    /// of the grid, in row-major order, at its current row and column.
    pub fn invalidate_tiles(&mut self)
        ensures
            final(self)@ == (TileGridView { pending: old(self)@.all_entries(), ..old(self)@ }),
    {
        proof {
            use_type_invariant(&*self);
            lemma_extent_bounds(self@);
        }
        let ghost v = self@;
        let mut pending: Vec<QueuedTile> = Vec::new();
        let mut row: usize = 0;
        while row < self.rows
            invariant
                row <= v.rows,
                self@ == v,
                valid_grid(v),
                v.rows <= u32::MAX,
                v.columns <= u32::MAX,
                pending@ == rows_below(v.first_column, v.first_row, v.columns, 0, row as int),
            decreases v.rows - row,
        {
            queue_row(&mut pending, self.first.column, self.first.row + row as i64, self.columns, row);
            row = row + 1;
        }
        proof {
            lemma_rows_below_cells(v.first_column, v.first_row, v.columns, 0, v.rows);
            assert forall|i: int| 0 <= i < pending@.len() implies v.contains(
                #[trigger] pending@[i].cell,
            ) by {
                assert(cell_in(pending@[i].cell, v.first_column, v.first_column + v.columns, v.first_row, v.first_row + v.rows));
            }
        }
        self.pending = pending;
    }

    /// The grid positions of the queued tiles, oldest first, as they were when
    /// each was queued.
    pub fn pending_work_positions(&self) -> (positions: Vec<(usize, usize)>)
        ensures
            positions@.len() == self@.pending.len(),
            forall|i: int|
                0 <= i < positions@.len() ==> #[trigger] positions@[i] == (
                    self@.pending[i].row,
                    self@.pending[i].column,
                ),
    {
        let mut positions: Vec<(usize, usize)> = Vec::new();
        let mut i: usize = 0;
        while i < self.pending.len()
            invariant
                i <= self.pending@.len(),
                positions@.len() == i,
                forall|j: int|
                    0 <= j < i ==> #[trigger] positions@[j] == (
                        self.pending@[j].row,
                        self.pending@[j].column,
                    ),
            decreases self.pending@.len() - i,
        {
            let queued = self.pending[i];
            positions.push((queued.row, queued.column));
            i += 1;
        }
        positions
    }
}

} // verus!

verus! {

/// Once a layer has ensured coverage of some screen bounds, its grid
/// covers them: it starts at or before the left and top bounds and its last
/// pixels lie at or after the right and bottom bounds. It grows by less than
/// one tile past each bound it had to reach.
pub proof fn lemma_covering_covers(v: TileGridView, bounds: (i32, i32, i32, i32))
    requires
        valid_grid(v),
    ensures
        v.covering(bounds).x <= bounds.0,
        v.covering(bounds).y <= bounds.1,
        v.covering(bounds).x + v.covering(bounds).columns * v.tile_width - 1 >= bounds.2,
        v.covering(bounds).y + v.covering(bounds).rows * v.tile_height - 1 >= bounds.3,
        v.covering(bounds).x < v.x ==> v.covering(bounds).x + v.tile_width > bounds.0,
        v.covering(bounds).y < v.y ==> v.covering(bounds).y + v.tile_height > bounds.1,
        v.covering(bounds).x + v.covering(bounds).columns * v.tile_width > v.x + v.columns
            * v.tile_width ==> v.covering(bounds).x + v.covering(bounds).columns * v.tile_width
            - v.tile_width - 1 < bounds.2,
        v.covering(bounds).y + v.covering(bounds).rows * v.tile_height > v.y + v.rows
            * v.tile_height ==> v.covering(bounds).y + v.covering(bounds).rows * v.tile_height
            - v.tile_height - 1 < bounds.3,
{
    let (left, top, right, bottom) = bounds;
    let tw = v.tile_width;
    let th = v.tile_height;
    lemma_counts_nonnegative(v.x, v.columns, left as int, tw);
    lemma_counts_nonnegative(v.y, v.rows, top as int, th);
    lemma_counts_nonnegative(v.x, v.columns, right as int, tw);
    lemma_counts_nonnegative(v.y, v.rows, bottom as int, th);
    lemma_tiles_before_reaches(v.x, left as int, tw);
    lemma_tiles_before_reaches(v.y, top as int, th);
    lemma_tiles_after_reaches(v.x, v.columns, right as int, tw);
    lemma_tiles_after_reaches(v.y, v.rows, bottom as int, th);
    let kl = tiles_before(v.x, left as int, tw);
    let kr = tiles_after(v.x, v.columns, right as int, tw);
    let kt = tiles_before(v.y, top as int, th);
    let kb = tiles_after(v.y, v.rows, bottom as int, th);
    assert((v.x - kl * tw) + (v.columns + kl + kr) * tw == v.x + v.columns * tw + kr * tw)
        by (nonlinear_arith);
    assert((v.y - kt * th) + (v.rows + kt + kb) * th == v.y + v.rows * th + kb * th)
        by (nonlinear_arith);
    assert(kl * tw >= 0 && kt * th >= 0) by (nonlinear_arith)
        requires
            kl >= 0,
            kt >= 0,
            tw >= 1,
            th >= 1,
    ;
    assert(kl == 0 ==> kl * tw == 0) by (nonlinear_arith);
    assert(kt == 0 ==> kt * th == 0) by (nonlinear_arith);
    assert(kr == 0 ==> kr * tw == 0) by (nonlinear_arith);
    assert(kb == 0 ==> kb * th == 0) by (nonlinear_arith);
}

/// Covering keeps every tile the grid had, drawn where it was drawn,
/// and keeps the work queue as it was, adding new tiles only after it.
pub proof fn lemma_covering_keeps_tiles(v: TileGridView, bounds: (i32, i32, i32, i32), cell: GridCell)
    requires
        valid_grid(v),
        v.contains(cell),
    ensures
        v.covering(bounds).contains(cell),
        v.covering(bounds).cell_x(cell) == v.cell_x(cell),
        v.covering(bounds).cell_y(cell) == v.cell_y(cell),
        v.covering(bounds).pending.subrange(0, v.pending.len() as int) == v.pending,
{
    let (left, top, right, bottom) = bounds;
    let tw = v.tile_width;
    let th = v.tile_height;
    lemma_counts_nonnegative(v.x, v.columns, left as int, tw);
    lemma_counts_nonnegative(v.y, v.rows, top as int, th);
    lemma_counts_nonnegative(v.x, v.columns, right as int, tw);
    lemma_counts_nonnegative(v.y, v.rows, bottom as int, th);
    let kl = tiles_before(v.x, left as int, tw);
    let kt = tiles_before(v.y, top as int, th);
    let c = v.covering(bounds);
    assert(c.x + (cell.column - c.first_column) * tw == v.x + (cell.column - v.first_column) * tw)
        by (nonlinear_arith)
        requires
            c.x == v.x - kl * tw,
            c.first_column == v.first_column - kl,
    ;
    assert(c.y + (cell.row - c.first_row) * th == v.y + (cell.row - v.first_row) * th)
        by (nonlinear_arith)
        requires
            c.y == v.y - kt * th,
            c.first_row == v.first_row - kt,
    ;
    assert(c.pending.subrange(0, v.pending.len() as int) =~= v.pending);
}

/// Ensuring coverage of bounds the grid already covers changes nothing,
/// so a second call with the same bounds adds no tile.
pub proof fn lemma_covering_is_idempotent(v: TileGridView, bounds: (i32, i32, i32, i32))
    requires
        valid_grid(v),
    ensures
        v.covering(bounds).covering(bounds) == v.covering(bounds),
{
    let c = v.covering(bounds);
    lemma_covering_covers(v, bounds);
    lemma_counts_nonnegative(v.x, v.columns, bounds.0 as int, v.tile_width);
    lemma_counts_nonnegative(v.y, v.rows, bounds.1 as int, v.tile_height);
    lemma_counts_nonnegative(v.x, v.columns, bounds.2 as int, v.tile_width);
    lemma_counts_nonnegative(v.y, v.rows, bounds.3 as int, v.tile_height);
    assert(tiles_before(c.x, bounds.0 as int, c.tile_width) == 0);
    assert(tiles_before(c.y, bounds.1 as int, c.tile_height) == 0);
    assert(tiles_after(c.x, c.columns, bounds.2 as int, c.tile_width) == 0);
    assert(tiles_after(c.y, c.rows, bounds.3 as int, c.tile_height) == 0);
    assert(0 * c.tile_width == 0 && 0 * c.tile_height == 0);
    assert(c.covering(bounds).pending =~= c.pending);
}

/// Trimming keeps a subset of the grid's tiles, each drawn where it was
/// drawn, and always at least one tile.
pub proof fn lemma_trimming_keeps_tiles(v: TileGridView, bounds: (i32, i32, i32, i32), cell: GridCell)
    requires
        valid_grid(v),
        v.trimmed(bounds).contains(cell),
    ensures
        v.contains(cell),
        v.trimmed(bounds).cell_x(cell) == v.cell_x(cell),
        v.trimmed(bounds).cell_y(cell) == v.cell_y(cell),
        v.trimmed(bounds).columns >= 1,
        v.trimmed(bounds).rows >= 1,
{
    let t = v.trimmed(bounds);
    let tw = v.tile_width;
    let th = v.tile_height;
    let kl = tiles_trimmed_before(v.x, bounds.0 as int, tw, v.columns);
    let kt = tiles_trimmed_before(v.y, bounds.1 as int, th, v.rows);
    lemma_counts_nonnegative(v.x, v.columns, bounds.0 as int, tw);
    lemma_counts_nonnegative(v.y, v.rows, bounds.1 as int, th);
    lemma_counts_nonnegative(v.x + kl * tw, v.columns - kl, bounds.2 as int, tw);
    lemma_counts_nonnegative(v.y + kt * th, v.rows - kt, bounds.3 as int, th);
    assert(t.x + (cell.column - t.first_column) * tw == v.x + (cell.column - v.first_column) * tw)
        by (nonlinear_arith)
        requires
            t.x == v.x + kl * tw,
            t.first_column == v.first_column + kl,
    ;
    assert(t.y + (cell.row - t.first_row) * th == v.y + (cell.row - v.first_row) * th)
        by (nonlinear_arith)
        requires
            t.y == v.y + kt * th,
            t.first_row == v.first_row + kt,
    ;
}

/// Trimming drops only tiles that lie wholly outside the bounds: wholly
/// left of, right of, above or below them.
pub proof fn lemma_trimming_drops_only_outside_tiles(
    v: TileGridView,
    bounds: (i32, i32, i32, i32),
    cell: GridCell,
)
    requires
        valid_grid(v),
        v.contains(cell),
        !v.trimmed(bounds).contains(cell),
    ensures
        v.cell_x(cell) + v.tile_width - 1 < bounds.0 || v.cell_x(cell) > bounds.2 || v.cell_y(cell)
            + v.tile_height - 1 < bounds.1 || v.cell_y(cell) > bounds.3,
{
    let t = v.trimmed(bounds);
    let tw = v.tile_width;
    let th = v.tile_height;
    let kl = tiles_trimmed_before(v.x, bounds.0 as int, tw, v.columns);
    let kt = tiles_trimmed_before(v.y, bounds.1 as int, th, v.rows);
    let x1 = v.x + kl * tw;
    let y1 = v.y + kt * th;
    let c1 = v.columns - kl;
    let r1 = v.rows - kt;
    let kr = tiles_trimmed_after(x1, c1, bounds.2 as int, tw);
    let kb = tiles_trimmed_after(y1, r1, bounds.3 as int, th);
    lemma_counts_nonnegative(v.x, v.columns, bounds.0 as int, tw);
    lemma_counts_nonnegative(v.y, v.rows, bounds.1 as int, th);
    lemma_counts_nonnegative(x1, c1, bounds.2 as int, tw);
    lemma_counts_nonnegative(y1, r1, bounds.3 as int, th);
    lemma_trimmed_before_outside(v.x, bounds.0 as int, tw, v.columns);
    lemma_trimmed_before_outside(v.y, bounds.1 as int, th, v.rows);
    lemma_trimmed_after_outside(x1, c1, bounds.2 as int, tw);
    lemma_trimmed_after_outside(y1, r1, bounds.3 as int, th);
    let d = cell.column - v.first_column;
    let e = cell.row - v.first_row;
    if d < kl {
        assert(v.x + d * tw + tw - 1 < bounds.0) by (nonlinear_arith)
            requires
                0 <= d < kl,
                tw >= 1,
                v.x + kl * tw <= bounds.0,
        ;
    } else if d >= kl + c1 - kr {
        assert(v.x + d * tw > bounds.2) by (nonlinear_arith)
            requires
                d >= kl + c1 - kr,
                tw >= 1,
                kr > 0,
                x1 == v.x + kl * tw,
                x1 + (c1 - kr) * tw > bounds.2,
        ;
    } else if e < kt {
        assert(v.y + e * th + th - 1 < bounds.1) by (nonlinear_arith)
            requires
                0 <= e < kt,
                th >= 1,
                v.y + kt * th <= bounds.1,
        ;
    } else {
        assert(v.y + e * th > bounds.3) by (nonlinear_arith)
            requires
                e >= kt + r1 - kb,
                th >= 1,
                kb > 0,
                y1 == v.y + kt * th,
                y1 + (r1 - kb) * th > bounds.3,
        ;
    }
}

} // verus!
