use fractal_explorer::geometry::ScreenPoint;
use fractal_explorer::tile_grid::{GridCell, QueuedTile, TileGrid};

/// The complex coordinate of a cell's top-left sample, for a layer whose
/// first tile sits at `origin` with `tile_width` by `tile_height` samples of
/// `delta` each: columns grow right, rows grow down the imaginary axis.
fn cell_coordinate(
    origin: (f64, f64),
    tile_width: u32,
    tile_height: u32,
    delta: f64,
    cell: GridCell,
) -> (f64, f64) {
    (
        origin.0 + cell.column as f64 * tile_width as f64 * delta,
        origin.1 - cell.row as f64 * tile_height as f64 * delta,
    )
}

#[test]
fn tile_layer_enqueues_its_initial_tile_when_created() {
    let layer = TileGrid::new(2, 2, ScreenPoint::new(0, 0));

    assert_eq!(layer.pending_work_positions(), [(0, 0)]);
}

#[test]
fn layer_center_tile_uses_floor_of_half_dimensions() {
    let mut layer = TileGrid::new(2, 2, ScreenPoint::new(0, 0));
    layer.ensure_screen_coverage((0, 0, 3, 3));

    assert_eq!(
        cell_coordinate((0.0, 0.0), 2, 2, 1.0, layer.center_tile().unwrap()),
        (2.0, -2.0)
    );
}

#[test]
fn tile_layer_expands_grid_until_screen_bounds_are_covered() {
    let mut layer = TileGrid::new(2, 2, ScreenPoint::new(4, 4));

    layer.ensure_screen_coverage((0, 0, 7, 7));

    assert_eq!((layer.row_count(), layer.column_count()), (4, 4));
    assert_eq!(layer.screen_position(), ScreenPoint::new(0, 0));
    assert_eq!(layer.tile_screen_size(), (2, 2));
    assert_eq!(
        cell_coordinate((-1.0, 1.0), 2, 2, 1.0, layer.corner_tile().unwrap()),
        (-5.0, 5.0)
    );
}

#[test]
fn tile_layer_removes_tiles_that_are_fully_outside_screen_bounds() {
    let mut layer = TileGrid::new(2, 2, ScreenPoint::new(0, 0));
    layer.ensure_screen_coverage((0, 0, 7, 7));
    layer.set_screen_position(ScreenPoint::new(-8, -8));

    layer.trim_outside_allocation((0, 0, 7, 7));

    assert_eq!((layer.row_count(), layer.column_count()), (1, 1));
    assert_eq!(layer.screen_position(), ScreenPoint::new(-2, -2));
}

#[test]
fn tile_layer_composes_its_initial_tile_without_receiving_one() {
    let layer = TileGrid::new(200, 150, ScreenPoint::new(300, 225));

    assert_eq!((layer.row_count(), layer.column_count()), (1, 1));
    assert_eq!(layer.tile_screen_size(), (200, 150));
    assert_eq!(layer.tile(0, 0), Some(GridCell { column: 0, row: 0 }));
}

#[test]
fn coverage_queues_left_then_top_then_right_then_bottom() {
    let mut layer = TileGrid::new(2, 2, ScreenPoint::new(2, 2));
    assert_eq!(layer.take_next_tile().map(|queued| queued.cell), Some(GridCell { column: 0, row: 0 }));

    layer.ensure_screen_coverage((0, 0, 5, 5));

    assert_eq!((layer.row_count(), layer.column_count()), (3, 3));
    assert_eq!(
        layer.pending_work_positions(),
        [
            // The left column, added while the grid was one row high.
            (0, 0),
            // The top row, two columns wide.
            (0, 0),
            (0, 1),
            // The right column, two rows high.
            (0, 2),
            (1, 2),
            // The bottom row, three columns wide.
            (2, 0),
            (2, 1),
            (2, 2),
        ]
    );
    let first = layer.take_next_tile().unwrap();
    assert_eq!(
        first,
        QueuedTile {
            cell: GridCell { column: -1, row: 0 },
            row: 0,
            column: 0
        }
    );
}

#[test]
fn covering_twice_adds_nothing_the_second_time() {
    let mut layer = TileGrid::new(3, 2, ScreenPoint::new(10, -4));
    layer.ensure_screen_coverage((-5, -9, 30, 12));
    let rows = layer.row_count();
    let columns = layer.column_count();
    let position = layer.screen_position();
    let queued = layer.pending_work_positions();

    layer.ensure_screen_coverage((-5, -9, 30, 12));

    assert_eq!((layer.row_count(), layer.column_count()), (rows, columns));
    assert_eq!(layer.screen_position(), position);
    assert_eq!(layer.pending_work_positions(), queued);
    // The grid reaches every bound, by less than one tile.
    assert!(position.x <= -5 && position.x + 3 > -5);
    assert!(position.y <= -9 && position.y + 2 > -9);
    assert!(position.x + 3 * columns as i32 - 1 >= 30);
    assert!(position.y + 2 * rows as i32 - 1 >= 12);
}

#[test]
fn coverage_keeps_existing_tiles_in_place() {
    let mut layer = TileGrid::new(4, 4, ScreenPoint::new(20, 20));
    layer.ensure_screen_coverage((0, 0, 40, 40));
    let corner = layer.corner_tile().unwrap();
    let position = layer.screen_position();
    // The first tile, cell (0, 0), is still drawn at (20, 20).
    assert_eq!(
        (
            position.x + (0 - corner.column) as i32 * 4,
            position.y + (0 - corner.row) as i32 * 4
        ),
        (20, 20)
    );
}

#[test]
fn trimming_drops_queued_tiles_outside_and_keeps_the_order_of_the_rest() {
    let mut layer = TileGrid::new(2, 2, ScreenPoint::new(4, 4));
    layer.ensure_screen_coverage((0, 0, 7, 7));
    layer.trim_outside_allocation((4, 4, 7, 7));

    assert_eq!((layer.row_count(), layer.column_count()), (2, 2));
    assert_eq!(layer.screen_position(), ScreenPoint::new(4, 4));
    let mut cells = Vec::new();
    while let Some(queued) = layer.take_next_tile() {
        cells.push(queued.cell);
    }
    // Only the cells of the kept 2x2 block stay queued, in their queue order.
    assert_eq!(
        cells,
        [
            GridCell { column: 0, row: 0 },
            GridCell { column: 1, row: 0 },
            GridCell { column: 0, row: 1 },
            GridCell { column: 1, row: 1 },
        ]
    );
}

#[test]
fn trimming_keeps_one_tile_even_when_everything_is_outside() {
    let mut layer = TileGrid::new(2, 2, ScreenPoint::new(0, 0));
    layer.ensure_screen_coverage((0, 0, 5, 5));
    layer.trim_outside_allocation((100, 100, 200, 200));

    assert_eq!((layer.row_count(), layer.column_count()), (1, 1));
    assert_eq!(layer.screen_position(), ScreenPoint::new(4, 4));
}

#[test]
fn invalidating_requeues_every_tile_in_row_major_order() {
    let mut layer = TileGrid::new(2, 2, ScreenPoint::new(0, 0));
    layer.ensure_screen_coverage((0, 0, 3, 5));
    while layer.take_next_tile().is_some() {}

    layer.invalidate_tiles();

    assert_eq!(
        layer.pending_work_positions(),
        [(0, 0), (0, 1), (1, 0), (1, 1), (2, 0), (2, 1)]
    );
}

#[test]
fn screen_size_is_the_tile_size_times_the_grid_extent() {
    let mut layer = TileGrid::new(3, 5, ScreenPoint::new(0, 0));
    layer.ensure_screen_coverage((0, 0, 8, 9));
    assert_eq!(layer.screen_size(), (9, 10));
    assert!(layer.can_resize_tiles(6, 10));
    layer.set_tile_screen_size(6, 10);
    assert_eq!(layer.screen_size(), (18, 20));
    assert!(!layer.can_resize_tiles(0, 10));
    assert!(!layer.can_move_to(ScreenPoint::new(i32::MAX - 10, 0)));
    assert!(layer.can_move_to(ScreenPoint::new(-100, 50)));
}

#[test]
fn coverage_is_refused_only_past_the_screen_coordinate_range() {
    let layer = TileGrid::new(3, 3, ScreenPoint::new(0, 0));
    assert!(layer.can_cover((0, 0, 7, 7)));
    assert!(layer.can_cover((-300, -300, 300, 300)));
    // Reaching i32::MIN in whole tiles of three pixels would start the grid
    // before the first representable pixel.
    assert!(!layer.can_cover((i32::MIN, 0, 0, 0)));
    assert!(!layer.can_cover((0, 0, 0, i32::MAX)));
}
