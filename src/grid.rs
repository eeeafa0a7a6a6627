use vstd::prelude::*;

verus! {

/// Width and height of a board, in tiles.
pub const BOARD_SIZE: usize = 12;

/// Number of tiles on a board.
pub const BOARD_CELLS: usize = 144;

/// Whether the tile coordinate `(x, y)` lies on the board.
pub open spec fn in_board(x: int, y: int) -> bool {
    0 <= x < BOARD_SIZE && 0 <= y < BOARD_SIZE
}

/// Flat index of the tile at `(x, y)`: rows are stored one after the other.
pub open spec fn tile_index(x: int, y: int) -> int {
    x + y * BOARD_SIZE
}

/// Column of the tile with flat index `t`.
pub open spec fn tile_x(t: int) -> int {
    t % (BOARD_SIZE as int)
}

/// Row of the tile with flat index `t`.
pub open spec fn tile_y(t: int) -> int {
    t / (BOARD_SIZE as int)
}

/// The flat index of an on-board coordinate gives the coordinate back.
pub proof fn lemma_tile_coords(x: int, y: int)
    requires
        in_board(x, y),
    ensures
        0 <= tile_index(x, y) < BOARD_CELLS,
        tile_x(tile_index(x, y)) == x,
        tile_y(tile_index(x, y)) == y,
{
    assert((x + y * 12) % 12 == x && (x + y * 12) / 12 == y) by (nonlinear_arith)
        requires
            0 <= x < 12,
            0 <= y < 12,
    ;
}

/// A flat index on the board splits into an on-board coordinate.
pub proof fn lemma_tile_split(t: int)
    requires
        0 <= t < BOARD_CELLS,
    ensures
        in_board(tile_x(t), tile_y(t)),
        tile_index(tile_x(t), tile_y(t)) == t,
{
    assert(0 <= t % 12 < 12 && 0 <= t / 12 < 12 && t % 12 + (t / 12) * 12 == t) by (nonlinear_arith)
        requires
            0 <= t < 144,
    ;
}

/// Flat index of the tile at `(x, y)`; the caller checks that it lies on the board.
pub fn get_tile_pos(x: i32, y: i32) -> (r: usize)
    requires
        in_board(x as int, y as int),
    ensures
        r == tile_index(x as int, y as int),
        r < BOARD_CELLS,
{
    let width: i32 = BOARD_SIZE as i32;
    assert(0 <= y * width <= 11 * 12) by (nonlinear_arith)
        requires
            0 <= y < 12,
            width == 12,
    ;
    (x + y * width) as usize
}

/// Column of a tile.
pub fn find_x_base_on_tile(tile: usize) -> (r: usize)
    ensures
        r == tile_x(tile as int),
{
    tile % BOARD_SIZE
}

/// Row of a tile.
pub fn find_y_base_on_tile(tile: usize) -> (r: usize)
    ensures
        r == tile_y(tile as int),
{
    tile / BOARD_SIZE
}

} // verus!
