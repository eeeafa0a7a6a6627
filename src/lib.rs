//! Rules of a two-player hot-seat Battleship game: the grid geometry, the
//! ship placement engine, the board state machine that resolves shots, and
//! the match controller that hands the turn from one player to the other.
//! Drawing, windowing and input polling live outside this crate; it hands
//! them plain values.

pub mod anim_icon;
pub mod board;
pub mod game;
pub mod grid;
pub mod input;
pub mod placement;
mod random;
pub mod resolve;
pub mod ship;
pub mod turn;

pub use anim_icon::{Animation, FRAME_MILLIS};
pub use board::{Board, BoardType};
pub use game::GameBoard;
pub use grid::{find_x_base_on_tile, find_y_base_on_tile, get_tile_pos, BOARD_CELLS, BOARD_SIZE};
pub use input::ClickLatch;
pub use resolve::HitOutcome;
pub use ship::{sprite_frame, Orientation, Placement, Ship, SpriteFrame};
