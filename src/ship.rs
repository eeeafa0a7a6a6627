use vstd::prelude::*;
use crate::grid::{in_board, tile_x, tile_y, BOARD_CELLS};

verus! {

/// Direction in which a ship extends from its anchor tile.
#[derive(Clone, Copy, Debug, PartialEq, Eq, Structural)]
pub enum Orientation {
    /// Towards growing rows.
    Vertical,
    /// Towards growing columns.
    Horizontal,
}

/// Where a ship lies: its anchor tile and the direction it extends in.
#[derive(Clone, Copy, Debug, PartialEq, Eq, Structural)]
pub struct Placement {
    pub x: i32,
    pub y: i32,
    pub orientation: Orientation,
}

impl Placement {
    /// Tile coordinate of the `k`-th cell of a ship placed here.
    pub open spec fn cell_x(self, k: int) -> int {
        if self.orientation == Orientation::Horizontal {
            self.x + k
        } else {
            self.x as int
        }
    }

    pub open spec fn cell_y(self, k: int) -> int {
        if self.orientation == Orientation::Vertical {
            self.y + k
        } else {
            self.y as int
        }
    }

    /// Whether the tile with flat index `t` is one of the first `n` cells of a
    /// ship placed here: a run of tiles in one row or in one column.
    pub open spec fn covers(self, n: int, t: int) -> bool {
        &&& 0 <= t < BOARD_CELLS
        &&& match self.orientation {
            Orientation::Horizontal => tile_y(t) == self.y && self.x <= tile_x(t) < self.x + n,
            Orientation::Vertical => tile_x(t) == self.x && self.y <= tile_y(t) < self.y + n,
        }
    }

    /// Whether all `n` cells of a ship placed here lie on the board.
    pub open spec fn on_board(self, n: int) -> bool {
        &&& n >= 1
        &&& in_board(self.cell_x(0), self.cell_y(0))
        &&& in_board(self.cell_x(n - 1), self.cell_y(n - 1))
    }
}

/// Size and texture region of a ship's sprite, in pixels: the sprite is
/// `width` by `height`, cut from the texture at `(u, v)` with size
/// `uw` by `uh`.
#[derive(Clone, Copy, Debug, PartialEq, Eq, Structural)]
pub struct SpriteFrame {
    pub width: u32,
    pub height: u32,
    pub u: u32,
    pub v: u32,
    pub uw: u32,
    pub uh: u32,
}

/// Number of looks the texture holds for a ship of size class `size`.
pub open spec fn sprite_variants(size: int) -> int {
    if size == 0 {
        4
    } else {
        2
    }
}

/// The sprite of a ship of size class `size` (it covers `size + 1` tiles of
/// 20 pixels) lying in `orientation`, in its look number `variant`.
pub open spec fn frame_of(size: int, orientation: Orientation, variant: int) -> SpriteFrame {
    let long = (20 + 20 * size) as u32;
    if size == 0 {
        SpriteFrame { width: 20, height: 20, u: (20 * variant) as u32, v: 0, uw: 20, uh: 20 }
    } else if orientation == Orientation::Vertical {
        if size == 1 {
            SpriteFrame { width: 20, height: long, u: (40 + 20 * variant) as u32, v: 20, uw: 20, uh: 40 }
        } else if size == 2 {
            SpriteFrame { width: 20, height: long, u: (60 + 20 * variant) as u32, v: 60, uw: 20, uh: 60 }
        } else {
            SpriteFrame { width: 20, height: long, u: 100, v: (80 * variant) as u32, uw: 20, uh: 80 }
        }
    } else {
        if size == 1 {
            SpriteFrame { width: long, height: 20, u: 0, v: (20 + 20 * variant) as u32, uw: 40, uh: 20 }
        } else if size == 2 {
            SpriteFrame { width: long, height: 20, u: 0, v: (60 + 20 * variant) as u32, uw: 60, uh: 20 }
        } else {
            SpriteFrame { width: long, height: 20, u: 0, v: (120 + 20 * variant) as u32, uw: 80, uh: 20 }
        }
    }
}

/// Sprite of a ship, derived from its size class, its orientation and the
/// look picked for it.
pub fn sprite_frame(size: usize, orientation: Orientation, variant: u32) -> (r: SpriteFrame)
    requires
        size < 4,
        variant < sprite_variants(size as int),
    ensures
        r == frame_of(size as int, orientation, variant as int),
{
    let long: u32 = 20 + 20 * size as u32;
    if size == 0 {
        SpriteFrame { width: 20, height: 20, u: 20 * variant, v: 0, uw: 20, uh: 20 }
    } else if orientation == Orientation::Vertical {
        if size == 1 {
            SpriteFrame { width: 20, height: long, u: 40 + 20 * variant, v: 20, uw: 20, uh: 40 }
        } else if size == 2 {
            SpriteFrame { width: 20, height: long, u: 60 + 20 * variant, v: 60, uw: 20, uh: 60 }
        } else {
            SpriteFrame { width: 20, height: long, u: 100, v: 80 * variant, uw: 20, uh: 80 }
        }
    } else {
        if size == 1 {
            SpriteFrame { width: long, height: 20, u: 0, v: 20 + 20 * variant, uw: 40, uh: 20 }
        } else if size == 2 {
            SpriteFrame { width: long, height: 20, u: 0, v: 60 + 20 * variant, uw: 60, uh: 20 }
        } else {
            SpriteFrame { width: long, height: 20, u: 0, v: 120 + 20 * variant, uw: 80, uh: 20 }
        }
    }
}

/// A ship on a board. `index` is its id on that board; the cells that hold
/// it carry that id. `length` is the number of cells it covers, `parts` the
/// number of them not hit yet; `visible` turns true once it has sunk, which is
/// when it gets drawn.
#[derive(Clone, Copy, Debug, PartialEq, Eq, Structural)]
pub struct Ship {
    pub index: i32,
    pub length: i32,
    pub parts: i32,
    pub visible: bool,
    pub placement: Placement,
    pub sprite: SpriteFrame,
}

impl Ship {
    /// The ship after one more of its cells was hit.
    pub open spec fn damaged(self) -> Ship {
        Ship { parts: (self.parts - 1) as i32, visible: self.visible || self.parts - 1 <= 0, ..self }
    }

    /// Whether the ship has sunk.
    pub open spec fn destroyed(self) -> bool {
        self.visible
    }

    /// A fresh ship of `parts` cells, none of them hit.
    pub fn new(index: i32, parts: i32, placement: Placement, sprite: SpriteFrame) -> (r: Ship)
        ensures
            r == (Ship { index, length: parts, parts, visible: false, placement, sprite }),
    {
        Ship { index, length: parts, parts, visible: false, placement, sprite }
    }

    /// Records a hit on one of the ship's cells; returns whether the ship has
    /// now sunk, that is, whether no cell of it is left unhit.
    pub fn damage_ship(&mut self) -> (r: bool)
        requires
            old(self).parts > i32::MIN,
        ensures
            *final(self) == old(self).damaged(),
            r == (final(self).parts <= 0),
    {
        self.parts = self.parts - 1;
        if self.parts <= 0 {
            self.visible = true;
            true
        } else {
            false
        }
    }
}

} // verus!
