use vstd::prelude::*;
use crate::board::{
    anchor, choose_placement, no_room, count_of, counts_after_placing, fits, fresh_ship, has_ship,
    is_candidate, lemma_count_absent, lemma_count_update, owner, placed, ship_ok, Board,
    BoardType,
};
use crate::grid::{
    find_x_base_on_tile, find_y_base_on_tile, get_tile_pos, in_board, lemma_tile_coords,
    lemma_tile_split, tile_index, tile_x, tile_y, BOARD_CELLS, BOARD_SIZE,
};
use crate::game::{alive_count, counters_match, lemma_alive_push, GameBoard};
use crate::random::random_below;
use crate::ship::{sprite_frame, sprite_variants, Orientation, Placement, Ship};

verus! {

/// A tile covered by a placement that fits holds open water.
pub proof fn lemma_covered_is_open(cells: Seq<BoardType>, p: Placement, size: int, t: int)
    requires
        cells.len() == BOARD_CELLS,
        fits(cells, p, size),
        p.covers(size + 1, t),
    ensures
        cells[t] == BoardType::Empty,
{
    lemma_tile_split(t);
    let k = if p.orientation == Orientation::Horizontal {
        tile_x(t) - p.x
    } else {
        tile_y(t) - p.y
    };
    assert(p.cell_x(k) == tile_x(t) && p.cell_y(k) == tile_y(t));
}

/// A placement written over open water with an id that no tile carries yet
/// gives that id exactly one straight run of `size + 1` tiles, in one row or
/// one column, and leaves every other tile, so every other ship's run, as it
/// was.
pub proof fn lemma_placed_run(cells: Seq<BoardType>, index: i32, p: Placement, size: int)
    requires
        cells.len() == BOARD_CELLS,
        fits(cells, p, size),
        forall|t: int| 0 <= t < BOARD_CELLS ==> owner(cells[t]) != Some(index),
    ensures
        forall|t: int|
            0 <= t < BOARD_CELLS ==> (owner(#[trigger] placed(cells, index, p, size)[t]) == Some(
                index,
            ) <==> p.covers(size + 1, t)),
        forall|t: int|
            0 <= t < BOARD_CELLS && !p.covers(size + 1, t) ==> #[trigger] placed(
                cells,
                index,
                p,
                size,
            )[t] == cells[t],
        forall|t: int|
            0 <= t < BOARD_CELLS && p.covers(size + 1, t) ==> cells[t] == BoardType::Empty,
{
    assert forall|t: int| 0 <= t < BOARD_CELLS && p.covers(size + 1, t) implies cells[t]
        == BoardType::Empty by {
        lemma_covered_is_open(cells, p, size, t);
    }
}

/// Tiles that only turn from open water into something else never make room
/// for a ship: where no ship of size class `size` fits before, none fits after.
pub proof fn lemma_no_room_stays(before: Seq<BoardType>, after: Seq<BoardType>, size: int)
    requires
        before.len() == BOARD_CELLS,
        after.len() == BOARD_CELLS,
        forall|t: int| 0 <= t < BOARD_CELLS && after[t] == BoardType::Empty ==> before[t] == BoardType::Empty,
        no_room(before, size),
    ensures
        no_room(after, size),
{
    assert forall|t: int| 0 <= t < BOARD_CELLS implies !is_candidate(after, t, size) by {
        assert forall|p: Placement| fits(after, p, size) implies fits(before, p, size) by {
            assert forall|k: int| 0 <= k <= size implies {
                &&& in_board(#[trigger] p.cell_x(k), p.cell_y(k))
                &&& before[tile_index(p.cell_x(k), p.cell_y(k))] == BoardType::Empty
            } by {
                lemma_tile_coords(p.cell_x(k), p.cell_y(k));
            }
        }
        assert(!is_candidate(before, t, size));
    }
}

impl Board {
    /// Whether a ship of size class `size` placed at `p` lies on the board
    /// over open water only.
    fn fits_at(&self, p: Placement, size: usize) -> (r: bool)
        requires
            self.data@.len() == BOARD_CELLS,
        ensures
            r == fits(self.data@, p, size as int),
    {
        let step_x: i64 = if p.orientation == Orientation::Horizontal {
            1
        } else {
            0
        };
        let step_y: i64 = if p.orientation == Orientation::Vertical {
            1
        } else {
            0
        };
        let mut k: usize = 0;
        loop
            invariant
                k <= size,
                k <= BOARD_SIZE,
                self.data@.len() == BOARD_CELLS,
                step_x == (if p.orientation == Orientation::Horizontal {
                    1int
                } else {
                    0int
                }),
                step_y == (if p.orientation == Orientation::Vertical {
                    1int
                } else {
                    0int
                }),
                forall|j: int|
                    0 <= j < k ==> {
                        &&& in_board(#[trigger] p.cell_x(j), p.cell_y(j))
                        &&& self.data@[tile_index(p.cell_x(j), p.cell_y(j))] == BoardType::Empty
                    },
            decreases size - k,
        {
            let cx: i64 = p.x as i64 + step_x * k as i64;
            let cy: i64 = p.y as i64 + step_y * k as i64;
            assert(cx == p.cell_x(k as int) && cy == p.cell_y(k as int));
            if !(0 <= cx && cx < BOARD_SIZE as i64 && 0 <= cy && cy < BOARD_SIZE as i64) {
                return false;
            }
            let tile = get_tile_pos(cx as i32, cy as i32);
            if self.data[tile] != BoardType::Empty {
                return false;
            }
            if k == size {
                return true;
            }
            assert(k < BOARD_SIZE) by {
                if k > 0 {
                    assert(in_board(p.cell_x(0), p.cell_y(0)));
                }
            }
            k += 1;
        }
    }

    /// Whether a ship of size class `size` fits going down from `(x, y)`.
    pub fn check_vertical(&self, x: i32, y: i32, size: usize) -> (r: bool)
        requires
            self.data@.len() == BOARD_CELLS,
        ensures
            r == fits(self.data@, Placement { x, y, orientation: Orientation::Vertical }, size as int),
    {
        self.fits_at(Placement { x, y, orientation: Orientation::Vertical }, size)
    }

    /// Whether a ship of size class `size` fits going right from `(x, y)`.
    pub fn check_horizontal(&self, x: i32, y: i32, size: usize) -> (r: bool)
        requires
            self.data@.len() == BOARD_CELLS,
        ensures
            r == fits(
                self.data@,
                Placement { x, y, orientation: Orientation::Horizontal },
                size as int,
            ),
    {
        self.fits_at(Placement { x, y, orientation: Orientation::Horizontal }, size)
    }

    /// All tiles from which a ship of size class `size` can start, in
    /// increasing order.
    pub fn calculate_available_tile(&self, size: usize) -> (r: Vec<i32>)
        requires
            self.data@.len() == BOARD_CELLS,
        ensures
            forall|j: int|
                0 <= j < r@.len() ==> 0 <= r@[j] < BOARD_CELLS && is_candidate(
                    self.data@,
                    r@[j] as int,
                    size as int,
                ),
            forall|j: int, l: int| 0 <= j < l < r@.len() ==> r@[j] < r@[l],
            forall|t: int|
                0 <= t < BOARD_CELLS && is_candidate(self.data@, t, size as int) ==> r@.contains(
                    t as i32,
                ),
    {
        let mut available_space: Vec<i32> = Vec::new();
        let mut i: usize = 0;
        while i < self.data.len()
            invariant
                i <= self.data@.len() == BOARD_CELLS,
                forall|j: int|
                    0 <= j < available_space@.len() ==> 0 <= available_space@[j] < i
                        && is_candidate(self.data@, available_space@[j] as int, size as int),
                forall|j: int, l: int|
                    0 <= j < l < available_space@.len() ==> available_space@[j]
                        < available_space@[l],
                forall|t: int|
                    0 <= t < i && is_candidate(self.data@, t, size as int)
                        ==> available_space@.contains(t as i32),
            decreases self.data@.len() - i,
        {
            let ghost seen = available_space@;
            if self.data[i] == BoardType::Empty {
                let x = find_x_base_on_tile(i);
                let y = find_y_base_on_tile(i);
                proof {
                    lemma_tile_split(i as int);
                }
                let mut add_block = self.check_horizontal(x as i32, y as i32, size);
                if !add_block {
                    add_block = self.check_vertical(x as i32, y as i32, size);
                }
                if add_block {
                    available_space.push(i as i32);
                    proof {
                        let last = available_space@.len() - 1;
                        assert(available_space@[last] == i as i32);
                    }
                }
            }
            proof {
                assert forall|t: int|
                    0 <= t < i + 1 && is_candidate(self.data@, t, size as int)
                        implies available_space@.contains(t as i32) by {
                    if t == i {
                        assert(available_space@[available_space@.len() - 1] == i as i32);
                    } else {
                        let j = choose|j: int| 0 <= j < seen.len() && seen[j] == t as i32;
                        assert(available_space@[j] == t as i32);
                    }
                }
            }
            i += 1;
        }
        available_space
    }

    /// Writes the id `index` over the `size + 1` tiles of `p`, all open water.
    fn commit(&mut self, index: i32, p: Placement, size: usize)
        requires
            old(self).data@.len() == BOARD_CELLS,
            fits(old(self).data@, p, size as int),
        ensures
            final(self).data@ == placed(old(self).data@, index, p, size as int),
            counts_after_placing(old(self).data@, final(self).data@, index, size + 1),
            final(self).ship == old(self).ship,
    {
        let ghost before = self.data@;
        proof {
            assert(in_board(p.cell_x(0), p.cell_y(0)));
            assert(in_board(p.cell_x(size as int), p.cell_y(size as int)));
        }
        let step_x: i32 = if p.orientation == Orientation::Horizontal {
            1
        } else {
            0
        };
        let step_y: i32 = if p.orientation == Orientation::Vertical {
            1
        } else {
            0
        };
        let mut s: usize = 0;
        while s <= size
            invariant
                s <= size + 1,
                size < BOARD_SIZE,
                self.data@.len() == BOARD_CELLS,
                before.len() == BOARD_CELLS,
                fits(before, p, size as int),
                self.ship == old(self).ship,
                before == old(self).data@,
                step_x == (if p.orientation == Orientation::Horizontal {
                    1int
                } else {
                    0int
                }),
                step_y == (if p.orientation == Orientation::Vertical {
                    1int
                } else {
                    0int
                }),
                forall|t: int|
                    0 <= t < BOARD_CELLS ==> self.data@[t] == if p.covers(s as int, t) {
                        BoardType::Ship(index)
                    } else {
                        before[t]
                    },
                counts_after_placing(before, self.data@, index, s as int),
            decreases size + 1 - s,
        {
            assert(in_board(p.cell_x(s as int), p.cell_y(s as int)));
            let cx = p.x + step_x * s as i32;
            let cy = p.y + step_y * s as i32;
            assert(cx == p.cell_x(s as int) && cy == p.cell_y(s as int));
            let tile = get_tile_pos(cx, cy);
            proof {
                lemma_tile_coords(cx as int, cy as int);
                assert(!p.covers(s as int, tile as int));
                assert(self.data@[tile as int] == BoardType::Empty);
            }
            let ghost mid = self.data@;
            self.data[tile] = BoardType::Ship(index);
            proof {
                assert forall|c: BoardType| #[trigger]
                    count_of(self.data@, c) == count_of(mid, c) - (if c == BoardType::Empty {
                        1int
                    } else {
                        0int
                    }) + (if c == BoardType::Ship(index) {
                        1int
                    } else {
                        0int
                    }) by {
                    lemma_count_update(mid, tile as int, BoardType::Ship(index), c);
                }
                assert(count_of(self.data@, BoardType::Ship(index)) == count_of(
                    mid,
                    BoardType::Ship(index),
                ) + 1);
                assert(count_of(self.data@, BoardType::Empty) == count_of(mid, BoardType::Empty)
                    - 1);
                assert forall|t: int| 0 <= t < BOARD_CELLS implies self.data@[t] == if p.covers(
                    s as int + 1,
                    t,
                ) {
                    BoardType::Ship(index)
                } else {
                    before[t]
                } by {
                    lemma_tile_split(t);
                    if t != tile as int {
                        assert(p.covers(s as int + 1, t) == p.covers(s as int, t));
                    }
                }
            }
            s += 1;
        }
        assert(self.data@ =~= placed(before, index, p, size as int));
    }

    /// Places the ship with id `index` and size class `size` at tile `tile`,
    /// trying the preferred orientation first and the other one next.
    /// Returns the placement used, or `None`, leaving the board as it was,
    /// when the ship fits neither way.
    pub fn place_at(&mut self, index: i32, size: usize, tile: usize, prefer_vertical: bool) -> (r:
        Option<Placement>)
        requires
            old(self).data@.len() == BOARD_CELLS,
            tile < BOARD_CELLS,
        ensures
            r == choose_placement(old(self).data@, tile as int, size as int, prefer_vertical),
            final(self).ship == old(self).ship,
            match r {
                Some(p) => {
                    &&& fits(old(self).data@, p, size as int)
                    &&& final(self).data@ == placed(old(self).data@, index, p, size as int)
                    &&& counts_after_placing(old(self).data@, final(self).data@, index, size + 1)
                },
                None => final(self).data == old(self).data,
            },
    {
        let x = find_x_base_on_tile(tile) as i32;
        let y = find_y_base_on_tile(tile) as i32;
        proof {
            lemma_tile_split(tile as int);
        }
        let vertical = Placement { x, y, orientation: Orientation::Vertical };
        let horizontal = Placement { x, y, orientation: Orientation::Horizontal };
        assert(vertical == anchor(tile as int, Orientation::Vertical));
        assert(horizontal == anchor(tile as int, Orientation::Horizontal));
        let chosen = if prefer_vertical {
            if self.fits_at(vertical, size) {
                Some(vertical)
            } else if self.fits_at(horizontal, size) {
                Some(horizontal)
            } else {
                None
            }
        } else {
            if self.fits_at(horizontal, size) {
                Some(horizontal)
            } else if self.fits_at(vertical, size) {
                Some(vertical)
            } else {
                None
            }
        };
        if let Some(p) = chosen {
            self.commit(index, p, size);
        }
        chosen
    }

    /// Writes the ship with id `index` and size class `size` at a random legal
    /// place: a tile drawn uniformly among those from which it fits, and a
    /// preferred orientation drawn by a coin flip. Returns `None`, leaving the
    /// board as it was, exactly when the ship fits nowhere. Only the tiles
    /// change; the ship list is left to the caller.
    pub fn try_place_ship(&mut self, index: i32, size: usize) -> (r: Option<Placement>)
        requires
            old(self).data@.len() == BOARD_CELLS,
        ensures
            r is None <==> no_room(old(self).data@, size as int),
            final(self).ship == old(self).ship,
            match r {
                Some(p) => {
                    &&& fits(old(self).data@, p, size as int)
                    &&& final(self).data@ == placed(old(self).data@, index, p, size as int)
                    &&& counts_after_placing(old(self).data@, final(self).data@, index, size + 1)
                },
                None => final(self).data == old(self).data,
            },
    {
        let available_space = self.calculate_available_tile(size);
        if available_space.len() == 0 {
            proof {
                assert forall|t: int|
                    0 <= t < BOARD_CELLS implies !is_candidate(self.data@, t, size as int) by {
                    if is_candidate(self.data@, t, size as int) {
                        assert(available_space@.contains(t as i32));
                    }
                }
            }
            return None;
        }
        let slot = random_below(available_space.len());
        let tile = available_space[slot] as usize;
        let prefer_vertical = random_below(2) == 1;
        proof {
            assert(is_candidate(self.data@, tile as int, size as int));
            lemma_tile_split(tile as int);
            assert(anchor(tile as int, Orientation::Vertical).x == tile_x(tile as int));
        }
        let r = self.place_at(index, size, tile, prefer_vertical);
        assert(r is Some);
        r
    }

    /// Adds to the ship list the ship whose tiles were just written at `p`,
    /// which makes the board well-formed again.
    fn register_ship(
        &mut self,
        index: i32,
        size: usize,
        p: Placement,
        variant: u32,
        Ghost(before): Ghost<Board>,
    )
        requires
            before.wf(),
            size < 4,
            variant < sprite_variants(size as int),
            !has_ship(before.ship@, index),
            fits(before.data@, p, size as int),
            old(self).data@ == placed(before.data@, index, p, size as int),
            counts_after_placing(before.data@, old(self).data@, index, size + 1),
            old(self).ship@ == before.ship@,
        ensures
            final(self).wf(),
            final(self).data == old(self).data,
            final(self).ship@ == before.ship@.push(
                fresh_ship(index, size as int, p, variant as int),
            ),
    {
        let sprite = sprite_frame(size, p.orientation, variant);
        let ship = Ship::new(index, (size + 1) as i32, p, sprite);
        self.ship.push(ship);
        proof {
            let old_cells = before.data@;
            let cells = self.data@;
            let ships = self.ship@;
            let n = before.ship@.len();
            assert(ships[n as int] == fresh_ship(index, size as int, p, variant as int));
            assert forall|t: int| 0 <= t < old_cells.len() implies owner(old_cells[t]) != Some(
                index,
            ) by {
                if owner(old_cells[t]) == Some(index) {
                    assert(has_ship(before.ship@, owner(old_cells[t]).unwrap()));
                }
            }
            lemma_count_absent(old_cells, BoardType::Ship(index));
            lemma_count_absent(old_cells, BoardType::Hit(index));
            assert forall|t: int| 0 <= t < cells.len() implies (owner(cells[t]) == if p.covers(
                size + 1,
                t,
            ) {
                Some(index)
            } else {
                owner(old_cells[t])
            }) && (p.covers(size + 1, t) ==> owner(old_cells[t]).is_none()) by {
                if p.covers(size + 1, t) {
                    lemma_covered_is_open(old_cells, p, size as int, t);
                }
            }
            assert(in_board(p.cell_x(0), p.cell_y(0)));
            assert(in_board(p.cell_x(size as int), p.cell_y(size as int)));
            assert forall|k: int| 0 <= k < ships.len() implies ship_ok(cells, #[trigger] ships[k]) by {
                if k < n {
                    let s = ships[k];
                    assert(ship_ok(old_cells, before.ship@[k]));
                    assert(s.index != index);
                    assert(count_of(cells, BoardType::Ship(s.index)) == count_of(
                        old_cells,
                        BoardType::Ship(s.index),
                    ));
                    assert(count_of(cells, BoardType::Hit(s.index)) == count_of(
                        old_cells,
                        BoardType::Hit(s.index),
                    ));
                } else {
                    assert(count_of(cells, BoardType::Hit(index)) == count_of(
                        old_cells,
                        BoardType::Hit(index),
                    ));
                }
            }
            assert forall|i: int, j: int|
                0 <= i < j < ships.len() implies (#[trigger] ships[i]).index != (
                #[trigger] ships[j]).index by {
                if j == n {
                    assert(before.ship@[i].index != index);
                } else {
                    assert(before.ship@[i] == ships[i] && before.ship@[j] == ships[j]);
                }
            }
            assert forall|t: int|
                0 <= t < cells.len() && (#[trigger] owner(cells[t])).is_some() implies has_ship(
                ships,
                owner(cells[t]).unwrap(),
            ) by {
                if p.covers(size + 1, t) {
                    assert(ships[n as int].index == index);
                } else {
                    assert(has_ship(before.ship@, owner(old_cells[t]).unwrap()));
                    let k = choose|k: int|
                        0 <= k < n && (#[trigger] before.ship@[k]).index == owner(
                            old_cells[t],
                        ).unwrap();
                    assert(ships[k] == before.ship@[k]);
                }
            }
        }
    }

    /// Places the ship with id `index` and size class `size` at tile `tile`,
    /// trying the preferred orientation first, and adds it to the ship list
    /// in its look number `variant`. Returns whether it fitted either way;
    /// when it did not, the board is left as it was.
    pub fn place_ship_at(
        &mut self,
        size: usize,
        index: i32,
        tile: usize,
        prefer_vertical: bool,
        variant: u32,
    ) -> (r: bool)
        requires
            old(self).wf(),
            size < 4,
            tile < BOARD_CELLS,
            variant < sprite_variants(size as int),
            !has_ship(old(self).ship@, index),
        ensures
            final(self).wf(),
            r == choose_placement(old(self).data@, tile as int, size as int, prefer_vertical) is Some,
            match choose_placement(old(self).data@, tile as int, size as int, prefer_vertical) {
                Some(p) => {
                    &&& final(self).data@ == placed(old(self).data@, index, p, size as int)
                    &&& final(self).ship@ == old(self).ship@.push(
                        fresh_ship(index, size as int, p, variant as int),
                    )
                },
                None => *final(self) == *old(self),
            },
    {
        let ghost before = *self;
        match self.place_at(index, size, tile, prefer_vertical) {
            Some(p) => {
                self.register_ship(index, size, p, variant, Ghost(before));
                true
            },
            None => {
                assert(self.data@ == before.data@);
                false
            },
        }
    }

    /// Places the ship with id `index` and size class `size` at a random legal
    /// place (see `try_place_ship`) and adds it to the ship list in a random
    /// look. Returns `false`, leaving the board as it was, exactly when the
    /// ship fits nowhere.
    pub fn place_ship(&mut self, size: usize, index: i32) -> (r: bool)
        requires
            old(self).wf(),
            size < 4,
            !has_ship(old(self).ship@, index),
        ensures
            final(self).wf(),
            r <==> exists|t: int| 0 <= t < BOARD_CELLS && is_candidate(old(self).data@, t, size as int),
            !r ==> *final(self) == *old(self),
            r ==> exists|p: Placement, variant: int|
                {
                    &&& 0 <= variant < sprite_variants(size as int)
                    &&& fits(old(self).data@, p, size as int)
                    &&& final(self).data@ == placed(old(self).data@, index, p, size as int)
                    &&& final(self).ship@ == old(self).ship@.push(
                        #[trigger] fresh_ship(index, size as int, p, variant),
                    )
                },
    {
        let ghost before = *self;
        match self.try_place_ship(index, size) {
            Some(p) => {
                let variant = random_below(if size == 0 {
                    4
                } else {
                    2
                }) as u32;
                self.register_ship(index, size, p, variant, Ghost(before));
                true
            },
            None => {
                assert(self.data@ == before.data@);
                false
            },
        }
    }

    /// Fills a board that has no ships yet: for each size class, from the
    /// smallest, tries to place as many ships as `gameboard` drew for that
    /// class, with ids 0, 1, 2, ... given in order to the ships that found a
    /// place; a ship that finds none is skipped. Then sets player
    /// `board_index`'s counters to the number of ships of each class placed.
    pub fn prepare_board(&mut self, gameboard: &mut GameBoard, board_index: usize)
        requires
            old(self).wf(),
            old(self).ship@.len() == 0,
            board_index < 2,
        ensures
            final(self).wf(),
            forall|k: int|
                0 <= k < final(self).ship@.len() ==> {
                    let s = #[trigger] final(self).ship@[k];
                    &&& s.index == k
                    &&& s.parts == s.length
                    &&& !s.visible
                },
            forall|c: int|
                0 <= c < 4 ==> alive_count(final(self).ship@, c) <= if old(gameboard).size_count[c]
                    > 0 {
                    old(gameboard).size_count[c] as int
                } else {
                    0
                },
            forall|c: int|
                0 <= c < 4 ==> alive_count(final(self).ship@, c) == (if old(gameboard).size_count[c]
                    > 0 {
                    old(gameboard).size_count[c] as int
                } else {
                    0
                }) || no_room(final(self).data@, c),
            forall|j: int, l: int|
                0 <= j < l < final(self).ship@.len() ==> final(self).ship@[j].length
                    <= final(self).ship@[l].length,
            forall|t: int|
                0 <= t < BOARD_CELLS ==> if old(self).data@[t] == BoardType::Empty {
                    #[trigger] final(self).data@[t] is Empty || final(self).data@[t] is Ship
                } else {
                    final(self).data@[t] == old(self).data@[t]
                },
            counters_match(final(gameboard).ship_counter_data[board_index as int], final(self).ship@),
            final(gameboard).ship_counter_data[1 - board_index] == old(
                gameboard,
            ).ship_counter_data[1 - board_index],
            final(gameboard).got_winner == old(gameboard).got_winner,
            final(gameboard).winner == old(gameboard).winner,
            final(gameboard).current_turn == old(gameboard).current_turn,
            final(gameboard).size_count == old(gameboard).size_count,
    {
        let mut counts: [i32; 4] = [0, 0, 0, 0];
        let mut cur_index: i32 = 0;
        let mut x: usize = 0;
        proof {
            assert forall|c: int| 0 <= c < 4 implies #[trigger] counts[c] == alive_count(
                self.ship@,
                c,
            ) by {}
        }
        while x < 4
            invariant
                x <= 4,
                self.wf(),
                cur_index == self.ship@.len(),
                forall|k: int|
                    0 <= k < self.ship@.len() ==> {
                        let s = #[trigger] self.ship@[k];
                        &&& s.index == k
                        &&& s.parts == s.length
                        &&& !s.visible
                    },
                forall|c: int| 0 <= c < 4 ==> #[trigger] counts[c] == alive_count(self.ship@, c),
                forall|c: int| x <= c < 4 ==> #[trigger] counts[c] == 0,
                forall|c: int|
                    0 <= c < x ==> #[trigger] counts[c] == (if gameboard.size_count[c] > 0 {
                        gameboard.size_count[c] as int
                    } else {
                        0
                    }) || no_room(self.data@, c),
                forall|j: int, l: int|
                    0 <= j < l < self.ship@.len() ==> self.ship@[j].length <= self.ship@[l].length,
                forall|j: int| 0 <= j < self.ship@.len() ==> self.ship@[j].length <= x,
                forall|c: int|
                    0 <= c < 4 ==> #[trigger] counts[c] <= if gameboard.size_count[c] > 0 {
                        gameboard.size_count[c] as int
                    } else {
                        0
                    },
                forall|t: int|
                    0 <= t < BOARD_CELLS ==> if old(self).data@[t] == BoardType::Empty {
                        #[trigger] self.data@[t] is Empty || self.data@[t] is Ship
                    } else {
                        self.data@[t] == old(self).data@[t]
                    },
            decreases 4 - x,
        {
            let mut i: i32 = 0;
            while i < gameboard.size_count[x]
                invariant
                    x < 4,
                    0 <= i,
                    self.wf(),
                    cur_index == self.ship@.len(),
                    forall|k: int|
                        0 <= k < self.ship@.len() ==> {
                            let s = #[trigger] self.ship@[k];
                            &&& s.index == k
                            &&& s.parts == s.length
                            &&& !s.visible
                        },
                    forall|c: int|
                        0 <= c < 4 ==> #[trigger] counts[c] == alive_count(self.ship@, c),
                    counts[x as int] <= i,
                    i <= gameboard.size_count[x as int] || i == 0,
                    forall|c: int| x < c < 4 ==> #[trigger] counts[c] == 0,
                    counts[x as int] == i || no_room(self.data@, x as int),
                    forall|c: int|
                        0 <= c < x ==> #[trigger] counts[c] == (if gameboard.size_count[c] > 0 {
                            gameboard.size_count[c] as int
                        } else {
                            0
                        }) || no_room(self.data@, c),
                    forall|j: int, l: int|
                        0 <= j < l < self.ship@.len() ==> self.ship@[j].length
                            <= self.ship@[l].length,
                    forall|j: int| 0 <= j < self.ship@.len() ==> self.ship@[j].length <= x + 1,
                    forall|c: int|
                        0 <= c < 4 && c != x ==> #[trigger] counts[c] <= if gameboard.size_count[c]
                            > 0 {
                            gameboard.size_count[c] as int
                        } else {
                            0
                        },
                    forall|t: int|
                        0 <= t < BOARD_CELLS ==> if old(self).data@[t] == BoardType::Empty {
                            #[trigger] self.data@[t] is Empty || self.data@[t] is Ship
                        } else {
                            self.data@[t] == old(self).data@[t]
                        },
                decreases gameboard.size_count[x as int] - i,
            {
                let ghost before = self.ship@;
                let ghost cells_before = self.data@;
                proof {
                    assert forall|t: int| 0 <= t < BOARD_CELLS implies if old(self).data@[t]
                        == BoardType::Empty {
                        cells_before[t] is Empty || cells_before[t] is Ship
                    } else {
                        cells_before[t] == old(self).data@[t]
                    } by {
                        assert(self.data@[t] == cells_before[t]);
                    }
                    assert forall|k: int| 0 <= k < before.len() implies (#[trigger] before[k]).index
                        != cur_index by {}
                    assert(!has_ship(before, cur_index));
                }
                if self.place_ship(x, cur_index) {
                    proof {
                        let (p, variant) = choose|p: Placement, variant: int|
                            {
                                &&& 0 <= variant < sprite_variants(x as int)
                                &&& fits(cells_before, p, x as int)
                                &&& self.data@ == placed(cells_before, cur_index, p, x as int)
                                &&& self.ship@ == before.push(
                                    #[trigger] fresh_ship(cur_index, x as int, p, variant),
                                )
                            };
                        let s = fresh_ship(cur_index, x as int, p, variant);
                        assert forall|c: int| 0 <= c < 4 implies alive_count(self.ship@, c)
                            == alive_count(before, c) + (if c == x {
                            1int
                        } else {
                            0int
                        }) by {
                            lemma_alive_push(before, s, c);
                        }
                        assert(self.ship@.len() <= BOARD_CELLS);
                        assert forall|t: int| 0 <= t < BOARD_CELLS implies #[trigger] self.data@[t]
                            == if p.covers(x + 1, t) {
                            BoardType::Ship(cur_index)
                        } else {
                            cells_before[t]
                        } by {
                            if p.covers(x + 1, t) {
                                lemma_covered_is_open(cells_before, p, x as int, t);
                            }
                        }
                        assert forall|t: int| 0 <= t < BOARD_CELLS implies if old(self).data@[t]
                            == BoardType::Empty {
                            #[trigger] self.data@[t] is Empty || self.data@[t] is Ship
                        } else {
                            self.data@[t] == old(self).data@[t]
                        } by {
                            if p.covers(x + 1, t) {
                                lemma_covered_is_open(cells_before, p, x as int, t);
                            }
                        }
                        assert(self.ship@[before.len() as int] == s);
                        assert forall|t: int|
                            0 <= t < BOARD_CELLS && self.data@[t] == BoardType::Empty implies cells_before[t]
                            == BoardType::Empty by {
                            assert(self.data@[t] == if p.covers(x + 1, t) {
                                BoardType::Ship(cur_index)
                            } else {
                                cells_before[t]
                            });
                        }
                        assert forall|c: int|
                            0 <= c < x && #[trigger] no_room(cells_before, c) implies no_room(
                            self.data@,
                            c,
                        ) by {
                            lemma_no_room_stays(cells_before, self.data@, c);
                        }
                    }
                    counts[x] = counts[x] + 1;
                    cur_index = cur_index + 1;
                }
                i = i + 1;
            }
            x = x + 1;
        }
        proof {
            assert forall|c: int| 0 <= c < 4 implies alive_count(self.ship@, c) <= if gameboard.size_count[c]
                > 0 {
                gameboard.size_count[c] as int
            } else {
                0
            } by {
                assert(counts[c] == alive_count(self.ship@, c));
            }
            assert forall|c: int| 0 <= c < 4 implies alive_count(self.ship@, c) == (if gameboard.size_count[c]
                > 0 {
                gameboard.size_count[c] as int
            } else {
                0
            }) || no_room(self.data@, c) by {
                assert(counts[c] == alive_count(self.ship@, c));
            }
        }
        let mut rows = gameboard.ship_counter_data;
        rows[board_index] = counts;
        gameboard.ship_counter_data = rows;
    }
}

} // verus!
