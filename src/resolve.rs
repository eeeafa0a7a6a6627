use vstd::prelude::*;
use crate::board::{
    count_of, has_ship, lemma_count_present, lemma_count_update, lemma_surviving_bound, owner,
    ship_ok, surviving_ids, Board, BoardType,
};
use crate::game::{
    alive_count, counters_match, counters_reduced, lemma_alive_nonneg,
    lemma_alive_update, GameBoard,
};
use crate::grid::{get_tile_pos, in_board, lemma_tile_coords, tile_index, BOARD_SIZE};
use crate::ship::Ship;

verus! {

/// What a shot at a tile did.
#[derive(Clone, Copy, Debug, PartialEq, Eq, Structural)]
pub enum HitOutcome {
    /// It fell in open water.
    Miss,
    /// It hit a ship that still has unhit parts.
    Hit,
    /// It sank a ship of this size class, and ships remain.
    ShipDestroyed(usize),
    /// It sank the last ship of the board.
    MatchWon,
    /// The tile had been fired at before; nothing changed.
    AlreadyResolved,
}

/// The ships after a hit on the ship with id `id`.
pub open spec fn damage_id(ships: Seq<Ship>, id: i32) -> Seq<Ship> {
    ships.map_values(
        |s: Ship|
            if s.index == id {
                s.damaged()
            } else {
                s
            },
    )
}

/// What a tile becomes when fired at.
pub open spec fn resolved(c: BoardType) -> BoardType {
    match c {
        BoardType::Empty => BoardType::Missed,
        BoardType::Ship(id) => BoardType::Hit(id),
        _ => c,
    }
}

/// Whether a tile has already been fired at.
pub open spec fn is_resolved(c: BoardType) -> bool {
    c is Hit || c is Missed
}

/// How a shot at `(x, y)` takes board `before` to board `after` with outcome
/// `r`. Off the board, and on a tile fired at before, nothing changes. On open
/// water the tile becomes missed. On a ship's unhit part the part becomes hit
/// and the ship loses one part; the outcome is a plain hit while other parts
/// of it are unhit, else the sinking of a ship of size class (tiles of that
/// ship, minus one), or the win when no ship has an unhit part left.
pub open spec fn shot_result(before: Board, after: Board, x: int, y: int, r: Option<
    HitOutcome,
>) -> bool {
    if !in_board(x, y) {
        r is None && after == before
    } else {
        let t = tile_index(x, y);
        match before.data@[t] {
            BoardType::Empty => {
                &&& r == Some(HitOutcome::Miss)
                &&& after.data@ == before.data@.update(t, BoardType::Missed)
                &&& after.ship@ == before.ship@
            },
            BoardType::Ship(id) => {
                &&& after.data@ == before.data@.update(t, BoardType::Hit(id))
                &&& after.ship@ == damage_id(before.ship@, id)
                &&& r == Some(
                    if count_of(before.data@, BoardType::Ship(id)) > 1 {
                        HitOutcome::Hit
                    } else if surviving_ids(after.data@).len() == 0 {
                        HitOutcome::MatchWon
                    } else {
                        HitOutcome::ShipDestroyed(
                            (count_of(before.data@, BoardType::Ship(id)) + count_of(
                                before.data@,
                                BoardType::Hit(id),
                            ) - 1) as usize,
                        )
                    },
                )
            },
            _ => r == Some(HitOutcome::AlreadyResolved) && after == before,
        }
    }
}

/// The size class of the ship that a shot at `(x, y)` on `b` sinks, if it
/// sinks one.
pub open spec fn sunk_class(b: Board, x: int, y: int) -> Option<int> {
    if !in_board(x, y) {
        None
    } else {
        match b.data@[tile_index(x, y)] {
            BoardType::Ship(id) => if count_of(b.data@, BoardType::Ship(id)) == 1 {
                Some(
                    count_of(b.data@, BoardType::Ship(id)) + count_of(b.data@, BoardType::Hit(id))
                        - 1,
                )
            } else {
                None
            },
            _ => None,
        }
    }
}

/// How the match state follows a shot at `(x, y)` on the board of player
/// `defender`: when a ship sinks, that player's counter for its size class
/// goes down by one; nothing else changes.
pub open spec fn counters_after_shot(
    before: GameBoard,
    after: GameBoard,
    b: Board,
    x: int,
    y: int,
    defender: int,
) -> bool {
    &&& after.got_winner == before.got_winner
    &&& after.winner == before.winner
    &&& after.current_turn == before.current_turn
    &&& after.size_count == before.size_count
    &&& match sunk_class(b, x, y) {
        Some(c) => counters_reduced(before.ship_counter_data, after.ship_counter_data, defender, c),
        None => after.ship_counter_data == before.ship_counter_data,
    }
}

/// On a well-formed board, each ship's unhit parts are its length minus its
/// hit tiles, and it has sunk exactly when no unhit part is left.
pub proof fn lemma_ship_accounting(b: Board)
    requires
        b.wf(),
    ensures
        forall|k: int|
            0 <= k < b.ship@.len() ==> {
                let s = #[trigger] b.ship@[k];
                &&& s.parts == s.length - count_of(b.data@, BoardType::Hit(s.index))
                &&& s.parts == count_of(b.data@, BoardType::Ship(s.index))
                &&& (s.destroyed() <==> s.parts == 0)
            },
{
    assert forall|k: int| 0 <= k < b.ship@.len() implies {
        let s = #[trigger] b.ship@[k];
        &&& s.parts == s.length - count_of(b.data@, BoardType::Hit(s.index))
        &&& s.parts == count_of(b.data@, BoardType::Ship(s.index))
        &&& (s.destroyed() <==> s.parts == 0)
    } by {
        assert(ship_ok(b.data@, b.ship@[k]));
    }
}

/// A shot never refloats a sunk ship, and never adds or removes ships.
pub proof fn lemma_sunk_stays_sunk(before: Board, after: Board, x: int, y: int, r: Option<HitOutcome>)
    requires
        shot_result(before, after, x, y, r),
    ensures
        after.ship@.len() == before.ship@.len(),
        forall|k: int|
            0 <= k < before.ship@.len() && (#[trigger] before.ship@[k]).destroyed()
                ==> after.ship@[k].destroyed(),
{
}

/// Firing twice at the same tile: whatever the first shot did, the second
/// changes nothing and, on the board, reports the tile as already resolved.
pub proof fn lemma_second_shot_is_noop(
    first: Board,
    second: Board,
    third: Board,
    x: int,
    y: int,
    r1: Option<HitOutcome>,
    r2: Option<HitOutcome>,
)
    requires
        first.wf(),
        shot_result(first, second, x, y, r1),
        shot_result(second, third, x, y, r2),
    ensures
        third == second,
        in_board(x, y) ==> r2 == Some(HitOutcome::AlreadyResolved),
        !in_board(x, y) ==> r2 is None,
        r1 != Some(HitOutcome::AlreadyResolved) && in_board(x, y) ==> !is_resolved(
            first.data@[tile_index(x, y)],
        ),
{
    if in_board(x, y) {
        lemma_tile_coords(x, y);
        let t = tile_index(x, y);
        assert(is_resolved(second.data@[t]));
    }
}

impl Board {
    /// Fires at tile `(x, y)` of this board, on behalf of the player whose
    /// turn it is in `gameboard`; see `shot_result` for what changes. When a
    /// ship sinks, the defender's counter for its size class goes down by one.
    /// Returns `None` off the board.
    pub fn hit_place(&mut self, x: i32, y: i32, gameboard: &mut GameBoard) -> (r: Option<
        HitOutcome,
    >)
        requires
            old(self).wf(),
            old(gameboard).wf(),
            counters_match(
                old(gameboard).ship_counter_data[old(gameboard).defender()],
                old(self).ship@,
            ),
        ensures
            final(self).wf(),
            final(gameboard).wf(),
            shot_result(*old(self), *final(self), x as int, y as int, r),
            counters_after_shot(
                *old(gameboard),
                *final(gameboard),
                *old(self),
                x as int,
                y as int,
                old(gameboard).defender(),
            ),
            counters_match(
                final(gameboard).ship_counter_data[old(gameboard).defender()],
                final(self).ship@,
            ),
            r == Some(HitOutcome::MatchWon) <==> {
                &&& in_board(x as int, y as int)
                &&& old(self).data@[tile_index(x as int, y as int)] is Ship
                &&& surviving_ids(final(self).data@).len() == 0
            },
    {
        if !(0 <= x && x < BOARD_SIZE as i32 && 0 <= y && y < BOARD_SIZE as i32) {
            return None;
        }
        let tile = get_tile_pos(x, y);
        let ghost t = tile as int;
        let ghost before = *self;
        let ghost cells = self.data@;
        let ghost ships = self.ship@;
        let ghost d = gameboard.defender();
        match self.data[tile] {
            BoardType::Ship(index) => {
                let k = match self.find_ship(index) {
                    Some(k) => k,
                    None => {
                        assert(owner(cells[t]).is_some());
                        assert(has_ship(ships, index));
                        return None;
                    },
                };
                let ghost s = ships[k as int];
                proof {
                    assert(ship_ok(cells, s));
                    lemma_count_update(cells, t, BoardType::Hit(index), BoardType::Ship(index));
                }
                self.data[tile] = BoardType::Hit(index);
                let mut ship = self.ship[k];
                let destroyed = ship.damage_ship();
                self.ship[k] = ship;
                let ghost new_cells = self.data@;
                let ghost new_ships = self.ship@;
                proof {
                    assert forall|c: BoardType| #[trigger]
                        count_of(new_cells, c) == count_of(cells, c) - (if c == BoardType::Ship(
                            index,
                        ) {
                            1int
                        } else {
                            0int
                        }) + (if c == BoardType::Hit(index) {
                            1int
                        } else {
                            0int
                        }) by {
                        lemma_count_update(cells, t, BoardType::Hit(index), c);
                    }
                    assert forall|j: int| 0 <= j < ships.len() && j != k implies ships[j].index
                        != index by {
                        if j < k {
                            assert(ships[j].index != ships[k as int].index);
                        } else {
                            assert(ships[k as int].index != ships[j].index);
                        }
                    }
                    assert(new_ships =~= damage_id(ships, index));
                    assert forall|j: int| 0 <= j < new_ships.len() implies ship_ok(
                        new_cells,
                        #[trigger] new_ships[j],
                    ) by {
                        assert(ship_ok(cells, ships[j]));
                        assert forall|u: int| 0 <= u < new_cells.len() implies owner(new_cells[u])
                            == owner(cells[u]) by {}
                    }
                    assert forall|i: int, j: int|
                        0 <= i < j < new_ships.len() implies (#[trigger] new_ships[i]).index != (
                        #[trigger] new_ships[j]).index by {
                        assert(ships[i].index != ships[j].index);
                    }
                    assert forall|u: int|
                        0 <= u < new_cells.len() && (#[trigger] owner(
                            new_cells[u],
                        )).is_some() implies has_ship(new_ships, owner(new_cells[u]).unwrap()) by {
                        assert(owner(new_cells[u]) == owner(cells[u]));
                        assert(has_ship(ships, owner(cells[u]).unwrap()));
                        let j = choose|j: int|
                            0 <= j < ships.len() && (#[trigger] ships[j]).index == owner(
                                cells[u],
                            ).unwrap();
                        assert(new_ships[j].index == ships[j].index);
                    }
                    lemma_surviving_bound(new_cells);
                    if !destroyed {
                        assert(count_of(new_cells, BoardType::Ship(index)) > 0);
                        lemma_count_present(new_cells, BoardType::Ship(index));
                        let u = choose|u: int|
                            0 <= u < new_cells.len() && new_cells[u] == BoardType::Ship(index);
                        assert(surviving_ids(new_cells).contains(index));
                        vstd::set_lib::lemma_set_empty_equivalency_len(surviving_ids(new_cells));
                    }
                    assert forall|c: int| 0 <= c < 4 implies alive_count(new_ships, c)
                        == alive_count(ships, c) - (if destroyed && c == s.length - 1 {
                        1int
                    } else {
                        0int
                    }) by {
                        lemma_alive_update(ships, k as int, ship, c);
                        assert(new_ships =~= ships.update(k as int, ship));
                    }
                }
                if destroyed {
                    let won = self.count_ship() <= 0;
                    let ship_size = self.count_size(index) - 1;
                    let defender: usize = if gameboard.current_turn == 0 {
                        1
                    } else {
                        0
                    };
                    proof {
                        lemma_alive_update(ships, k as int, ship, ship_size as int);
                        lemma_alive_nonneg(new_ships, ship_size as int);
                        assert(new_ships =~= ships.update(k as int, ship));
                        assert(gameboard.ship_counter_data[d][ship_size as int] == alive_count(
                            ships,
                            ship_size as int,
                        ));
                    }
                    gameboard.reduce_ship_counter(ship_size as usize, defender);
                    if won {
                        Some(HitOutcome::MatchWon)
                    } else {
                        Some(HitOutcome::ShipDestroyed(ship_size as usize))
                    }
                } else {
                    Some(HitOutcome::Hit)
                }
            },
            BoardType::Empty => {
                self.data[tile] = BoardType::Missed;
                proof {
                    let new_cells = self.data@;
                    assert forall|c: BoardType| #[trigger]
                        count_of(new_cells, c) == count_of(cells, c) - (if c == BoardType::Empty {
                            1int
                        } else {
                            0int
                        }) + (if c == BoardType::Missed {
                            1int
                        } else {
                            0int
                        }) by {
                        lemma_count_update(cells, t, BoardType::Missed, c);
                    }
                    assert forall|u: int| 0 <= u < new_cells.len() implies owner(new_cells[u])
                        == owner(cells[u]) by {}
                    assert forall|j: int| 0 <= j < ships.len() implies ship_ok(
                        new_cells,
                        #[trigger] ships[j],
                    ) by {
                        assert(ship_ok(cells, ships[j]));
                    }
                }
                Some(HitOutcome::Miss)
            },
            _ => Some(HitOutcome::AlreadyResolved),
        }
    }
}

} // verus!
