use std::collections::HashSet;
use vstd::prelude::*;
use crate::grid::{in_board, tile_index, tile_x, tile_y, BOARD_CELLS};
use crate::ship::{frame_of, Orientation, Placement, Ship};

verus! {

broadcast use vstd::std_specs::hash::group_hash_axioms;

/// State of one tile of a board.
#[derive(Clone, Copy, Debug, PartialEq, Eq, Structural)]
pub enum BoardType {
    /// Open water, not fired at.
    Empty,
    /// Holds an unhit part of the ship with this id.
    Ship(i32),
    /// Held a part of the ship with this id, which has been hit.
    Hit(i32),
    /// Open water that has been fired at.
    Missed,
}

/// The id of the ship a tile holds, hit or not.
pub open spec fn owner(c: BoardType) -> Option<i32> {
    match c {
        BoardType::Ship(id) => Some(id),
        BoardType::Hit(id) => Some(id),
        _ => None,
    }
}

/// Number of tiles of `s` in state `c`.
pub open spec fn count_of(s: Seq<BoardType>, c: BoardType) -> nat
    decreases s.len(),
{
    if s.len() == 0 {
        0
    } else {
        count_of(s.drop_last(), c) + if s.last() == c {
            1nat
        } else {
            0nat
        }
    }
}

/// Ids of the ships that still have an unhit part somewhere in `s`.
pub open spec fn surviving_ids(s: Seq<BoardType>) -> Set<i32> {
    Set::new(|id: i32| exists|t: int| 0 <= t < s.len() && s[t] == BoardType::Ship(id))
}

/// Changing one tile changes the count of a state by what left and what came.
pub proof fn lemma_count_update(s: Seq<BoardType>, i: int, v: BoardType, c: BoardType)
    requires
        0 <= i < s.len(),
    ensures
        count_of(s.update(i, v), c) == count_of(s, c) - (if s[i] == c {
            1int
        } else {
            0int
        }) + (if v == c {
            1int
        } else {
            0int
        }),
    decreases s.len(),
{
    let u = s.update(i, v);
    if i == s.len() - 1 {
        assert(u.drop_last() =~= s.drop_last());
    } else {
        assert(u.drop_last() =~= s.drop_last().update(i, v));
        lemma_count_update(s.drop_last(), i, v, c);
    }
}

/// A state that no tile is in has count zero.
pub proof fn lemma_count_absent(s: Seq<BoardType>, c: BoardType)
    requires
        forall|t: int| 0 <= t < s.len() ==> s[t] != c,
    ensures
        count_of(s, c) == 0,
    decreases s.len(),
{
    if s.len() > 0 {
        lemma_count_absent(s.drop_last(), c);
    }
}

/// A state with a positive count is the state of some tile.
pub proof fn lemma_count_present(s: Seq<BoardType>, c: BoardType)
    requires
        count_of(s, c) > 0,
    ensures
        exists|t: int| 0 <= t < s.len() && s[t] == c,
    decreases s.len(),
{
    if s.last() != c {
        lemma_count_present(s.drop_last(), c);
        let t = choose|t: int| 0 <= t < s.drop_last().len() && s.drop_last()[t] == c;
        assert(s[t] == c);
    } else {
        assert(s[s.len() - 1] == c);
    }
}

/// A count never exceeds the number of tiles.
pub proof fn lemma_count_bound(s: Seq<BoardType>, c: BoardType)
    ensures
        count_of(s, c) <= s.len(),
    decreases s.len(),
{
    if s.len() > 0 {
        lemma_count_bound(s.drop_last(), c);
    }
}

/// When every tile is in state `c`, the count of `c` is the number of tiles.
pub proof fn lemma_count_all(s: Seq<BoardType>, c: BoardType)
    requires
        forall|t: int| 0 <= t < s.len() ==> s[t] == c,
    ensures
        count_of(s, c) == s.len(),
    decreases s.len(),
{
    if s.len() > 0 {
        lemma_count_all(s.drop_last(), c);
    }
}

/// The surviving ids of a nonempty run of tiles are those of all tiles but the
/// last, with the last one's ship added when it holds an unhit part.
proof fn lemma_surviving_step(s: Seq<BoardType>)
    requires
        s.len() > 0,
    ensures
        surviving_ids(s) == match s.last() {
            BoardType::Ship(id) => surviving_ids(s.drop_last()).insert(id),
            _ => surviving_ids(s.drop_last()),
        },
{
    let rest = s.drop_last();
    let expected = match s.last() {
        BoardType::Ship(id) => surviving_ids(rest).insert(id),
        _ => surviving_ids(rest),
    };
    assert forall|id: i32| surviving_ids(s).contains(id) implies expected.contains(id) by {
        let t = choose|t: int| 0 <= t < s.len() && s[t] == BoardType::Ship(id);
        if t < s.len() - 1 {
            assert(rest[t] == BoardType::Ship(id));
        }
    }
    assert forall|id: i32| expected.contains(id) implies surviving_ids(s).contains(id) by {
        if surviving_ids(rest).contains(id) {
            let t = choose|t: int| 0 <= t < rest.len() && rest[t] == BoardType::Ship(id);
            assert(s[t] == BoardType::Ship(id));
        } else {
            assert(s[s.len() - 1] == BoardType::Ship(id));
        }
    }
    assert(surviving_ids(s) =~= expected);
}

/// The surviving ids form a finite set, no larger than the number of tiles.
pub proof fn lemma_surviving_bound(s: Seq<BoardType>)
    ensures
        surviving_ids(s).finite(),
        surviving_ids(s).len() <= s.len(),
    decreases s.len(),
{
    if s.len() == 0 {
        assert(surviving_ids(s) =~= Set::empty());
    } else {
        lemma_surviving_step(s);
        lemma_surviving_bound(s.drop_last());
    }
}

/// Whether a ship placed at `p` with `size + 1` cells lies on the board over
/// open water only.
pub open spec fn fits(cells: Seq<BoardType>, p: Placement, size: int) -> bool {
    forall|k: int|
        0 <= k <= size ==> {
            &&& in_board(#[trigger] p.cell_x(k), p.cell_y(k))
            &&& cells[tile_index(p.cell_x(k), p.cell_y(k))] == BoardType::Empty
        }
}

/// The placement anchored at the tile with flat index `t`.
pub open spec fn anchor(t: int, orientation: Orientation) -> Placement {
    Placement { x: tile_x(t) as i32, y: tile_y(t) as i32, orientation }
}

/// Whether a ship of size class `size` can start at tile `t`, in either
/// orientation.
pub open spec fn is_candidate(cells: Seq<BoardType>, t: int, size: int) -> bool {
    &&& cells[t] == BoardType::Empty
    &&& (fits(cells, anchor(t, Orientation::Horizontal), size) || fits(
        cells,
        anchor(t, Orientation::Vertical),
        size,
    ))
}

/// Whether a ship of size class `size` fits nowhere on `cells`.
pub open spec fn no_room(cells: Seq<BoardType>, size: int) -> bool {
    forall|t: int| 0 <= t < BOARD_CELLS ==> !is_candidate(cells, t, size)
}

/// The placement chosen at tile `t`: the preferred orientation when the ship
/// fits that way, else the other one when it fits that way, else none.
pub open spec fn choose_placement(
    cells: Seq<BoardType>,
    t: int,
    size: int,
    prefer_vertical: bool,
) -> Option<Placement> {
    let v = anchor(t, Orientation::Vertical);
    let h = anchor(t, Orientation::Horizontal);
    if prefer_vertical {
        if fits(cells, v, size) {
            Some(v)
        } else if fits(cells, h, size) {
            Some(h)
        } else {
            None
        }
    } else {
        if fits(cells, h, size) {
            Some(h)
        } else if fits(cells, v, size) {
            Some(v)
        } else {
            None
        }
    }
}

/// The tiles after the ship with id `index` and size class `size` was written
/// at `p`.
pub open spec fn placed(cells: Seq<BoardType>, index: i32, p: Placement, size: int) -> Seq<
    BoardType,
> {
    Seq::new(
        cells.len(),
        |t: int|
            if p.covers(size + 1, t) {
                BoardType::Ship(index)
            } else {
                cells[t]
            },
    )
}

/// How the counts of tile states move when a ship of `n` cells with id
/// `index` is written over open water.
pub open spec fn counts_after_placing(
    before: Seq<BoardType>,
    after: Seq<BoardType>,
    index: i32,
    n: int,
) -> bool {
    &&& count_of(after, BoardType::Ship(index)) == count_of(before, BoardType::Ship(index)) + n
    &&& count_of(after, BoardType::Empty) == count_of(before, BoardType::Empty) - n
    &&& forall|c: BoardType|
        c != BoardType::Ship(index) && c != BoardType::Empty ==> #[trigger] count_of(after, c)
            == count_of(before, c)
}

/// What a well-formed board holds of one of its ships: its size class, its
/// counters, and the tiles that carry its id, which are exactly those of its
/// placement.
pub open spec fn ship_ok(cells: Seq<BoardType>, s: Ship) -> bool {
    &&& 1 <= s.length <= 4
    &&& 0 <= s.parts <= s.length
    &&& (s.visible <==> s.parts == 0)
    &&& s.placement.on_board(s.length as int)
    &&& count_of(cells, BoardType::Ship(s.index)) == s.parts
    &&& count_of(cells, BoardType::Hit(s.index)) == s.length - s.parts
    &&& forall|t: int|
        0 <= t < cells.len() ==> ((#[trigger] owner(cells[t]) == Some(s.index))
            <==> s.placement.covers(s.length as int, t))
}

/// Whether some ship of `ships` has id `id`.
pub open spec fn has_ship(ships: Seq<Ship>, id: i32) -> bool {
    exists|k: int| 0 <= k < ships.len() && (#[trigger] ships[k]).index == id
}

/// The ship with id `index` and size class `size` just placed at `p`, drawn
/// in its look number `variant`.
pub open spec fn fresh_ship(index: i32, size: int, p: Placement, variant: int) -> Ship {
    Ship {
        index,
        length: (size + 1) as i32,
        parts: (size + 1) as i32,
        visible: false,
        placement: p,
        sprite: frame_of(size, p.orientation, variant),
    }
}

/// One player's board: its tiles, stored row after row, and its ships.
pub struct Board {
    pub data: Vec<BoardType>,
    pub ship: Vec<Ship>,
}

impl Board {
    /// A well-formed board: every ship is consistent with the tiles, ship ids
    /// are distinct, every tile that carries an id belongs to a ship, and the
    /// ships and the open water together fit on the board.
    pub open spec fn wf(&self) -> bool {
        let cells = self.data@;
        let ships = self.ship@;
        &&& cells.len() == BOARD_CELLS
        &&& ships.len() + count_of(cells, BoardType::Empty) <= BOARD_CELLS
        &&& forall|i: int, j: int|
            0 <= i < j < ships.len() ==> (#[trigger] ships[i]).index != (#[trigger] ships[j]).index
        &&& forall|k: int| 0 <= k < ships.len() ==> ship_ok(cells, #[trigger] ships[k])
        &&& forall|t: int|
            0 <= t < cells.len() && (#[trigger] owner(cells[t])).is_some() ==> has_ship(
                ships,
                owner(cells[t]).unwrap(),
            )
    }

    /// An empty board: open water everywhere and no ships.
    pub fn new() -> (r: Board)
        ensures
            r.wf(),
            r.ship@.len() == 0,
            forall|t: int| 0 <= t < BOARD_CELLS ==> r.data@[t] == BoardType::Empty,
    {
        let mut data: Vec<BoardType> = Vec::new();
        let mut i: usize = 0;
        while i < BOARD_CELLS
            invariant
                i <= BOARD_CELLS,
                data@.len() == i,
                forall|t: int| 0 <= t < i ==> data@[t] == BoardType::Empty,
            decreases BOARD_CELLS - i,
        {
            data.push(BoardType::Empty);
            i += 1;
        }
        let r = Board { data, ship: Vec::new() };
        proof {
            lemma_count_all(r.data@, BoardType::Empty);
        }
        r
    }

    /// Number of distinct ships that still have an unhit part on the board.
    pub fn count_ship(&self) -> (r: i32)
        requires
            self.data@.len() <= BOARD_CELLS,
        ensures
            r == surviving_ids(self.data@).len(),
    {
        let mut seen: HashSet<i32> = HashSet::new();
        let mut i: usize = 0;
        while i < self.data.len()
            invariant
                i <= self.data@.len(),
                seen@ == surviving_ids(self.data@.take(i as int)),
            decreases self.data@.len() - i,
        {
            proof {
                let next = self.data@.take(i as int + 1);
                assert(next.drop_last() =~= self.data@.take(i as int));
                lemma_surviving_step(next);
            }
            if let BoardType::Ship(index) = self.data[i] {
                seen.insert(index);
            }
            i += 1;
        }
        proof {
            assert(self.data@.take(i as int) =~= self.data@);
            lemma_surviving_bound(self.data@);
        }
        seen.len() as i32
    }

    /// Number of tiles, hit or not, that carry the id `ship_index`.
    pub fn count_size(&self, ship_index: i32) -> (r: i32)
        requires
            self.data@.len() <= BOARD_CELLS,
        ensures
            r == count_of(self.data@, BoardType::Ship(ship_index)) + count_of(
                self.data@,
                BoardType::Hit(ship_index),
            ),
    {
        let mut count: i32 = 0;
        let mut i: usize = 0;
        while i < self.data.len()
            invariant
                i <= self.data@.len() <= BOARD_CELLS,
                count == count_of(self.data@.take(i as int), BoardType::Ship(ship_index))
                    + count_of(self.data@.take(i as int), BoardType::Hit(ship_index)),
            decreases self.data@.len() - i,
        {
            proof {
                let next = self.data@.take(i as int + 1);
                assert(next.drop_last() =~= self.data@.take(i as int));
                lemma_count_bound(self.data@.take(i as int), BoardType::Ship(ship_index));
                lemma_count_bound(self.data@.take(i as int), BoardType::Hit(ship_index));
                assert(count_of(self.data@.take(i as int), BoardType::Ship(ship_index)) + count_of(
                    self.data@.take(i as int),
                    BoardType::Hit(ship_index),
                ) <= 2 * i);
            }
            match self.data[i] {
                BoardType::Ship(index) => {
                    if index == ship_index {
                        count += 1;
                    }
                },
                BoardType::Hit(index) => {
                    if index == ship_index {
                        count += 1;
                    }
                },
                _ => {},
            }
            i += 1;
        }
        proof {
            assert(self.data@.take(i as int) =~= self.data@);
        }
        count
    }

    /// Position in the ship list of the first ship with id `index`.
    pub fn find_ship(&self, index: i32) -> (r: Option<usize>)
        ensures
            match r {
                Some(k) => k < self.ship@.len() && self.ship@[k as int].index == index && forall|
                    j: int,
                | 0 <= j < k ==> self.ship@[j].index != index,
                None => forall|j: int| 0 <= j < self.ship@.len() ==> self.ship@[j].index != index,
            },
    {
        let mut k: usize = 0;
        while k < self.ship.len()
            invariant
                k <= self.ship@.len(),
                forall|j: int| 0 <= j < k ==> self.ship@[j].index != index,
            decreases self.ship@.len() - k,
        {
            if self.ship[k].index == index {
                return Some(k);
            }
            k += 1;
        }
        None
    }
}

/// The layout of a well-formed board, as `prepare_board` leaves it and shots
/// keep it: every tile that holds a ship, hit or not, belongs to a ship of
/// the list whose run covers it; each ship covers exactly a straight run of
/// `length` tiles in one row or one column, all on the board; and no two
/// ships cover the same tile, so each such tile belongs to exactly one ship.
pub proof fn lemma_board_layout(b: Board)
    requires
        b.wf(),
    ensures
        forall|t: int|
            0 <= t < BOARD_CELLS && (#[trigger] owner(b.data@[t])).is_some() ==> exists|k: int|
                0 <= k < b.ship@.len() && (#[trigger] b.ship@[k]).index == owner(
                    b.data@[t],
                ).unwrap() && b.ship@[k].placement.covers(b.ship@[k].length as int, t),
        forall|k: int|
            0 <= k < b.ship@.len() ==> {
                let s = #[trigger] b.ship@[k];
                &&& s.placement.on_board(s.length as int)
                &&& forall|t: int|
                    0 <= t < BOARD_CELLS ==> (owner(b.data@[t]) == Some(s.index)
                        <==> #[trigger] s.placement.covers(s.length as int, t))
            },
        forall|t: int, i: int, j: int|
            0 <= i < b.ship@.len() && 0 <= j < b.ship@.len() && #[trigger] b.ship@[i].placement.covers(
                b.ship@[i].length as int,
                t,
            ) && #[trigger] b.ship@[j].placement.covers(b.ship@[j].length as int, t) ==> i == j,
{
    assert forall|t: int| 0 <= t < BOARD_CELLS && (#[trigger] owner(b.data@[t])).is_some() implies exists|
        k: int,
    |
        0 <= k < b.ship@.len() && (#[trigger] b.ship@[k]).index == owner(b.data@[t]).unwrap()
            && b.ship@[k].placement.covers(b.ship@[k].length as int, t) by {
        assert(has_ship(b.ship@, owner(b.data@[t]).unwrap()));
        let k = choose|k: int|
            0 <= k < b.ship@.len() && (#[trigger] b.ship@[k]).index == owner(b.data@[t]).unwrap();
        assert(ship_ok(b.data@, b.ship@[k]));
    }
    assert forall|k: int| 0 <= k < b.ship@.len() implies {
        let s = #[trigger] b.ship@[k];
        &&& s.placement.on_board(s.length as int)
        &&& forall|t: int|
            0 <= t < BOARD_CELLS ==> (owner(b.data@[t]) == Some(s.index)
                <==> #[trigger] s.placement.covers(s.length as int, t))
    } by {
        assert(ship_ok(b.data@, b.ship@[k]));
    }
    assert forall|t: int, i: int, j: int|
        0 <= i < b.ship@.len() && 0 <= j < b.ship@.len() && #[trigger] b.ship@[i].placement.covers(
            b.ship@[i].length as int,
            t,
        ) && #[trigger] b.ship@[j].placement.covers(b.ship@[j].length as int, t) implies i == j by {
        assert(ship_ok(b.data@, b.ship@[i]));
        assert(ship_ok(b.data@, b.ship@[j]));
        if i < j {
            assert(b.ship@[i].index != b.ship@[j].index);
        } else if j < i {
            assert(b.ship@[j].index != b.ship@[i].index);
        }
    }
}

} // verus!
