use vstd::prelude::*;
use crate::random::random_below;
use crate::ship::Ship;

verus! {

/// 1 when `s` is an unsunk ship of size class `class`, else 0.
pub open spec fn alive_of_class(s: Ship, class: int) -> int {
    if s.length == class + 1 && !s.visible {
        1
    } else {
        0
    }
}

/// Number of unsunk ships of size class `class` in `ships`.
pub open spec fn alive_count(ships: Seq<Ship>, class: int) -> int
    decreases ships.len(),
{
    if ships.len() == 0 {
        0
    } else {
        alive_count(ships.drop_last(), class) + alive_of_class(ships.last(), class)
    }
}

/// Changing one ship changes the number of unsunk ships of a class by what
/// left and what came.
pub proof fn lemma_alive_update(ships: Seq<Ship>, k: int, v: Ship, class: int)
    requires
        0 <= k < ships.len(),
    ensures
        alive_count(ships.update(k, v), class) == alive_count(ships, class) - alive_of_class(
            ships[k],
            class,
        ) + alive_of_class(v, class),
    decreases ships.len(),
{
    let u = ships.update(k, v);
    if k == ships.len() - 1 {
        assert(u.drop_last() =~= ships.drop_last());
    } else {
        assert(u.drop_last() =~= ships.drop_last().update(k, v));
        lemma_alive_update(ships.drop_last(), k, v, class);
    }
}

/// Adding a ship adds it to the count of its class when it is unsunk.
pub proof fn lemma_alive_push(ships: Seq<Ship>, v: Ship, class: int)
    ensures
        alive_count(ships.push(v), class) == alive_count(ships, class) + alive_of_class(v, class),
{
    assert(ships.push(v).drop_last() =~= ships);
}

/// The number of unsunk ships is never negative.
pub proof fn lemma_alive_nonneg(ships: Seq<Ship>, class: int)
    ensures
        alive_count(ships, class) >= 0,
    decreases ships.len(),
{
    if ships.len() > 0 {
        lemma_alive_nonneg(ships.drop_last(), class);
    }
}

/// Whether the four counters of a player give, for each size class, the
/// number of unsunk ships of that class on the player's board.
pub open spec fn counters_match(counters: [i32; 4], ships: Seq<Ship>) -> bool {
    forall|c: int| 0 <= c < 4 ==> #[trigger] counters[c] == alive_count(ships, c)
}

/// Whether `after` is `before` with the counter of size class `c` of player
/// `b` lowered by one.
pub open spec fn counters_reduced(before: [[i32; 4]; 2], after: [[i32; 4]; 2], b: int, c: int) -> bool {
    forall|i: int, j: int|
        0 <= i < 2 && 0 <= j < 4 ==> #[trigger] after[i][j] == before[i][j] - (if i == b && j
            == c {
            1int
        } else {
            0int
        })
}

/// State of a match shared by both boards: whether someone has won and who,
/// whose turn it is to fire, the number of ships of each size class drawn for
/// the match, and each player's count of unsunk ships per size class.
pub struct GameBoard {
    pub got_winner: bool,
    pub winner: i32,
    pub current_turn: i32,
    pub size_count: [i32; 4],
    pub ship_counter_data: [[i32; 4]; 2],
}

impl GameBoard {
    /// The turn names one of the two players.
    pub open spec fn wf(&self) -> bool {
        self.current_turn == 0 || self.current_turn == 1
    }

    /// The player whose board is fired at: the one whose turn it is not.
    pub open spec fn defender(&self) -> int {
        if self.current_turn == 0 {
            1
        } else {
            0
        }
    }

    /// A match with the given number of ships per size class: player 0 fires
    /// first, nobody has won, and both players' counters start at those
    /// numbers.
    pub fn with_size_count(size_count: [i32; 4]) -> (r: GameBoard)
        ensures
            r.wf(),
            !r.got_winner,
            r.current_turn == 0,
            r.size_count == size_count,
            r.ship_counter_data[0] == size_count,
            r.ship_counter_data[1] == size_count,
    {
        GameBoard {
            got_winner: false,
            winner: -1,
            current_turn: 0,
            size_count,
            ship_counter_data: [size_count, size_count],
        }
    }

    /// A match whose number of ships per size class is drawn at random:
    /// 3 to 5 ships of one cell, 2 to 4 of two, 1 to 3 of three and 1 or 2 of
    /// four.
    pub fn new() -> (r: GameBoard)
        ensures
            r.wf(),
            !r.got_winner,
            r.current_turn == 0,
            3 <= r.size_count[0] <= 5,
            2 <= r.size_count[1] <= 4,
            1 <= r.size_count[2] <= 3,
            1 <= r.size_count[3] <= 2,
            r.ship_counter_data[0] == r.size_count,
            r.ship_counter_data[1] == r.size_count,
    {
        let one = 3 + random_below(3) as i32;
        let two = 2 + random_below(3) as i32;
        let three = 1 + random_below(3) as i32;
        let four = 1 + random_below(2) as i32;
        GameBoard::with_size_count([one, two, three, four])
    }

    /// Ends the match with player `index` as the winner.
    pub fn set_winner(&mut self, index: i32)
        ensures
            *final(self) == (GameBoard { got_winner: true, winner: index, ..*old(self) }),
    {
        self.winner = index;
        self.got_winner = true;
    }

    /// Lowers by one player `board_index`'s count of unsunk ships of size
    /// class `ship_size`.
    pub fn reduce_ship_counter(&mut self, ship_size: usize, board_index: usize)
        requires
            ship_size < 4,
            board_index < 2,
            old(self).ship_counter_data[board_index as int][ship_size as int] > i32::MIN,
        ensures
            counters_reduced(
                old(self).ship_counter_data,
                final(self).ship_counter_data,
                board_index as int,
                ship_size as int,
            ),
            final(self).got_winner == old(self).got_winner,
            final(self).winner == old(self).winner,
            final(self).current_turn == old(self).current_turn,
            final(self).size_count == old(self).size_count,
    {
        let mut row = self.ship_counter_data[board_index];
        row[ship_size] = row[ship_size] - 1;
        self.ship_counter_data[board_index] = row;
    }
}

} // verus!
