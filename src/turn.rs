use vstd::prelude::*;
use crate::board::Board;
use crate::game::{counters_match, counters_reduced, GameBoard};
use crate::resolve::{shot_result, sunk_class, HitOutcome};

verus! {

impl GameBoard {
    /// A click of the player whose turn it is on tile `(x, y)` of board
    /// `target_index`. Nothing happens once the match is won, nor when the
    /// player clicks their own board. Otherwise the shot is resolved on the
    /// target board: a shot that wins the match ends it with the shooter as
    /// winner; any other shot that changed the board hands the turn to the
    /// player who was fired at; a shot off the board or at a tile fired at
    /// before leaves the turn as it was.
    pub fn fire(&mut self, target: &mut Board, target_index: usize, x: i32, y: i32) -> (r: Option<
        HitOutcome,
    >)
        requires
            old(self).wf(),
            target_index < 2,
            old(target).wf(),
            counters_match(old(self).ship_counter_data[target_index as int], old(target).ship@),
        ensures
            final(self).wf(),
            final(target).wf(),
            counters_match(final(self).ship_counter_data[target_index as int], final(target).ship@),
            final(self).size_count == old(self).size_count,
            if old(self).got_winner || target_index == old(self).current_turn {
                &&& r is None
                &&& *final(self) == *old(self)
                &&& *final(target) == *old(target)
            } else {
                &&& shot_result(*old(target), *final(target), x as int, y as int, r)
                &&& match sunk_class(*old(target), x as int, y as int) {
                    Some(c) => counters_reduced(
                        old(self).ship_counter_data,
                        final(self).ship_counter_data,
                        target_index as int,
                        c,
                    ),
                    None => final(self).ship_counter_data == old(self).ship_counter_data,
                }
                &&& match r {
                    Some(HitOutcome::MatchWon) => {
                        &&& final(self).got_winner
                        &&& final(self).winner == old(self).current_turn
                        &&& final(self).current_turn == old(self).current_turn
                    },
                    Some(HitOutcome::AlreadyResolved) | None => {
                        &&& final(self).got_winner == old(self).got_winner
                        &&& final(self).winner == old(self).winner
                        &&& final(self).current_turn == old(self).current_turn
                    },
                    Some(_) => {
                        &&& final(self).got_winner == old(self).got_winner
                        &&& final(self).winner == old(self).winner
                        &&& final(self).current_turn == target_index
                    },
                }
            },
    {
        if self.got_winner || target_index as i32 == self.current_turn {
            return None;
        }
        let r = target.hit_place(x, y, self);
        match r {
            Some(HitOutcome::MatchWon) => {
                let winner = self.current_turn;
                self.set_winner(winner);
            },
            Some(HitOutcome::AlreadyResolved) | None => {},
            Some(_) => {
                self.current_turn = target_index as i32;
            },
        }
        r
    }
}

} // verus!
