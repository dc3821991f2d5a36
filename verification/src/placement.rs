//! Placement of new carrots on free squares chosen at random.

use vstd::prelude::*;
use crate::board::Board;
use crate::entity::{Carrot, Coordinate, BOARD_AREA, BOARD_MAX};

verus! {

/// Draws one axis value with `rand::Rng::gen_range` on the inclusive range
/// `0..=max`, from the generator that `rand::thread_rng` hands out.
///
/// Trusted: the value is random, so the contract claims only what holds of
/// every draw, that it lies in the range asked for. An inclusive range is
/// never empty, so `gen_range` does not panic.
#[verifier::external_body]
pub(crate) fn random_up_to(max: u8) -> (value: u8)
    ensures
        value <= max,
{
    rand::Rng::gen_range(&mut rand::thread_rng(), 0..=max)
}

impl Board {
    /// Tells whether a player stands or a carrot lies on `pos`.
    pub fn is_occupied(&self, pos: Coordinate) -> (b: bool)
        ensures
            b == self@.occupied(pos),
    {
        proof {
            self@.player_positions().index_of_first_ensures(pos);
            self@.carrots.index_of_first_ensures(pos);
        }
        self.find_player(pos).is_some() || self.find_carrot(pos).is_some()
    }

    /// The first free square of the board in reading order: row by row from
    /// the top, each row from the left. `None` when the board is saturated.
    pub fn first_free_square(&self) -> (free: Option<Coordinate>)
        ensures
            match free {
                Some(pos) => {
                    &&& pos.in_bounds()
                    &&& !self@.occupied(pos)
                    &&& forall|other: Coordinate|
                        other.in_bounds() && other.reads_before(pos) ==> self@.occupied(other)
                },
                None => self@.saturated(),
            },
    {
        let mut y: u8 = 0;
        while y <= BOARD_MAX
            invariant
                y <= BOARD_MAX + 1,
                forall|other: Coordinate|
                    other.in_bounds() && other.y < y ==> self@.occupied(other),
            decreases BOARD_MAX + 1 - y,
        {
            let mut x: u8 = 0;
            while x <= BOARD_MAX
                invariant
                    y <= BOARD_MAX,
                    x <= BOARD_MAX + 1,
                    forall|other: Coordinate|
                        other.in_bounds() && other.y < y ==> self@.occupied(other),
                    forall|other: Coordinate|
                        other.in_bounds() && other.y == y && other.x < x ==> self@.occupied(other),
                decreases BOARD_MAX + 1 - x,
            {
                let pos = Coordinate { x, y };
                if !self.is_occupied(pos) {
                    return Some(pos);
                }
                x += 1;
            }
            y += 1;
        }
        None
    }

    /// Puts a new carrot on `pos` if `pos` is a free square of the board.
    ///
    /// Returns whether the carrot was placed; if not, the board is unchanged.
    pub fn place_carrot(&mut self, pos: Coordinate) -> (placed: bool)
        ensures
            placed == (pos.in_bounds() && !old(self)@.occupied(pos)),
            placed ==> final(self)@ == old(self)@.with_carrot(pos),
            !placed ==> *final(self) == *old(self),
    {
        if !pos.is_in_bounds() || self.is_occupied(pos) {
            return false;
        }
        self.carrots.push(Carrot { position: pos });
        proof {
            assert(self@.carrots =~= old(self)@.carrots.push(pos));
        }
        true
    }
}

impl Carrot {
    /// Spawns one carrot on a free square of the board.
    ///
    /// Draws a square uniformly from the whole board and draws again while
    /// the square is occupied, up to `BOARD_AREA` draws; if none of them hit
    /// a free square, takes the first free square in reading order. Returns
    /// the square of the new carrot, or `None` with the board unchanged when
    /// the board is saturated, and only then.
    pub fn spawn_carrot(board: &mut Board) -> (spawned: Option<Coordinate>)
        ensures
            match spawned {
                Some(pos) => {
                    &&& pos.in_bounds()
                    &&& !old(board)@.occupied(pos)
                    &&& final(board)@ == old(board)@.with_carrot(pos)
                },
                None => *final(board) == *old(board),
            },
            spawned is None <==> old(board)@.saturated(),
            old(board)@.carrots.no_duplicates() ==> final(board)@.carrots.no_duplicates(),
            old(board)@.wf() ==> final(board)@.wf(),
            old(board)@.settled() ==> final(board)@.settled(),
    {
        let mut attempts: u16 = 0;
        while attempts < BOARD_AREA
            invariant
                *board == *old(board),
                attempts <= BOARD_AREA,
            decreases BOARD_AREA - attempts,
        {
            let pos = Coordinate { x: random_up_to(BOARD_MAX), y: random_up_to(BOARD_MAX) };
            if board.place_carrot(pos) {
                proof {
                    old(board)@.lemma_with_carrot_keeps_invariants(pos);
                }
                return Some(pos);
            }
            attempts += 1;
        }
        match board.first_free_square() {
            Some(pos) => {
                let placed = board.place_carrot(pos);
                proof {
                    assert(placed);
                    old(board)@.lemma_with_carrot_keeps_invariants(pos);
                }
                Some(pos)
            },
            None => None,
        }
    }
}

} // verus!
