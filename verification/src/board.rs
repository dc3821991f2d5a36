//! The board: the single owner of the players, the carrots and the step counter.

use vstd::prelude::*;
use crate::entity::{carrot_glyph, Carrot, Coordinate, Player, BOARD_MAX, CARROT_VALUE};
use crate::model::BoardModel;
use crate::paint::is_painted;
use crate::seq_facts::{lemma_first_occurrence, lemma_no_occurrence};

verus! {

/// The state of one game.
///
/// The order of `players` is the order in which they take their steps.
#[derive(Clone, Debug, PartialEq, Eq)]
pub struct Board {
    pub steps: u64,
    pub players: Vec<Player>,
    pub carrots: Vec<Carrot>,
}

impl View for Board {
    type V = BoardModel;

    open spec fn view(&self) -> BoardModel {
        BoardModel {
            steps: self.steps as nat,
            players: self.players@.map_values(|p: Player| p@),
            carrots: self.carrots@.map_values(|c: Carrot| c.position),
        }
    }
}

/// The sign that stands for a free square.
pub open spec fn empty_glyph() -> Seq<char> {
    seq!['◦']
}

impl BoardModel {
    /// `text` is what the square `pos` shows: the name of the first player on
    /// it; without a player, a carrot if one lies there; else the sign of a
    /// free square.
    pub open spec fn shows(self, pos: Coordinate, text: Seq<char>) -> bool {
        match self.player_at(pos) {
            Some(i) => text == self.players[i].name,
            None => if self.carrots.contains(pos) {
                is_painted(text, carrot_glyph())
            } else {
                text == empty_glyph()
            },
        }
    }
}

impl Board {
    /// A board at step 0 without players or carrots.
    pub fn new() -> (board: Board)
        ensures
            board@.steps == 0,
            board@.players == Seq::<crate::entity::PlayerModel>::empty(),
            board@.carrots == Seq::<Coordinate>::empty(),
            board@.wf(),
    {
        let board = Board { steps: 0, players: Vec::new(), carrots: Vec::new() };
        assert(board@.players =~= Seq::empty());
        assert(board@.carrots =~= Seq::empty());
        board
    }

    /// Index of the first player, in turn order, standing on `pos`.
    pub fn find_player(&self, pos: Coordinate) -> (found: Option<usize>)
        ensures
            match found {
                Some(i) => i < self.players.len() && self@.player_at(pos) == Some(i as int),
                None => self@.player_at(pos) is None,
            },
    {
        let mut i: usize = 0;
        while i < self.players.len()
            invariant
                i <= self.players.len(),
                forall|j: int| 0 <= j < i ==> self@.player_positions()[j] != pos,
            decreases self.players.len() - i,
        {
            if self.players[i].position == pos {
                proof {
                    lemma_first_occurrence(self@.player_positions(), pos, i as int);
                }
                return Some(i);
            }
            i += 1;
        }
        proof {
            lemma_no_occurrence(self@.player_positions(), pos);
        }
        None
    }

    /// Index of the first carrot, in storage order, lying on `pos`.
    pub fn find_carrot(&self, pos: Coordinate) -> (found: Option<usize>)
        ensures
            match found {
                Some(i) => i < self.carrots.len() && self@.carrot_at(pos) == Some(i as int),
                None => self@.carrot_at(pos) is None,
            },
    {
        let mut i: usize = 0;
        while i < self.carrots.len()
            invariant
                i <= self.carrots.len(),
                forall|j: int| 0 <= j < i ==> self@.carrots[j] != pos,
            decreases self.carrots.len() - i,
        {
            if self.carrots[i].position == pos {
                proof {
                    lemma_first_occurrence(self@.carrots, pos, i as int);
                }
                return Some(i);
            }
            i += 1;
        }
        proof {
            lemma_no_occurrence(self@.carrots, pos);
        }
        None
    }

    /// The first player, in turn order, standing on `(x, y)`.
    pub fn get_player_at_coordinate(&self, x: u8, y: u8) -> (found: Option<&Player>)
        ensures
            match self@.player_at(Coordinate { x, y }) {
                Some(i) => 0 <= i < self.players.len() && found == Some(&self.players[i]),
                None => found is None,
            },
    {
        match self.find_player(Coordinate { x, y }) {
            Some(i) => Some(&self.players[i]),
            None => None,
        }
    }

    /// The first carrot, in storage order, lying on `(x, y)`.
    pub fn get_carrot_at_coordinate(&self, x: u8, y: u8) -> (found: Option<&Carrot>)
        ensures
            match self@.carrot_at(Coordinate { x, y }) {
                Some(i) => 0 <= i < self.carrots.len() && found == Some(&self.carrots[i]),
                None => found is None,
            },
    {
        match self.find_carrot(Coordinate { x, y }) {
            Some(i) => Some(&self.carrots[i]),
            None => None,
        }
    }

    /// The text that the square `(x, y)` shows: a player's name before a
    /// carrot, a carrot before the sign of a free square.
    pub fn get_character_for_coordinate(&self, x: u8, y: u8) -> (text: String)
        ensures
            self@.shows(Coordinate { x, y }, text@),
    {
        let pos = Coordinate { x, y };
        match self.find_player(pos) {
            Some(i) => self.players[i].name.clone(),
            None => match self.find_carrot(pos) {
                Some(c) => {
                    proof {
                        self@.carrots.index_of_first_ensures(pos);
                    }
                    self.carrots[c].get_icon()
                },
                None => {
                    proof {
                        self@.carrots.index_of_first_ensures(pos);
                        reveal_strlit("◦");
                        assert("◦"@ =~= empty_glyph());
                    }
                    "◦".to_owned()
                },
            },
        }
    }

    /// The texts of the squares of row `y`, from `x = 0` to `x = BOARD_MAX`.
    pub fn row_characters(&self, y: u8) -> (cells: Vec<String>)
        ensures
            cells.len() == BOARD_MAX + 1,
            forall|x: u8|
                x <= BOARD_MAX ==> self@.shows(Coordinate { x, y }, #[trigger] cells[x as int]@),
    {
        let mut cells: Vec<String> = Vec::new();
        let mut x: u8 = 0;
        while x <= BOARD_MAX
            invariant
                x <= BOARD_MAX + 1,
                cells.len() == x,
                forall|k: u8|
                    k < x ==> self@.shows(Coordinate { x: k, y }, #[trigger] cells[k as int]@),
            decreases BOARD_MAX + 1 - x,
        {
            cells.push(self.get_character_for_coordinate(x, y));
            x += 1;
        }
        cells
    }

    /// Number of completed rotations through all players: the step counter
    /// divided by the number of players.
    pub fn get_current_turn(&self) -> (turn: u64)
        requires
            self.players.len() >= 1,
        ensures
            turn == self@.current_turn(),
    {
        self.steps / (self.players.len() as u64)
    }

    /// Index of the player whose step it is: the step counter modulo the
    /// number of players.
    pub fn current_player_index(&self) -> (index: usize)
        requires
            self.players.len() >= 1,
        ensures
            index == self@.current_index(),
            index < self.players.len(),
    {
        (self.steps % (self.players.len() as u64)) as usize
    }

    /// The pickup that is due: the index of the first carrot, in storage
    /// order, on which a player stands, and the index of the first player, in
    /// turn order, standing on it.
    pub fn find_pickup(&self) -> (due: Option<(usize, usize)>)
        ensures
            match due {
                Some((c, p)) => {
                    &&& c < self.carrots.len()
                    &&& p < self.players.len()
                    &&& self@.claimed_carrot() == Some(c as int)
                    &&& self@.player_at(self@.carrots[c as int]) == Some(p as int)
                },
                None => self@.claimed_carrot() is None,
            },
    {
        let mut c: usize = 0;
        while c < self.carrots.len()
            invariant
                c <= self.carrots.len(),
                forall|k: int| 0 <= k < c ==> self@.claimed()[k] != true,
            decreases self.carrots.len() - c,
        {
            let pos = self.carrots[c].position;
            proof {
                self@.player_positions().index_of_first_ensures(pos);
            }
            match self.find_player(pos) {
                Some(p) => {
                    proof {
                        lemma_first_occurrence(self@.claimed(), true, c as int);
                    }
                    return Some((c, p));
                },
                None => {},
            }
            c += 1;
        }
        proof {
            lemma_no_occurrence(self@.claimed(), true);
        }
        None
    }

    /// Resolves at most one pickup: the first carrot, in storage order, on
    /// which a player stands is removed, and the first player standing on it
    /// scores one point. Without such a carrot nothing changes.
    pub fn check_for_pickups(&mut self)
        requires
            old(self)@.after_pickups().representable(),
        ensures
            final(self)@ == old(self)@.after_pickups(),
            old(self)@.wf() ==> final(self)@.wf(),
    {
        proof {
            let before = old(self)@;
            let after = before.after_pickups();
            before.lemma_pickups_only_add();
            before.lemma_pickups_keep_carrots_apart();
            if before.players_in_bounds() {
                assert forall|i: int| 0 <= i < after.players.len() implies
                    (#[trigger] after.players[i]).position.in_bounds() by {
                    assert(after.player_positions()[i] == before.player_positions()[i]);
                    assert(before.players[i].position.in_bounds());
                }
            }
        }
        match self.find_pickup() {
            Some((c, p)) => {
                proof {
                    assert(self@.after_pickups().players[p as int].score <= u32::MAX);
                }
                self.carrots.remove(c);
                let winner = &mut self.players[p];
                winner.score = winner.score + CARROT_VALUE;
                proof {
                    let before = old(self)@;
                    assert(self@.carrots =~= before.carrots.remove(c as int));
                    assert(self@.players =~= before.players.update(
                        p as int,
                        before.players[p as int].gaining(CARROT_VALUE as nat),
                    ));
                }
            },
            None => {},
        }
    }

    /// A handle on the player whose step it is. What the caller writes through
    /// it becomes that player; the rest of the board stays as it is.
    pub fn get_current_player(&mut self) -> (player: &mut Player)
        requires
            old(self).players.len() >= 1,
        ensures
            *player == old(self).players[old(self)@.current_index()],
            final(self).players@ == old(self).players@.update(
                old(self)@.current_index(),
                *final(player),
            ),
            final(self).steps == old(self).steps,
            final(self).carrots == old(self).carrots,
    {
        let index = self.current_player_index();
        &mut self.players[index]
    }
}

} // verus!
