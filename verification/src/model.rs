//! The board as a mathematical value, and the rules of the game as functions on it.

use vstd::prelude::*;
use vstd::relations::injective_on;
use vstd::set_lib::{lemma_int_range, lemma_len_subset, lemma_map_size, set_int_range};
use crate::entity::{Coordinate, Direction, PlayerModel, BOARD_AREA, BOARD_MAX, CARROT_VALUE};

verus! {

/// Number of full turns after which the game is over.
pub const TURN_LIMIT: u64 = 100;

/// Largest distance over which a player can steal.
pub const STEAL_RANGE: u8 = 3;

/// Most points one steal can take.
pub const STEAL_LIMIT: u32 = 5;

/// An action of the player whose step it is.
#[derive(Clone, Copy, Debug, PartialEq, Eq, Structural)]
pub enum Command {
    Move(Direction),
    Steal,
}

/// The square with the number `i`, counting row by row from the top left.
pub open spec fn square(i: int) -> Coordinate {
    Coordinate { x: (i % (BOARD_MAX + 1)) as u8, y: (i / (BOARD_MAX + 1)) as u8 }
}

/// The state of a game: the step counter, the players in turn order, and the
/// squares on which carrots lie, in storage order.
pub struct BoardModel {
    pub steps: nat,
    pub players: Seq<PlayerModel>,
    pub carrots: Seq<Coordinate>,
}

impl BoardModel {
    /// The squares the players stand on, in turn order.
    pub open spec fn player_positions(self) -> Seq<Coordinate> {
        self.players.map_values(|p: PlayerModel| p.position)
    }

    /// Every player is on the board.
    pub open spec fn players_in_bounds(self) -> bool {
        forall|i: int|
            0 <= i < self.players.len() ==> (#[trigger] self.players[i]).position.in_bounds()
    }

    /// Every carrot is on the board.
    pub open spec fn carrots_in_bounds(self) -> bool {
        forall|i: int| 0 <= i < self.carrots.len() ==> (#[trigger] self.carrots[i]).in_bounds()
    }

    /// Well-formedness: everything is on the board and no two carrots share a square.
    pub open spec fn wf(self) -> bool {
        &&& self.players_in_bounds()
        &&& self.carrots_in_bounds()
        &&& self.carrots.no_duplicates()
    }

    /// No carrot lies on a square on which a player stands.
    pub open spec fn settled(self) -> bool {
        forall|c: int| 0 <= c < self.carrots.len() ==> !self.player_positions().contains(
            #[trigger] self.carrots[c],
        )
    }

    /// Index of the first player, in turn order, standing on `pos`.
    pub open spec fn player_at(self, pos: Coordinate) -> Option<int> {
        self.player_positions().index_of_first(pos)
    }

    /// Index of the first carrot, in storage order, lying on `pos`.
    pub open spec fn carrot_at(self, pos: Coordinate) -> Option<int> {
        self.carrots.index_of_first(pos)
    }

    /// A player stands or a carrot lies on `pos`.
    pub open spec fn occupied(self, pos: Coordinate) -> bool {
        self.player_positions().contains(pos) || self.carrots.contains(pos)
    }

    /// Every square of the board is occupied.
    pub open spec fn saturated(self) -> bool {
        forall|pos: Coordinate| pos.in_bounds() ==> self.occupied(pos)
    }

    /// Number of completed rotations through all players.
    pub open spec fn current_turn(self) -> nat
        recommends
            self.players.len() > 0,
    {
        self.steps / self.players.len()
    }

    /// Index of the player whose step it is.
    pub open spec fn current_index(self) -> int
        recommends
            self.players.len() > 0,
    {
        (self.steps % self.players.len()) as int
    }

    /// The turn budget is used up.
    pub open spec fn finished(self) -> bool
        recommends
            self.players.len() > 0,
    {
        self.current_turn() >= TURN_LIMIT
    }

    /// Every number of the board fits the machine type that holds it.
    pub open spec fn representable(self) -> bool {
        &&& self.steps <= u64::MAX
        &&& forall|i: int|
            0 <= i < self.players.len() ==> (#[trigger] self.players[i]).score <= u32::MAX
    }

    /// For each carrot, whether a player stands on it.
    pub open spec fn claimed(self) -> Seq<bool> {
        self.carrots.map_values(|c: Coordinate| self.player_positions().contains(c))
    }

    /// Index of the first carrot on which a player stands.
    pub open spec fn claimed_carrot(self) -> Option<int> {
        self.claimed().index_of_first(true)
    }

    /// The board after one pickup resolution: the first claimed carrot is gone
    /// and the first player standing on it has scored; nothing else changes.
    /// Without a claimed carrot the board stays as it is.
    pub open spec fn after_pickups(self) -> BoardModel {
        match self.claimed_carrot() {
            None => self,
            Some(c) => {
                let p = self.player_at(self.carrots[c]).unwrap();
                BoardModel {
                    steps: self.steps,
                    players: self.players.update(p, self.players[p].gaining(CARROT_VALUE as nat)),
                    carrots: self.carrots.remove(c),
                }
            },
        }
    }

    /// A pickup resolution keeps the players' number, names and squares, and
    /// takes no point away.
    pub proof fn lemma_pickups_only_add(self)
        ensures
            self.after_pickups().steps == self.steps,
            self.after_pickups().players.len() == self.players.len(),
            self.after_pickups().player_positions() == self.player_positions(),
            forall|i: int|
                0 <= i < self.players.len() ==> {
                    &&& (#[trigger] self.after_pickups().players[i]).name == self.players[i].name
                    &&& self.after_pickups().players[i].score >= self.players[i].score
                },
    {
        match self.claimed_carrot() {
            None => {},
            Some(c) => {
                self.claimed().index_of_first_ensures(true);
                self.player_positions().index_of_first_ensures(self.carrots[c]);
                assert(self.after_pickups().player_positions() =~= self.player_positions());
            },
        }
    }

    /// A pickup resolution keeps the carrots on the board and apart.
    pub proof fn lemma_pickups_keep_carrots_apart(self)
        ensures
            self.carrots_in_bounds() ==> self.after_pickups().carrots_in_bounds(),
            self.carrots.no_duplicates() ==> self.after_pickups().carrots.no_duplicates(),
            self.after_pickups().carrots.len() <= self.carrots.len(),
    {
        match self.claimed_carrot() {
            None => {},
            Some(c) => {
                self.claimed().index_of_first_ensures(true);
                let left = self.carrots.remove(c);
                assert forall|k: int| 0 <= k < left.len() implies left[k] == self.carrots[if k
                    < c {
                    k
                } else {
                    k + 1
                }] by {}
                if self.carrots_in_bounds() {
                    assert forall|k: int| 0 <= k < left.len() implies
                        (#[trigger] left[k]).in_bounds() by {
                        assert(self.carrots[if k < c { k } else { k + 1 }].in_bounds());
                    }
                }
            },
        }
    }

    /// The board with a new carrot on `pos`, stored last.
    pub open spec fn with_carrot(self, pos: Coordinate) -> BoardModel {
        BoardModel { steps: self.steps, players: self.players, carrots: self.carrots.push(pos) }
    }

    /// A board with fewer players and carrots than squares has a free square.
    pub proof fn lemma_room_left(self)
        requires
            self.players.len() + self.carrots.len() < BOARD_AREA,
        ensures
            !self.saturated(),
    {
        if self.saturated() {
            let taken = self.player_positions() + self.carrots;
            let numbers = set_int_range(0, BOARD_AREA as int);
            let number_to_square = |i: int| square(i);
            let squares = numbers.map(number_to_square);
            lemma_int_range(0, BOARD_AREA as int);
            assert(injective_on(number_to_square, numbers)) by {
                assert forall|i: int, j: int|
                    numbers.contains(i) && numbers.contains(j) && #[trigger] number_to_square(i)
                        == #[trigger] number_to_square(j) implies i == j by {
                    assert(square(i).x == i % 16 && square(i).y == i / 16);
                    assert(square(j).x == j % 16 && square(j).y == j / 16);
                }
            }
            lemma_map_size(numbers, squares, number_to_square);
            assert(squares.subset_of(taken.to_set())) by {
                assert forall|pos: Coordinate| squares.contains(pos) implies
                    taken.to_set().contains(pos) by {
                    let i = choose|i: int| numbers.contains(i) && pos == number_to_square(i);
                    assert(pos == square(i));
                    assert(pos.in_bounds());
                    assert(self.occupied(pos));
                    if self.player_positions().contains(pos) {
                        let k = choose|k: int|
                            0 <= k < self.player_positions().len() && self.player_positions()[k]
                                == pos;
                        assert(taken[k] == pos);
                    } else {
                        let k = choose|k: int|
                            0 <= k < self.carrots.len() && self.carrots[k] == pos;
                        assert(taken[self.player_positions().len() + k] == pos);
                    }
                    assert(taken.contains(pos));
                }
            }
            vstd::seq_lib::seq_to_set_is_finite(taken);
            lemma_len_subset(squares, taken.to_set());
            taken.lemma_cardinality_of_set();
        }
    }

    /// A carrot placed on a free square of the board keeps the board well
    /// formed and keeps every carrot off the players' squares.
    pub proof fn lemma_with_carrot_keeps_invariants(self, pos: Coordinate)
        requires
            pos.in_bounds(),
            !self.occupied(pos),
        ensures
            self.wf() ==> self.with_carrot(pos).wf(),
            self.carrots.no_duplicates() ==> self.with_carrot(pos).carrots.no_duplicates(),
            self.settled() ==> self.with_carrot(pos).settled(),
    {
        let after = self.with_carrot(pos);
        assert(after.player_positions() == self.player_positions());
        assert forall|i: int| 0 <= i < self.carrots.len() implies self.carrots[i] != pos by {
            assert(self.carrots.contains(self.carrots[i]));
        }
    }

    /// The board after the current player walked one step in `direction`.
    /// A board without players stays as it is.
    pub open spec fn after_move(self, direction: Direction) -> BoardModel {
        if self.players.len() == 0 {
            self
        } else {
            let i = self.current_index();
            BoardModel {
                steps: self.steps,
                players: self.players.update(i, self.players[i].moved(direction)),
                carrots: self.carrots,
            }
        }
    }

    /// The player at index `thief` can steal from the one at index `victim`:
    /// it is another player, at most `STEAL_RANGE` away in Chebyshev distance.
    pub open spec fn in_reach(self, thief: int, victim: int) -> bool {
        victim != thief && self.players[victim].position.spec_distance(
            self.players[thief].position,
        ) <= STEAL_RANGE
    }

    /// The current player can steal from the player at index `victim`.
    pub open spec fn can_steal_from(self, victim: int) -> bool {
        self.in_reach(self.current_index(), victim)
    }

    /// For each player, whether the player at index `thief` can steal from it.
    pub open spec fn in_reach_of(self, thief: int) -> Seq<bool> {
        Seq::new(self.players.len(), |i: int| self.in_reach(thief, i))
    }

    /// Index of the player the current player steals from: the first one in reach.
    pub open spec fn steal_target(self) -> Option<int> {
        if self.players.len() == 0 {
            None
        } else {
            self.in_reach_of(self.current_index()).index_of_first(true)
        }
    }

    /// Points that change hands when stealing from the player at index `victim`.
    pub open spec fn loot(self, victim: int) -> nat {
        if self.players[victim].score < STEAL_LIMIT as nat {
            self.players[victim].score
        } else {
            STEAL_LIMIT as nat
        }
    }

    /// The board after the current player stole: up to `STEAL_LIMIT` points move
    /// from the target to the current player, and the target keeps what is left.
    /// Without a target in reach the board stays as it is.
    pub open spec fn after_steal(self) -> BoardModel {
        match self.steal_target() {
            None => self,
            Some(v) => {
                let i = self.current_index();
                let taken = self.loot(v);
                BoardModel {
                    steps: self.steps,
                    players: self.players.update(v, self.players[v].losing(taken)).update(
                        i,
                        self.players[i].gaining(taken),
                    ),
                    carrots: self.carrots,
                }
            },
        }
    }

    /// The board after the effect of `command` on the current player alone.
    pub open spec fn after_effect(self, command: Command) -> BoardModel {
        match command {
            Command::Move(direction) => self.after_move(direction),
            Command::Steal => self.after_steal(),
        }
    }

    /// The board with the step counter advanced by one.
    pub open spec fn advanced(self) -> BoardModel {
        BoardModel { steps: self.steps + 1, players: self.players, carrots: self.carrots }
    }

    /// The board after one full step: the command takes effect, one pickup is
    /// resolved, and the step counter advances by one.
    pub open spec fn after_command(self, command: Command) -> BoardModel {
        self.after_effect(command).after_pickups().advanced()
    }

    /// The board after the given commands, each a full step, in order.
    pub open spec fn after_commands(self, commands: Seq<Command>) -> BoardModel
        decreases commands.len(),
    {
        if commands.len() == 0 {
            self
        } else {
            self.after_commands(commands.drop_last()).after_command(commands.last())
        }
    }
}

} // verus!
