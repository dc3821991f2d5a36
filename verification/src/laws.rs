//! Rules of the game that hold over whole sequences of steps.

use vstd::prelude::*;
use crate::entity::{Coordinate, Direction, BOARD_MAX};
use crate::model::{BoardModel, Command, TURN_LIMIT};

verus! {

/// A step from any square ends on the board.
pub proof fn lemma_step_stays_on_board(pos: Coordinate, direction: Direction)
    ensures
        pos.stepped(direction).in_bounds(),
{
}

/// Edge clamp: a step across an edge of the board leaves the square as it is.
/// From the left edge a step left, from the right edge a step right, from the
/// top edge a step up and from the bottom edge a step down change nothing.
pub proof fn lemma_edge_clamp(pos: Coordinate)
    requires
        pos.in_bounds(),
    ensures
        pos.x == 0 ==> pos.stepped(Direction::Left) == pos,
        pos.x == BOARD_MAX ==> pos.stepped(Direction::Right) == pos,
        pos.y == 0 ==> pos.stepped(Direction::Up) == pos,
        pos.y == BOARD_MAX ==> pos.stepped(Direction::Down) == pos,
{
}

/// Away from the edge it would cross, a step changes exactly one axis by one.
pub proof fn lemma_step_inside(pos: Coordinate)
    requires
        pos.in_bounds(),
    ensures
        pos.x > 0 ==> pos.stepped(Direction::Left) == (Coordinate {
            x: (pos.x - 1) as u8,
            y: pos.y,
        }),
        pos.x < BOARD_MAX ==> pos.stepped(Direction::Right) == (Coordinate {
            x: (pos.x + 1) as u8,
            y: pos.y,
        }),
        pos.y > 0 ==> pos.stepped(Direction::Up) == (Coordinate { x: pos.x, y: (pos.y - 1) as u8 }),
        pos.y < BOARD_MAX ==> pos.stepped(Direction::Down) == (Coordinate {
            x: pos.x,
            y: (pos.y + 1) as u8,
        }),
{
}

impl BoardModel {
    /// The player found on a square is the first one, in turn order, that
    /// stands on it; none is found exactly when no player stands on it.
    pub proof fn lemma_player_at_is_first(self, pos: Coordinate)
        ensures
            match self.player_at(pos) {
                Some(i) => {
                    &&& 0 <= i < self.players.len()
                    &&& self.players[i].position == pos
                    &&& forall|j: int| 0 <= j < i ==> self.players[j].position != pos
                },
                None => forall|j: int|
                    0 <= j < self.players.len() ==> self.players[j].position != pos,
            },
    {
        self.player_positions().index_of_first_ensures(pos);
        match self.player_at(pos) {
            Some(i) => {
                assert forall|j: int| 0 <= j < i implies self.players[j].position != pos by {
                    assert(self.player_positions()[j] != pos);
                }
            },
            None => {
                assert forall|j: int| 0 <= j < self.players.len() implies self.players[j].position
                    != pos by {
                    assert(self.player_positions()[j] == self.players[j].position);
                }
            },
        }
    }

    /// The carrot found on a square is the first one, in storage order, that
    /// lies on it; none is found exactly when no carrot lies on it.
    pub proof fn lemma_carrot_at_is_first(self, pos: Coordinate)
        ensures
            match self.carrot_at(pos) {
                Some(i) => {
                    &&& 0 <= i < self.carrots.len()
                    &&& self.carrots[i] == pos
                    &&& forall|j: int| 0 <= j < i ==> self.carrots[j] != pos
                },
                None => forall|j: int| 0 <= j < self.carrots.len() ==> self.carrots[j] != pos,
            },
    {
        self.carrots.index_of_first_ensures(pos);
    }

    /// The carrot that a pickup resolution takes is the first one, in storage
    /// order, that lies under a player; none is due exactly when the board is
    /// settled.
    pub proof fn lemma_claimed_carrot_is_first(self)
        ensures
            match self.claimed_carrot() {
                Some(c) => {
                    &&& 0 <= c < self.carrots.len()
                    &&& self.player_positions().contains(self.carrots[c])
                    &&& self.player_at(self.carrots[c]) is Some
                    &&& forall|k: int|
                        0 <= k < c ==> !self.player_positions().contains(self.carrots[k])
                },
                None => self.settled(),
            },
    {
        self.claimed().index_of_first_ensures(true);
        match self.claimed_carrot() {
            Some(c) => {
                self.player_positions().index_of_first_ensures(self.carrots[c]);
                assert forall|k: int| 0 <= k < c implies !self.player_positions().contains(
                    self.carrots[k],
                ) by {
                    assert(self.claimed()[k] != true);
                }
            },
            None => {
                assert forall|k: int| 0 <= k < self.carrots.len() implies
                    !self.player_positions().contains(#[trigger] self.carrots[k]) by {
                    if self.player_positions().contains(self.carrots[k]) {
                        assert(self.claimed()[k] == true);
                    }
                }
            },
        }
    }

    /// The player stolen from is the first one, in turn order, that is not
    /// the current player and stands at most `STEAL_RANGE` away; there is
    /// none exactly when no other player stands that close.
    pub proof fn lemma_steal_target_is_first(self)
        requires
            self.players.len() >= 1,
        ensures
            match self.steal_target() {
                Some(v) => {
                    &&& 0 <= v < self.players.len()
                    &&& self.can_steal_from(v)
                    &&& forall|j: int| 0 <= j < v ==> !self.can_steal_from(j)
                },
                None => forall|j: int| 0 <= j < self.players.len() ==> !self.can_steal_from(j),
            },
    {
        let reach = self.in_reach_of(self.current_index());
        reach.index_of_first_ensures(true);
        match self.steal_target() {
            Some(v) => {
                assert forall|j: int| 0 <= j < v implies !self.can_steal_from(j) by {
                    assert(reach[j] != true);
                }
            },
            None => {
                assert forall|j: int| 0 <= j < self.players.len() implies !self.can_steal_from(
                    j,
                ) by {
                    assert(reach[j] != true);
                }
            },
        }
    }

    /// The effect of a command keeps the number of players, the carrots and
    /// the step counter, and moves no player but the current one.
    pub proof fn lemma_effect_frame(self, command: Command)
        ensures
            self.after_effect(command).steps == self.steps,
            self.after_effect(command).carrots == self.carrots,
            self.after_effect(command).players.len() == self.players.len(),
            forall|j: int|
                0 <= j < self.players.len() && j != self.current_index() ==> (
                #[trigger] self.after_effect(command).players[j]).position
                    == self.players[j].position,
            command == Command::Steal ==> self.after_effect(command).player_positions()
                == self.player_positions(),
    {
        match command {
            Command::Move(direction) => {},
            Command::Steal => {
                match self.steal_target() {
                    None => {},
                    Some(v) => {
                        self.in_reach_of(self.current_index()).index_of_first_ensures(true);
                        assert(self.after_steal().player_positions() =~= self.player_positions());
                    },
                }
            },
        }
    }

    /// One full step keeps every player on the board.
    pub proof fn lemma_command_keeps_players_in_bounds(self, command: Command)
        requires
            self.players_in_bounds(),
        ensures
            self.after_command(command).players_in_bounds(),
    {
        let effect = self.after_effect(command);
        self.lemma_effect_frame(command);
        assert forall|j: int| 0 <= j < effect.players.len() implies
            (#[trigger] effect.players[j]).position.in_bounds() by {
            if j != self.current_index() {
                assert(self.players[j].position.in_bounds());
            } else {
                match command {
                    Command::Move(direction) => {
                        lemma_step_stays_on_board(self.players[j].position, direction);
                    },
                    Command::Steal => {
                        assert(effect.player_positions()[j] == self.player_positions()[j]);
                        assert(self.players[j].position.in_bounds());
                    },
                }
            }
        }
        effect.lemma_pickups_only_add();
        let resolved = effect.after_pickups();
        assert forall|j: int| 0 <= j < resolved.players.len() implies
            (#[trigger] resolved.players[j]).position.in_bounds() by {
            assert(resolved.player_positions()[j] == effect.player_positions()[j]);
            assert(effect.players[j].position.in_bounds());
        }
    }

    /// Bounds invariant: whatever commands are played, moves and steals
    /// alike, every player stays on the board.
    pub proof fn lemma_bounds_invariant(self, commands: Seq<Command>)
        requires
            self.players_in_bounds(),
        ensures
            self.after_commands(commands).players_in_bounds(),
        decreases commands.len(),
    {
        if commands.len() > 0 {
            self.lemma_bounds_invariant(commands.drop_last());
            self.after_commands(commands.drop_last()).lemma_command_keeps_players_in_bounds(
                commands.last(),
            );
        }
    }

    /// One full step keeps the board well formed.
    pub proof fn lemma_command_keeps_well_formed(self, command: Command)
        requires
            self.wf(),
        ensures
            self.after_command(command).wf(),
    {
        self.lemma_command_keeps_players_in_bounds(command);
        self.lemma_effect_frame(command);
        self.after_effect(command).lemma_pickups_keep_carrots_apart();
    }

    /// Whatever commands are played, the board stays well formed: players and
    /// carrots on the board, no two carrots on one square.
    pub proof fn lemma_commands_keep_well_formed(self, commands: Seq<Command>)
        requires
            self.wf(),
        ensures
            self.after_commands(commands).wf(),
        decreases commands.len(),
    {
        if commands.len() > 0 {
            self.lemma_commands_keep_well_formed(commands.drop_last());
            self.after_commands(commands.drop_last()).lemma_command_keeps_well_formed(
                commands.last(),
            );
        }
    }

    /// Where no carrot lay under a player before a full step and no two
    /// carrots shared a square, no carrot lies under a player after it: the
    /// one carrot that the current player may have walked onto is picked up
    /// in the same step.
    pub proof fn lemma_command_keeps_settled(self, command: Command)
        requires
            self.carrots.no_duplicates(),
            self.settled(),
        ensures
            self.after_command(command).settled(),
    {
        let effect = self.after_effect(command);
        let resolved = effect.after_pickups();
        let mover = self.current_index();
        self.lemma_effect_frame(command);
        effect.lemma_pickups_only_add();
        // A carrot under a player of `effect` lies under the current player, after a move.
        assert forall|k: int, j: int|
            0 <= k < effect.carrots.len() && 0 <= j < effect.players.len()
                && effect.players[j].position == effect.carrots[k] implies j == mover && command
            != Command::Steal by {
            if j != mover {
                assert(self.player_positions()[j] == self.carrots[k]);
                assert(self.player_positions().contains(self.carrots[k]));
            } else if command == Command::Steal {
                assert(effect.player_positions()[j] == self.player_positions()[j]);
                assert(self.player_positions()[j] == self.carrots[k]);
                assert(self.player_positions().contains(self.carrots[k]));
            }
        }
        match effect.claimed_carrot() {
            None => {
                effect.claimed().index_of_first_ensures(true);
                assert forall|k: int| 0 <= k < effect.carrots.len() implies
                    !effect.player_positions().contains(#[trigger] effect.carrots[k]) by {
                    if effect.player_positions().contains(effect.carrots[k]) {
                        assert(effect.claimed()[k] == true);
                        assert(effect.claimed().contains(true));
                    }
                }
            },
            Some(c) => {
                effect.claimed().index_of_first_ensures(true);
                assert(effect.claimed()[c] == true);
                assert(effect.player_positions().contains(effect.carrots[c]));
                let holder = choose|j: int|
                    0 <= j < effect.player_positions().len() && effect.player_positions()[j]
                        == effect.carrots[c];
                assert(effect.players[holder].position == effect.carrots[c]);
                assert(holder == mover);
                assert forall|k: int| 0 <= k < resolved.carrots.len() implies
                    !resolved.player_positions().contains(#[trigger] resolved.carrots[k]) by {
                    let from = if k < c { k } else { k + 1 };
                    assert(resolved.carrots[k] == effect.carrots[from]);
                    if effect.player_positions().contains(effect.carrots[from]) {
                        let other = choose|j: int|
                            0 <= j < effect.player_positions().len() && effect.player_positions()[j]
                                == effect.carrots[from];
                        assert(effect.players[other].position == effect.carrots[from]);
                        assert(other == mover);
                        assert(effect.carrots[from] == effect.carrots[c]);
                    }
                }
            },
        }
        assert(resolved.advanced().player_positions() == resolved.player_positions());
    }

    /// From a set-up board on, no carrot is ever left lying under a player
    /// between two steps.
    pub proof fn lemma_commands_keep_settled(self, commands: Seq<Command>)
        requires
            self.wf(),
            self.settled(),
        ensures
            self.after_commands(commands).settled(),
            self.after_commands(commands).wf(),
        decreases commands.len(),
    {
        if commands.len() > 0 {
            self.lemma_commands_keep_settled(commands.drop_last());
            let before = self.after_commands(commands.drop_last());
            before.lemma_command_keeps_settled(commands.last());
            before.lemma_command_keeps_well_formed(commands.last());
        }
    }

    /// Every command advances the step counter by exactly one and keeps the
    /// number of players.
    pub proof fn lemma_steps_count_commands(self, commands: Seq<Command>)
        ensures
            self.after_commands(commands).steps == self.steps + commands.len(),
            self.after_commands(commands).players.len() == self.players.len(),
        decreases commands.len(),
    {
        if commands.len() > 0 {
            self.lemma_steps_count_commands(commands.drop_last());
            let before = self.after_commands(commands.drop_last());
            before.lemma_effect_frame(commands.last());
            before.after_effect(commands.last()).lemma_pickups_only_add();
        }
    }

    /// Turn derivation: after `k` commands of a game that started at step 0
    /// with `n` players, `k / n` turns are completed and it is the step of
    /// the player at index `k % n`.
    pub proof fn lemma_turn_rotation(self, commands: Seq<Command>)
        requires
            self.steps == 0,
            self.players.len() >= 1,
        ensures
            self.after_commands(commands).current_turn() == commands.len() / self.players.len(),
            self.after_commands(commands).current_index() == commands.len() % self.players.len(),
    {
        self.lemma_steps_count_commands(commands);
    }

    /// Length of a game: started at step 0 with `n` players, the game is
    /// over after `TURN_LIMIT * n` commands and not before.
    pub proof fn lemma_game_length(self, commands: Seq<Command>)
        requires
            self.steps == 0,
            self.players.len() >= 1,
        ensures
            self.after_commands(commands).finished() <==> commands.len() >= TURN_LIMIT
                * self.players.len(),
    {
        self.lemma_steps_count_commands(commands);
        let k = commands.len() as int;
        let n = self.players.len() as int;
        assert((k / n >= 100) <==> (k >= 100 * n)) by (nonlinear_arith)
            requires
                n >= 1,
                k >= 0,
        ;
    }
}

} // verus!
