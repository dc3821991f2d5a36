//! The turn engine: one command of the current player at a time.

use vstd::prelude::*;
use crate::board::Board;
use crate::entity::{Carrot, Coordinate, Player, PlayerModel, BOARD_AREA, BOARD_MAX};
use crate::model::{Command, STEAL_LIMIT, STEAL_RANGE, TURN_LIMIT};
use crate::seq_facts::{lemma_first_occurrence, lemma_no_occurrence};

verus! {

/// Number of carrots spawned when a game is set up.
pub const INITIAL_CARROTS: usize = 4;

impl Board {
    /// A board set up for two players in opposite corners, at step 0 and
    /// without carrots.
    pub fn new_game(first: String, second: String) -> (board: Board)
        ensures
            board@.steps == 0,
            board@.players == seq![
                PlayerModel { name: first@, position: Coordinate { x: 0, y: 0 }, score: 0 },
                PlayerModel {
                    name: second@,
                    position: Coordinate { x: BOARD_MAX, y: BOARD_MAX },
                    score: 0,
                },
            ],
            board@.carrots == Seq::<Coordinate>::empty(),
            board@.wf(),
            board@.settled(),
    {
        let mut players: Vec<Player> = Vec::new();
        players.push(Player::new(first, Coordinate { x: 0, y: 0 }));
        players.push(Player::new(second, Coordinate { x: BOARD_MAX, y: BOARD_MAX }));
        let board = Board { steps: 0, players, carrots: Vec::new() };
        proof {
            assert(board.players@.len() == 2);
            assert(board@.players[0] == board.players@[0]@);
            assert(board@.players[1] == board.players@[1]@);
            assert(board@.players =~= seq![
                PlayerModel { name: first@, position: Coordinate { x: 0, y: 0 }, score: 0 },
                PlayerModel {
                    name: second@,
                    position: Coordinate { x: BOARD_MAX, y: BOARD_MAX },
                    score: 0,
                },
            ]);
            assert(board@.carrots =~= Seq::empty());
        }
        board
    }

    /// Sets a game up: two players in opposite corners and `INITIAL_CARROTS`
    /// carrots on free squares drawn at random.
    pub fn set_up(first: String, second: String) -> (board: Board)
        ensures
            board@.steps == 0,
            board@.players == seq![
                PlayerModel { name: first@, position: Coordinate { x: 0, y: 0 }, score: 0 },
                PlayerModel {
                    name: second@,
                    position: Coordinate { x: BOARD_MAX, y: BOARD_MAX },
                    score: 0,
                },
            ],
            board@.carrots.len() == INITIAL_CARROTS,
            board@.wf(),
            board@.settled(),
    {
        let mut board = Board::new_game(first, second);
        board.spawn_carrots(INITIAL_CARROTS);
        board
    }

    /// Spawns `count` carrots, each on a free square drawn at random, and
    /// returns how many were placed: all of them, unless the board became
    /// saturated before.
    ///
    /// The carrots that were there stay where they are, in their order; each
    /// new one lies on a square of the board that was free when it was placed.
    pub fn spawn_carrots(&mut self, count: usize) -> (spawned: usize)
        ensures
            spawned <= count,
            spawned < count ==> final(self)@.saturated(),
            old(self)@.players.len() + old(self)@.carrots.len() + count <= BOARD_AREA ==> spawned
                == count,
            final(self)@.steps == old(self)@.steps,
            final(self)@.players == old(self)@.players,
            final(self)@.carrots.len() == old(self)@.carrots.len() + spawned,
            final(self)@.carrots.subrange(0, old(self)@.carrots.len() as int) == old(self)@.carrots,
            forall|k: int|
                old(self)@.carrots.len() <= k < final(self)@.carrots.len() ==> {
                    &&& (#[trigger] final(self)@.carrots[k]).in_bounds()
                    &&& !old(self)@.occupied(final(self)@.carrots[k])
                },
            old(self)@.carrots.no_duplicates() ==> final(self)@.carrots.no_duplicates(),
            old(self)@.wf() ==> final(self)@.wf(),
            old(self)@.settled() ==> final(self)@.settled(),
    {
        let mut spawned: usize = 0;
        while spawned < count
            invariant
                spawned <= count,
                self@.steps == old(self)@.steps,
                self@.players == old(self)@.players,
                self@.carrots.len() == old(self)@.carrots.len() + spawned,
                self@.carrots.subrange(0, old(self)@.carrots.len() as int) == old(self)@.carrots,
                forall|k: int|
                    old(self)@.carrots.len() <= k < self@.carrots.len() ==> {
                        &&& (#[trigger] self@.carrots[k]).in_bounds()
                        &&& !old(self)@.occupied(self@.carrots[k])
                    },
                old(self)@.carrots.no_duplicates() ==> self@.carrots.no_duplicates(),
                old(self)@.wf() ==> self@.wf(),
                old(self)@.settled() ==> self@.settled(),
            decreases count - spawned,
        {
            let ghost before = self@;
            proof {
                if old(self)@.players.len() + old(self)@.carrots.len() + count <= BOARD_AREA {
                    before.lemma_room_left();
                }
            }
            match Carrot::spawn_carrot(self) {
                Some(pos) => {
                    proof {
                        assert(self@.carrots.subrange(0, old(self)@.carrots.len() as int)
                            =~= before.carrots.subrange(0, old(self)@.carrots.len() as int));
                        assert forall|k: int| 0 <= k < old(self)@.carrots.len() implies old(
                            self,
                        )@.carrots[k] == before.carrots[k] by {
                            assert(before.carrots.subrange(0, old(self)@.carrots.len() as int)[k]
                                == before.carrots[k]);
                        }
                        if old(self)@.carrots.contains(pos) {
                            let k = choose|k: int|
                                0 <= k < old(self)@.carrots.len() && old(self)@.carrots[k] == pos;
                            assert(before.carrots[k] == pos);
                            assert(before.carrots.contains(pos));
                        }
                    }
                    spawned += 1;
                },
                None => {
                    return spawned;
                },
            }
        }
        spawned
    }

    /// Index of the player the current player can steal from: the first one,
    /// in turn order, that is another player at most `STEAL_RANGE` away.
    pub fn find_steal_target(&self) -> (found: Option<usize>)
        requires
            self.players.len() >= 1,
        ensures
            match found {
                Some(v) => {
                    &&& v < self.players.len()
                    &&& v != self@.current_index()
                    &&& self@.steal_target() == Some(v as int)
                },
                None => self@.steal_target() is None,
            },
    {
        let thief = self.current_player_index();
        let here = self.players[thief].position;
        let mut i: usize = 0;
        while i < self.players.len()
            invariant
                i <= self.players.len(),
                thief < self.players.len(),
                thief == self@.current_index(),
                here == self.players[thief as int].position,
                forall|j: int| 0 <= j < i ==> self@.in_reach_of(thief as int)[j] != true,
            decreases self.players.len() - i,
        {
            if i != thief && self.players[i].position.distance(here) <= STEAL_RANGE {
                proof {
                    lemma_first_occurrence(self@.in_reach_of(thief as int), true, i as int);
                }
                return Some(i);
            }
            i += 1;
        }
        proof {
            lemma_no_occurrence(self@.in_reach_of(thief as int), true);
        }
        None
    }

    /// The current player steals: up to `STEAL_LIMIT` points move to it from
    /// the first other player in reach, who keeps what is left. Without a
    /// player in reach nothing changes.
    pub fn steal(&mut self)
        requires
            old(self).players.len() >= 1,
            old(self)@.after_steal().representable(),
        ensures
            final(self)@ == old(self)@.after_steal(),
    {
        match self.find_steal_target() {
            None => {},
            Some(v) => {
                let thief = self.current_player_index();
                let ghost before = self@;
                let available: u32 = self.players[v].score;
                let taken: u32 = if available < STEAL_LIMIT {
                    available
                } else {
                    STEAL_LIMIT
                };
                proof {
                    assert(taken == before.loot(v as int));
                    assert(before.after_steal().players[thief as int].score <= u32::MAX);
                }
                let victim = &mut self.players[v];
                victim.score = available - taken;
                let winner = &mut self.players[thief];
                winner.score = winner.score + taken;
                proof {
                    assert(self@.players =~= before.players.update(
                        v as int,
                        before.players[v as int].losing(taken as nat),
                    ).update(thief as int, before.players[thief as int].gaining(taken as nat)));
                    assert(self@.carrots =~= before.carrots);
                }
            },
        }
    }

    /// Takes one full step of the game: the command takes effect on the
    /// current player, one pickup is resolved, and the step counter advances
    /// by one.
    ///
    /// A move across an edge and a steal without a player in reach change
    /// nothing but the step counter; neither is an error.
    pub fn apply_command(&mut self, command: Command)
        requires
            old(self).players.len() >= 1,
            old(self)@.after_command(command).representable(),
        ensures
            final(self)@ == old(self)@.after_command(command),
            old(self)@.wf() ==> final(self)@.wf(),
            old(self)@.wf() && old(self)@.settled() ==> final(self)@.settled(),
    {
        proof {
            if old(self)@.wf() {
                old(self)@.lemma_command_keeps_well_formed(command);
                if old(self)@.settled() {
                    old(self)@.lemma_command_keeps_settled(command);
                }
            }
            let effect = old(self)@.after_effect(command);
            let resolved = effect.after_pickups();
            effect.lemma_pickups_only_add();
            assert(resolved.advanced().representable());
            assert forall|i: int| 0 <= i < resolved.players.len() implies
                (#[trigger] resolved.players[i]).score <= u32::MAX by {
                assert(resolved.advanced().players[i].score <= u32::MAX);
            }
            assert(resolved.representable());
            assert forall|i: int| 0 <= i < effect.players.len() implies
                (#[trigger] effect.players[i]).score <= u32::MAX by {
                assert(resolved.players[i].score >= effect.players[i].score);
            }
            assert(effect.representable());
        }
        match command {
            Command::Move(direction) => {
                let ghost before = self@;
                let player = self.get_current_player();
                player.walk(direction);
                proof {
                    assert(self@.players =~= before.after_move(direction).players);
                    assert(self@.carrots =~= before.carrots);
                }
            },
            Command::Steal => {
                self.steal();
            },
        }
        self.check_for_pickups();
        self.steps = self.steps + 1;
    }

    /// Takes one full step of the game if every number of the outcome fits
    /// its machine type, and tells whether it did. A board without players
    /// takes no step. Where no step is taken the board stays as it is.
    pub fn try_apply_command(&mut self, command: Command) -> (applied: bool)
        ensures
            applied == (old(self).players.len() >= 1 && old(self)@.after_command(
                command,
            ).representable()),
            applied ==> final(self)@ == old(self)@.after_command(command),
            !applied ==> final(self)@ == old(self)@,
            old(self)@.wf() ==> final(self)@.wf(),
            old(self)@.wf() && old(self)@.settled() ==> final(self)@.settled(),
    {
        proof {
            if old(self)@.wf() {
                old(self)@.lemma_command_keeps_well_formed(command);
                if old(self)@.settled() {
                    old(self)@.lemma_command_keeps_settled(command);
                }
            }
        }
        if self.players.len() == 0 {
            return false;
        }
        let ghost before = self@;
        let ghost effect = before.after_effect(command);
        let ghost resolved = effect.after_pickups();
        proof {
            before.lemma_effect_frame(command);
            effect.lemma_pickups_only_add();
            assert forall|j: int| 0 <= j < before.players.len() implies
                (#[trigger] before.players[j]).score <= u32::MAX by {
                assert(before.players[j] == self.players@[j]@);
            }
        }
        if self.steps == u64::MAX {
            proof {
                assert(resolved.advanced().steps > u64::MAX);
            }
            return false;
        }
        let index = self.current_player_index();
        let origin = self.players[index].position;
        let own_score: u32 = self.players[index].score;
        let mut robbed: Option<(usize, u32)> = None;
        match command {
            Command::Move(direction) => {
                let player = self.get_current_player();
                player.walk(direction);
                proof {
                    assert(self@.players =~= effect.players);
                    assert(self@.carrots =~= effect.carrots);
                }
            },
            Command::Steal => {
                match self.find_steal_target() {
                    None => {},
                    Some(v) => {
                        let available: u32 = self.players[v].score;
                        let taken: u32 = if available < STEAL_LIMIT {
                            available
                        } else {
                            STEAL_LIMIT
                        };
                        proof {
                            assert(taken == before.loot(v as int));
                            assert(effect.players[index as int].score == own_score + taken);
                        }
                        if own_score > u32::MAX - taken {
                            proof {
                                assert(resolved.players[index as int].score
                                    >= effect.players[index as int].score);
                                assert(resolved.advanced().players[index as int].score > u32::MAX);
                            }
                            return false;
                        }
                        proof {
                            assert forall|j: int| 0 <= j < effect.players.len() implies
                                (#[trigger] effect.players[j]).score <= u32::MAX by {
                                assert(before.players[j].score <= u32::MAX);
                            }
                        }
                        robbed = Some((v, available));
                        self.steal();
                    },
                }
            },
        }
        assert(self@ == effect);
        let ghost mid = self.players@;
        let fits = match self.find_pickup() {
            Some((_, p)) => self.players[p].score < u32::MAX,
            None => true,
        };
        if !fits {
            let player = &mut self.players[index];
            player.position = origin;
            player.score = own_score;
            match robbed {
                Some((v, score)) => {
                    let victim = &mut self.players[v];
                    victim.score = score;
                },
                None => {},
            }
            proof {
                let p = effect.player_at(effect.carrots[effect.claimed_carrot().unwrap()]).unwrap();
                assert(resolved.advanced().players[p].score > u32::MAX);
                assert(self@.players.len() == before.players.len());
                assert forall|j: int| 0 <= j < before.players.len() implies self@.players[j]
                    == before.players[j] by {
                    assert(self@.players[j] == self.players@[j]@);
                    assert(effect.players[j] == mid[j]@);
                    assert(before.players[j].name == effect.players[j].name);
                    if j == index {
                        assert(self.players@[j].name == mid[j].name);
                    } else if robbed is Some && j == robbed.unwrap().0 {
                        assert(self.players@[j].name == mid[j].name);
                        assert(self.players@[j].position == mid[j].position);
                    } else {
                        assert(self.players@[j] == mid[j]);
                    }
                }
                assert(self@.players =~= before.players);
                assert(self@.carrots =~= before.carrots);
            }
            return false;
        }
        proof {
            assert forall|j: int| 0 <= j < resolved.players.len() implies
                (#[trigger] resolved.players[j]).score <= u32::MAX by {
                assert(effect.players[j] == self.players@[j]@);
            }
        }
        self.check_for_pickups();
        self.steps = self.steps + 1;
        true
    }

    /// Tells whether at least `limit` full turns are completed.
    pub fn has_reached_turn(&self, limit: u64) -> (reached: bool)
        requires
            self.players.len() >= 1,
        ensures
            reached == (self@.current_turn() >= limit),
    {
        self.get_current_turn() >= limit
    }

    /// Tells whether the game is over: `TURN_LIMIT` full turns are completed.
    pub fn is_finished(&self) -> (finished: bool)
        requires
            self.players.len() >= 1,
        ensures
            finished == self@.finished(),
    {
        self.has_reached_turn(TURN_LIMIT)
    }

    /// Number of full turns still to play; 0 once the game is over.
    pub fn turns_left(&self) -> (left: u64)
        requires
            self.players.len() >= 1,
        ensures
            left == if self@.finished() {
                0
            } else {
                TURN_LIMIT - self@.current_turn()
            },
    {
        let turn = self.get_current_turn();
        if turn >= TURN_LIMIT {
            0
        } else {
            TURN_LIMIT - turn
        }
    }
}

} // verus!
