use garden_bash::board::Board;
use garden_bash::engine::INITIAL_CARROTS;
use garden_bash::entity::{Carrot, Coordinate, Direction, Player};
use garden_bash::model::{Command, STEAL_LIMIT, STEAL_RANGE, TURN_LIMIT};

fn at(x: u8, y: u8) -> Coordinate {
    Coordinate { x, y }
}

fn player(name: &str, x: u8, y: u8, score: u32) -> Player {
    Player { name: String::from(name), position: at(x, y), score }
}

fn carrot(x: u8, y: u8) -> Carrot {
    Carrot { position: at(x, y) }
}

#[test]
fn game_constants() {
    assert_eq!(TURN_LIMIT, 100);
    assert_eq!(STEAL_RANGE, 3);
    assert_eq!(STEAL_LIMIT, 5);
    assert_eq!(INITIAL_CARROTS, 4);
}

#[test]
fn new_game_puts_the_players_in_opposite_corners() {
    let board = Board::new_game(String::from("1"), String::from("2"));
    assert_eq!(board.steps, 0);
    assert_eq!(board.players, vec![player("1", 0, 0, 0), player("2", 15, 15, 0)]);
    assert!(board.carrots.is_empty());
}

#[test]
fn move_command_moves_the_current_player_and_advances_the_step() {
    let mut board = Board::new_game(String::from("1"), String::from("2"));
    board.apply_command(Command::Move(Direction::Right));
    assert_eq!(board.steps, 1);
    assert_eq!(board.players, vec![player("1", 1, 0, 0), player("2", 15, 15, 0)]);
    board.apply_command(Command::Move(Direction::Up));
    assert_eq!(board.steps, 2);
    assert_eq!(board.players, vec![player("1", 1, 0, 0), player("2", 15, 14, 0)]);
}

#[test]
fn move_across_an_edge_only_advances_the_step() {
    let mut board = Board::new_game(String::from("1"), String::from("2"));
    board.apply_command(Command::Move(Direction::Left));
    board.apply_command(Command::Move(Direction::Down));
    assert_eq!(board.steps, 2);
    assert_eq!(board.players, vec![player("1", 0, 0, 0), player("2", 15, 15, 0)]);
}

#[test]
fn move_onto_a_carrot_picks_it_up_in_the_same_step() {
    let mut board = Board {
        steps: 0,
        players: vec![player("a", 4, 5, 0), player("b", 9, 9, 0)],
        carrots: vec![carrot(1, 1), carrot(5, 5)],
    };
    board.apply_command(Command::Move(Direction::Right));
    assert_eq!(board.players, vec![player("a", 5, 5, 1), player("b", 9, 9, 0)]);
    assert_eq!(board.carrots, vec![carrot(1, 1)]);
    assert_eq!(board.steps, 1);
}

#[test]
fn steal_takes_five_points_from_a_player_in_reach() {
    let mut board = Board {
        steps: 0,
        players: vec![player("a", 5, 5, 2), player("b", 8, 7, 12)],
        carrots: vec![],
    };
    assert_eq!(board.find_steal_target(), Some(1));
    board.apply_command(Command::Steal);
    assert_eq!(board.players, vec![player("a", 5, 5, 7), player("b", 8, 7, 7)]);
    assert_eq!(board.steps, 1);
}

#[test]
fn steal_takes_no_more_than_the_victim_has() {
    let mut board = Board {
        steps: 1,
        players: vec![player("a", 5, 5, 3), player("b", 5, 6, 10)],
        carrots: vec![],
    };
    assert_eq!(board.find_steal_target(), Some(0));
    board.steal();
    assert_eq!(board.players, vec![player("a", 5, 5, 0), player("b", 5, 6, 13)]);
    assert_eq!(board.steps, 1);
    board.steal();
    assert_eq!(board.players, vec![player("a", 5, 5, 0), player("b", 5, 6, 13)]);
}

#[test]
fn steal_out_of_reach_is_a_no_op() {
    let mut board = Board {
        steps: 0,
        players: vec![player("a", 5, 5, 2), player("b", 9, 5, 12), player("c", 5, 1, 12)],
        carrots: vec![],
    };
    assert_eq!(board.find_steal_target(), None);
    board.apply_command(Command::Steal);
    assert_eq!(
        board.players,
        vec![player("a", 5, 5, 2), player("b", 9, 5, 12), player("c", 5, 1, 12)]
    );
    assert_eq!(board.steps, 1);
}

#[test]
fn steal_picks_the_first_other_player_in_reach() {
    let mut board = Board {
        steps: 1,
        players: vec![
            player("a", 0, 0, 9),
            player("b", 6, 6, 0),
            player("c", 7, 7, 9),
            player("d", 6, 7, 9),
        ],
        carrots: vec![],
    };
    assert_eq!(board.find_steal_target(), Some(2));
    board.steal();
    assert_eq!(
        board.players,
        vec![
            player("a", 0, 0, 9),
            player("b", 6, 6, 5),
            player("c", 7, 7, 4),
            player("d", 6, 7, 9),
        ]
    );
}

#[test]
fn steal_reaches_a_player_on_the_same_square_but_never_oneself() {
    let mut board = Board {
        steps: 0,
        players: vec![player("a", 3, 3, 1)],
        carrots: vec![],
    };
    assert_eq!(board.find_steal_target(), None);
    board.players.push(player("b", 3, 3, 1));
    assert_eq!(board.find_steal_target(), Some(1));
    board.steal();
    assert_eq!(board.players, vec![player("a", 3, 3, 2), player("b", 3, 3, 0)]);
}

#[test]
fn steal_range_is_three_on_either_axis() {
    let board = Board {
        steps: 0,
        players: vec![player("a", 5, 5, 0), player("b", 8, 8, 1)],
        carrots: vec![],
    };
    assert_eq!(board.find_steal_target(), Some(1));
    let board = Board {
        steps: 0,
        players: vec![player("a", 5, 5, 0), player("b", 9, 8, 1)],
        carrots: vec![],
    };
    assert_eq!(board.find_steal_target(), None);
}

#[test]
fn try_apply_command_takes_the_step_where_it_fits() {
    let mut board = Board {
        steps: 0,
        players: vec![player("a", 4, 5, 0), player("b", 9, 9, 0)],
        carrots: vec![carrot(5, 5)],
    };
    assert!(board.try_apply_command(Command::Move(Direction::Right)));
    assert_eq!(board.players, vec![player("a", 5, 5, 1), player("b", 9, 9, 0)]);
    assert!(board.carrots.is_empty());
    assert_eq!(board.steps, 1);
    assert!(board.try_apply_command(Command::Steal));
    assert_eq!(board.steps, 2);
}

#[test]
fn try_apply_command_refuses_a_board_without_players() {
    let mut board = Board::new();
    assert!(!board.try_apply_command(Command::Steal));
    assert!(!board.try_apply_command(Command::Move(Direction::Up)));
    assert_eq!(board, Board::new());
}

#[test]
fn try_apply_command_refuses_a_step_counter_at_its_limit() {
    let mut board = Board {
        steps: u64::MAX,
        players: vec![player("a", 4, 5, 0)],
        carrots: vec![],
    };
    let before = board.clone();
    assert!(!board.try_apply_command(Command::Move(Direction::Right)));
    assert_eq!(board, before);
}

#[test]
fn try_apply_command_refuses_a_pickup_that_overflows_and_undoes_the_move() {
    let mut board = Board {
        steps: 0,
        players: vec![player("a", 4, 5, u32::MAX), player("b", 9, 9, 0)],
        carrots: vec![carrot(5, 5)],
    };
    let before = board.clone();
    assert!(!board.try_apply_command(Command::Move(Direction::Right)));
    assert_eq!(board, before);
    assert!(board.try_apply_command(Command::Move(Direction::Left)));
    assert_eq!(board.players[0], player("a", 3, 5, u32::MAX));
}

#[test]
fn try_apply_command_refuses_a_steal_that_overflows() {
    let mut board = Board {
        steps: 0,
        players: vec![player("a", 4, 5, u32::MAX - 4), player("b", 4, 6, 5)],
        carrots: vec![],
    };
    let before = board.clone();
    assert!(!board.try_apply_command(Command::Steal));
    assert_eq!(board, before);
    board.players[1].score = 4;
    assert!(board.try_apply_command(Command::Steal));
    assert_eq!(board.players, vec![player("a", 4, 5, u32::MAX), player("b", 4, 6, 0)]);
}

#[test]
fn try_apply_command_undoes_a_steal_when_the_pickup_overflows() {
    let mut board = Board {
        steps: 0,
        players: vec![player("a", 4, 5, 0), player("b", 4, 6, u32::MAX)],
        carrots: vec![carrot(9, 9), carrot(4, 6)],
    };
    board.players[1].score = u32::MAX - 5;
    board.players[0].score = u32::MAX - 5;
    let before = board.clone();
    assert!(board.try_apply_command(Command::Steal));
    assert_eq!(
        board.players,
        vec![player("a", 4, 5, u32::MAX), player("b", 4, 6, u32::MAX - 9)]
    );
    assert_eq!(board.carrots, vec![carrot(9, 9)]);
    let mut board = before.clone();
    board.carrots = vec![carrot(4, 5)];
    let before = board.clone();
    assert!(!board.try_apply_command(Command::Steal));
    assert_eq!(board, before);
}

#[test]
fn end_to_end_four_moves() {
    let mut board = Board::new_game(String::from("1"), String::from("2"));
    let moves = [Direction::Right, Direction::Left, Direction::Down, Direction::Up];
    for direction in moves {
        board.apply_command(Command::Move(direction));
    }
    assert_eq!(board.steps, 4);
    assert_eq!(board.get_current_turn(), 2);
    assert!(!board.has_reached_turn(4));
    assert!(board.has_reached_turn(2));
    assert!(!board.is_finished());
    assert_eq!(board.players, vec![player("1", 1, 1, 0), player("2", 14, 14, 0)]);
    assert_eq!(board.turns_left(), 98);
}

#[test]
fn end_to_end_full_game() {
    let mut board = Board::new_game(String::from("1"), String::from("2"));
    let moves = [Direction::Right, Direction::Left, Direction::Down, Direction::Up];
    for step in 0..200usize {
        assert!(!board.is_finished());
        assert_eq!(board.current_player_index(), step % 2);
        board.apply_command(Command::Move(moves[step % 4]));
        for p in board.players.iter() {
            assert!(p.position.is_in_bounds());
        }
    }
    assert_eq!(board.get_current_turn(), 100);
    assert!(board.is_finished());
    assert_eq!(board.turns_left(), 0);
    assert_eq!(board.players, vec![player("1", 15, 15, 0), player("2", 0, 0, 0)]);
}

#[test]
fn game_with_carrots_keeps_them_apart_and_off_the_players() {
    let mut board = Board::set_up(String::from("1"), String::from("2"));
    let moves = [Direction::Right, Direction::Left, Direction::Down, Direction::Up];
    let mut step: usize = 0;
    while !board.is_finished() {
        let command = if step % 7 == 6 { Command::Steal } else { Command::Move(moves[step % 4]) };
        let points: u32 = board.players.iter().map(|p| p.score).sum();
        let carrots = board.carrots.len();
        assert!(board.try_apply_command(command));
        let points_after: u32 = board.players.iter().map(|p| p.score).sum();
        assert_eq!(points_after as usize + board.carrots.len(), points as usize + carrots);
        for (i, carrot) in board.carrots.iter().enumerate() {
            assert_eq!(board.find_player(carrot.position), None);
            assert_eq!(board.find_carrot(carrot.position), Some(i));
        }
        step += 1;
    }
    assert_eq!(step, 200);
    assert!(board.turns_left() == 0);
}

#[test]
fn turns_left_counts_down_to_zero() {
    let mut board = Board::new_game(String::from("1"), String::from("2"));
    assert_eq!(board.turns_left(), 100);
    board.steps = 1;
    assert_eq!(board.turns_left(), 100);
    board.steps = 2;
    assert_eq!(board.turns_left(), 99);
    board.steps = 199;
    assert_eq!(board.turns_left(), 1);
    assert!(!board.is_finished());
    board.steps = 200;
    assert_eq!(board.turns_left(), 0);
    assert!(board.is_finished());
    board.steps = 100_000;
    assert_eq!(board.turns_left(), 0);
    assert!(board.is_finished());
}
