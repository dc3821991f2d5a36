use garden_bash::board::Board;
use garden_bash::entity::{Carrot, Coordinate, Player, BOARD_MAX};

fn at(x: u8, y: u8) -> Coordinate {
    Coordinate { x, y }
}

fn full_board_but(free: Option<Coordinate>) -> Board {
    let mut board = Board::new();
    for x in 0..=BOARD_MAX {
        for y in 0..=BOARD_MAX {
            if Some(at(x, y)) != free {
                board.carrots.push(Carrot { position: at(x, y) });
            }
        }
    }
    board
}

#[test]
fn place_carrot_on_a_free_square() {
    let mut board = Board::new_game(String::from("1"), String::from("2"));
    assert!(!board.is_occupied(at(3, 3)));
    assert!(board.place_carrot(at(3, 3)));
    assert_eq!(board.carrots, vec![Carrot { position: at(3, 3) }]);
    assert!(board.is_occupied(at(3, 3)));
    assert_eq!(board.players.len(), 2);
    assert_eq!(board.steps, 0);
}

#[test]
fn place_carrot_refuses_an_occupied_square() {
    let mut board = Board::new_game(String::from("1"), String::from("2"));
    assert!(board.place_carrot(at(3, 3)));
    let before = board.clone();
    assert!(!board.place_carrot(at(3, 3)));
    assert_eq!(board, before);
    assert!(!board.place_carrot(at(0, 0)));
    assert_eq!(board, before);
    assert!(!board.place_carrot(at(15, 15)));
    assert_eq!(board, before);
}

#[test]
fn place_carrot_refuses_a_square_off_the_board() {
    let mut board = Board::new();
    assert!(!board.place_carrot(at(16, 0)));
    assert!(!board.place_carrot(at(0, 16)));
    assert!(!board.place_carrot(at(255, 255)));
    assert!(board.carrots.is_empty());
}

#[test]
fn spawn_carrot_lands_on_a_free_square_of_the_board() {
    let mut board = Board {
        steps: 0,
        players: vec![Player { name: String::from("1"), position: at(0, 0), score: 0 }],
        carrots: vec![],
    };
    let spawned = Carrot::spawn_carrot(&mut board);
    let pos = spawned.expect("an almost empty board has free squares");
    assert!(pos.x <= BOARD_MAX && pos.y <= BOARD_MAX);
    assert_ne!(pos, at(0, 0));
    assert_eq!(board.carrots, vec![Carrot { position: pos }]);
    assert_eq!(board.players.len(), 1);
}

#[test]
fn spawned_carrots_are_pairwise_distinct() {
    let mut board = Board::new();
    let spawned = board.spawn_carrots(40);
    assert_eq!(spawned, 40);
    assert_eq!(board.carrots.len(), 40);
    for i in 0..board.carrots.len() {
        assert!(board.carrots[i].position.x <= BOARD_MAX);
        assert!(board.carrots[i].position.y <= BOARD_MAX);
        for j in 0..i {
            assert_ne!(board.carrots[i].position, board.carrots[j].position);
        }
    }
}

#[test]
fn spawn_carrots_keeps_what_was_there() {
    let mut board = Board::new_game(String::from("1"), String::from("2"));
    assert!(board.place_carrot(at(7, 7)));
    let players = board.players.clone();
    let spawned = board.spawn_carrots(4);
    assert_eq!(spawned, 4);
    assert_eq!(board.carrots.len(), 5);
    assert_eq!(board.carrots[0], Carrot { position: at(7, 7) });
    assert_eq!(board.players, players);
    for carrot in board.carrots.iter() {
        assert_ne!(carrot.position, at(0, 0));
        assert_ne!(carrot.position, at(15, 15));
    }
}

#[test]
fn spawn_on_a_full_board_reports_failure() {
    let mut board = full_board_but(None);
    let before = board.clone();
    assert_eq!(Carrot::spawn_carrot(&mut board), None);
    assert_eq!(board, before);
    assert_eq!(board.spawn_carrots(3), 0);
    assert_eq!(board, before);
}

#[test]
fn spawn_finds_the_last_free_square() {
    let free = at(9, 4);
    for _ in 0..20 {
        let mut board = full_board_but(Some(free));
        assert_eq!(Carrot::spawn_carrot(&mut board), Some(free));
        assert_eq!(board.carrots.len(), 256);
        assert_eq!(board.carrots[255], Carrot { position: free });
        assert_eq!(Carrot::spawn_carrot(&mut board), None);
    }
}

#[test]
fn spawn_carrots_stops_when_the_board_is_saturated() {
    let mut board = Board::new();
    board.players.push(Player { name: String::from("1"), position: at(2, 2), score: 0 });
    let spawned = board.spawn_carrots(300);
    assert_eq!(spawned, 255);
    assert_eq!(board.carrots.len(), 255);
    assert_eq!(board.first_free_square(), None);
    for x in 0..=BOARD_MAX {
        for y in 0..=BOARD_MAX {
            assert!(board.is_occupied(at(x, y)));
            assert_eq!(board.find_carrot(at(x, y)).is_some(), at(x, y) != at(2, 2));
        }
    }
}

#[test]
fn spawn_carrots_fills_an_empty_board_exactly() {
    let mut board = Board::new();
    assert_eq!(board.spawn_carrots(256), 256);
    assert_eq!(board.first_free_square(), None);
    assert_eq!(board.spawn_carrots(1), 0);
    assert_eq!(board.carrots.len(), 256);
}

#[test]
fn first_free_square_reads_row_by_row() {
    let mut board = Board::new();
    assert_eq!(board.first_free_square(), Some(at(0, 0)));
    board.players.push(Player { name: String::from("1"), position: at(0, 0), score: 0 });
    assert_eq!(board.first_free_square(), Some(at(1, 0)));
    for x in 1..=BOARD_MAX {
        board.carrots.push(Carrot { position: at(x, 0) });
    }
    assert_eq!(board.first_free_square(), Some(at(0, 1)));
    board.carrots.push(Carrot { position: at(0, 1) });
    board.carrots.push(Carrot { position: at(2, 1) });
    assert_eq!(board.first_free_square(), Some(at(1, 1)));
    assert_eq!(full_board_but(Some(at(15, 15))).first_free_square(), Some(at(15, 15)));
    assert_eq!(full_board_but(None).first_free_square(), None);
}

#[test]
fn set_up_gives_two_players_and_carrots_off_their_squares() {
    let board = Board::set_up(String::from("1"), String::from("2"));
    assert_eq!(board.steps, 0);
    assert_eq!(
        board.players,
        vec![
            Player { name: String::from("1"), position: at(0, 0), score: 0 },
            Player { name: String::from("2"), position: at(15, 15), score: 0 },
        ]
    );
    assert_eq!(board.carrots.len(), 4);
    for (i, carrot) in board.carrots.iter().enumerate() {
        assert!(carrot.position.is_in_bounds());
        assert_ne!(carrot.position, at(0, 0));
        assert_ne!(carrot.position, at(15, 15));
        for other in board.carrots[..i].iter() {
            assert_ne!(carrot.position, other.position);
        }
    }
}

#[test]
fn spawn_draws_squares_at_random() {
    let mut first = Board::new();
    let reference = Carrot::spawn_carrot(&mut first).expect("an empty board has free squares");
    let mut differing: usize = 0;
    for _ in 0..40 {
        let mut board = Board::new();
        let pos = Carrot::spawn_carrot(&mut board).expect("an empty board has free squares");
        assert!(pos.is_in_bounds());
        if pos != reference {
            differing += 1;
        }
    }
    assert!(differing > 0);
}
