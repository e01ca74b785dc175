use tic_tac_toe::{Game, Marker};

const CATS_GAME: [u8; 9] = [0, 4, 2, 1, 7, 5, 3, 6, 8];

#[test]
fn is_not_over() {
    let game = Game::new();
    assert!(!game.is_over)
}

#[test]
fn has_empty_board() {
    let game = Game::new();
    let board = game.board;
    assert!(board.is_empty())
}

#[test]
fn x_plays_first() {
    let mut game = Game::new();
    game.play(0);
    assert_eq!(game.board.get_space_marker(0), Some(Marker::First));
}

#[test]
fn o_plays_second() {
    let mut game = Game::new();
    game.play(0);
    game.play(1);
    assert_eq!(game.board.get_space_marker(1), Some(Marker::Second));
}

#[test]
fn error_when_playing_in_taken_position() {
    let mut game = Game::new();
    game.play(0);
    game.play(0);
    let expected_error = "Can't play in position 0, as it has been already played.".to_string();
    assert_eq!(game.error, Some(expected_error))
}

#[test]
fn board_unchanged_after_playing_in_taken_position() {
    let mut game = Game::new();
    game.play(0);
    game.play(0);
    assert_eq!(game.board.get_space_marker(0), Some(Marker::First))
}

#[test]
fn cats_game_is_over() {
    let mut game = Game::new();
    for space in CATS_GAME {
        game.play(space);
    }
    assert!(game.is_over);
}

#[test]
fn cats_game_has_no_winner() {
    let mut game = Game::new();
    for space in CATS_GAME {
        game.play(space);
    }
    assert_eq!(game.winner, None);
}

#[test]
fn x_wins_any_position() {
    let games_where_x_wins: [[u8; 5]; 8] = [
        [0, 3, 1, 4, 2],
        [3, 1, 4, 2, 5],
        [6, 1, 7, 3, 8],
        [0, 1, 3, 2, 6],
        [1, 6, 4, 5, 7],
        [2, 1, 5, 6, 8],
        [0, 1, 4, 2, 8],
        [2, 3, 4, 5, 6],
    ];
    for game_play in games_where_x_wins {
        let mut game = Game::new();
        for space in game_play {
            game.play(space);
        }
        assert_eq!(game.winner, Some(Marker::First));
    }
}

#[test]
fn o_wins_any_position() {
    let games_where_o_wins: [[u8; 6]; 8] = [
        [5, 0, 3, 1, 8, 2],
        [6, 3, 1, 4, 2, 5],
        [5, 6, 1, 7, 3, 8],
        [5, 0, 1, 3, 2, 6],
        [3, 1, 6, 4, 5, 7],
        [3, 2, 1, 5, 6, 8],
        [3, 0, 1, 4, 2, 8],
        [1, 2, 3, 4, 5, 6],
    ];
    for game_play in games_where_o_wins {
        let mut game = Game::new();
        for space in game_play {
            game.play(space);
        }
        assert_eq!(game.winner, Some(Marker::Second));
    }
}

#[test]
fn is_over_after_win() {
    let mut game = Game::new();
    for space in [0, 3, 1, 4, 2] {
        game.play(space);
    }
    assert_eq!(game.is_over, true);
}

#[test]
fn error_when_playing_after_game_over() {
    let mut game = Game::new();
    for space in [0, 3, 1, 4, 2] {
        game.play(space);
    }
    game.play(5);
    let expected_error = "Can't play after game is over.".to_string();
    assert_eq!(game.error, Some(expected_error))
}

#[test]
fn game_stays_the_same_after_playing_game_over() {
    let mut game = Game::new();
    for space in [0, 3, 1, 4, 2] {
        game.play(space);
    }
    game.play(5);
    assert_eq!(game.board.get_space_marker(5), None)
}

#[test]
fn markers_alternate_over_a_whole_game() {
    let mut game = Game::new();
    for (ply, space) in CATS_GAME.iter().enumerate() {
        let expected = if ply % 2 == 0 {
            Marker::First
        } else {
            Marker::Second
        };
        assert_eq!(game.get_active_marker(), expected);
        game.play(*space);
    }
}

#[test]
fn error_when_playing_off_the_board() {
    let mut game = Game::new();
    game.play(9);
    let expected_error = "Can't play in position 9, as it is not on the board.".to_string();
    assert_eq!(game.error, Some(expected_error));
    assert_eq!(game.board.get_space_marker(9), None);
    assert_eq!(game.get_active_marker(), Marker::First);
}

#[test]
fn copy_is_independent_of_the_original() {
    let mut game = Game::new();
    game.play(0);
    let mut copy = game.copy();
    copy.play(4);
    assert_eq!(game.board.get_space_marker(4), None);
    assert_eq!(copy.board.get_space_marker(4), Some(Marker::Second));
    game.play(8);
    assert_eq!(copy.board.get_space_marker(8), None);
    assert_eq!(copy.board.get_space_marker(0), Some(Marker::First));
}

#[test]
fn available_plays_shrink_and_stay_sorted() {
    let mut game = Game::new();
    assert_eq!(game.get_available_plays(), vec![0, 1, 2, 3, 4, 5, 6, 7, 8]);
    game.play(4);
    assert_eq!(game.get_available_plays(), vec![0, 1, 2, 3, 5, 6, 7, 8]);
    game.play(0);
    assert_eq!(game.get_available_plays(), vec![1, 2, 3, 5, 6, 7, 8]);
}

#[test]
fn no_available_plays_once_won() {
    let mut game = Game::new();
    for space in [0, 3, 1, 4, 2] {
        game.play(space);
    }
    assert_eq!(game.get_available_plays(), Vec::<u8>::new());
    assert_eq!(game.get_winner(), Some(Marker::First));
}

#[test]
fn winner_in_each_line_reported_through_getter() {
    let mut game = Game::new();
    for space in [2, 0, 4, 1, 6] {
        game.play(space);
    }
    assert_eq!(game.get_winner(), Some(Marker::First));
    assert!(game.is_over);
}
