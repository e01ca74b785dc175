use tic_tac_toe::ai::{get_best_move, mini_max};
use tic_tac_toe::{Game, Marker};

#[test]
fn mini_max_scores_winning_game() {
    let mut game = Game::new();
    for play in [0, 4, 6, 2, 3] {
        game.play(play);
    }
    assert_eq!(10, mini_max(&game, Marker::First, 0))
}

#[test]
fn mini_max_scores_loosing_game() {
    let mut game = Game::new();
    for play in [0, 4, 6, 2, 3] {
        game.play(play);
    }
    assert_eq!(-10, mini_max(&game, Marker::Second, 0))
}

#[test]
fn mini_max_scores_next_play_winning_game() {
    let mut game = Game::new();
    for play in [0, 4, 2, 5] {
        game.play(play);
    }
    assert_eq!(10, mini_max(&game, Marker::First, 0))
}

#[test]
fn mini_max_scores_next_play_loosing_game() {
    let mut game = Game::new();
    for play in [0, 4, 2, 3] {
        game.play(play);
    }
    assert_eq!(-11, mini_max(&game, Marker::Second, 0))
}

#[test]
fn mini_max_scores_drawn_game_zero() {
    let mut game = Game::new();
    for play in [0, 4, 2, 1, 7, 5, 3, 6, 8] {
        game.play(play);
    }
    assert_eq!(0, mini_max(&game, Marker::First, 0));
    assert_eq!(0, mini_max(&game, Marker::Second, 0));
}

#[test]
fn get_best_gets_offensive_move() {
    let mut game = Game::new();
    for play in [0, 4, 2, 3] {
        game.play(play);
    }
    assert_eq!(Some(1), get_best_move(&game))
}

#[test]
fn get_best_gets_defensive_move() {
    let mut game = Game::new();
    for play in [0] {
        game.play(play);
    }
    assert_eq!(Some(4), get_best_move(&game))
}

#[test]
fn get_best_prevents_winner() {
    let mut game = Game::new();
    for play in [0, 8, 1] {
        game.play(play);
    }
    assert_eq!(Some(2), get_best_move(&game))
}

#[test]
fn get_best_move_traps_player() {
    let mut game = Game::new();
    for play in [0, 1] {
        game.play(play);
    }
    assert!(vec![3u8, 4u8, 6u8].contains(&get_best_move(&game).unwrap()))
}

#[test]
fn gets_obvious_move() {
    let mut game = Game::new();
    for play in [0, 3, 1, 4] {
        game.play(play);
    }
    assert_eq!(get_best_move(&game), Some(2))
}

#[test]
fn avoids_trap() {
    let mut game = Game::new();
    game.play(0);
    assert_eq!(get_best_move(&game), Some(4))
}

#[test]
fn avoids_l_trap() {
    let mut game = Game::new();
    for play in [0, 4, 8] {
        game.play(play);
    }
    assert!(vec![1u8, 3u8, 5u8, 7u8].contains(&get_best_move(&game).unwrap()))
}

#[test]
fn opening_move_is_on_the_board() {
    let game = Game::new();
    let m = get_best_move(&game).unwrap();
    assert!(m <= 8);
}

#[test]
fn single_remaining_cell_is_returned() {
    let mut game = Game::new();
    for play in [0, 4, 2, 1, 7, 5, 3, 6] {
        game.play(play);
    }
    assert!(!game.is_over);
    assert_eq!(get_best_move(&game), Some(8));
}

#[test]
fn no_move_once_the_game_is_over() {
    let mut game = Game::new();
    for play in [0, 3, 1, 4, 2] {
        game.play(play);
    }
    assert_eq!(get_best_move(&game), None);
}
