use tic_tac_toe::CLIGameManager;

#[test]
fn prints_welcome() {
    let cli = CLIGameManager::new();
    let output = cli.render();
    assert_eq!(output.as_bytes(), b"_|_|_\n_|_|_\n_|_|_\nX's turn!\nAvailable spaces in order from left to right and top to bottom: 0, 1, 2, 3, 4, 5, 6, 7, 8.\nEnter number: \n\n" as &[u8]);
}

#[test]
fn prints_after_play() {
    let mut cli = CLIGameManager::new();
    cli.input_play("0");
    let output = cli.render();
    assert_eq!(output.as_bytes(), b"X|_|_\n_|_|_\n_|_|_\nO's turn!\nAvailable spaces in order from left to right and top to bottom: 1, 2, 3, 4, 5, 6, 7, 8.\nEnter number: \n\n" as &[u8]);
}

#[test]
fn should_print_error_on_invalid_input() {
    let mut cli = CLIGameManager::new();
    cli.input_play("-1");
    let output = cli.render();
    assert_eq!(output.as_bytes(), b"_|_|_\n_|_|_\n_|_|_\nX's turn!\nAvailable spaces in order from left to right and top to bottom: 0, 1, 2, 3, 4, 5, 6, 7, 8.\nError: -1 is not valid.\nEnter number: \n\n" as &[u8]);
}

#[test]
fn should_print_error_on_out_of_range_input() {
    let mut cli = CLIGameManager::new();
    cli.input_play("9\n");
    let output = cli.render();
    assert_eq!(output.as_bytes(), b"_|_|_\n_|_|_\n_|_|_\nX's turn!\nAvailable spaces in order from left to right and top to bottom: 0, 1, 2, 3, 4, 5, 6, 7, 8.\nError: 9 is not valid.\nEnter number: \n\n" as &[u8]);
}

#[test]
fn should_print_error_on_playing_occupied_space() {
    let mut cli = CLIGameManager::new();
    cli.input_play("0");
    cli.input_play("0");
    let output = cli.render();
    assert_eq!(output.as_bytes(), b"X|_|_\n_|_|_\n_|_|_\nO's turn!\nAvailable spaces in order from left to right and top to bottom: 1, 2, 3, 4, 5, 6, 7, 8.\nError: Can't play in position 0, as it has been already played.\nEnter number: \n\n" as &[u8]);
}

#[test]
fn should_print_winner() {
    let mut cli = CLIGameManager::new();
    for play in ["0", "3", "1", "4", "2"] {
        cli.input_play(play);
    }
    let output = cli.render();
    assert_eq!(output.as_bytes(), b"X|X|X\nO|O|_\n_|_|_\nX Wins!\n\n" as &[u8]);
}

#[test]
fn should_print_game_over() {
    let mut cli = CLIGameManager::new();
    for play in ["0", "4", "2", "1", "7", "5", "3", "6", "8"] {
        cli.input_play(play);
    }
    let output = cli.render();
    assert_eq!(output.as_bytes(), b"X|O|X\nX|O|O\nO|X|X\nGame Over!\n\n" as &[u8]);
}

#[test]
fn accepts_whitespace_and_plus_sign() {
    let mut cli = CLIGameManager::new();
    cli.input_play("  +4 \n");
    let output = cli.render();
    assert_eq!(output.as_bytes(), b"_|_|_\n_|X|_\n_|_|_\nO's turn!\nAvailable spaces in order from left to right and top to bottom: 0, 1, 2, 3, 5, 6, 7, 8.\nEnter number: \n\n" as &[u8]);
}

#[test]
fn rejects_an_overflowing_number() {
    let mut cli = CLIGameManager::new();
    cli.input_play("1000");
    let output = cli.render();
    assert_eq!(output.as_bytes(), b"_|_|_\n_|_|_\n_|_|_\nX's turn!\nAvailable spaces in order from left to right and top to bottom: 0, 1, 2, 3, 4, 5, 6, 7, 8.\nError: 1000 is not valid.\nEnter number: \n\n" as &[u8]);
}

#[test]
fn names_a_large_out_of_range_number() {
    let mut cli = CLIGameManager::new();
    cli.input_play("255");
    let output = cli.render();
    assert_eq!(output.as_bytes(), b"_|_|_\n_|_|_\n_|_|_\nX's turn!\nAvailable spaces in order from left to right and top to bottom: 0, 1, 2, 3, 4, 5, 6, 7, 8.\nError: 255 is not valid.\nEnter number: \n\n" as &[u8]);
}
