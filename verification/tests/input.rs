use wordle::input::{command_of, BACKSPACE, ESCAPE, FIRST_LETTER, LAST_LETTER, RETURN};
use wordle::{Command, Game, GameState, KeyCode, KeyPress, Letter};

fn word(text: &str) -> [Letter; 5] {
    let bytes = text.as_bytes();
    assert_eq!(bytes.len(), 5);
    let mut word = [Letter::A; 5];
    for i in 0..5 {
        word[i] = Letter::from_ascii_char(bytes[i]).unwrap();
    }
    word
}

fn fruit_game() -> Game {
    Game::new(vec![word("TABLE"), word("APPLE"), word("GRAPE")], 0)
}

fn press(game: &mut Game, code: u32) -> bool {
    game.press_key(KeyPress(KeyCode(code)), 1)
}

fn press_word(game: &mut Game, text: &str) {
    for byte in text.bytes() {
        assert!(press(game, byte.to_ascii_lowercase() as u32));
    }
}

#[test]
fn key_codes_have_their_values() {
    assert_eq!(FIRST_LETTER, 97);
    assert_eq!(LAST_LETTER, 122);
    assert_eq!(ESCAPE, 65307);
    assert_eq!(BACKSPACE, 65288);
    assert_eq!(RETURN, 65293);
}

#[test]
fn letter_keys_type_their_letter() {
    assert_eq!(command_of(KeyCode(97)), Some(Command::Type(Letter::A)));
    assert_eq!(command_of(KeyCode(98)), Some(Command::Type(Letter::B)));
    assert_eq!(command_of(KeyCode(109)), Some(Command::Type(Letter::M)));
    assert_eq!(command_of(KeyCode(122)), Some(Command::Type(Letter::Z)));
    for byte in b'a'..=b'z' {
        let letter = Letter::from_ascii_char(byte).unwrap();
        assert_eq!(command_of(KeyCode(byte as u32)), Some(Command::Type(letter)));
        assert_eq!(KeyCode::letter(letter), KeyCode(byte as u32));
    }
}

#[test]
fn the_other_keys_have_their_commands() {
    assert_eq!(command_of(KeyCode(BACKSPACE)), Some(Command::Cancel));
    assert_eq!(command_of(KeyCode(RETURN)), Some(Command::Confirm));
    assert_eq!(command_of(KeyCode(ESCAPE)), Some(Command::Quit));
}

#[test]
fn unknown_keys_ask_for_nothing() {
    for code in [0, 32, 48, 65, 90, 96, 123, 255, 353, 378, 65287, 65289, 65306, 65308, u32::MAX] {
        assert_eq!(command_of(KeyCode(code)), None);
    }
}

#[test]
fn keys_play_a_round() {
    let mut game = fruit_game();
    press_word(&mut game, "TABLX");
    assert_eq!(game.cursor(), 5);
    assert!(press(&mut game, BACKSPACE));
    assert_eq!(game.cursor(), 4);
    assert!(press(&mut game, KeyCode::letter(Letter::E).0));
    assert_eq!(game.current_word(), word("TABLE"));
    assert!(press(&mut game, RETURN));
    assert_eq!(game.current_try(), 1);
    assert_eq!(game.cursor(), 0);
    press_word(&mut game, "APPLE");
    assert!(press(&mut game, RETURN));
    assert_eq!(game.state(), GameState::Won);
    assert!(press(&mut game, RETURN));
    assert_eq!(game.state(), GameState::Playing);
    assert_eq!(game.current_try(), 0);
    assert_eq!(game.winning_word(), word("GRAPE"));
}

#[test]
fn escape_quits_and_changes_nothing() {
    let mut game = fruit_game();
    press_word(&mut game, "TAB");
    assert!(!press(&mut game, ESCAPE));
    assert_eq!(game.cursor(), 3);
    assert_eq!(game.current_try(), 0);
    assert_eq!(game.state(), GameState::Playing);
}

#[test]
fn unknown_keys_change_nothing() {
    let mut game = fruit_game();
    press_word(&mut game, "TAB");
    for code in [0, 32, 65, 90, 65289, u32::MAX] {
        assert!(press(&mut game, code));
        assert_eq!(game.cursor(), 3);
        assert_eq!(game.current_try(), 0);
        assert_eq!(game.state(), GameState::Playing);
    }
}
