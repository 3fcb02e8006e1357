use wordle::position::MAX_TRIES;
use wordle::{Correctness, Game, GameState, Letter};

use Correctness::{Correct, Incorrect, Misplaced};

fn word(text: &str) -> [Letter; 5] {
    let bytes = text.as_bytes();
    assert_eq!(bytes.len(), 5);
    let mut word = [Letter::A; 5];
    for i in 0..5 {
        word[i] = Letter::from_ascii_char(bytes[i]).unwrap();
    }
    word
}

/// A game over APPLE, GRAPE and TABLE whose winning word is the one at place
/// `random` of the sorted list.
fn fruit_game(random: usize) -> Game {
    Game::new(vec![word("TABLE"), word("APPLE"), word("GRAPE")], random)
}

fn type_word(game: &mut Game, text: &str) {
    for letter in word(text) {
        game.type_letter(letter);
    }
}

fn guess(game: &mut Game, text: &str) {
    type_word(game, text);
    game.confirm_word(0);
}

fn outcomes(row: [(Letter, Correctness); 5]) -> [Correctness; 5] {
    [row[0].1, row[1].1, row[2].1, row[3].1, row[4].1]
}

#[test]
fn a_new_game_is_being_played() {
    let game = fruit_game(0);
    assert_eq!(MAX_TRIES, 6);
    assert_eq!(Game::MAX_TRIES, 6);
    assert_eq!(Game::WORD_SIZE, 5);
    assert_eq!(game.state(), GameState::Playing);
    assert_eq!(game.cursor(), 0);
    assert_eq!(game.current_try(), 0);
    assert_eq!(game.letters_state(), [None; 26]);
    assert_eq!(game.valid_words().len(), 3);
}

#[test]
fn the_word_list_is_sorted() {
    let game = fruit_game(0);
    assert_eq!(game.valid_words().word(0), word("APPLE"));
    assert_eq!(game.valid_words().word(1), word("GRAPE"));
    assert_eq!(game.valid_words().word(2), word("TABLE"));
}

#[test]
fn the_winning_word_is_drawn_from_the_sorted_list() {
    assert_eq!(fruit_game(0).winning_word(), word("APPLE"));
    assert_eq!(fruit_game(1).winning_word(), word("GRAPE"));
    assert_eq!(fruit_game(2).winning_word(), word("TABLE"));
    assert_eq!(fruit_game(3).winning_word(), word("APPLE"));
    assert_eq!(fruit_game(4).winning_word(), word("GRAPE"));
    assert_eq!(fruit_game(usize::MAX).winning_word(), {
        let sorted = [word("APPLE"), word("GRAPE"), word("TABLE")];
        sorted[usize::MAX % 3]
    });
}

#[test]
fn a_list_of_one_word_leaves_no_choice() {
    for random in [0, 1, 7, usize::MAX] {
        let game = Game::new(vec![word("MANGO")], random);
        assert_eq!(game.winning_word(), word("MANGO"));
    }
}

#[test]
fn typing_fills_the_guess() {
    let mut game = fruit_game(0);
    game.type_letter(Letter::T);
    assert_eq!(game.cursor(), 1);
    assert_eq!(game.current_word()[0], Letter::T);
    game.type_letter(Letter::A);
    game.type_letter(Letter::B);
    assert_eq!(game.cursor(), 3);
    assert_eq!(game.current_word()[..3], [Letter::T, Letter::A, Letter::B]);
    assert_eq!(game.state(), GameState::Playing);
    assert_eq!(game.current_try(), 0);
}

#[test]
fn a_sixth_letter_is_ignored() {
    let mut game = fruit_game(0);
    type_word(&mut game, "TABLE");
    assert_eq!(game.cursor(), 5);
    game.type_letter(Letter::S);
    assert_eq!(game.cursor(), 5);
    assert_eq!(game.current_word(), word("TABLE"));
}

#[test]
fn cancelling_takes_the_last_letter_back() {
    let mut game = fruit_game(0);
    type_word(&mut game, "TABLE");
    game.cancel_letter();
    assert_eq!(game.cursor(), 4);
    game.cancel_letter();
    assert_eq!(game.cursor(), 3);
    game.type_letter(Letter::L);
    game.type_letter(Letter::E);
    assert_eq!(game.cursor(), 5);
    assert_eq!(game.current_word(), word("TABLE"));
}

#[test]
fn cancelling_an_empty_guess_is_ignored() {
    let mut game = fruit_game(0);
    game.cancel_letter();
    assert_eq!(game.cursor(), 0);
    assert_eq!(game.state(), GameState::Playing);
    game.type_letter(Letter::A);
    game.cancel_letter();
    game.cancel_letter();
    assert_eq!(game.cursor(), 0);
}

#[test]
fn confirming_an_incomplete_guess_changes_nothing() {
    for typed in ["", "T", "TA", "TAB", "TABL"] {
        let mut game = fruit_game(0);
        for byte in typed.bytes() {
            game.type_letter(Letter::from_ascii_char(byte).unwrap());
        }
        game.confirm_word(1);
        assert_eq!(game.cursor(), typed.len());
        assert_eq!(game.current_try(), 0);
        assert_eq!(game.state(), GameState::Playing);
        assert_eq!(game.letters_state(), [None; 26]);
        assert_eq!(game.winning_word(), word("APPLE"));
        game.confirm_word(2);
        assert_eq!(game.cursor(), typed.len());
        assert_eq!(game.current_try(), 0);
        assert_eq!(game.state(), GameState::Playing);
    }
}

#[test]
fn confirming_an_unlisted_guess_changes_nothing() {
    let mut game = fruit_game(0);
    guess(&mut game, "TABLE");
    let rows = game.previous_words();
    let hints = game.letters_state();
    type_word(&mut game, "EERIE");
    game.confirm_word(1);
    assert_eq!(game.current_try(), 1);
    assert_eq!(game.previous_words()[0], rows[0]);
    assert_eq!(game.state(), GameState::Playing);
    assert_eq!(game.letters_state(), hints);
    assert_eq!(game.cursor(), 5);
    assert_eq!(game.current_word(), word("EERIE"));
    assert_eq!(game.winning_word(), word("APPLE"));
}

#[test]
fn table_is_scored_against_apple() {
    let mut game = fruit_game(0);
    guess(&mut game, "TABLE");
    assert_eq!(game.current_try(), 1);
    assert_eq!(game.cursor(), 0);
    assert_eq!(game.state(), GameState::Playing);
    assert_eq!(
        game.previous_words()[0],
        [
            (Letter::T, Incorrect),
            (Letter::A, Misplaced),
            (Letter::B, Incorrect),
            (Letter::L, Correct),
            (Letter::E, Correct),
        ]
    );
    let hints = game.letters_state();
    assert_eq!(hints[Letter::T.index()], Some(Incorrect));
    assert_eq!(hints[Letter::A.index()], Some(Misplaced));
    assert_eq!(hints[Letter::B.index()], Some(Incorrect));
    assert_eq!(hints[Letter::L.index()], Some(Correct));
    assert_eq!(hints[Letter::E.index()], Some(Correct));
    assert_eq!(hints.iter().filter(|h| h.is_some()).count(), 5);
}

#[test]
fn apple_wins_against_apple() {
    let mut game = fruit_game(0);
    guess(&mut game, "APPLE");
    assert_eq!(outcomes(game.previous_words()[0]), [Correct; 5]);
    assert_eq!(game.state(), GameState::Won);
    assert_eq!(game.current_try(), 1);
    assert_eq!(game.cursor(), 0);
}

#[test]
fn the_winning_word_wins_at_any_try() {
    for wrong in 0..6 {
        let mut game = fruit_game(0);
        for n in 0..wrong {
            guess(&mut game, if n % 2 == 0 { "TABLE" } else { "GRAPE" });
            assert_eq!(game.state(), GameState::Playing);
        }
        guess(&mut game, "APPLE");
        assert_eq!(game.state(), GameState::Won);
        assert_eq!(game.current_try(), wrong + 1);
        assert_eq!(outcomes(game.previous_words()[wrong]), [Correct; 5]);
    }
}

#[test]
fn six_wrong_guesses_lose() {
    let mut game = fruit_game(0);
    for n in 0..6 {
        assert_eq!(game.state(), GameState::Playing);
        assert_eq!(game.current_try(), n);
        guess(&mut game, if n % 2 == 0 { "TABLE" } else { "GRAPE" });
    }
    assert_eq!(game.state(), GameState::Lost);
    assert_eq!(game.current_try(), 6);
    assert_eq!(game.cursor(), 0);
    assert_eq!(
        outcomes(game.previous_words()[5]),
        [Incorrect, Incorrect, Misplaced, Misplaced, Correct]
    );
}

#[test]
fn keys_are_ignored_once_the_round_is_over() {
    let mut game = fruit_game(0);
    guess(&mut game, "APPLE");
    game.type_letter(Letter::T);
    assert_eq!(game.cursor(), 0);
    game.cancel_letter();
    assert_eq!(game.cursor(), 0);
    assert_eq!(game.state(), GameState::Won);
    assert_eq!(game.current_try(), 1);
}

#[test]
fn confirming_after_a_win_starts_a_new_round() {
    let mut game = fruit_game(0);
    guess(&mut game, "TABLE");
    guess(&mut game, "APPLE");
    assert_eq!(game.state(), GameState::Won);
    game.confirm_word(5);
    assert_eq!(game.state(), GameState::Playing);
    assert_eq!(game.cursor(), 0);
    assert_eq!(game.current_try(), 0);
    assert_eq!(game.letters_state(), [None; 26]);
    assert_eq!(game.winning_word(), word("TABLE"));
    assert_eq!(game.valid_words().len(), 3);
}

#[test]
fn confirming_after_a_loss_starts_a_new_round() {
    let mut game = fruit_game(0);
    for _ in 0..6 {
        guess(&mut game, "GRAPE");
    }
    assert_eq!(game.state(), GameState::Lost);
    game.confirm_word(1);
    assert_eq!(game.state(), GameState::Playing);
    assert_eq!(game.cursor(), 0);
    assert_eq!(game.current_try(), 0);
    assert_eq!(game.letters_state(), [None; 26]);
    assert_eq!(game.winning_word(), word("GRAPE"));
}

#[test]
fn the_new_round_is_played_like_the_first() {
    let mut game = fruit_game(0);
    guess(&mut game, "APPLE");
    game.confirm_word(2);
    assert_eq!(game.winning_word(), word("TABLE"));
    guess(&mut game, "APPLE");
    assert_eq!(game.state(), GameState::Playing);
    assert_eq!(game.current_try(), 1);
    assert_eq!(
        outcomes(game.previous_words()[0]),
        [Misplaced, Incorrect, Incorrect, Correct, Correct]
    );
    guess(&mut game, "TABLE");
    assert_eq!(game.state(), GameState::Won);
    assert_eq!(game.current_try(), 2);
}

#[test]
fn the_number_drawn_is_not_used_while_a_round_is_played() {
    for random in [0, 1, 2, 99] {
        let mut game = fruit_game(0);
        type_word(&mut game, "GRAPE");
        game.confirm_word(random);
        assert_eq!(game.winning_word(), word("APPLE"));
        assert_eq!(game.current_try(), 1);
        assert_eq!(game.state(), GameState::Playing);
    }
}

#[test]
fn hints_gather_over_the_round() {
    let mut game = fruit_game(1);
    assert_eq!(game.winning_word(), word("GRAPE"));
    guess(&mut game, "TABLE");
    // T, B, L are not in GRAPE; A is elsewhere; E is at its place.
    let hints = game.letters_state();
    assert_eq!(hints[Letter::A.index()], Some(Misplaced));
    assert_eq!(hints[Letter::E.index()], Some(Correct));
    assert_eq!(hints[Letter::T.index()], Some(Incorrect));
    guess(&mut game, "APPLE");
    // A is still elsewhere, the first P claims the P of GRAPE.
    let hints = game.letters_state();
    assert_eq!(hints[Letter::A.index()], Some(Misplaced));
    assert_eq!(hints[Letter::P.index()], Some(Misplaced));
    assert_eq!(hints[Letter::L.index()], Some(Incorrect));
    assert_eq!(hints[Letter::E.index()], Some(Correct));
    assert_eq!(
        outcomes(game.previous_words()[1]),
        [Misplaced, Misplaced, Incorrect, Incorrect, Correct]
    );
    guess(&mut game, "GRAPE");
    let hints = game.letters_state();
    assert_eq!(hints[Letter::A.index()], Some(Correct));
    assert_eq!(hints[Letter::P.index()], Some(Correct));
    assert_eq!(hints[Letter::G.index()], Some(Correct));
    assert_eq!(hints[Letter::R.index()], Some(Correct));
    assert_eq!(hints[Letter::T.index()], Some(Incorrect));
    assert_eq!(game.state(), GameState::Won);
}
