//! The game as a mathematical object: what a position holds, how each move
//! changes it, and what is true of every position that play can reach.

use vstd::prelude::*;
use crate::dictionary::in_order;
use crate::hints::{hints_after, hints_of, no_hints};
use crate::letter::Letter;
use crate::scoring::{score, Correctness};

verus! {

/// A state the game can be in.
#[derive(Clone, Copy, PartialEq, Eq, Debug, Hash, Structural)]
pub enum GameState {
    /// The game is currently being played.
    Playing,
    /// The game is finished and the player won.
    Won,
    /// The game is finished and the player lost.
    Lost,
}

/// The maximum number of times the player can try a word before the game ends.
pub const MAX_TRIES: usize = 6;

/// The letters of a scored row: the word that was guessed.
pub open spec fn guessed(row: Seq<(Letter, Correctness)>) -> Seq<Letter> {
    Seq::new(row.len(), |i: int| row[i].0)
}

/// One of the `words` is spelled `word`.
pub open spec fn listed(words: Seq<[Letter; 5]>, word: Seq<Letter>) -> bool {
    exists|k: int| 0 <= k < words.len() && (#[trigger] words[k])@ == word
}

/// Everything that can be observed of a game.
pub struct Position {
    /// The words that are accepted as guesses, in alphabetical order.
    pub valid_words: Seq<[Letter; 5]>,
    /// The word that the player is trying to guess.
    pub winning_word: Seq<Letter>,
    /// The letters typed so far of the guess that is being written.
    pub current_word: Seq<Letter>,
    /// The confirmed guesses of this round with their scores, oldest first.
    pub previous_words: Seq<Seq<(Letter, Correctness)>>,
    /// The best outcome that each letter of the alphabet has had so far.
    pub letters_state: Seq<Option<Correctness>>,
    /// Whether the round is being played, won or lost.
    pub state: GameState,
}

/// The position in which a round starts: nothing typed, nothing guessed,
/// nothing known, and the winning word drawn from the list by `random`.
pub open spec fn opening(valid_words: Seq<[Letter; 5]>, random: nat) -> Position {
    Position {
        valid_words,
        winning_word: valid_words[random as int % valid_words.len() as int]@,
        current_word: Seq::empty(),
        previous_words: Seq::empty(),
        letters_state: no_hints(),
        state: GameState::Playing,
    }
}

impl Position {
    /// The word list holds `word`.
    pub open spec fn lists(self, word: Seq<Letter>) -> bool {
        listed(self.valid_words, word)
    }

    /// The guess that is being written would be accepted: the round is being
    /// played, the guess is complete and the word list holds it.
    pub open spec fn accepts_guess(self) -> bool {
        &&& self.state == GameState::Playing
        &&& self.current_word.len() == 5
        &&& self.lists(self.current_word)
    }

    /// The position after a letter has been typed. Outside of a round that is
    /// being played, and on a complete guess, typing changes nothing.
    pub open spec fn type_letter(self, letter: Letter) -> Position {
        if self.state != GameState::Playing || self.current_word.len() >= 5 {
            self
        } else {
            Position { current_word: self.current_word.push(letter), ..self }
        }
    }

    /// The position after the last typed letter has been taken back. Outside of
    /// a round that is being played, and on an empty guess, this changes
    /// nothing.
    pub open spec fn cancel_letter(self) -> Position {
        if self.state != GameState::Playing || self.current_word.len() == 0 {
            self
        } else {
            Position { current_word: self.current_word.drop_last(), ..self }
        }
    }

    /// The position after an accepted guess has been scored and recorded.
    pub open spec fn record_guess(self) -> Position {
        let row = score(self.current_word, self.winning_word);
        Position {
            current_word: Seq::empty(),
            previous_words: self.previous_words.push(row),
            letters_state: hints_after(self.letters_state, row),
            state: if self.current_word == self.winning_word {
                GameState::Won
            } else if self.previous_words.len() + 1 == 6 {
                GameState::Lost
            } else {
                GameState::Playing
            },
            ..self
        }
    }

    /// The position after a confirmation. Once the round is over it starts
    /// the next one, with the winning word drawn by `random`. While the round
    /// is being played it records the guess if that is accepted, and changes
    /// nothing if it is not.
    pub open spec fn confirm_word(self, random: nat) -> Position {
        if self.state != GameState::Playing {
            opening(self.valid_words, random)
        } else if self.accepts_guess() {
            self.record_guess()
        } else {
            self
        }
    }

    /// What holds of every position that play can reach.
    pub open spec fn wf(self) -> bool {
        &&& self.valid_words.len() > 0
        &&& in_order(self.valid_words)
        &&& self.lists(self.winning_word)
        &&& self.current_word.len() <= 5
        &&& self.previous_words.len() <= 6
        &&& self.letters_state.len() == 26
        &&& self.letters_state == hints_of(self.previous_words)
        &&& self.state == GameState::Playing ==> self.previous_words.len() < 6
        &&& self.state != GameState::Playing ==> self.current_word.len() == 0
        &&& self.state == GameState::Lost ==> self.previous_words.len() == 6
        &&& self.state == GameState::Won ==> self.previous_words.len() > 0
        &&& forall|k: int|
            0 <= k < self.previous_words.len() ==> self.row_is_sound(
                k,
                #[trigger] self.previous_words[k],
            )
    }

    /// The row at place `k` of the history is the score of a listed word
    /// against the winning word, and it is the winning word itself only if it
    /// is the last row of a round that was won.
    pub open spec fn row_is_sound(self, k: int, row: Seq<(Letter, Correctness)>) -> bool {
        &&& self.lists(guessed(row))
        &&& row == score(guessed(row), self.winning_word)
        &&& guessed(row) == self.winning_word <==> self.state == GameState::Won && k
            == self.previous_words.len() - 1
    }
}

/// The letters of the score of a guess are the guess.
pub proof fn lemma_guessed_of_score(guess: Seq<Letter>, target: Seq<Letter>)
    ensures
        guessed(score(guess, target)) == guess,
{
    assert(guessed(score(guess, target)) =~= guess);
}

/// A round starts in a position that play can reach: it is being played, with
/// an empty board, and its winning word is one of the list.
pub proof fn lemma_opening_is_wf(valid_words: Seq<[Letter; 5]>, random: nat)
    requires
        valid_words.len() > 0,
        in_order(valid_words),
    ensures
        opening(valid_words, random).wf(),
        opening(valid_words, random).state == GameState::Playing,
        opening(valid_words, random).current_word.len() == 0,
        opening(valid_words, random).previous_words.len() == 0,
        forall|k: int| 0 <= k < 26 ==> opening(valid_words, random).letters_state[k] is None,
{
    let p = opening(valid_words, random);
    let k = random as int % valid_words.len() as int;
    assert(p.valid_words[k]@ == p.winning_word);
}

/// Whatever the player does, play stays within the positions that it can
/// reach.
pub proof fn lemma_moves_keep_wf(p: Position, letter: Letter, random: nat)
    requires
        p.wf(),
    ensures
        p.type_letter(letter).wf(),
        p.cancel_letter().wf(),
        p.confirm_word(random).wf(),
{
    let typed = p.type_letter(letter);
    assert forall|k: int| 0 <= k < typed.previous_words.len() implies typed.row_is_sound(
        k,
        #[trigger] typed.previous_words[k],
    ) by {
        assert(p.row_is_sound(k, p.previous_words[k]));
    }
    let cancelled = p.cancel_letter();
    assert forall|k: int| 0 <= k < cancelled.previous_words.len() implies cancelled.row_is_sound(
        k,
        #[trigger] cancelled.previous_words[k],
    ) by {
        assert(p.row_is_sound(k, p.previous_words[k]));
    }
    if p.state != GameState::Playing {
        lemma_opening_is_wf(p.valid_words, random);
    } else if p.accepts_guess() {
        let q = p.record_guess();
        let row = score(p.current_word, p.winning_word);
        lemma_guessed_of_score(p.current_word, p.winning_word);
        assert(q.previous_words.drop_last() =~= p.previous_words);
        assert(q.previous_words.last() == row);
        assert forall|k: int| 0 <= k < q.previous_words.len() implies q.row_is_sound(
            k,
            #[trigger] q.previous_words[k],
        ) by {
            if k < p.previous_words.len() {
                assert(p.row_is_sound(k, p.previous_words[k]));
            }
        }
    }
}

/// A confirmation while the guess is incomplete changes nothing, as long as
/// the round is being played.
pub proof fn lemma_incomplete_guess_is_ignored(p: Position, random: nat)
    requires
        p.state == GameState::Playing,
        p.current_word.len() < 5,
    ensures
        p.confirm_word(random) == p,
{
}

/// A confirmation of a guess that the word list does not hold changes
/// nothing, as long as the round is being played.
pub proof fn lemma_unlisted_guess_is_ignored(p: Position, random: nat)
    requires
        p.state == GameState::Playing,
        !p.lists(p.current_word),
    ensures
        p.confirm_word(random) == p,
{
}

/// An accepted guess takes one more row of the board and clears the guess. It
/// wins the round if it is the winning word, at whichever try; it loses the
/// round if it is not and was the sixth try; and the round goes on otherwise.
pub proof fn lemma_accepted_guess_decides(p: Position, random: nat)
    requires
        p.wf(),
        p.accepts_guess(),
    ensures
        p.confirm_word(random).previous_words == p.previous_words.push(
            score(p.current_word, p.winning_word),
        ),
        p.confirm_word(random).current_word.len() == 0,
        p.confirm_word(random).winning_word == p.winning_word,
        p.confirm_word(random).valid_words == p.valid_words,
        p.confirm_word(random).letters_state == hints_after(
            p.letters_state,
            score(p.current_word, p.winning_word),
        ),
        p.current_word == p.winning_word ==> p.confirm_word(random).state == GameState::Won,
        p.current_word != p.winning_word && p.previous_words.len() == 5 ==> p.confirm_word(
            random,
        ).state == GameState::Lost,
        p.current_word != p.winning_word && p.previous_words.len() < 5 ==> p.confirm_word(
            random,
        ).state == GameState::Playing,
{
}

/// How a round stands can be read off its board. It is won exactly when the
/// last guess is the winning word, lost exactly when six guesses were made and
/// the last is not the winning word, and being played otherwise; and no guess
/// but the last can be the winning word.
pub proof fn lemma_state_of_board(p: Position)
    requires
        p.wf(),
    ensures
        p.state == GameState::Won <==> p.previous_words.len() > 0 && guessed(
            p.previous_words.last(),
        ) == p.winning_word,
        p.state == GameState::Lost <==> p.previous_words.len() == 6 && guessed(
            p.previous_words.last(),
        ) != p.winning_word,
        forall|k: int|
            0 <= k < p.previous_words.len() - 1 ==> guessed(#[trigger] p.previous_words[k])
                != p.winning_word,
{
    if p.previous_words.len() > 0 {
        let last = p.previous_words.len() - 1;
        assert(p.row_is_sound(last, p.previous_words[last]));
    }
    assert forall|k: int| 0 <= k < p.previous_words.len() - 1 implies guessed(
        #[trigger] p.previous_words[k],
    ) != p.winning_word by {
        assert(p.row_is_sound(k, p.previous_words[k]));
    }
}

/// A confirmation after the end of a round starts the next one from scratch:
/// nothing typed, no guess made, nothing known of any letter, the round being
/// played, with the same word list and a winning word out of it.
pub proof fn lemma_restart_resets(p: Position, random: nat)
    requires
        p.wf(),
        p.state != GameState::Playing,
    ensures
        p.confirm_word(random) == opening(p.valid_words, random),
        p.confirm_word(random).current_word.len() == 0,
        p.confirm_word(random).previous_words.len() == 0,
        p.confirm_word(random).state == GameState::Playing,
        p.confirm_word(random).valid_words == p.valid_words,
        p.confirm_word(random).lists(p.confirm_word(random).winning_word),
        forall|k: int| 0 <= k < 26 ==> p.confirm_word(random).letters_state[k] is None,
{
    lemma_opening_is_wf(p.valid_words, random);
}

} // verus!
