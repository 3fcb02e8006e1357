//! The game itself: the state that the player's key presses change and that
//! the screen is drawn from.

use vstd::prelude::*;
use crate::dictionary::Dictionary;
use crate::hints::note_row;
use crate::input::{command_for, command_of, Command, KeyPress};
use crate::letter::Letter;
use crate::position::{
    lemma_moves_keep_wf, lemma_opening_is_wf, opening, GameState, Position, MAX_TRIES,
};
use crate::scoring::{score_guess, Correctness};
use crate::word::{same_word, WORD_SIZE};

verus! {

/// What changes in the course of play.
#[derive(Clone, Copy)]
struct Round {
    /// The winning word, that the player is trying to guess.
    winning_word: [Letter; 5],
    /// The current word, that the player is writing. It is not yet confirmed.
    current_word: [Letter; 5],
    /// The number of characters written within the `current_word` array.
    cursor: usize,
    /// The words that were previously guessed by the player.
    previous_words: [[(Letter, Correctness); 5]; 6],
    /// The number of guesses the player tried.
    current_try: usize,
    /// The current state of the game.
    state: GameState,
    /// The state of each letter.
    letters_state: [Option<Correctness>; 26],
}

/// Stores the current state of the game.
pub struct Game {
    /// A collection of valid words. Words outside of this list won't be
    /// accepted as guesses.
    valid_words: Dictionary,
    /// The round that is being played, or that was played last.
    round: Round,
}

/// The position that a word list and a round stand for: of the guess only the
/// letters before the cursor count, and of the board only the rows of the
/// tries that were made.
spec fn position_of(valid_words: Seq<[Letter; 5]>, round: Round) -> Position {
    Position {
        valid_words,
        winning_word: round.winning_word@,
        current_word: round.current_word@.take(round.cursor as int),
        previous_words: Seq::new(round.current_try as nat, |k: int| round.previous_words@[k]@),
        letters_state: round.letters_state@,
        state: round.state,
    }
}

impl View for Game {
    type V = Position;

    /// The position of the game.
    closed spec fn view(&self) -> Position {
        position_of(self.valid_words@, self.round)
    }
}

impl Game {
    /// The number of letters in each word.
    pub const WORD_SIZE: usize = WORD_SIZE;

    /// The maximum number of times the player can try a word before the game
    /// ends.
    pub const MAX_TRIES: usize = MAX_TRIES;

    #[verifier::type_invariant]
    spec fn sound(&self) -> bool {
        &&& self.round.cursor <= 5
        &&& self.round.current_try <= 6
        &&& self@.wf()
    }

    /// Creates a new [`Game`] instance.
    ///
    /// The word list is put in alphabetical order, and the winning word is
    /// the one that `random` draws from it.
    pub fn new(valid_words: Vec<[Letter; 5]>, random: usize) -> (game: Game)
        requires
            valid_words.len() > 0,
        ensures
            game@.valid_words.to_multiset() == valid_words@.to_multiset(),
            game@ == opening(game@.valid_words, random as nat),
            game@.wf(),
    {
        let dictionary = Dictionary::new(valid_words);
        proof {
            dictionary@.to_multiset_ensures();
            valid_words@.to_multiset_ensures();
        }
        let index: usize = random % dictionary.len();
        let winning_word: [Letter; 5] = dictionary.word(index);
        let round = Round {
            winning_word,
            current_word: [Letter::A;5],
            cursor: 0,
            previous_words: [[(Letter::A, Correctness::Incorrect);5];6],
            current_try: 0,
            state: GameState::Playing,
            letters_state: [None;26],
        };
        proof {
            let p = position_of(dictionary@, round);
            assert(p.current_word =~= Seq::empty());
            assert(p.previous_words =~= Seq::empty());
            assert(p.letters_state =~= crate::hints::no_hints());
            lemma_opening_is_wf(dictionary@, random as nat);
        }
        Game { valid_words: dictionary, round }
    }

    /// Types a new letter for the current game.
    pub fn type_letter(&mut self, letter: Letter)
        ensures
            final(self)@ == old(self)@.type_letter(letter),
            final(self)@.wf(),
    {
        proof {
            use_type_invariant(&*self);
            lemma_moves_keep_wf(self@, letter, 0);
        }
        if self.round.cursor == 5 || self.round.state != GameState::Playing {
            return ;
        }
        let cursor: usize = self.round.cursor;
        let mut current_word: [Letter; 5] = self.round.current_word;
        current_word[cursor] = letter;
        let next = Round { current_word, cursor: cursor + 1, ..self.round };
        proof {
            let before = position_of(self.valid_words@, self.round);
            let after = position_of(self.valid_words@, next);
            assert(after.current_word =~= before.current_word.push(letter));
            assert(after.previous_words =~= before.previous_words);
        }
        self.round = next;
    }

    /// Cancels the last typed letter.
    pub fn cancel_letter(&mut self)
        ensures
            final(self)@ == old(self)@.cancel_letter(),
            final(self)@.wf(),
    {
        proof {
            use_type_invariant(&*self);
            lemma_moves_keep_wf(self@, Letter::A, 0);
        }
        if self.round.state != GameState::Playing {
            return ;
        }
        if self.round.cursor != 0 {
            let next = Round { cursor: self.round.cursor - 1, ..self.round };
            proof {
                let before = position_of(self.valid_words@, self.round);
                let after = position_of(self.valid_words@, next);
                assert(after.current_word =~= before.current_word.drop_last());
                assert(after.previous_words =~= before.previous_words);
            }
            self.round = next;
        }
    }

    /// Tries to confirm the current word.
    ///
    /// Once the round is over, this starts the next one instead, and `random`
    /// draws its winning word from the word list.
    pub fn confirm_word(&mut self, random: usize)
        ensures
            final(self)@ == old(self)@.confirm_word(random as nat),
            final(self)@.wf(),
    {
        proof {
            use_type_invariant(&*self);
            lemma_moves_keep_wf(self@, Letter::A, random as nat);
        }
        match self.round.state {
            GameState::Playing => (),
            // If the game isn't currently playing, reset the state of the game
            // so we can retry.
            GameState::Won | GameState::Lost => {
                let index: usize = random % self.valid_words.len();
                let winning_word: [Letter; 5] = self.valid_words.word(index);
                let next = Round {
                    winning_word,
                    cursor: 0,
                    current_try: 0,
                    state: GameState::Playing,
                    letters_state: [None;26],
                    ..self.round
                };
                proof {
                    let after = position_of(self.valid_words@, next);
                    assert(after.current_word =~= Seq::empty());
                    assert(after.previous_words =~= Seq::empty());
                    assert(after.letters_state =~= crate::hints::no_hints());
                }
                self.round = next;
                return ;
            },
        }

        // All five letters must have been typed.
        if self.round.cursor != 5 {
            return ;
        }
        let guess: [Letter; 5] = self.round.current_word;
        assert(guess@.take(5) =~= guess@);

        // Verifies that the word is allowed.
        if !self.valid_words.contains(&guess) {
            proof {
                if self@.lists(guess@) {
                    let k = choose|k: int|
                        0 <= k < self.valid_words@.len() && (#[trigger] self.valid_words@[k])@
                            == guess@;
                    assert(self.valid_words@[k] =~= guess);
                }
            }
            return ;
        }
        proof {
            let k = choose|k: int|
                0 <= k < self.valid_words@.len() && self.valid_words@[k] == guess;
            assert(self.valid_words@[k]@ == guess@);
        }

        let row: [(Letter, Correctness); 5] = score_guess(&guess, &self.round.winning_word);
        let tries: usize = self.round.current_try;
        let mut previous_words: [[(Letter, Correctness); 5]; 6] = self.round.previous_words;
        previous_words[tries] = row;
        let mut letters_state: [Option<Correctness>; 26] = self.round.letters_state;
        note_row(&mut letters_state, &row);

        // If the winning word is the current word, then the player won.
        let state = if same_word(&self.round.winning_word, &guess) {
            GameState::Won
        } else if tries + 1 == 6 {
            GameState::Lost
        } else {
            GameState::Playing
        };
        let next = Round {
            cursor: 0,
            previous_words,
            current_try: tries + 1,
            state,
            letters_state,
            ..self.round
        };
        proof {
            let before = position_of(self.valid_words@, self.round);
            let after = position_of(self.valid_words@, next);
            assert(after.current_word =~= Seq::empty());
            assert(after.previous_words =~= before.previous_words.push(row@));
            assert(after == before.record_guess());
        }
        self.round = next;
    }

    /// Handles a key press: the game makes the move that the key asks for.
    /// `random` draws the winning word if the key starts a new round.
    ///
    /// Returns whether the game goes on: `false` once the player asks to quit.
    pub fn press_key(&mut self, event: KeyPress, random: usize) -> (goes_on: bool)
        ensures
            final(self)@ == old(self)@.press(event.0.0, random as nat),
            goes_on == (command_for(event.0.0) != Some(Command::Quit)),
            final(self)@.wf(),
    {
        proof {
            use_type_invariant(&*self);
        }
        match command_of(event.0) {
            Some(Command::Type(letter)) => {
                self.type_letter(letter);
                true
            },
            Some(Command::Cancel) => {
                self.cancel_letter();
                true
            },
            Some(Command::Confirm) => {
                self.confirm_word(random);
                true
            },
            Some(Command::Quit) => false,
            None => true,
        }
    }

    /// The current state of the game.
    pub fn state(&self) -> (state: GameState)
        ensures
            state == self@.state,
            self@.wf(),
    {
        proof {
            use_type_invariant(self);
        }
        self.round.state
    }

    /// The number of letters typed of the current word.
    pub fn cursor(&self) -> (cursor: usize)
        ensures
            cursor == self@.current_word.len(),
            cursor <= 5,
    {
        proof {
            use_type_invariant(self);
        }
        self.round.cursor
    }

    /// The current word, that the player is writing. Only the letters before
    /// the cursor belong to it.
    pub fn current_word(&self) -> (word: [Letter; 5])
        ensures
            word@.take(self@.current_word.len() as int) == self@.current_word,
    {
        proof {
            use_type_invariant(self);
        }
        self.round.current_word
    }

    /// The number of guesses the player tried in this round.
    pub fn current_try(&self) -> (tries: usize)
        ensures
            tries == self@.previous_words.len(),
            tries <= 6,
    {
        proof {
            use_type_invariant(self);
        }
        self.round.current_try
    }

    /// The words that were previously guessed by the player. Only the rows of
    /// the tries that were made belong to the round.
    pub fn previous_words(&self) -> (rows: [[(Letter, Correctness); 5]; 6])
        ensures
            forall|k: int|
                0 <= k < self@.previous_words.len() ==> (#[trigger] rows@[k])@
                    == self@.previous_words[k],
    {
        proof {
            use_type_invariant(self);
        }
        self.round.previous_words
    }

    /// The winning word, that the player is trying to guess.
    pub fn winning_word(&self) -> (word: [Letter; 5])
        ensures
            word@ == self@.winning_word,
    {
        self.round.winning_word
    }

    /// The state of each letter, at the letter's place in the alphabet.
    pub fn letters_state(&self) -> (hints: [Option<Correctness>; 26])
        ensures
            hints@ == self@.letters_state,
    {
        self.round.letters_state
    }

    /// The collection of valid words.
    pub fn valid_words(&self) -> (words: &Dictionary)
        ensures
            words@ == self@.valid_words,
    {
        &self.valid_words
    }
}

} // verus!
