//! From key presses to moves of the game.

use vstd::prelude::*;
use crate::letter::{letter_at, Letter};
use crate::position::Position;

verus! {

/// A keycode.
#[derive(PartialEq, Eq, PartialOrd, Ord, Hash, Clone, Copy, Debug, Structural)]
pub struct KeyCode(pub u32);

/// The code of the key of the letter A. The keys of the other letters follow
/// in alphabetical order.
pub const FIRST_LETTER: u32 = 97;

/// The code of the key of the letter Z.
pub const LAST_LETTER: u32 = 122;

/// The code of the escape key.
pub const ESCAPE: u32 = 65307;

/// The code of the backspace key.
pub const BACKSPACE: u32 = 65288;

/// The code of the return key.
pub const RETURN: u32 = 65293;

impl KeyCode {
    /// The key of a letter.
    pub fn letter(letter: Letter) -> (key: KeyCode)
        ensures
            key.0 == FIRST_LETTER + letter.place(),
            command_for(key.0) == Some(Command::Type(letter)),
    {
        proof {
            crate::letter::lemma_place_of_letter(letter);
        }
        let place: usize = letter.index();
        KeyCode(FIRST_LETTER + place as u32)
    }
}

/// Fires whenever a key is pressed.
#[derive(Debug, Clone, Copy)]
pub struct KeyPress(pub KeyCode);

/// What a key asks for.
#[derive(Clone, Copy, PartialEq, Eq, Debug, Structural)]
pub enum Command {
    /// Type a letter of the guess.
    Type(Letter),
    /// Take the last typed letter back.
    Cancel,
    /// Confirm the guess, or start the next round.
    Confirm,
    /// Leave the game.
    Quit,
}

/// What the key with the given code asks for: the letter keys type their
/// letter, backspace cancels, return confirms and escape quits. The other
/// keys ask for nothing.
pub open spec fn command_for(code: u32) -> Option<Command> {
    if FIRST_LETTER <= code <= LAST_LETTER {
        Some(Command::Type(letter_at(code - FIRST_LETTER)))
    } else if code == BACKSPACE {
        Some(Command::Cancel)
    } else if code == RETURN {
        Some(Command::Confirm)
    } else if code == ESCAPE {
        Some(Command::Quit)
    } else {
        None
    }
}

impl Position {
    /// The position after a command. Quitting leaves the position as it is.
    pub open spec fn obey(self, command: Command, random: nat) -> Position {
        match command {
            Command::Type(letter) => self.type_letter(letter),
            Command::Cancel => self.cancel_letter(),
            Command::Confirm => self.confirm_word(random),
            Command::Quit => self,
        }
    }

    /// The position after a key press.
    pub open spec fn press(self, code: u32, random: nat) -> Position {
        match command_for(code) {
            Some(command) => self.obey(command, random),
            None => self,
        }
    }
}

/// Tells what a key asks for.
pub fn command_of(key: KeyCode) -> (command: Option<Command>)
    ensures
        command == command_for(key.0),
{
    let code: u32 = key.0;
    if FIRST_LETTER <= code && code <= LAST_LETTER {
        match Letter::from_ascii_char(code as u8) {
            Some(letter) => Some(Command::Type(letter)),
            None => None,
        }
    } else if code == BACKSPACE {
        Some(Command::Cancel)
    } else if code == RETURN {
        Some(Command::Confirm)
    } else if code == ESCAPE {
        Some(Command::Quit)
    } else {
        None
    }
}

/// The key of a letter types that letter, and no other key types anything.
pub proof fn lemma_letter_keys(code: u32)
    ensures
        command_for(code) matches Some(Command::Type(letter)) ==> letter.place() == code
            - FIRST_LETTER,
        (command_for(code) matches Some(Command::Type(_))) <==> FIRST_LETTER <= code
            <= LAST_LETTER,
{
    if FIRST_LETTER <= code <= LAST_LETTER {
        crate::letter::lemma_letter_at_place(code - FIRST_LETTER);
    }
}

} // verus!
