//! A word-guessing game: the player has six tries to find a hidden five-letter
//! word, and every confirmed guess is scored letter by letter.
//!
//! The crate holds the rules of the game only. Whatever draws the board, reads
//! the keyboard, loads the word list from disk or rolls the dice lives outside
//! of it and talks to it through plain values.

pub mod dictionary;
pub mod game;
pub mod hints;
pub mod input;
pub mod letter;
pub mod position;
pub mod scoring;
pub mod screen;
pub mod word;
pub mod word_list;

pub use dictionary::Dictionary;
pub use game::Game;
pub use input::{Command, KeyCode, KeyPress};
pub use letter::Letter;
pub use position::{GameState, Position};
pub use scoring::Correctness;
