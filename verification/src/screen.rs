//! What a frame shows: the letters to draw, where, how large and in which
//! colour.
//!
//! The board takes the upper part of the canvas: six rows of five cells, the
//! scored guesses first and the guess that is being typed below them. Under
//! the board stands the keyboard, each key in the colour of what is known of
//! its letter; once the round is over the winning word stands there instead.

use vstd::prelude::*;
use crate::game::Game;
use crate::letter::Letter;
use crate::position::{GameState, Position};
use crate::scoring::Correctness;

verus! {

/// The width of the canvas.
pub const WIDTH: u32 = 470;

/// The height of the canvas.
pub const HEIGHT: u32 = 630;

/// The side of a cell of the board.
pub const CELL_SIZE: u32 = 64;

/// The side of a key of the keyboard.
pub const KEY_SIZE: u32 = 32;

/// The colour in which a letter is drawn.
#[derive(Clone, Copy, PartialEq, Eq, Debug, Hash, Structural)]
pub enum Tint {
    /// Nothing is known of the letter.
    Black,
    /// The letter is in the right place.
    Green,
    /// The letter is in the word, at another place.
    Yellow,
    /// The letter is not in the word.
    Grey,
}

/// A letter on the canvas: a square of side `size` whose upper left corner is
/// at `x` from the left and `y` from the top.
#[derive(Clone, Copy, PartialEq, Eq, Debug, Hash, Structural)]
pub struct Glyph {
    pub letter: Letter,
    pub x: u32,
    pub y: u32,
    pub size: u32,
    pub tint: Tint,
}

impl Glyph {
    /// The glyph lies within the canvas.
    pub open spec fn fits(self) -> bool {
        self.x + self.size <= WIDTH && self.y + self.size <= HEIGHT
    }
}

/// The colour of an outcome.
pub open spec fn tint_of(outcome: Correctness) -> Tint {
    match outcome {
        Correctness::Correct => Tint::Green,
        Correctness::Misplaced => Tint::Yellow,
        Correctness::Incorrect => Tint::Grey,
    }
}

/// The colour of a key.
pub open spec fn tint_of_hint(hint: Option<Correctness>) -> Tint {
    match hint {
        Some(outcome) => tint_of(outcome),
        None => Tint::Black,
    }
}

/// The letter of the key at place `k` of the keyboard, its three rows read
/// one after the other.
pub open spec fn key_letter(k: int) -> Letter {
    if k == 0 {
        Letter::Q
    } else if k == 1 {
        Letter::W
    } else if k == 2 {
        Letter::E
    } else if k == 3 {
        Letter::R
    } else if k == 4 {
        Letter::T
    } else if k == 5 {
        Letter::Y
    } else if k == 6 {
        Letter::U
    } else if k == 7 {
        Letter::I
    } else if k == 8 {
        Letter::O
    } else if k == 9 {
        Letter::P
    } else if k == 10 {
        Letter::A
    } else if k == 11 {
        Letter::S
    } else if k == 12 {
        Letter::D
    } else if k == 13 {
        Letter::F
    } else if k == 14 {
        Letter::G
    } else if k == 15 {
        Letter::H
    } else if k == 16 {
        Letter::J
    } else if k == 17 {
        Letter::K
    } else if k == 18 {
        Letter::L
    } else if k == 19 {
        Letter::Z
    } else if k == 20 {
        Letter::X
    } else if k == 21 {
        Letter::C
    } else if k == 22 {
        Letter::V
    } else if k == 23 {
        Letter::B
    } else if k == 24 {
        Letter::N
    } else {
        Letter::M
    }
}

/// The letter in the cell at `row` and `column` of the board.
pub open spec fn cell_glyph(row: int, column: int, letter: Letter, tint: Tint) -> Glyph {
    Glyph {
        letter,
        x: (55 + 74 * column) as u32,
        y: (30 + 74 * row) as u32,
        size: CELL_SIZE,
        tint,
    }
}

/// The key at place `k` of the keyboard: ten keys in the first row, nine in
/// the second and seven in the third.
pub open spec fn key_glyph(k: int, hints: Seq<Option<Correctness>>) -> Glyph {
    let letter = key_letter(k);
    let tint = tint_of_hint(hints[letter.place()]);
    if k < 10 {
        Glyph { letter, x: (30 + 42 * k) as u32, y: 494, size: KEY_SIZE, tint }
    } else if k < 19 {
        Glyph { letter, x: (51 + 42 * (k - 10)) as u32, y: 536, size: KEY_SIZE, tint }
    } else {
        Glyph { letter, x: (93 + 42 * (k - 19)) as u32, y: 578, size: KEY_SIZE, tint }
    }
}

/// The letter at place `i` of the winning word, as it is shown once the round
/// is over.
pub open spec fn final_glyph(i: int, letter: Letter, tint: Tint) -> Glyph {
    Glyph { letter, x: (75 + 64 * i) as u32, y: 540, size: CELL_SIZE, tint }
}

/// The scored guesses on the board, row by row.
pub open spec fn scored_glyphs(rows: Seq<Seq<(Letter, Correctness)>>) -> Seq<Glyph> {
    Seq::new(
        5 * rows.len(),
        |n: int| cell_glyph(n / 5, n % 5, rows[n / 5][n % 5].0, tint_of(rows[n / 5][n % 5].1)),
    )
}

/// The guess that is being typed, in the row of the board below the scored
/// guesses.
pub open spec fn typed_glyphs(word: Seq<Letter>, row: int) -> Seq<Glyph> {
    Seq::new(word.len(), |column: int| cell_glyph(row, column, word[column], Tint::Black))
}

/// What stands under the board: the keyboard while the round is being played,
/// then the winning word, green if the round was won and grey if it was lost.
pub open spec fn footer_glyphs(p: Position) -> Seq<Glyph> {
    match p.state {
        GameState::Playing => Seq::new(26, |k: int| key_glyph(k, p.letters_state)),
        GameState::Won => Seq::new(5, |i: int| final_glyph(i, p.winning_word[i], Tint::Green)),
        GameState::Lost => Seq::new(5, |i: int| final_glyph(i, p.winning_word[i], Tint::Grey)),
    }
}

/// All the letters that a frame shows.
pub open spec fn frame(p: Position) -> Seq<Glyph> {
    scored_glyphs(p.previous_words) + typed_glyphs(p.current_word, p.previous_words.len() as int)
        + footer_glyphs(p)
}

/// Tells the colour of an outcome.
pub fn tint_for(outcome: Correctness) -> (tint: Tint)
    ensures
        tint == tint_of(outcome),
{
    match outcome {
        Correctness::Correct => Tint::Green,
        Correctness::Misplaced => Tint::Yellow,
        Correctness::Incorrect => Tint::Grey,
    }
}

/// Tells the letter of the key at place `k` of the keyboard.
pub fn key_at(k: usize) -> (letter: Letter)
    requires
        k < 26,
    ensures
        letter == key_letter(k as int),
{
    match k {
        0 => Letter::Q,
        1 => Letter::W,
        2 => Letter::E,
        3 => Letter::R,
        4 => Letter::T,
        5 => Letter::Y,
        6 => Letter::U,
        7 => Letter::I,
        8 => Letter::O,
        9 => Letter::P,
        10 => Letter::A,
        11 => Letter::S,
        12 => Letter::D,
        13 => Letter::F,
        14 => Letter::G,
        15 => Letter::H,
        16 => Letter::J,
        17 => Letter::K,
        18 => Letter::L,
        19 => Letter::Z,
        20 => Letter::X,
        21 => Letter::C,
        22 => Letter::V,
        23 => Letter::B,
        24 => Letter::N,
        _ => Letter::M,
    }
}

/// Every letter of the alphabet has exactly one key.
pub proof fn lemma_one_key_for_each_letter(letter: Letter)
    ensures
        exists|k: int| 0 <= k < 26 && #[trigger] key_letter(k) == letter,
        forall|j: int, k: int|
            0 <= j < 26 && 0 <= k < 26 && key_letter(j) == key_letter(k) ==> j == k,
{
    let k: int = match letter {
        Letter::Q => 0,
        Letter::W => 1,
        Letter::E => 2,
        Letter::R => 3,
        Letter::T => 4,
        Letter::Y => 5,
        Letter::U => 6,
        Letter::I => 7,
        Letter::O => 8,
        Letter::P => 9,
        Letter::A => 10,
        Letter::S => 11,
        Letter::D => 12,
        Letter::F => 13,
        Letter::G => 14,
        Letter::H => 15,
        Letter::J => 16,
        Letter::K => 17,
        Letter::L => 18,
        Letter::Z => 19,
        Letter::X => 20,
        Letter::C => 21,
        Letter::V => 22,
        Letter::B => 23,
        Letter::N => 24,
        Letter::M => 25,
    };
    assert(key_letter(k) == letter);
}

/// Every letter that a frame shows lies within the canvas, whatever the
/// position that play has reached.
pub proof fn lemma_frame_fits(p: Position, n: int)
    requires
        p.wf(),
        0 <= n < frame(p).len(),
    ensures
        frame(p)[n].fits(),
{
    let scored = scored_glyphs(p.previous_words);
    let typed = typed_glyphs(p.current_word, p.previous_words.len() as int);
    if n >= scored.len() + typed.len() {
        let k = n - scored.len() - typed.len();
        assert(frame(p)[n] == footer_glyphs(p)[k]);
    } else if n >= scored.len() {
        assert(frame(p)[n] == typed[n - scored.len()]);
    } else {
        assert(frame(p)[n] == scored[n]);
    }
}

/// Lists the letters that the frame of a game shows.
pub fn frame_of(game: &Game) -> (glyphs: Vec<Glyph>)
    ensures
        glyphs@ == frame(game@),
        forall|n: int| 0 <= n < glyphs@.len() ==> (#[trigger] glyphs@[n]).fits(),
{
    let state = game.state();
    let tries: usize = game.current_try();
    let rows = game.previous_words();
    let ghost scored = scored_glyphs(game@.previous_words);
    let mut glyphs: Vec<Glyph> = Vec::new();

    let mut row: usize = 0;
    while row < tries
        invariant
            row <= tries <= 6,
            tries == game@.previous_words.len(),
            scored == scored_glyphs(game@.previous_words),
            game@.wf(),
            forall|k: int|
                0 <= k < game@.previous_words.len() ==> (#[trigger] rows@[k])@
                    == game@.previous_words[k],
            glyphs@ == scored.take(5 * row),
        decreases tries - row,
    {
        let scored_row: [(Letter, Correctness); 5] = rows[row];
        assert(scored_row@ == game@.previous_words[row as int]);
        let mut column: usize = 0;
        while column < 5
            invariant
                column <= 5,
                row < tries <= 6,
                tries == game@.previous_words.len(),
                scored == scored_glyphs(game@.previous_words),
                scored_row@ == game@.previous_words[row as int],
                glyphs@ == scored.take(5 * row + column),
            decreases 5 - column,
        {
            let entry: (Letter, Correctness) = scored_row[column];
            let glyph = Glyph {
                letter: entry.0,
                x: 55 + 74 * column as u32,
                y: 30 + 74 * row as u32,
                size: CELL_SIZE,
                tint: tint_for(entry.1),
            };
            proof {
                let n = 5 * row + column;
                assert(n / 5 == row && n % 5 == column);
                assert(scored[n] == glyph);
                assert(scored.take(n + 1) =~= scored.take(n).push(glyph));
            }
            glyphs.push(glyph);
            column += 1;
        }
        row += 1;
    }
    assert(scored.take(5 * tries) =~= scored);

    let word: [Letter; 5] = game.current_word();
    let cursor: usize = game.cursor();
    let ghost typed = typed_glyphs(game@.current_word, tries as int);
    proof {
        assert(tries == 6 ==> cursor == 0);
        assert(glyphs@ =~= scored + typed.take(0));
    }
    let mut column: usize = 0;
    while column < cursor
        invariant
            column <= cursor <= 5,
            cursor > 0 ==> tries < 6,
            cursor == game@.current_word.len(),
            word@.take(cursor as int) == game@.current_word,
            typed == typed_glyphs(game@.current_word, tries as int),
            glyphs@ == scored + typed.take(column as int),
        decreases cursor - column,
    {
        let glyph = Glyph {
            letter: word[column],
            x: 55 + 74 * column as u32,
            y: 30 + 74 * tries as u32,
            size: CELL_SIZE,
            tint: Tint::Black,
        };
        proof {
            assert(word@.take(cursor as int)[column as int] == word@[column as int]);
            assert(typed[column as int] == glyph);
            assert(scored + typed.take(column + 1) =~= (scored + typed.take(column as int)).push(
                glyph,
            ));
        }
        glyphs.push(glyph);
        column += 1;
    }
    assert(typed.take(cursor as int) =~= typed);

    let ghost footer = footer_glyphs(game@);
    let ghost upper = scored + typed;
    assert(glyphs@ =~= upper + footer.take(0));
    match state {
        GameState::Playing => {
            let hints: [Option<Correctness>; 26] = game.letters_state();
            let mut k: usize = 0;
            while k < 26
                invariant
                    k <= 26,
                    hints@ == game@.letters_state,
                    game@.state == GameState::Playing,
                    footer == footer_glyphs(game@),
                    glyphs@ == upper + footer.take(k as int),
                decreases 26 - k,
            {
                let letter: Letter = key_at(k);
                let tint = match hints[letter.index()] {
                    Some(outcome) => tint_for(outcome),
                    None => Tint::Black,
                };
                let glyph = if k < 10 {
                    Glyph { letter, x: 30 + 42 * k as u32, y: 494, size: KEY_SIZE, tint }
                } else if k < 19 {
                    Glyph { letter, x: 51 + 42 * (k - 10) as u32, y: 536, size: KEY_SIZE, tint }
                } else {
                    Glyph { letter, x: 93 + 42 * (k - 19) as u32, y: 578, size: KEY_SIZE, tint }
                };
                proof {
                    assert(footer[k as int] == glyph);
                    assert(upper + footer.take(k + 1) =~= (upper + footer.take(k as int)).push(
                        glyph,
                    ));
                }
                glyphs.push(glyph);
                k += 1;
            }
            assert(footer.take(26) =~= footer);
        },
        GameState::Won | GameState::Lost => {
            let winning_word: [Letter; 5] = game.winning_word();
            let tint = match state {
                GameState::Won => Tint::Green,
                _ => Tint::Grey,
            };
            let mut i: usize = 0;
            while i < 5
                invariant
                    i <= 5,
                    winning_word@ == game@.winning_word,
                    game@.state == state,
                    state != GameState::Playing,
                    tint == if state == GameState::Won {
                        Tint::Green
                    } else {
                        Tint::Grey
                    },
                    footer == footer_glyphs(game@),
                    glyphs@ == upper + footer.take(i as int),
                decreases 5 - i,
            {
                let glyph = Glyph {
                    letter: winning_word[i],
                    x: 75 + 64 * i as u32,
                    y: 540,
                    size: CELL_SIZE,
                    tint,
                };
                proof {
                    assert(footer[i as int] == glyph);
                    assert(upper + footer.take(i + 1) =~= (upper + footer.take(i as int)).push(
                        glyph,
                    ));
                }
                glyphs.push(glyph);
                i += 1;
            }
            assert(footer.take(5) =~= footer);
        },
    }
    proof {
        assert(glyphs@ == frame(game@));
        assert forall|n: int| 0 <= n < glyphs@.len() implies (#[trigger] glyphs@[n]).fits() by {
            lemma_frame_fits(game@, n);
        }
    }
    glyphs
}

} // verus!
