//! The alphabet of the game.

use vstd::prelude::*;

verus! {

/// A letter that the player can type.
#[derive(Clone, Copy, PartialEq, Eq, PartialOrd, Ord, Debug, Hash, Structural)]
pub enum Letter {
    A,
    B,
    C,
    D,
    E,
    F,
    G,
    H,
    I,
    J,
    K,
    L,
    M,
    N,
    O,
    P,
    Q,
    R,
    S,
    T,
    U,
    V,
    W,
    X,
    Y,
    Z,
}

/// The number of letters in the alphabet.
pub const ALPHABET_SIZE: usize = 26;

/// The letter that stands at place `i` of the alphabet, counted from zero.
/// Outside of `0..26` the value is `Z`; nothing relies on it.
pub open spec fn letter_at(i: int) -> Letter {
    if i <= 0 {
        Letter::A
    } else if i == 1 {
        Letter::B
    } else if i == 2 {
        Letter::C
    } else if i == 3 {
        Letter::D
    } else if i == 4 {
        Letter::E
    } else if i == 5 {
        Letter::F
    } else if i == 6 {
        Letter::G
    } else if i == 7 {
        Letter::H
    } else if i == 8 {
        Letter::I
    } else if i == 9 {
        Letter::J
    } else if i == 10 {
        Letter::K
    } else if i == 11 {
        Letter::L
    } else if i == 12 {
        Letter::M
    } else if i == 13 {
        Letter::N
    } else if i == 14 {
        Letter::O
    } else if i == 15 {
        Letter::P
    } else if i == 16 {
        Letter::Q
    } else if i == 17 {
        Letter::R
    } else if i == 18 {
        Letter::S
    } else if i == 19 {
        Letter::T
    } else if i == 20 {
        Letter::U
    } else if i == 21 {
        Letter::V
    } else if i == 22 {
        Letter::W
    } else if i == 23 {
        Letter::X
    } else if i == 24 {
        Letter::Y
    } else {
        Letter::Z
    }
}

/// What an ASCII byte stands for: upper-case and lower-case Latin letters are
/// read alike, every other byte is no letter.
pub open spec fn letter_of_byte(c: u8) -> Option<Letter> {
    if 0x41 <= c <= 0x5a {
        Some(letter_at(c - 0x41))
    } else if 0x61 <= c <= 0x7a {
        Some(letter_at(c - 0x61))
    } else {
        None
    }
}

impl Letter {
    /// The place of the letter in the alphabet, counted from zero.
    pub open spec fn place(self) -> int {
        match self {
            Letter::A => 0,
            Letter::B => 1,
            Letter::C => 2,
            Letter::D => 3,
            Letter::E => 4,
            Letter::F => 5,
            Letter::G => 6,
            Letter::H => 7,
            Letter::I => 8,
            Letter::J => 9,
            Letter::K => 10,
            Letter::L => 11,
            Letter::M => 12,
            Letter::N => 13,
            Letter::O => 14,
            Letter::P => 15,
            Letter::Q => 16,
            Letter::R => 17,
            Letter::S => 18,
            Letter::T => 19,
            Letter::U => 20,
            Letter::V => 21,
            Letter::W => 22,
            Letter::X => 23,
            Letter::Y => 24,
            Letter::Z => 25,
        }
    }

    /// Converts an ASCII character into a [`Letter`] instance.
    ///
    /// If the character is not an ASCII letter, [`None`] is returned instead.
    pub fn from_ascii_char(c: u8) -> (r: Option<Self>)
        ensures
            r == letter_of_byte(c),
    {
        let upper: u8 = if 0x61 <= c && c <= 0x7a {
            c - 0x20
        } else {
            c
        };
        match upper {
            0x41 => Some(Self::A),
            0x42 => Some(Self::B),
            0x43 => Some(Self::C),
            0x44 => Some(Self::D),
            0x45 => Some(Self::E),
            0x46 => Some(Self::F),
            0x47 => Some(Self::G),
            0x48 => Some(Self::H),
            0x49 => Some(Self::I),
            0x4a => Some(Self::J),
            0x4b => Some(Self::K),
            0x4c => Some(Self::L),
            0x4d => Some(Self::M),
            0x4e => Some(Self::N),
            0x4f => Some(Self::O),
            0x50 => Some(Self::P),
            0x51 => Some(Self::Q),
            0x52 => Some(Self::R),
            0x53 => Some(Self::S),
            0x54 => Some(Self::T),
            0x55 => Some(Self::U),
            0x56 => Some(Self::V),
            0x57 => Some(Self::W),
            0x58 => Some(Self::X),
            0x59 => Some(Self::Y),
            0x5a => Some(Self::Z),
            _ => None,
        }
    }

    /// The place of the letter in the alphabet, counted from zero: the index
    /// under which a table of twenty-six entries keeps what belongs to it.
    pub fn index(self) -> (i: usize)
        ensures
            i == self.place(),
            i < ALPHABET_SIZE,
    {
        match self {
            Letter::A => 0,
            Letter::B => 1,
            Letter::C => 2,
            Letter::D => 3,
            Letter::E => 4,
            Letter::F => 5,
            Letter::G => 6,
            Letter::H => 7,
            Letter::I => 8,
            Letter::J => 9,
            Letter::K => 10,
            Letter::L => 11,
            Letter::M => 12,
            Letter::N => 13,
            Letter::O => 14,
            Letter::P => 15,
            Letter::Q => 16,
            Letter::R => 17,
            Letter::S => 18,
            Letter::T => 19,
            Letter::U => 20,
            Letter::V => 21,
            Letter::W => 22,
            Letter::X => 23,
            Letter::Y => 24,
            Letter::Z => 25,
        }
    }
}

/// A letter's place lies within the alphabet, and the letter at that place is
/// the letter itself: no two letters share a place.
pub proof fn lemma_place_of_letter(l: Letter)
    ensures
        0 <= l.place() < 26,
        letter_at(l.place()) == l,
{
}

/// Every place of the alphabet holds a letter, whose place it is.
pub proof fn lemma_letter_at_place(i: int)
    requires
        0 <= i < 26,
    ensures
        letter_at(i).place() == i,
{
}

/// A byte stands for a letter exactly when it is an ASCII letter, and its
/// upper-case and lower-case forms stand for the same one.
pub proof fn lemma_letter_of_byte_ignores_case(c: u8)
    ensures
        letter_of_byte(c) is Some <==> (0x41 <= c <= 0x5a || 0x61 <= c <= 0x7a),
        0x41 <= c <= 0x5a ==> letter_of_byte((c + 0x20) as u8) == letter_of_byte(c),
{
}

} // verus!
