//! Words of five letters and the order in which a word list keeps them.
//!
//! Words are compared through their rank, the number that a word spells when
//! its letters are read as digits in base twenty-six. The order of the ranks is
//! the alphabetical order of the words.

use vstd::prelude::*;
use crate::letter::Letter;

verus! {

/// The number of letters in each word.
pub const WORD_SIZE: usize = 5;

/// The number that the letters of `word` spell in base twenty-six, the first
/// letter weighing most.
pub open spec fn word_rank(word: Seq<Letter>) -> nat
    decreases word.len(),
{
    if word.len() == 0 {
        0
    } else {
        (word_rank(word.drop_last()) * 26 + word.last().place()) as nat
    }
}

/// The number of words of `n` letters.
pub open spec fn word_count(n: nat) -> nat
    decreases n,
{
    if n == 0 {
        1
    } else {
        26 * word_count((n - 1) as nat)
    }
}

/// `a` and `b` agree on their first `k` letters, and at place `k` the letter of
/// `a` comes earlier in the alphabet than that of `b`.
pub open spec fn parts_at(a: Seq<Letter>, b: Seq<Letter>, k: int) -> bool {
    &&& 0 <= k < a.len()
    &&& k < b.len()
    &&& a.take(k) == b.take(k)
    &&& a[k].place() < b[k].place()
}

/// `a` comes before `b` in alphabetical order: at the first place where the
/// two differ, `a` holds the earlier letter.
pub open spec fn precedes(a: Seq<Letter>, b: Seq<Letter>) -> bool {
    exists|k: int| parts_at(a, b, k)
}

/// The rank of a word is smaller than the number of words of its length.
pub proof fn lemma_rank_is_bounded(word: Seq<Letter>)
    ensures
        word_rank(word) < word_count(word.len()),
    decreases word.len(),
{
    if word.len() > 0 {
        lemma_rank_is_bounded(word.drop_last());
    }
}

/// Two words of one length have the same rank only if they are the same word.
pub proof fn lemma_rank_is_injective(a: Seq<Letter>, b: Seq<Letter>)
    requires
        a.len() == b.len(),
    ensures
        word_rank(a) == word_rank(b) <==> a == b,
    decreases a.len(),
{
    if a.len() == 0 {
        assert(a =~= b);
    } else {
        lemma_rank_is_injective(a.drop_last(), b.drop_last());
        if word_rank(a) == word_rank(b) {
            crate::letter::lemma_place_of_letter(a.last());
            crate::letter::lemma_place_of_letter(b.last());
            assert(a =~= a.drop_last().push(a.last()));
            assert(b =~= b.drop_last().push(b.last()));
        }
    }
}

/// The order of the ranks is the alphabetical order: of two words of one
/// length, the one with the smaller rank is the one that comes first.
pub proof fn lemma_rank_order_is_alphabetical(a: Seq<Letter>, b: Seq<Letter>)
    requires
        a.len() == b.len(),
    ensures
        word_rank(a) < word_rank(b) <==> precedes(a, b),
    decreases a.len(),
{
    if a.len() > 0 {
        let n = a.len() as int;
        let short_a = a.drop_last();
        let short_b = b.drop_last();
        lemma_rank_order_is_alphabetical(short_a, short_b);
        lemma_rank_is_injective(short_a, short_b);
        assert(short_a =~= a.take(n - 1));
        assert(short_b =~= b.take(n - 1));
        if word_rank(a) < word_rank(b) {
            if word_rank(short_a) < word_rank(short_b) {
                let k = choose|k: int| parts_at(short_a, short_b, k);
                assert(a.take(k) =~= short_a.take(k));
                assert(b.take(k) =~= short_b.take(k));
                assert(parts_at(a, b, k));
            } else {
                assert(parts_at(a, b, n - 1));
            }
        }
        if precedes(a, b) {
            let k = choose|k: int| parts_at(a, b, k);
            if k < n - 1 {
                assert(a.take(k) =~= short_a.take(k));
                assert(b.take(k) =~= short_b.take(k));
                assert(parts_at(short_a, short_b, k));
            }
        }
    }
}

/// Computes the rank of a word.
pub fn rank_of(word: &[Letter; 5]) -> (rank: u32)
    ensures
        rank == word_rank(word@),
        rank < 11_881_376,
{
    let mut rank: u32 = 0;
    let mut i: usize = 0;
    proof {
        reveal_with_fuel(word_count, 6);
    }
    while i < 5
        invariant
            i <= 5,
            rank == word_rank(word@.take(i as int)),
            rank < word_count(i as nat),
            word_count(5) == 11_881_376,
            word_count(i as nat) <= word_count(5),
        decreases 5 - i,
    {
        proof {
            let longer = word@.take(i + 1);
            assert(longer.drop_last() =~= word@.take(i as int));
            crate::letter::lemma_place_of_letter(word@[i as int]);
            reveal_with_fuel(word_count, 6);
        }
        let place: usize = word[i].index();
        rank = rank * 26 + place as u32;
        i += 1;
    }
    assert(word@.take(5) =~= word@);
    rank
}

/// Tells whether two words are the same.
pub fn same_word(a: &[Letter; 5], b: &[Letter; 5]) -> (same: bool)
    ensures
        same <==> a@ == b@,
{
    proof {
        lemma_rank_is_injective(a@, b@);
    }
    rank_of(a) == rank_of(b)
}

} // verus!
