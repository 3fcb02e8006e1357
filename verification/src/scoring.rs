//! Scoring a guess against the hidden word.
//!
//! A letter of the guess is `Correct` where the hidden word holds the same
//! letter at the same place. The other letters of the guess are taken from left
//! to right: each of them claims one occurrence of its letter in the hidden
//! word, as long as one is left unclaimed, and is `Misplaced`; once they are
//! all claimed, it is `Incorrect`.

use vstd::prelude::*;
use crate::letter::Letter;

verus! {

/// Describes how correct a letter is.
#[derive(Clone, Copy, PartialEq, Eq, PartialOrd, Ord, Debug, Hash, Structural)]
pub enum Correctness {
    /// The letter is not in the winning word.
    Incorrect,
    /// The letter exists in the winning word but is not in the right place.
    Misplaced,
    /// The letter is in the right place.
    Correct,
}

impl Correctness {
    /// The weight by which outcomes are compared:
    /// `Incorrect` below `Misplaced` below `Correct`.
    pub open spec fn rank(self) -> int {
        match self {
            Correctness::Incorrect => 1,
            Correctness::Misplaced => 2,
            Correctness::Correct => 3,
        }
    }

    /// The weight of the outcome, between one and three.
    pub fn weight(self) -> (w: u8)
        ensures
            w == self.rank(),
    {
        match self {
            Correctness::Incorrect => 1,
            Correctness::Misplaced => 2,
            Correctness::Correct => 3,
        }
    }
}

/// The weight of what is known of a letter: nothing at all weighs less than
/// any outcome.
pub open spec fn hint_rank(hint: Option<Correctness>) -> int {
    match hint {
        None => 0,
        Some(c) => c.rank(),
    }
}

/// How many of the first `n` letters of `word` are `x`.
pub open spec fn occurrences_before(word: Seq<Letter>, n: int, x: Letter) -> nat
    decreases n,
{
    if n <= 0 {
        0
    } else {
        occurrences_before(word, n - 1, x) + if word[n - 1] == x {
            1nat
        } else {
            0nat
        }
    }
}

/// How many times `x` occurs in `word`.
pub open spec fn occurrences(word: Seq<Letter>, x: Letter) -> nat {
    occurrences_before(word, word.len() as int, x)
}

/// How many of the first `n` places hold `x` in the guess and the same letter
/// in the target.
pub open spec fn matched_before(guess: Seq<Letter>, target: Seq<Letter>, n: int, x: Letter) -> nat
    decreases n,
{
    if n <= 0 {
        0
    } else {
        matched_before(guess, target, n - 1, x) + if guess[n - 1] == x && target[n - 1] == x {
            1nat
        } else {
            0nat
        }
    }
}

/// How many of the first `n` places hold `x` in the guess and another letter
/// in the target.
pub open spec fn unmatched_before(guess: Seq<Letter>, target: Seq<Letter>, n: int, x: Letter) -> nat
    decreases n,
{
    if n <= 0 {
        0
    } else {
        unmatched_before(guess, target, n - 1, x) + if guess[n - 1] == x && target[n - 1] != x {
            1nat
        } else {
            0nat
        }
    }
}

/// The outcome of the letter at place `i` of the guess.
pub open spec fn score_at(guess: Seq<Letter>, target: Seq<Letter>, i: int) -> Correctness {
    if guess[i] == target[i] {
        Correctness::Correct
    } else if unmatched_before(guess, target, i, guess[i]) < occurrences(target, guess[i]) {
        Correctness::Misplaced
    } else {
        Correctness::Incorrect
    }
}

/// The scored row of a guess: each of its letters with its outcome.
pub open spec fn score(guess: Seq<Letter>, target: Seq<Letter>) -> Seq<(Letter, Correctness)> {
    Seq::new(guess.len(), |i: int| (guess[i], score_at(guess, target, i)))
}

/// How many of the first `n` letters of the guess are `x` and are scored
/// `Correct` or `Misplaced`.
pub open spec fn credited_before(guess: Seq<Letter>, target: Seq<Letter>, n: int, x: Letter) -> nat
    decreases n,
{
    if n <= 0 {
        0
    } else {
        credited_before(guess, target, n - 1, x) + if guess[n - 1] == x && score_at(
            guess,
            target,
            n - 1,
        ) != Correctness::Incorrect {
            1nat
        } else {
            0nat
        }
    }
}

/// How many letters `x` of the guess are scored `Correct` or `Misplaced`.
pub open spec fn credited(guess: Seq<Letter>, target: Seq<Letter>, x: Letter) -> nat {
    credited_before(guess, target, guess.len() as int, x)
}

/// The smaller of two counts.
pub open spec fn least(a: nat, b: nat) -> nat {
    if a <= b {
        a
    } else {
        b
    }
}

/// A longer prefix of a word holds at least as many `x` as a shorter one, and
/// no more than it has places.
pub proof fn lemma_occurrences_grow(word: Seq<Letter>, n: int, m: int, x: Letter)
    requires
        0 <= n <= m,
    ensures
        occurrences_before(word, n, x) <= occurrences_before(word, m, x),
        occurrences_before(word, n, x) <= n,
    decreases m,
{
    if n < m {
        lemma_occurrences_grow(word, n, m - 1, x);
    } else if n > 0 {
        lemma_occurrences_grow(word, n - 1, m - 1, x);
    }
}

/// The occurrences of `x` before one of its places are fewer than those before
/// any later place.
pub proof fn lemma_occurrences_step(word: Seq<Letter>, q: int, p: int, x: Letter)
    requires
        0 <= q < p,
        word[q] == x,
    ensures
        occurrences_before(word, q, x) < occurrences_before(word, p, x),
{
    lemma_occurrences_grow(word, q + 1, p, x);
}

/// Below the number of `x` among the first `n` letters, every count is the
/// number of `x` that stand before some place of `x`.
pub proof fn lemma_occurrence_of_rank(word: Seq<Letter>, n: int, x: Letter, r: int) -> (q: int)
    requires
        0 <= r < occurrences_before(word, n, x),
    ensures
        0 <= q < n,
        word[q] == x,
        occurrences_before(word, q, x) == r,
    decreases n,
{
    if word[n - 1] == x && occurrences_before(word, n - 1, x) == r {
        n - 1
    } else {
        lemma_occurrence_of_rank(word, n - 1, x, r)
    }
}

/// A word scored against itself is all `Correct`.
pub proof fn lemma_score_of_target(target: Seq<Letter>)
    ensures
        score(target, target).len() == target.len(),
        forall|i: int|
            0 <= i < target.len() ==> score(target, target)[i] == (target[i], Correctness::Correct),
{
}

/// Guess and target agree at every place exactly when every letter of the row
/// is `Correct`.
pub proof fn lemma_all_correct_is_equality(guess: Seq<Letter>, target: Seq<Letter>)
    requires
        guess.len() == target.len(),
    ensures
        guess == target <==> forall|i: int|
            0 <= i < guess.len() ==> (#[trigger] score(guess, target)[i]).1 == Correctness::Correct,
{
    if forall|i: int|
        0 <= i < guess.len() ==> (#[trigger] score(guess, target)[i]).1 == Correctness::Correct {
        assert forall|i: int| 0 <= i < guess.len() implies guess[i] == target[i] by {
            assert(score(guess, target)[i].1 == Correctness::Correct);
        }
        assert(guess =~= target);
    }
}

/// The letters `x` of the guess that are credited are those that stand at their
/// place, and of the others as many as the target has `x`, or all of them if
/// they are fewer.
pub proof fn lemma_credited_count(guess: Seq<Letter>, target: Seq<Letter>, n: int, x: Letter)
    requires
        0 <= n <= guess.len(),
        guess.len() == target.len(),
    ensures
        credited_before(guess, target, n, x) == matched_before(guess, target, n, x) + least(
            unmatched_before(guess, target, n, x),
            occurrences(target, x),
        ),
    decreases n,
{
    if n > 0 {
        lemma_credited_count(guess, target, n - 1, x);
    }
}

/// The letters `x` of the guess are those that stand at their place and those
/// that do not.
pub proof fn lemma_occurrences_split(guess: Seq<Letter>, target: Seq<Letter>, n: int, x: Letter)
    requires
        0 <= n <= guess.len(),
        guess.len() == target.len(),
    ensures
        occurrences_before(guess, n, x) == matched_before(guess, target, n, x) + unmatched_before(
            guess,
            target,
            n,
            x,
        ),
        matched_before(guess, target, n, x) <= occurrences_before(target, n, x),
    decreases n,
{
    if n > 0 {
        lemma_occurrences_split(guess, target, n - 1, x);
    }
}

/// `x` stands at its place somewhere in the guess, and the guess holds more
/// `x` than the target.
pub open spec fn overdraws(guess: Seq<Letter>, target: Seq<Letter>, x: Letter) -> bool {
    &&& matched_before(guess, target, guess.len() as int, x) > 0
    &&& occurrences(guess, x) > occurrences(target, x)
}

/// No more letters `x` of a guess are credited than the target holds, unless
/// an `x` of the guess stands at its place while the guess holds more `x` than
/// the target. And never more than the guess holds.
pub proof fn lemma_credit_is_bounded(guess: Seq<Letter>, target: Seq<Letter>, x: Letter)
    requires
        guess.len() == target.len(),
        !overdraws(guess, target, x),
    ensures
        credited(guess, target, x) <= occurrences(target, x),
        credited(guess, target, x) <= occurrences(guess, x),
{
    let n = guess.len() as int;
    lemma_credited_count(guess, target, n, x);
    lemma_occurrences_split(guess, target, n, x);
}

/// Where an `x` of the guess stands at its place and the guess holds more `x`
/// than the target, more `x` are credited than the target holds: the
/// occurrence that the `x` at its place has met is claimed once more by an `x`
/// that stands elsewhere.
pub proof fn lemma_credit_exceeds_when_overdrawn(
    guess: Seq<Letter>,
    target: Seq<Letter>,
    x: Letter,
)
    requires
        guess.len() == target.len(),
        overdraws(guess, target, x),
    ensures
        credited(guess, target, x) > occurrences(target, x),
        credited(guess, target, x) <= occurrences(guess, x),
{
    let n = guess.len() as int;
    lemma_credited_count(guess, target, n, x);
    lemma_occurrences_split(guess, target, n, x);
}

/// What the table of claimed places holds once the first `done` letters of the
/// guess have been taken: of each letter, the leftmost occurrences in the
/// target are claimed, as many as letters of the guess have asked for one.
pub open spec fn claims_match(
    claimed: Seq<bool>,
    guess: Seq<Letter>,
    target: Seq<Letter>,
    done: int,
) -> bool {
    &&& claimed.len() == target.len()
    &&& forall|p: int|
        0 <= p < target.len() ==> (#[trigger] claimed[p] <==> occurrences_before(
            target,
            p,
            target[p],
        ) < unmatched_before(guess, target, done, target[p]))
}

/// Taking one more letter of the guess that stands at its place claims
/// nothing.
proof fn lemma_claims_after_match(
    claimed: Seq<bool>,
    guess: Seq<Letter>,
    target: Seq<Letter>,
    i: int,
)
    requires
        0 <= i < guess.len(),
        guess.len() == target.len(),
        claims_match(claimed, guess, target, i),
        guess[i] == target[i],
    ensures
        claims_match(claimed, guess, target, i + 1),
{
    assert forall|p: int| 0 <= p < target.len() implies (#[trigger] claimed[p]
        <==> occurrences_before(target, p, target[p]) < unmatched_before(
        guess,
        target,
        i + 1,
        target[p],
    )) by {
        assert(unmatched_before(guess, target, i + 1, target[p]) == unmatched_before(
            guess,
            target,
            i,
            target[p],
        ));
    }
}

/// The letter at place `i` of the guess found the unclaimed place `p`, the
/// leftmost that holds it: it is `Misplaced`, and with `p` claimed the table
/// is that of the first `i + 1` letters.
proof fn lemma_claims_after_hit(
    claimed: Seq<bool>,
    guess: Seq<Letter>,
    target: Seq<Letter>,
    i: int,
    p: int,
)
    requires
        0 <= i < guess.len(),
        guess.len() == target.len(),
        claims_match(claimed, guess, target, i),
        guess[i] != target[i],
        0 <= p < target.len(),
        target[p] == guess[i],
        !claimed[p],
        forall|q: int| 0 <= q < p && target[q] == guess[i] ==> claimed[q],
    ensures
        score_at(guess, target, i) == Correctness::Misplaced,
        claims_match(claimed.update(p, true), guess, target, i + 1),
{
    let x = guess[i];
    let asked = unmatched_before(guess, target, i, x);
    lemma_occurrences_grow(target, p + 1, target.len() as int, x);
    if occurrences_before(target, p, x) > asked {
        let q = lemma_occurrence_of_rank(target, p, x, asked as int);
        assert(claimed[q]);
    }
    assert(occurrences_before(target, p, x) == asked);
    let after = claimed.update(p, true);
    assert forall|q: int| 0 <= q < target.len() implies (#[trigger] after[q]
        <==> occurrences_before(target, q, target[q]) < unmatched_before(
        guess,
        target,
        i + 1,
        target[q],
    )) by {
        if target[q] == x {
            if q < p {
                lemma_occurrences_step(target, q, p, x);
            } else if q > p {
                lemma_occurrences_step(target, p, q, x);
            }
        } else {
            assert(claimed[q] == after[q]);
        }
    }
}

/// The letter at place `i` of the guess found every place that holds it
/// claimed: it is `Incorrect`, and the table is that of the first `i + 1`
/// letters as it stands.
proof fn lemma_claims_after_miss(
    claimed: Seq<bool>,
    guess: Seq<Letter>,
    target: Seq<Letter>,
    i: int,
)
    requires
        0 <= i < guess.len(),
        guess.len() == target.len(),
        claims_match(claimed, guess, target, i),
        guess[i] != target[i],
        forall|q: int| 0 <= q < target.len() && target[q] == guess[i] ==> claimed[q],
    ensures
        score_at(guess, target, i) == Correctness::Incorrect,
        claims_match(claimed, guess, target, i + 1),
{
    let x = guess[i];
    let asked = unmatched_before(guess, target, i, x);
    if asked < occurrences(target, x) {
        let q = lemma_occurrence_of_rank(target, target.len() as int, x, asked as int);
        assert(claimed[q]);
    }
    assert forall|q: int| 0 <= q < target.len() implies (#[trigger] claimed[q]
        <==> occurrences_before(target, q, target[q]) < unmatched_before(
        guess,
        target,
        i + 1,
        target[q],
    )) by {
        if target[q] == x {
            assert(claimed[q]);
        }
    }
}

/// Scores a guess against the target, letter by letter.
pub fn score_guess(guess: &[Letter; 5], target: &[Letter; 5]) -> (row: [(Letter, Correctness); 5])
    ensures
        row@ == score(guess@, target@),
{
    let mut row: [(Letter, Correctness); 5] = [(Letter::A, Correctness::Incorrect);5];

    // Start by checking which letters are correct. Every other one is
    // marked as `Incorrect`.
    let mut i: usize = 0;
    while i < 5
        invariant
            i <= 5,
            forall|j: int|
                0 <= j < i ==> row@[j] == (
                    guess@[j],
                    if guess@[j] == target@[j] {
                        Correctness::Correct
                    } else {
                        Correctness::Incorrect
                    },
                ),
        decreases 5 - i,
    {
        let outcome = if guess[i] == target[i] {
            Correctness::Correct
        } else {
            Correctness::Incorrect
        };
        row[i] = (guess[i], outcome);
        i += 1;
    }

    // This array remembers whether a letter within the target has already
    // been claimed by a misplaced letter of the guess.
    let mut seen: [bool; 5] = [false;5];

    let mut i: usize = 0;
    while i < 5
        invariant
            i <= 5,
            claims_match(seen@, guess@, target@, i as int),
            forall|j: int| 0 <= j < i ==> row@[j] == score(guess@, target@)[j],
            forall|j: int|
                i <= j < 5 ==> row@[j] == (
                    guess@[j],
                    if guess@[j] == target@[j] {
                        Correctness::Correct
                    } else {
                        Correctness::Incorrect
                    },
                ),
        decreases 5 - i,
    {
        // Only incorrect letters can be misplaced.
        if guess[i] == target[i] {
            proof {
                lemma_claims_after_match(seen@, guess@, target@, i as int);
            }
        } else {
            let mut p: usize = 0;
            let mut found = false;
            while p < 5 && !found
                invariant
                    p <= 5,
                    i < 5,
                    guess@[i as int] != target@[i as int],
                    !found ==> claims_match(seen@, guess@, target@, i as int),
                    !found ==> forall|q: int|
                        0 <= q < p && target@[q] == guess@[i as int] ==> seen@[q],
                    !found ==> row@[i as int] == (guess@[i as int], Correctness::Incorrect),
                    found ==> claims_match(seen@, guess@, target@, i + 1),
                    found ==> row@[i as int] == score(guess@, target@)[i as int],
                    forall|j: int| 0 <= j < i ==> row@[j] == score(guess@, target@)[j],
                    forall|j: int|
                        i < j < 5 ==> row@[j] == (
                            guess@[j],
                            if guess@[j] == target@[j] {
                                Correctness::Correct
                            } else {
                                Correctness::Incorrect
                            },
                        ),
                decreases
                        5 - p + if found {
                            0int
                        } else {
                            1int
                        },
            {
                if !seen[p] && target[p] == guess[i] {
                    proof {
                        lemma_claims_after_hit(seen@, guess@, target@, i as int, p as int);
                    }
                    seen[p] = true;
                    row[i] = (guess[i], Correctness::Misplaced);
                    found = true;
                } else {
                    p += 1;
                }
            }
            proof {
                if !found {
                    lemma_claims_after_miss(seen@, guess@, target@, i as int);
                }
            }
        }
        i += 1;
    }
    assert(row@ =~= score(guess@, target@));
    row
}

} // verus!
