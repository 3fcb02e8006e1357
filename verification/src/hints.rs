//! What the player has learnt of each letter of the alphabet.
//!
//! A table of twenty-six entries, one for each letter at its place in the
//! alphabet, keeps the best outcome that the letter ever had in a scored row,
//! or nothing as long as the letter was never played.

use vstd::prelude::*;
use crate::letter::{lemma_letter_at_place, lemma_place_of_letter, letter_at, Letter};
use crate::scoring::{hint_rank, Correctness};

verus! {

/// What is known of a letter once one more outcome of it has been seen: the
/// better of the two.
pub open spec fn better_of(known: Option<Correctness>, seen: Correctness) -> Option<Correctness> {
    if hint_rank(known) < seen.rank() {
        Some(seen)
    } else {
        known
    }
}

/// What is known of the letter `x` after the first `n` entries of a scored
/// row, given what was known before.
pub open spec fn hint_after(
    known: Option<Correctness>,
    row: Seq<(Letter, Correctness)>,
    n: int,
    x: Letter,
) -> Option<Correctness>
    decreases n,
{
    if n <= 0 {
        known
    } else if row[n - 1].0 == x {
        better_of(hint_after(known, row, n - 1, x), row[n - 1].1)
    } else {
        hint_after(known, row, n - 1, x)
    }
}

/// The table after the first `n` entries of a scored row.
pub open spec fn hints_after_prefix(
    hints: Seq<Option<Correctness>>,
    row: Seq<(Letter, Correctness)>,
    n: int,
) -> Seq<Option<Correctness>> {
    Seq::new(hints.len(), |k: int| hint_after(hints[k], row, n, letter_at(k)))
}

/// The table after a scored row.
pub open spec fn hints_after(hints: Seq<Option<Correctness>>, row: Seq<(Letter, Correctness)>) -> Seq<
    Option<Correctness>,
> {
    hints_after_prefix(hints, row, row.len() as int)
}

/// The table in which nothing is known of any letter.
pub open spec fn no_hints() -> Seq<Option<Correctness>> {
    Seq::new(26, |k: int| None)
}

/// The table that a history of scored rows leaves, oldest row first.
pub open spec fn hints_of(history: Seq<Seq<(Letter, Correctness)>>) -> Seq<Option<Correctness>>
    decreases history.len(),
{
    if history.len() == 0 {
        no_hints()
    } else {
        hints_after(hints_of(history.drop_last()), history.last())
    }
}

/// What is known of a letter after a row weighs no less than what was known
/// before, and no less than any outcome that the letter has in the row; and it
/// is either what was known before or one of those outcomes.
pub proof fn lemma_hint_is_best(
    known: Option<Correctness>,
    row: Seq<(Letter, Correctness)>,
    n: int,
    x: Letter,
)
    requires
        0 <= n <= row.len(),
    ensures
        hint_rank(known) <= hint_rank(hint_after(known, row, n, x)),
        forall|j: int|
            0 <= j < n && (#[trigger] row[j]).0 == x ==> row[j].1.rank() <= hint_rank(
                hint_after(known, row, n, x),
            ),
        hint_after(known, row, n, x) == known || exists|j: int|
            0 <= j < n && #[trigger] row[j] == (x, hint_after(known, row, n, x).unwrap()),
    decreases n,
{
    if n > 0 {
        lemma_hint_is_best(known, row, n - 1, x);
        let before = hint_after(known, row, n - 1, x);
        let after = hint_after(known, row, n, x);
        if after != known {
            if after == before {
                let j = choose|j: int| 0 <= j < n - 1 && #[trigger] row[j] == (x, before.unwrap());
                assert(row[j] == (x, after.unwrap()));
            } else {
                assert(row[n - 1] == (x, after.unwrap()));
            }
        }
    }
}

/// A row says nothing of the letters that it does not hold.
pub proof fn lemma_hint_of_absent_letter(
    known: Option<Correctness>,
    row: Seq<(Letter, Correctness)>,
    n: int,
    x: Letter,
)
    requires
        0 <= n <= row.len(),
        forall|j: int| 0 <= j < n ==> (#[trigger] row[j]).0 != x,
    ensures
        hint_after(known, row, n, x) == known,
    decreases n,
{
    if n > 0 {
        lemma_hint_of_absent_letter(known, row, n - 1, x);
    }
}

/// The table of a history has an entry for each letter of the alphabet.
pub proof fn lemma_hints_cover_the_alphabet(history: Seq<Seq<(Letter, Correctness)>>)
    ensures
        hints_of(history).len() == 26,
    decreases history.len(),
{
    if history.len() > 0 {
        lemma_hints_cover_the_alphabet(history.drop_last());
    }
}

/// What the table of a history knows of a letter is the best outcome that the
/// letter has in any of its rows: no outcome of the letter weighs more, and
/// the table holds one of them, or nothing if the letter stands in no row.
pub proof fn lemma_hints_are_best_of_history(history: Seq<Seq<(Letter, Correctness)>>, x: Letter)
    ensures
        forall|k: int, j: int|
            0 <= k < history.len() && 0 <= j < history[k].len() && (#[trigger] history[k][j]).0
                == x ==> history[k][j].1.rank() <= hint_rank(hints_of(history)[x.place()]),
        match hints_of(history)[x.place()] {
            Some(outcome) => exists|k: int, j: int|
                0 <= k < history.len() && 0 <= j < history[k].len() && #[trigger] history[k][j]
                    == (x, outcome),
            None => forall|k: int, j: int|
                0 <= k < history.len() && 0 <= j < history[k].len() ==> (
                #[trigger] history[k][j]).0 != x,
        },
    decreases history.len(),
{
    lemma_place_of_letter(x);
    if history.len() > 0 {
        let earlier = history.drop_last();
        let row = history.last();
        let last = history.len() - 1;
        lemma_hints_are_best_of_history(earlier, x);
        lemma_hints_cover_the_alphabet(earlier);
        let known = hints_of(earlier)[x.place()];
        let now = hints_of(history)[x.place()];
        lemma_hint_is_best(known, row, row.len() as int, x);
        assert(now == hint_after(known, row, row.len() as int, x));
        assert forall|k: int, j: int|
            0 <= k < history.len() && 0 <= j < history[k].len() && (#[trigger] history[k][j]).0
                == x implies history[k][j].1.rank() <= hint_rank(now) by {
            if k < last {
                assert(earlier[k][j] == history[k][j]);
            } else {
                assert(row[j] == history[k][j]);
            }
        }
        match now {
            Some(outcome) => {
                if now == known {
                    let (k, j) = choose|k: int, j: int|
                        0 <= k < earlier.len() && 0 <= j < earlier[k].len()
                            && #[trigger] earlier[k][j] == (x, outcome);
                    assert(history[k][j] == (x, outcome));
                } else {
                    let j = choose|j: int| 0 <= j < row.len() && #[trigger] row[j] == (x, outcome);
                    assert(history[last][j] == (x, outcome));
                }
            },
            None => {
                assert(known is None);
                assert forall|k: int, j: int|
                    0 <= k < history.len() && 0 <= j < history[k].len() implies (
                #[trigger] history[k][j]).0 != x by {
                    if k < last {
                        assert(earlier[k][j] == history[k][j]);
                    } else {
                        assert(row[j] == history[k][j]);
                        if row[j].0 == x {
                            assert(row[j].1.rank() <= hint_rank(now));
                        }
                    }
                }
            },
        }
    }
}

/// Records a scored row in the table of hints.
pub fn note_row(hints: &mut [Option<Correctness>; 26], row: &[(Letter, Correctness); 5])
    ensures
        final(hints)@ == hints_after(old(hints)@, row@),
{
    let mut i: usize = 0;
    assert(hints@ =~= hints_after_prefix(old(hints)@, row@, 0));
    while i < 5
        invariant
            i <= 5,
            hints@ == hints_after_prefix(old(hints)@, row@, i as int),
        decreases 5 - i,
    {
        let letter: Letter = row[i].0;
        let outcome: Correctness = row[i].1;
        let place: usize = letter.index();
        let known: u8 = match hints[place] {
            None => 0,
            Some(c) => c.weight(),
        };
        let ghost before = hints@;
        if known < outcome.weight() {
            hints[place] = Some(outcome);
        }
        proof {
            lemma_place_of_letter(letter);
            assert forall|k: int| 0 <= k < 26 implies hints@[k] == hint_after(
                old(hints)@[k],
                row@,
                i + 1,
                letter_at(k),
            ) by {
                lemma_letter_at_place(k);
                assert(before[k] == hint_after(old(hints)@[k], row@, i as int, letter_at(k)));
            }
            assert(hints@ =~= hints_after_prefix(old(hints)@, row@, i + 1));
        }
        i += 1;
    }
}

} // verus!
