//! The list of words that are accepted as guesses.

use vstd::prelude::*;
use crate::letter::Letter;
use crate::word::{lemma_rank_is_injective, rank_of, word_rank};

verus! {

/// The words stand in ascending order of rank: in alphabetical order.
pub open spec fn in_order(words: Seq<[Letter; 5]>) -> bool {
    forall|i: int, j: int|
        0 <= i < j < words.len() ==> word_rank(#[trigger] words[i]@) <= word_rank(
            #[trigger] words[j]@,
        )
}

/// `a` comes no later than `b` in alphabetical order.
pub open spec fn no_later(a: [Letter; 5], b: [Letter; 5]) -> bool {
    word_rank(a@) <= word_rank(b@)
}

/// There is only one way to put words in order: two lists in alphabetical
/// order that hold the same words, each as often as the other, are the same
/// list.
pub proof fn lemma_order_is_unique(a: Seq<[Letter; 5]>, b: Seq<[Letter; 5]>)
    requires
        in_order(a),
        in_order(b),
        a.to_multiset() == b.to_multiset(),
    ensures
        a == b,
{
    let leq = |x: [Letter; 5], y: [Letter; 5]| no_later(x, y);
    assert(vstd::relations::antisymmetric(leq)) by {
        assert forall|x: [Letter; 5], y: [Letter; 5]| #[trigger] leq(x, y) && #[trigger] leq(
            y,
            x,
        ) implies x == y by {
            lemma_rank_is_injective(x@, y@);
            assert(x =~= y);
        }
    }
    assert(vstd::relations::total_ordering(leq));
    assert(vstd::relations::sorted_by(a, leq)) by {
        assert forall|i: int, j: int| 0 <= i < j < a.len() implies #[trigger] leq(a[i], a[j]) by {
            assert(word_rank(a[i]@) <= word_rank(a[j]@));
        }
    }
    assert(vstd::relations::sorted_by(b, leq)) by {
        assert forall|i: int, j: int| 0 <= i < j < b.len() implies #[trigger] leq(b[i], b[j]) by {
            assert(word_rank(b[i]@) <= word_rank(b[j]@));
        }
    }
    vstd::seq_lib::lemma_sorted_unique(a, b, leq);
}

/// A list of words, kept in alphabetical order from the moment it is made and
/// never changed afterwards.
pub struct Dictionary {
    words: Vec<[Letter; 5]>,
}

/// Putting one more element into a sequence, wherever it goes, adds it to what
/// the sequence holds.
proof fn lemma_insert_adds_one(s: Seq<[Letter; 5]>, at: int, word: [Letter; 5])
    requires
        0 <= at <= s.len(),
    ensures
        s.insert(at, word).to_multiset() == s.to_multiset().insert(word),
{
    broadcast use vstd::seq_lib::group_to_multiset_ensures;

    let longer = s.insert(at, word);
    assert(longer.remove(at) =~= s);
    assert(longer[at] == word);
    assert(longer.contains(word));
    assert(longer.to_multiset().count(word) > 0);
    assert(longer.to_multiset() =~= longer.remove(at).to_multiset().insert(word));
}

impl View for Dictionary {
    type V = Seq<[Letter; 5]>;

    /// The words of the list, first to last.
    closed spec fn view(&self) -> Seq<[Letter; 5]> {
        self.words@
    }
}

impl Dictionary {
    #[verifier::type_invariant]
    spec fn kept_in_order(&self) -> bool {
        in_order(self.words@)
    }

    /// Makes a dictionary of the given words: the same words, each as often as
    /// it was given, in alphabetical order.
    pub fn new(words: Vec<[Letter; 5]>) -> (dictionary: Dictionary)
        ensures
            in_order(dictionary@),
            dictionary@.to_multiset() == words@.to_multiset(),
    {
        let mut sorted: Vec<[Letter; 5]> = Vec::new();
        let mut i: usize = 0;
        proof {
            assert(words@.take(0) =~= sorted@);
        }
        while i < words.len()
            invariant
                i <= words.len(),
                in_order(sorted@),
                sorted@.to_multiset() == words@.take(i as int).to_multiset(),
            decreases words.len() - i,
        {
            let word: [Letter; 5] = words[i];
            let rank: u32 = rank_of(&word);
            let mut at: usize = 0;
            let mut placed = false;
            while at < sorted.len() && !placed
                invariant
                    at <= sorted.len(),
                    rank == word_rank(word@),
                    forall|k: int| 0 <= k < at ==> word_rank(#[trigger] sorted@[k]@) <= rank,
                    placed ==> at < sorted.len() && rank < word_rank(sorted@[at as int]@),
                decreases
                        sorted.len() - at + if placed {
                            0int
                        } else {
                            1int
                        },
            {
                if rank_of(&sorted[at]) <= rank {
                    at += 1;
                } else {
                    placed = true;
                }
            }
            proof {
                let before = sorted@;
                let after = before.insert(at as int, word);
                lemma_insert_adds_one(before, at as int, word);
                assert(words@.take(i + 1) =~= words@.take(i as int).push(words@[i as int]));
                vstd::seq_lib::to_multiset_build(words@.take(i as int), words@[i as int]);
                assert forall|a: int, b: int| 0 <= a < b < after.len() implies word_rank(
                    #[trigger] after[a]@,
                ) <= word_rank(#[trigger] after[b]@) by {
                    let from_a = if a < at {
                        a
                    } else {
                        a - 1
                    };
                    let from_b = if b < at {
                        b
                    } else {
                        b - 1
                    };
                    if a != at {
                        assert(after[a] == before[from_a]);
                    }
                    if b != at {
                        assert(after[b] == before[from_b]);
                    }
                    if a != at && b != at {
                        assert(from_a < from_b);
                    }
                    if a == at {
                        assert(at as int <= from_b);
                        if (at as int) < from_b {
                            assert(word_rank(before[at as int]@) <= word_rank(before[from_b]@));
                        }
                    }
                }
            }
            sorted.insert(at, word);
            i += 1;
        }
        assert(words@.take(words@.len() as int) =~= words@);
        Dictionary { words: sorted }
    }

    /// The number of words in the dictionary.
    pub fn len(&self) -> (n: usize)
        ensures
            n == self@.len(),
            in_order(self@),
    {
        proof {
            use_type_invariant(self);
        }
        self.words.len()
    }

    /// The word at place `i` of the dictionary.
    pub fn word(&self, i: usize) -> (word: [Letter; 5])
        requires
            i < self@.len(),
        ensures
            word == self@[i as int],
    {
        self.words[i]
    }

    /// Looks a word up: the place of one of its occurrences, or `None` if the
    /// dictionary does not hold it.
    pub fn find(&self, word: &[Letter; 5]) -> (place: Option<usize>)
        ensures
            match place {
                Some(i) => i < self@.len() && self@[i as int] == *word,
                None => !self@.contains(*word),
            },
    {
        proof {
            use_type_invariant(self);
        }
        let rank: u32 = rank_of(word);
        let mut low: usize = 0;
        let mut high: usize = self.words.len();
        while low < high
            invariant
                low <= high <= self.words@.len(),
                in_order(self.words@),
                rank == word_rank(word@),
                forall|k: int| 0 <= k < low ==> word_rank(#[trigger] self.words@[k]@) < rank,
                forall|k: int|
                    high <= k < self.words@.len() ==> rank < word_rank(#[trigger] self.words@[k]@),
            decreases high - low,
        {
            let middle: usize = low + (high - low) / 2;
            let found: u32 = rank_of(&self.words[middle]);
            if found == rank {
                proof {
                    lemma_rank_is_injective(self.words@[middle as int]@, word@);
                    assert(self.words@[middle as int] =~= *word);
                }
                return Some(middle);
            } else if found < rank {
                low = middle + 1;
            } else {
                high = middle;
            }
        }
        proof {
            if self.words@.contains(*word) {
                let k = choose|k: int| 0 <= k < self.words@.len() && self.words@[k] == *word;
                assert(word_rank(self.words@[k]@) == rank);
            }
        }
        None
    }

    /// Tells whether the dictionary holds the word.
    pub fn contains(&self, word: &[Letter; 5]) -> (held: bool)
        ensures
            held == self@.contains(*word),
    {
        self.find(word).is_some()
    }
}

} // verus!
