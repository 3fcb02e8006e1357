//! Reading a word list: one word of five letters on each line.
//!
//! The text is cut at every line feed, so a text with `n` line feeds has
//! `n + 1` lines, the last of which is what follows the last line feed. Every
//! line has to spell a word; the first one that does not is reported with its
//! number and its content.

use vstd::prelude::*;
use crate::letter::{letter_of_byte, Letter};

verus! {

/// The byte that ends a line.
pub const LINE_FEED: u8 = 0x0a;

/// The lines of a text: what stands between its line feeds, before the first
/// and after the last of them.
pub open spec fn lines_of(text: Seq<u8>) -> Seq<Seq<u8>>
    decreases text.len(),
{
    if text.len() == 0 {
        seq![Seq::empty()]
    } else {
        let before = lines_of(text.drop_last());
        if text.last() == LINE_FEED {
            before.push(Seq::empty())
        } else {
            before.drop_last().push(before.last().push(text.last()))
        }
    }
}

/// The text that lines make when a line feed is put between each two of them.
pub open spec fn joined(lines: Seq<Seq<u8>>) -> Seq<u8>
    decreases lines.len(),
{
    if lines.len() == 0 {
        Seq::empty()
    } else if lines.len() == 1 {
        lines[0]
    } else {
        joined(lines.drop_last()).push(LINE_FEED) + lines.last()
    }
}

/// The line spells a word: it is five ASCII letters long.
pub open spec fn spells_word(line: Seq<u8>) -> bool {
    &&& line.len() == 5
    &&& forall|i: int| 0 <= i < 5 ==> letter_of_byte(#[trigger] line[i]) is Some
}

/// The word that a line spells.
pub open spec fn word_of_line(line: Seq<u8>) -> Seq<Letter> {
    Seq::new(line.len(), |i: int| letter_of_byte(line[i]).unwrap())
}

/// A line of a word list that does not spell a word.
#[derive(Debug)]
pub struct WordListError {
    /// The number of the line, the first line being line one.
    pub line: usize,
    /// The content of the line.
    pub text: Vec<u8>,
}

/// A text has at least one line, no line holds a line feed, and the lines
/// joined by line feeds are the text again.
pub proof fn lemma_lines_rejoin(text: Seq<u8>)
    ensures
        lines_of(text).len() >= 1,
        forall|k: int, i: int|
            0 <= k < lines_of(text).len() && 0 <= i < lines_of(text)[k].len() ==> (
            #[trigger] lines_of(text)[k][i]) != LINE_FEED,
        joined(lines_of(text)) == text,
    decreases text.len(),
{
    if text.len() == 0 {
        assert(joined(lines_of(text)) =~= text);
    } else {
        let shorter = text.drop_last();
        lemma_lines_rejoin(shorter);
        let before = lines_of(shorter);
        let after = lines_of(text);
        assert(text =~= shorter.push(text.last()));
        if text.last() == LINE_FEED {
            assert(after.drop_last() =~= before);
            assert(joined(after) =~= text);
        } else {
            if before.len() == 1 {
                assert(joined(after) =~= text);
            } else {
                assert(after.drop_last() =~= before.drop_last());
                assert(joined(after) =~= text);
            }
        }
    }
}

/// Reading on in a text leaves every line but the last as it was: a longer
/// part of the text has at least the lines of a shorter part, and the same
/// ones up to the line at which the shorter part breaks off.
pub proof fn lemma_lines_are_settled(text: Seq<u8>, i: int, j: int)
    requires
        0 <= i <= j <= text.len(),
    ensures
        1 <= lines_of(text.take(i)).len() <= lines_of(text.take(j)).len(),
        forall|k: int|
            0 <= k < lines_of(text.take(i)).len() - 1 ==> #[trigger] lines_of(text.take(j))[k]
                == lines_of(text.take(i))[k],
    decreases j - i,
{
    lemma_lines_rejoin(text.take(i));
    if i < j {
        lemma_lines_are_settled(text, i, j - 1);
        lemma_lines_rejoin(text.take(j - 1));
        assert(text.take(j).drop_last() =~= text.take(j - 1));
    }
}

/// Bytes that are no line feed lengthen the last line and leave the others.
pub proof fn lemma_line_grows(text: Seq<u8>, start: int, end: int)
    requires
        0 <= start <= end <= text.len(),
        forall|j: int| start <= j < end ==> text[j] != LINE_FEED,
    ensures
        lines_of(text.take(end)).len() == lines_of(text.take(start)).len(),
        lines_of(text.take(end)).drop_last() == lines_of(text.take(start)).drop_last(),
        lines_of(text.take(end)).last() == lines_of(text.take(start)).last() + text.subrange(
            start,
            end,
        ),
    decreases end - start,
{
    lemma_lines_rejoin(text.take(start));
    if start < end {
        lemma_line_grows(text, start, end - 1);
        lemma_lines_rejoin(text.take(end - 1));
        assert(text.take(end).drop_last() =~= text.take(end - 1));
        let before = lines_of(text.take(end - 1));
        let after = lines_of(text.take(end));
        assert(after.drop_last() =~= before.drop_last());
        assert(after.last() =~= lines_of(text.take(start)).last() + text.subrange(start, end));
    } else {
        assert(lines_of(text.take(end)).last() =~= lines_of(text.take(start)).last()
            + text.subrange(start, end));
    }
}

/// Copies a part of a text.
fn copy_of(text: &[u8], start: usize, end: usize) -> (copy: Vec<u8>)
    requires
        start <= end <= text@.len(),
    ensures
        copy@ == text@.subrange(start as int, end as int),
{
    let mut copy: Vec<u8> = Vec::new();
    let mut i: usize = start;
    while i < end
        invariant
            start <= i <= end <= text@.len(),
            copy@ == text@.subrange(start as int, i as int),
        decreases end - i,
    {
        copy.push(text[i]);
        assert(copy@ =~= text@.subrange(start as int, i + 1));
        i += 1;
    }
    assert(copy@ =~= text@.subrange(start as int, end as int));
    copy
}

/// Reads the word that the line from `start` to `end` spells, if it spells
/// one.
pub fn read_word(text: &[u8], start: usize, end: usize) -> (word: Option<[Letter; 5]>)
    requires
        start <= end <= text@.len(),
    ensures
        word is Some <==> spells_word(text@.subrange(start as int, end as int)),
        word is Some ==> word.unwrap()@ == word_of_line(text@.subrange(start as int, end as int)),
{
    let ghost line = text@.subrange(start as int, end as int);
    if end - start != 5 {
        return None;
    }
    let mut word: [Letter; 5] = [Letter::A;5];
    let mut i: usize = 0;
    while i < 5
        invariant
            i <= 5,
            end - start == 5,
            end <= text@.len(),
            line == text@.subrange(start as int, end as int),
            forall|j: int| 0 <= j < i ==> letter_of_byte(#[trigger] line[j]) == Some(word@[j]),
        decreases 5 - i,
    {
        match Letter::from_ascii_char(text[start + i]) {
            Some(letter) => {
                word[i] = letter;
            },
            None => {
                assert(letter_of_byte(line[i as int]) is None);
                return None;
            },
        }
        i += 1;
    }
    assert(word@ =~= word_of_line(line));
    Some(word)
}

/// Reads a word list.
///
/// The words come in the order of their lines. If a line does not spell a
/// word, the first such line is reported instead.
pub fn parse_word_list(text: &[u8]) -> (result: Result<Vec<[Letter; 5]>, WordListError>)
    ensures
        match result {
            Ok(words) => {
                &&& words@.len() == lines_of(text@).len()
                &&& forall|k: int|
                    0 <= k < words@.len() ==> spells_word(#[trigger] lines_of(text@)[k])
                &&& forall|k: int|
                    0 <= k < words@.len() ==> (#[trigger] words@[k])@ == word_of_line(
                        lines_of(text@)[k],
                    )
            },
            Err(error) => {
                &&& 1 <= error.line <= lines_of(text@).len()
                &&& !spells_word(lines_of(text@)[error.line - 1])
                &&& error.text@ == lines_of(text@)[error.line - 1]
                &&& forall|k: int|
                    0 <= k < error.line - 1 ==> spells_word(#[trigger] lines_of(text@)[k])
            },
        },
{
    let mut words: Vec<[Letter; 5]> = Vec::new();
    let mut start: usize = 0;
    proof {
        assert(text@.take(0) =~= Seq::empty());
    }
    loop
        invariant
            start <= text@.len(),
            lines_of(text@.take(start as int)).len() == words@.len() + 1,
            lines_of(text@.take(start as int)).last() == Seq::<u8>::empty(),
            6 * words@.len() <= start,
            forall|k: int|
                0 <= k < words@.len() ==> spells_word(
                    #[trigger] lines_of(text@.take(start as int))[k],
                ),
            forall|k: int|
                0 <= k < words@.len() ==> (#[trigger] words@[k])@ == word_of_line(
                    lines_of(text@.take(start as int))[k],
                ),
        decreases text@.len() - start,
    {
        let mut end: usize = start;
        while end < text.len() && text[end] != LINE_FEED
            invariant
                start <= end <= text@.len(),
                forall|j: int| start <= j < end ==> text@[j] != LINE_FEED,
            decreases text@.len() - end,
        {
            end += 1;
        }
        let ghost line = text@.subrange(start as int, end as int);
        let ghost read = lines_of(text@.take(start as int));
        let ghost here = lines_of(text@.take(end as int));
        proof {
            lemma_line_grows(text@, start as int, end as int);
            assert(here.last() =~= line);
            assert(forall|k: int| 0 <= k < words@.len() ==> here[k] == read.drop_last()[k]);
            if end < text@.len() {
                let longer = text@.take(end + 1);
                assert(longer.drop_last() =~= text@.take(end as int));
                assert(lines_of(longer) == here.push(Seq::empty()));
                lemma_lines_are_settled(text@, end + 1, text@.len() as int);
            }
            assert(text@.take(text@.len() as int) =~= text@);
            assert(lines_of(text@).len() > words@.len());
            assert(lines_of(text@)[words@.len() as int] == line);
            assert(forall|k: int| 0 <= k < words@.len() ==> lines_of(text@)[k] == here[k]);
        }
        match read_word(text, start, end) {
            None => {
                let content = copy_of(text, start, end);
                return Err(WordListError { line: words.len() + 1, text: content });
            },
            Some(word) => {
                words.push(word);
            },
        }
        if end == text.len() {
            return Ok(words);
        }
        start = end + 1;
    }
}

} // verus!
