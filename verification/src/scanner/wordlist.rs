//! The wordlist: one candidate path per line, with blank lines and comments
//! left out.

use vstd::prelude::*;
use crate::text::{
    chars_of,
    lemma_trim_is_idempotent,
    split,
    split_ranges,
    text_of,
    trim,
    trim_range,
};

verus! {

/// What one line of a wordlist holds: the line without the white space around
/// it, unless nothing is left of it or it is a comment, which begins with `#`.
pub open spec fn entry(line: Seq<char>) -> Option<Seq<char>> {
    let trimmed = trim(line);
    if trimmed.len() == 0 || trimmed.first() == '#' {
        None
    } else {
        Some(trimmed)
    }
}

/// What a sequence of lines holds: the entries of the lines that have one, in
/// the order of the lines.
pub open spec fn entries(lines: Seq<Seq<char>>) -> Seq<Seq<char>>
    decreases lines.len(),
{
    if lines.len() == 0 {
        Seq::empty()
    } else {
        let before = entries(lines.drop_last());
        match entry(lines.last()) {
            Some(word) => before.push(word),
            None => before,
        }
    }
}

/// The words of a wordlist given as one text: the entries of its lines. A
/// line ends at a line feed; a carriage return before it is white space and
/// goes with the trimming.
pub open spec fn wordlist(text: Seq<char>) -> Seq<Seq<char>> {
    entries(split(text, '\n'))
}

/// Whether `word` is a word of a wordlist: not empty, no comment, and without
/// white space at either end.
pub open spec fn is_word(word: Seq<char>) -> bool {
    word.len() > 0 && word.first() != '#' && trim(word) == word
}

/// Every entry of a wordlist is a word.
pub proof fn lemma_entries_are_words(lines: Seq<Seq<char>>)
    ensures
        forall|i: int| 0 <= i < entries(lines).len() ==> is_word(#[trigger] entries(lines)[i]),
    decreases lines.len(),
{
    if lines.len() > 0 {
        let before = entries(lines.drop_last());
        lemma_entries_are_words(lines.drop_last());
        lemma_trim_is_idempotent(lines.last());
        assert forall|i: int| 0 <= i < entries(lines).len() implies is_word(
            #[trigger] entries(lines)[i],
        ) by {
            if i < before.len() {
                assert(entries(lines)[i] == before[i]);
            }
        }
    }
}

/// Reads the words out of the text of a wordlist, in the order of its lines.
pub fn read_wordlist(text: &str) -> (words: Vec<String>)
    ensures
        words.deep_view() == wordlist(text@),
{
    let chars = chars_of(text);
    let lines = split_ranges(&chars, '\n');
    let ghost pieces = split(chars@, '\n');
    let mut words: Vec<String> = Vec::new();
    let mut k: usize = 0;
    assert(pieces.take(0) =~= Seq::empty());
    assert(words.deep_view() =~= Seq::empty());
    while k < lines.len()
        invariant
            k <= lines.len(),
            pieces == split(chars@, '\n'),
            lines@.len() == pieces.len(),
            forall|n: int|
                0 <= n < lines@.len() ==> (#[trigger] lines@[n]).0 <= lines@[n].1 <= chars@.len(),
            forall|n: int|
                0 <= n < lines@.len() ==> chars@.subrange(
                    (#[trigger] lines@[n]).0 as int,
                    lines@[n].1 as int,
                ) == pieces[n],
            words.deep_view() == entries(pieces.take(k as int)),
        decreases lines.len() - k,
    {
        let line = lines[k];
        assert(pieces.take(k + 1).drop_last() =~= pieces.take(k as int));
        assert(pieces.take(k + 1).last() == pieces[k as int]);
        let (from, to) = trim_range(&chars, line.0, line.1);
        if from < to && chars[from] != '#' {
            let word = text_of(&chars, from, to);
            let ghost before = words.deep_view();
            words.push(word);
            assert(words.deep_view() =~= before.push(word@));
        }
        k += 1;
    }
    assert(pieces.take(k as int) =~= pieces);
    words
}

} // verus!
