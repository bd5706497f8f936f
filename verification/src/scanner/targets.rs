//! From a base address, a wordlist and a list of extensions to the addresses
//! that a scan probes.

use vstd::prelude::*;
use vstd::string::*;
use crate::text::{chars_of, lemma_trim_is_subrange, push_range, range_contains, trim, trim_range};

verus! {

/// A wordlist entry made ready to be joined to the base: without the white
/// space around it and without one leading `/`, since the base ends in one.
pub open spec fn clean_word(word: Seq<char>) -> Seq<char> {
    let trimmed = trim(word);
    if trimmed.len() > 0 && trimmed.first() == '/' {
        trimmed.drop_first()
    } else {
        trimmed
    }
}

/// Whether `/` occurs anywhere in the word.
pub open spec fn contains_slash(word: Seq<char>) -> bool {
    word.contains('/')
}

/// Whether the word's last character is `/`.
pub open spec fn ends_with_slash(word: Seq<char>) -> bool {
    word.len() > 0 && word.last() == '/'
}

/// Whether `.` occurs anywhere in the word.
pub open spec fn has_dot(word: Seq<char>) -> bool {
    word.contains('.')
}

/// Whether the word names a directory, or a path through one.
pub open spec fn is_directory_like(word: Seq<char>) -> bool {
    contains_slash(word) || ends_with_slash(word)
}

/// Whether the word is a bare name, the one kind that is tried with each
/// extension: neither directory-like nor already carrying a dot.
pub open spec fn takes_extensions(word: Seq<char>) -> bool {
    !is_directory_like(word) && !has_dot(word)
}

/// `stem` followed by each of `exts` in turn.
pub open spec fn with_extensions(stem: Seq<char>, exts: Seq<Seq<char>>) -> Seq<Seq<char>> {
    Seq::new(exts.len(), |i: int| stem + exts[i])
}

/// The targets that one wordlist entry gives: none if nothing is left of it
/// once cleaned; else the entry as it is, followed, for a bare name, by the
/// entry under each extension in the order of the extensions.
pub open spec fn word_targets(base: Seq<char>, word: Seq<char>, exts: Seq<Seq<char>>) -> Seq<
    Seq<char>,
> {
    let cleaned = clean_word(word);
    if cleaned.len() == 0 {
        Seq::empty()
    } else if takes_extensions(cleaned) {
        seq![base + cleaned] + with_extensions(base + cleaned, exts)
    } else {
        seq![base + cleaned]
    }
}

/// The targets of a whole wordlist: those of each entry, in the order of the
/// entries.
pub open spec fn targets(base: Seq<char>, words: Seq<Seq<char>>, exts: Seq<Seq<char>>) -> Seq<
    Seq<char>,
>
    decreases words.len(),
{
    if words.len() == 0 {
        Seq::empty()
    } else {
        targets(base, words.drop_last(), exts) + word_targets(base, words.last(), exts)
    }
}

/// A word without `/` and without `.` that is more than white space gives
/// one target more than there are extensions: first the word as it is, then
/// the word under each extension, in the order of the extensions.
pub proof fn lemma_bare_name_gets_every_extension(
    base: Seq<char>,
    word: Seq<char>,
    exts: Seq<Seq<char>>,
)
    requires
        trim(word).len() > 0,
        !word.contains('/'),
        !word.contains('.'),
    ensures
        word_targets(base, word, exts).len() == 1 + exts.len(),
        word_targets(base, word, exts)[0] == base + trim(word),
        forall|i: int|
            0 <= i < exts.len() ==> #[trigger] word_targets(base, word, exts)[i + 1] == base
                + trim(word) + exts[i],
{
    let (a, b) = lemma_trim_is_subrange(word);
    let trimmed = trim(word);
    assert forall|c: char| word.subrange(a, b).contains(c) implies word.contains(c) by {
        let k = choose|k: int| 0 <= k < b - a && word.subrange(a, b)[k] == c;
        assert(word[a + k] == c);
    }
    assert(trimmed.first() != '/') by {
        assert(trimmed.contains(trimmed[0]));
    }
    assert(clean_word(word) == trimmed);
    assert(!ends_with_slash(trimmed)) by {
        assert(trimmed.contains(trimmed[trimmed.len() - 1]));
    }
}

/// A word that, once cleaned, holds a `/` or a `.` gives exactly one target,
/// the word as it is, however many extensions there are; and so does every
/// word that is not empty once cleaned where there are no extensions.
pub proof fn lemma_path_or_file_gets_no_extension(
    base: Seq<char>,
    word: Seq<char>,
    exts: Seq<Seq<char>>,
)
    requires
        clean_word(word).len() > 0,
        contains_slash(clean_word(word)) || ends_with_slash(clean_word(word)) || has_dot(
            clean_word(word),
        ) || exts.len() == 0,
    ensures
        word_targets(base, word, exts) == seq![base + clean_word(word)],
{
    if takes_extensions(clean_word(word)) {
        assert(word_targets(base, word, exts) =~= seq![base + clean_word(word)]);
    }
}

/// A word of which nothing is left once it is cleaned gives no target.
pub proof fn lemma_blank_word_gets_no_target(base: Seq<char>, word: Seq<char>, exts: Seq<Seq<char>>)
    requires
        clean_word(word).len() == 0,
    ensures
        word_targets(base, word, exts).len() == 0,
{
}

/// Every target is the base with a path appended: scheme and host are those
/// of the base.
pub proof fn lemma_targets_extend_base(base: Seq<char>, words: Seq<Seq<char>>, exts: Seq<Seq<char>>)
    ensures
        forall|i: int|
            0 <= i < targets(base, words, exts).len() ==> base.is_prefix_of(
                #[trigger] targets(base, words, exts)[i],
            ),
    decreases words.len(),
{
    if words.len() > 0 {
        lemma_targets_extend_base(base, words.drop_last(), exts);
        let before = targets(base, words.drop_last(), exts);
        let last = word_targets(base, words.last(), exts);
        let cleaned = clean_word(words.last());
        assert forall|i: int| 0 <= i < last.len() implies base.is_prefix_of(#[trigger] last[i]) by {
            assert((base + cleaned).subrange(0, base.len() as int) =~= base);
            if i > 0 {
                assert(last[i] == base + cleaned + exts[i - 1]);
                assert((base + cleaned + exts[i - 1]).subrange(0, base.len() as int) =~= base);
            }
        }
    }
}

/// The targets of a wordlist are those of its entries one after the other:
/// adding an entry at the end adds its targets at the end.
pub proof fn lemma_targets_push(
    base: Seq<char>,
    words: Seq<Seq<char>>,
    word: Seq<char>,
    exts: Seq<Seq<char>>,
)
    ensures
        targets(base, words.push(word), exts) == targets(base, words, exts) + word_targets(
            base,
            word,
            exts,
        ),
{
    assert(words.push(word).drop_last() =~= words);
}

/// Builds the addresses to probe, in order: for every entry of `words` the
/// entry joined to `base`, and for a bare name also the entry under each of
/// `exts`.
pub fn build_targets(base: &str, words: &[String], exts: &[String]) -> (out: Vec<String>)
    ensures
        out.deep_view() == targets(base@, words.deep_view(), exts.deep_view()),
{
    let mut out: Vec<String> = Vec::new();
    let mut i: usize = 0;
    assert(words.deep_view().take(0) =~= Seq::empty());
    assert(out.deep_view() =~= Seq::empty());
    while i < words.len()
        invariant
            i <= words.len(),
            out.deep_view() == targets(base@, words.deep_view().take(i as int), exts.deep_view()),
        decreases words.len() - i,
    {
        let ghost done = out.deep_view();
        let ghost word = words.deep_view()[i as int];
        proof {
            assert(words.deep_view().take(i + 1).drop_last() =~= words.deep_view().take(i as int));
            assert(words.deep_view().take(i + 1).last() == word);
            assert(word == words@[i as int]@);
        }
        let chars = chars_of(words[i].as_str());
        let (mut from, to) = trim_range(&chars, 0, chars.len());
        assert(chars@.subrange(0, chars@.len() as int) =~= chars@);
        if from < to && chars[from] == '/' {
            assert(chars@.subrange(from as int, to as int).drop_first() =~= chars@.subrange(
                from + 1,
                to as int,
            ));
            from = from + 1;
        }
        let ghost cleaned = chars@.subrange(from as int, to as int);
        assert(cleaned == clean_word(word));
        if from < to {
            let slash = range_contains(&chars, from, to, '/');
            let ends_with_slash = chars[to - 1] == '/';
            let dot = range_contains(&chars, from, to, '.');
            let directory_like = slash || ends_with_slash;
            assert(directory_like == is_directory_like(cleaned));
            assert(dot == has_dot(cleaned));

            let mut stem = base.to_owned();
            push_range(&mut stem, &chars, from, to);
            assert(stem@ == base@ + cleaned);
            if !directory_like && !dot {
                let mut with_exts: Vec<String> = Vec::new();
                let mut j: usize = 0;
                while j < exts.len()
                    invariant
                        j <= exts.len(),
                        with_exts.deep_view() == with_extensions(stem@, exts.deep_view()).take(
                            j as int,
                        ),
                    decreases exts.len() - j,
                {
                    let mut url = stem.clone();
                    url.append(exts[j].as_str());
                    assert(exts.deep_view()[j as int] == exts@[j as int]@);
                    let ghost before = with_exts.deep_view();
                    with_exts.push(url);
                    assert(with_exts.deep_view() =~= before.push(url@));
                    j += 1;
                    assert(with_exts.deep_view() =~= with_extensions(
                        stem@,
                        exts.deep_view(),
                    ).take(j as int));
                }
                assert(with_extensions(stem@, exts.deep_view()).take(j as int)
                    =~= with_extensions(stem@, exts.deep_view()));
                let ghost stem_text = stem@;
                let ghost more = with_exts.deep_view();
                out.push(stem);
                assert(out.deep_view() =~= done.push(stem_text));
                out.append(&mut with_exts);
                assert(out.deep_view() =~= done + (seq![stem_text] + more));
            } else {
                let ghost stem_text = stem@;
                out.push(stem);
                assert(out.deep_view() =~= done + seq![stem_text]);
            }
        } else {
            assert(done + Seq::<Seq<char>>::empty() =~= done);
        }
        i += 1;
    }
    assert(words.deep_view().take(i as int) =~= words.deep_view());
    out
}

} // verus!
