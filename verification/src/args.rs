//! The configuration of a scan, as the command line gives it.

use vstd::prelude::*;
use std::time::Duration;
use crate::text::{
    chars_of,
    push_range,
    split,
    split_ranges,
    strip_leading,
    strip_leading_range,
    trim,
    trim_range,
};

verus! {

/// The duration of `secs` whole seconds, as `Duration::from_secs` makes it.
pub uninterp spec fn duration_of_secs(secs: u64) -> Duration;

/// `Duration::from_secs` makes the duration of that many whole seconds.
pub assume_specification[ Duration::from_secs ](secs: u64) -> (d: Duration)
    ensures
        d == duration_of_secs(secs),
;

/// Everything a scan is told.
#[derive(Debug)]
pub struct Args {
    /// The base address; it must begin with `http://` or `https://`.
    pub base: String,
    /// The path of the wordlist file.
    pub wordlist: String,
    /// The most requests that may be in flight at once.
    pub concurrency: usize,
    /// Whether every request is a `GET`, rather than a `HEAD` first.
    pub get: bool,
    /// The time a single request may take, in seconds.
    pub timeout: u64,
    /// The extensions to try for bare names, separated by commas.
    pub exts: String,
}

/// An extension in its normal form: one dot, then the token without the dots
/// it began with.
pub open spec fn normalize_ext(token: Seq<char>) -> Seq<char> {
    seq!['.'] + strip_leading(token, '.')
}

/// The extensions that a sequence of tokens gives: each token is trimmed,
/// tokens of which nothing is left are dropped, and the others are put in
/// normal form, in the order of the tokens.
pub open spec fn extensions(tokens: Seq<Seq<char>>) -> Seq<Seq<char>>
    decreases tokens.len(),
{
    if tokens.len() == 0 {
        Seq::empty()
    } else {
        let before = extensions(tokens.drop_last());
        let token = trim(tokens.last());
        if token.len() == 0 {
            before
        } else {
            before.push(normalize_ext(token))
        }
    }
}

/// The extensions that an extension list gives: those of its tokens, which
/// commas separate.
pub open spec fn parsed_exts(list: Seq<char>) -> Seq<Seq<char>> {
    extensions(split(list, ','))
}

/// Whether a text begins with exactly one dot.
pub open spec fn starts_with_one_dot(ext: Seq<char>) -> bool {
    ext.len() > 0 && ext[0] == '.' && (ext.len() > 1 ==> ext[1] != '.')
}

/// Stripping leaves no `c` at the front.
pub proof fn lemma_strip_leading_stops(s: Seq<char>, c: char)
    ensures
        strip_leading(s, c).len() > 0 ==> strip_leading(s, c).first() != c,
    decreases s.len(),
{
    if s.len() > 0 && s.first() == c {
        lemma_strip_leading_stops(s.drop_first(), c);
    }
}

/// Whatever the token, its normal form begins with exactly one dot.
pub proof fn lemma_normalized_ext_starts_with_one_dot(token: Seq<char>)
    ensures
        starts_with_one_dot(normalize_ext(token)),
{
    lemma_strip_leading_stops(token, '.');
    let rest = strip_leading(token, '.');
    if rest.len() > 0 {
        assert(normalize_ext(token)[1] == rest[0]);
    }
}

/// Every extension of an extension list begins with exactly one dot.
pub proof fn lemma_extensions_start_with_one_dot(tokens: Seq<Seq<char>>)
    ensures
        forall|i: int|
            0 <= i < extensions(tokens).len() ==> starts_with_one_dot(
                #[trigger] extensions(tokens)[i],
            ),
    decreases tokens.len(),
{
    if tokens.len() > 0 {
        let before = extensions(tokens.drop_last());
        lemma_extensions_start_with_one_dot(tokens.drop_last());
        lemma_normalized_ext_starts_with_one_dot(trim(tokens.last()));
        assert forall|i: int| 0 <= i < extensions(tokens).len() implies starts_with_one_dot(
            #[trigger] extensions(tokens)[i],
        ) by {
            if i < before.len() {
                assert(extensions(tokens)[i] == before[i]);
            }
        }
    }
}

impl Clone for Args {
    fn clone(&self) -> (copy: Self)
        ensures
            copy == *self,
    {
        Args {
            base: self.base.clone(),
            wordlist: self.wordlist.clone(),
            concurrency: self.concurrency,
            get: self.get,
            timeout: self.timeout,
            exts: self.exts.clone(),
        }
    }
}

impl Args {
    /// The time a single request may take.
    pub fn request_timeout(&self) -> (timeout: Duration)
        ensures
            timeout == duration_of_secs(self.timeout),
    {
        Duration::from_secs(self.timeout)
    }

    /// The extensions to try, each in normal form, in the order given.
    pub fn parse_exts(&self) -> (exts: Vec<String>)
        ensures
            exts.deep_view() == parsed_exts(self.exts@),
            forall|i: int|
                0 <= i < exts.len() ==> starts_with_one_dot(#[trigger] exts.deep_view()[i]),
    {
        let chars = chars_of(self.exts.as_str());
        let tokens = split_ranges(&chars, ',');
        let ghost pieces = split(chars@, ',');
        let mut exts: Vec<String> = Vec::new();
        let mut k: usize = 0;
        assert(pieces.take(0) =~= Seq::empty());
        assert(exts.deep_view() =~= Seq::empty());
        while k < tokens.len()
            invariant
                k <= tokens.len(),
                pieces == split(chars@, ','),
                tokens@.len() == pieces.len(),
                forall|n: int|
                    0 <= n < tokens@.len() ==> (#[trigger] tokens@[n]).0 <= tokens@[n].1
                        <= chars@.len(),
                forall|n: int|
                    0 <= n < tokens@.len() ==> chars@.subrange(
                        (#[trigger] tokens@[n]).0 as int,
                        tokens@[n].1 as int,
                    ) == pieces[n],
                exts.deep_view() == extensions(pieces.take(k as int)),
            decreases tokens.len() - k,
        {
            let token = tokens[k];
            assert(pieces.take(k + 1).drop_last() =~= pieces.take(k as int));
            assert(pieces.take(k + 1).last() == pieces[k as int]);
            let (from, to) = trim_range(&chars, token.0, token.1);
            if from < to {
                let start = strip_leading_range(&chars, from, to, '.');
                let mut ext = String::new();
                ext.push('.');
                push_range(&mut ext, &chars, start, to);
                assert(ext@ =~= normalize_ext(chars@.subrange(from as int, to as int)));
                let ghost before = exts.deep_view();
                exts.push(ext);
                assert(exts.deep_view() =~= before.push(ext@));
            }
            k += 1;
        }
        assert(pieces.take(k as int) =~= pieces);
        proof {
            lemma_extensions_start_with_one_dot(pieces);
        }
        exts
    }
}

} // verus!
