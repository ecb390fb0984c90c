//! The source of words: a dictionary drawn from uniformly at random, or a
//! scripted source that hands its words out in order for deterministic runs.

use vstd::prelude::*;

use crate::random::{draw_at, next_after, RandomProvider};

verus! {

/// Why no passphrase could be generated.
#[derive(Clone, Copy, Debug, PartialEq, Eq, Structural)]
pub enum PhraseError {
    /// The word list has no entries.
    EmptyDictionary,
    /// The word list could not be read.
    SourceUnavailable,
}

impl PhraseError {
    /// A diagnostic line for this error.
    pub fn message(&self) -> (r: &'static str)
        ensures
            self is EmptyDictionary ==> r@ == "the word list has no entries"@,
            self is SourceUnavailable ==> r@ == "the word list could not be read"@,
    {
        match self {
            PhraseError::EmptyDictionary => "the word list has no entries",
            PhraseError::SourceUnavailable => "the word list could not be read",
        }
    }
}

/// The dictionary index a scripted source draws from at position `next`.
pub open spec fn scripted_index(len: int, next: int) -> int
    recommends
        len > 0,
{
    next % len
}

/// The position of a scripted source after one draw at position `next`.
pub open spec fn scripted_next(len: int, next: int) -> int
    recommends
        len > 0,
{
    (next % len + 1) % len
}

/// A provider of dictionary words.
///
/// An unscripted source draws uniformly at random, with replacement, from
/// its word list. A scripted source hands its words out in list order,
/// cycling, and consumes no randomness.
pub struct WordSource {
    /// The dictionary entries.
    pub words: Vec<String>,
    /// Whether words are handed out in list order instead of at random.
    pub scripted: bool,
    /// The next list position a scripted source hands out.
    pub next: usize,
}

impl WordSource {
    /// A source that draws uniformly at random from `words`.
    pub fn dictionary(words: Vec<String>) -> (r: WordSource)
        ensures
            r.words == words,
            !r.scripted,
            r.next == 0,
    {
        WordSource { words, scripted: false, next: 0 }
    }

    /// A source that hands out `words` in order, cycling.
    pub fn scripted(words: Vec<String>) -> (r: WordSource)
        ensures
            r.words == words,
            r.scripted,
            r.next == 0,
    {
        WordSource { words, scripted: true, next: 0 }
    }

    /// Draw one word: uniformly at random for a dictionary source, the next
    /// scripted word for a scripted one. Fails exactly when the word list is
    /// empty, leaving the source and the provider untouched.
    pub fn draw_word(&mut self, rng: &mut RandomProvider) -> (r: Result<String, PhraseError>)
        ensures
            final(self).words == old(self).words,
            final(self).scripted == old(self).scripted,
            final(rng).script == old(rng).script,
            (r is Ok) == (old(self).words@.len() > 0),
            r is Err ==> {
                &&& r->Err_0 == PhraseError::EmptyDictionary
                &&& *final(self) == *old(self)
                &&& *final(rng) == *old(rng)
            },
            r matches Ok(w) ==> {
                &&& old(self).scripted ==> {
                    &&& w == old(self).words@[scripted_index(
                        old(self).words@.len() as int,
                        old(self).next as int,
                    )]
                    &&& final(self).next as int == scripted_next(
                        old(self).words@.len() as int,
                        old(self).next as int,
                    )
                    &&& *final(rng) == *old(rng)
                }
                &&& !old(self).scripted ==> {
                    &&& final(self).next == old(self).next
                    &&& exists|i: int|
                        0 <= i < old(self).words@.len() && w == old(self).words@[i]
                    &&& old(rng).script is None ==> *final(rng) == *old(rng)
                    &&& old(rng).script matches Some(vals) ==> {
                        &&& w == old(self).words@[draw_at(
                            vals@,
                            old(rng).next as int,
                            old(self).words@.len() as int,
                        )]
                        &&& final(rng).next as int == next_after(vals@, old(rng).next as int)
                    }
                }
            },
    {
        let len = self.words.len();
        if len == 0 {
            return Err(PhraseError::EmptyDictionary);
        }
        if self.scripted {
            let k: usize = self.next % len;
            let w = self.words[k].clone();
            self.next = (k + 1) % len;
            Ok(w)
        } else {
            let i = rng.uniform_below(len);
            Ok(self.words[i].clone())
        }
    }
}

} // verus!
