//! Grapheme-to-phoneme conversion by dictionary.

use std::sync::Arc;

use vstd::prelude::*;

use crate::text;
use types::PhonemeView;

pub mod arpabet;
pub mod cmudict;
pub mod types;

pub use arpabet::{arpabet_to_ipa, parse_arpabet_stress};
pub use cmudict::{CmuDict, CmuDictError};
pub use types::Phoneme;

verus! {

/// Pronunciation lookup for one language.
pub trait G2pLookup: Send + Sync {
    /// The language code.
    spec fn language(&self) -> Seq<char>;

    /// The phonemes of a word; `None` for a word that the dictionary lacks.
    spec fn pronunciation(&self, word: Seq<char>) -> Option<Seq<PhonemeView>>;

    /// The number of words.
    spec fn size(&self) -> nat;

    /// The case of a word does not matter.
    proof fn ignores_case(&self, a: Seq<char>, b: Seq<char>)
        requires
            text::lowered(a) == text::lowered(b),
        ensures
            self.pronunciation(a) == self.pronunciation(b),
    ;

    /// Returns the language code (ISO 639-1).
    fn language_code(&self) -> (r: &'static str)
        ensures
            r@ == self.language(),
    ;

    /// Looks up pronunciation for a word.
    ///
    /// Returns `None` if word not found in dictionary.
    /// Word lookup is case-insensitive.
    fn lookup(&self, word: &str) -> (r: Option<Vec<Phoneme>>)
        ensures
            match r {
                Some(phonemes) => self.pronunciation(word@) == Some(types::phoneme_views(phonemes@)),
                None => self.pronunciation(word@) is None,
            },
    ;

    /// Returns the number of entries in the dictionary.
    fn dictionary_size(&self) -> (r: usize)
        ensures
            r == self.size(),
    ;
}

impl<T: G2pLookup + ?Sized> G2pLookup for Arc<T> {
    open spec fn language(&self) -> Seq<char> {
        (**self).language()
    }

    open spec fn pronunciation(&self, word: Seq<char>) -> Option<Seq<PhonemeView>> {
        (**self).pronunciation(word)
    }

    open spec fn size(&self) -> nat {
        (**self).size()
    }

    proof fn ignores_case(&self, a: Seq<char>, b: Seq<char>) {
        (**self).ignores_case(a, b);
    }

    fn language_code(&self) -> &'static str {
        (**self).language_code()
    }

    fn lookup(&self, word: &str) -> Option<Vec<Phoneme>> {
        (**self).lookup(word)
    }

    fn dictionary_size(&self) -> usize {
        (**self).dictionary_size()
    }
}

} // verus!
