//! Transcripts: how words are joined, and what is counted.

use vstd::prelude::*;

use crate::error::ErrorView;
use crate::phoneme_map;
use crate::phoneme_map::{Entries, ResolutionMethod, ResolutionStats, SIL_IDX};
use crate::text;
use crate::text::Separator;

verus! {

/// Two stretches of targets with silence in between, where there is something on
/// both sides.
pub open spec fn with_silence(a: Seq<i32>, b: Seq<i32>) -> Seq<i32> {
    if a.len() == 0 {
        b
    } else if b.len() == 0 {
        a
    } else {
        a + seq![41i32] + b
    }
}

/// The words of a transcript are letters, apostrophes and hyphens; what else
/// stands in it is dropped, and the rest of a word keeps its order.
pub proof fn law_word_characters(word: Seq<char>, c: char)
    ensures
        phoneme_map::is_word_char(c) <==> 'A' <= c <= 'Z' || 'a' <= c <= 'z' || c == '\'' || c
            == '-',
        phoneme_map::cleaned(word) == word.filter(|x: char| phoneme_map::is_word_char(x)),
{
}

/// A transcript of one word is what the word resolves to; the word is counted, and
/// counted once more under the way it was resolved.
pub proof fn law_one_word(word: Seq<char>, dict: Entries)
    requires
        phoneme_map::cleaned(word).len() > 0,
    ensures
        ({
            let (indices, method) = phoneme_map::resolved(phoneme_map::cleaned(word), dict);
            let (targets, stats) = phoneme_map::words_targets(seq![word], dict);
            let hit = |m: ResolutionMethod| -> int
                {
                    if indices.len() > 0 && method == m {
                        1
                    } else {
                        0
                    }
                };
            &&& targets == indices
            &&& stats.total_words == 1
            &&& stats.dict_hits == hit(ResolutionMethod::Dictionary)
            &&& stats.possessive_hits == hit(ResolutionMethod::Possessive)
            &&& stats.hyphen_hits == hit(ResolutionMethod::HyphenSplit)
            &&& stats.suffix_hits == hit(ResolutionMethod::SuffixStrip)
            &&& stats.compound_hits == hit(ResolutionMethod::CompoundSplit)
            &&& stats.chained_hits == hit(ResolutionMethod::ChainedAffix)
            &&& stats.g2p_hits == hit(ResolutionMethod::PossessiveG2p) + hit(
                ResolutionMethod::RuleG2p,
            )
        }),
{
    let one = seq![word];
    assert(one.drop_last() =~= Seq::<Seq<char>>::empty());
    assert(phoneme_map::words_targets(one.drop_last(), dict) == (
        Seq::<i32>::empty(),
        phoneme_map::no_stats(),
    ));
    assert(one.last() == word);
    let (indices, method) = phoneme_map::resolved(phoneme_map::cleaned(word), dict);
    if indices.len() == 0 {
        assert(phoneme_map::words_targets(one, dict).0 =~= indices);
    }
}

/// The counts of `a` and `b` together.
pub open spec fn counts_add(a: ResolutionStats, b: ResolutionStats, sum: ResolutionStats) -> bool {
    &&& sum.total_words == a.total_words + b.total_words
    &&& sum.dict_hits == a.dict_hits + b.dict_hits
    &&& sum.possessive_hits == a.possessive_hits + b.possessive_hits
    &&& sum.hyphen_hits == a.hyphen_hits + b.hyphen_hits
    &&& sum.suffix_hits == a.suffix_hits + b.suffix_hits
    &&& sum.compound_hits == a.compound_hits + b.compound_hits
    &&& sum.chained_hits == a.chained_hits + b.chained_hits
    &&& sum.g2p_hits == a.g2p_hits + b.g2p_hits
}

/// What a word adds that resolves to `indices` by `method`.
spec fn with_indices(
    state: (Seq<i32>, ResolutionStats),
    indices: Seq<i32>,
    method: ResolutionMethod,
) -> (Seq<i32>, ResolutionStats) {
    let seen = ResolutionStats { total_words: (state.1.total_words + 1) as usize, ..state.1 };
    if indices.len() == 0 {
        (state.0, seen)
    } else if state.0.len() == 0 {
        (indices, phoneme_map::count_hit(seen, method))
    } else {
        (state.0.push(SIL_IDX) + indices, phoneme_map::count_hit(seen, method))
    }
}

proof fn lemma_word_adds(
    x: (Seq<i32>, ResolutionStats),
    y: (Seq<i32>, ResolutionStats),
    z: (Seq<i32>, ResolutionStats),
    indices: Seq<i32>,
    method: ResolutionMethod,
)
    requires
        z.0 == with_silence(x.0, y.0),
        counts_add(x.1, y.1, z.1),
        z.1.hits() <= z.1.total_words < usize::MAX,
    ensures
        with_indices(z, indices, method).0 == with_silence(
            x.0,
            with_indices(y, indices, method).0,
        ),
        counts_add(x.1, with_indices(y, indices, method).1, with_indices(z, indices, method).1),
{
    let whole = with_indices(z, indices, method).0;
    let right = with_indices(y, indices, method).0;
    assert(whole =~= with_silence(x.0, right));
}

proof fn lemma_with_word(state: (Seq<i32>, ResolutionStats), word: Seq<char>, dict: Entries)
    ensures
        phoneme_map::with_word(state, word, dict) == if phoneme_map::cleaned(word).len() == 0 {
            state
        } else {
            let r = phoneme_map::resolved(phoneme_map::cleaned(word), dict);
            with_indices(state, r.0, r.1)
        },
{
}

/// The targets of words that follow each other are those of the first words and
/// those of the others, with silence in between, and their counts add up.
pub proof fn law_words_are_joined_by_silence(
    a: Seq<Seq<char>>,
    b: Seq<Seq<char>>,
    dict: Entries,
)
    requires
        a.len() + b.len() <= usize::MAX,
    ensures
        phoneme_map::words_targets(a + b, dict).0 == with_silence(
            phoneme_map::words_targets(a, dict).0,
            phoneme_map::words_targets(b, dict).0,
        ),
        counts_add(
            phoneme_map::words_targets(a, dict).1,
            phoneme_map::words_targets(b, dict).1,
            phoneme_map::words_targets(a + b, dict).1,
        ),
    decreases b.len(),
{
    let x = phoneme_map::words_targets(a, dict);
    if b.len() == 0 {
        assert(a + b =~= a);
        assert(with_silence(x.0, phoneme_map::words_targets(b, dict).0) =~= x.0);
    } else {
        let front = b.drop_last();
        law_words_are_joined_by_silence(a, front, dict);
        assert((a + b).drop_last() =~= a + front);
        assert((a + b).last() == b.last());
        phoneme_map::law_hits_do_not_exceed_words(a + front, dict);
        let y = phoneme_map::words_targets(front, dict);
        let z = phoneme_map::words_targets(a + front, dict);
        let clean = phoneme_map::cleaned(b.last());
        lemma_with_word(y, b.last(), dict);
        lemma_with_word(z, b.last(), dict);
        if clean.len() > 0 {
            let r = phoneme_map::resolved(clean, dict);
            lemma_word_adds(x, y, z, r.0, r.1);
        }
    }
}

/// A transcript is refused exactly where it has no targets, and else gives them.
pub proof fn law_transcripts_without_targets_are_refused(transcript: Seq<char>, dict: Entries)
    ensures
        ({
            let words = text::runs(transcript, Separator::Whitespace);
            let (targets, stats) = phoneme_map::words_targets(words, dict);
            let r = phoneme_map::transcript_outcome(transcript, dict);
            &&& r is Ok <==> targets.len() > 0
            &&& r matches Ok(found) ==> found == (targets, stats)
            &&& words.len() == 0 ==> r == Err::<(Seq<i32>, ResolutionStats), ErrorView>(
                ErrorView::Config("Empty transcript"@),
            )
        }),
{
}

} // verus!
