//! Word targets of the utterances that are fine-tuned on.

use vstd::prelude::*;

use super::config::FineTuneArgs;
use super::targets;
use super::targets::score_bucket;
use crate::dataset;
use crate::error::{Error, ErrorView, Result};
use crate::g2p::CmuDict;
use crate::ieee::{Real32, Real64, ONE_32};
use crate::order;
use crate::order::{stable_sort, Keyed};
use crate::phoneme_map;
use crate::phoneme_map::{transcript_to_targets, Entries};
use crate::text;
use crate::text::{split_whitespace, Separator};

verus! {

// ---------------------------------------------------------------------------
// Score frequencies
// ---------------------------------------------------------------------------

/// How often `x` stands in `s`.
pub open spec fn occurrences(s: Seq<i32>, x: i32) -> nat
    decreases s.len(),
{
    if s.len() == 0 {
        0
    } else {
        occurrences(s.drop_last(), x) + if s.last() == x {
            1nat
        } else {
            0nat
        }
    }
}

/// Each value of `s` once, from the lowest up, with the number of times that
/// it occurs.
pub open spec fn tallied(s: Seq<i32>, counts: Seq<(i32, usize)>) -> bool {
    &&& forall|i: int, j: int| 0 <= i < j < counts.len() ==> counts[i].0 < counts[j].0
    &&& forall|i: int|
        0 <= i < counts.len() ==> (#[trigger] counts[i]).1 == occurrences(s, counts[i].0)
    &&& forall|i: int| 0 <= i < counts.len() ==> (#[trigger] counts[i]).1 > 0
    &&& forall|k: int| 0 <= k < s.len() ==> has_count(counts, #[trigger] s[k])
}

pub open spec fn has_count(counts: Seq<(i32, usize)>, x: i32) -> bool {
    exists|i: int| 0 <= i < counts.len() && (#[trigger] counts[i]).0 == x
}

proof fn lemma_occurrences_bound(s: Seq<i32>, x: i32)
    ensures
        occurrences(s, x) <= s.len(),
    decreases s.len(),
{
    if s.len() > 0 {
        lemma_occurrences_bound(s.drop_last(), x);
    }
}

proof fn lemma_occurrences_absent(s: Seq<i32>, x: i32)
    requires
        forall|k: int| 0 <= k < s.len() ==> #[trigger] s[k] != x,
    ensures
        occurrences(s, x) == 0,
    decreases s.len(),
{
    if s.len() > 0 {
        assert(s.last() == s[s.len() - 1]);
        lemma_occurrences_absent(s.drop_last(), x);
    }
}

/// Counts how often each value occurs.
pub fn count_buckets(buckets: &Vec<i32>) -> (r: Vec<(i32, usize)>)
    ensures
        tallied(buckets@, r@),
{
    let n: usize = buckets.len();
    let mut counts: Vec<(i32, usize)> = Vec::new();
    let mut k: usize = 0;
    while k < n
        invariant
            n == buckets@.len(),
            k <= n,
            tallied(buckets@.take(k as int), counts@),
        decreases n - k,
    {
        let x: i32 = buckets[k];
        let ghost seen = buckets@.take(k as int);
        let ghost upto = buckets@.take(k + 1);
        let ghost before = counts@;
        assert(upto.drop_last() =~= seen);
        let m: usize = counts.len();
        let mut at: usize = 0;
        while at < m && counts[at].0 < x
            invariant
                m == counts@.len(),
                at <= m,
                counts@ == before,
                forall|i: int| 0 <= i < at ==> (#[trigger] counts@[i]).0 < x,
            decreases m - at,
        {
            at = at + 1;
        }
        if at < m && counts[at].0 == x {
            let old_count: usize = counts[at].1;
            proof {
                lemma_occurrences_bound(upto, x);
                assert(before[at as int].1 == occurrences(seen, x));
            }
            counts.set(at, (x, old_count + 1));
            proof {
                assert forall|i: int| 0 <= i < counts@.len() implies (#[trigger] counts@[i]).1
                    == occurrences(upto, counts@[i].0) && counts@[i].0 == before[i].0 && counts@[i].1
                    > 0 by {
                    assert(before[i].1 == occurrences(seen, before[i].0));
                    if i < at {
                        assert(before[i].0 < before[at as int].0);
                    } else if i > at {
                        assert(before[at as int].0 < before[i].0);
                    }
                }
                assert forall|j: int| 0 <= j < upto.len() implies has_count(
                    counts@,
                    #[trigger] upto[j],
                ) by {
                    if j < k {
                        assert(upto[j] == seen[j]);
                        let i = choose|i: int|
                            0 <= i < before.len() && (#[trigger] before[i]).0 == seen[j];
                        assert(counts@[i].0 == upto[j]);
                    } else {
                        assert(counts@[at as int].0 == upto[j]);
                    }
                }
            }
        } else {
            proof {
                assert forall|i: int| at <= i < before.len() implies x < (#[trigger] before[i]).0 by {
                    if i > at {
                        assert(before[at as int].0 < before[i].0);
                    }
                }
                assert forall|j: int| 0 <= j < seen.len() implies #[trigger] seen[j] != x by {
                    if seen[j] == x {
                        assert(has_count(before, seen[j]));
                        let i = choose|i: int|
                            0 <= i < before.len() && (#[trigger] before[i]).0 == seen[j];
                        if i >= at {
                            assert(x < before[i].0);
                        } else {
                            assert(before[i].0 < x);
                        }
                    }
                }
                lemma_occurrences_absent(seen, x);
            }
            counts.insert(at, (x, 1));
            proof {
                assert(counts@ =~= before.insert(at as int, (x, 1usize)));
                assert forall|i: int| 0 <= i < counts@.len() implies #[trigger] counts@[i] == (
                if i < at {
                    before[i]
                } else if i == at {
                    (x, 1usize)
                } else {
                    before[i - 1]
                }) by {}
                assert forall|i: int| 0 <= i < counts@.len() implies (#[trigger] counts@[i]).1
                    == occurrences(upto, counts@[i].0) && counts@[i].1 > 0 by {
                    if i != at {
                        let a = if i < at {
                            i
                        } else {
                            i - 1
                        };
                        assert(before[a].1 == occurrences(seen, before[a].0));
                        assert(before[a].0 != x);
                    }
                }
                assert forall|i: int, j: int| 0 <= i < j < counts@.len() implies counts@[i].0
                    < counts@[j].0 by {
                    let a = if i < at {
                        i
                    } else {
                        i - 1
                    };
                    let b = if j < at {
                        j
                    } else {
                        j - 1
                    };
                    if i != at && j != at {
                        assert(before[a].0 < before[b].0);
                    } else if j == at {
                        assert(before[i].0 < x);
                    } else {
                        assert(x < before[b].0);
                    }
                }
                assert forall|j: int| 0 <= j < upto.len() implies has_count(
                    counts@,
                    #[trigger] upto[j],
                ) by {
                    if j < k {
                        assert(upto[j] == seen[j]);
                        let i = choose|i: int|
                            0 <= i < before.len() && (#[trigger] before[i]).0 == seen[j];
                        let h = if i < at {
                            i
                        } else {
                            i + 1
                        };
                        assert(counts@[h].0 == upto[j]);
                    } else {
                        assert(counts@[at as int].0 == upto[j]);
                    }
                }
            }
        }
        k = k + 1;
    }
    assert(buckets@.take(n as int) =~= buckets@);
    counts
}

/// The scores of a data set, as its losses see them.
pub open spec fn buckets_of(raw_scores: Seq<i32>, ordinal: bool) -> Seq<i32> {
    raw_scores.map_values(|raw: i32| targets::bucket(raw, ordinal))
}

/// How often each score occurs, by raw score or by ordinal class; `None` where
/// the words are not weighted.
pub fn score_counts(args: &FineTuneArgs, raw_scores: &Vec<i32>) -> (r: Option<Vec<(i32, usize)>>)
    ensures
        match r {
            Some(counts) => (args.weighted_loss || args.score_balanced_loss) && tallied(
                buckets_of(raw_scores@, args.ordinal_loss || args.ordinal_softmax_loss),
                counts@,
            ),
            None => !args.weighted_loss && !args.score_balanced_loss,
        },
{
    if !args.weighted_loss && !args.score_balanced_loss {
        return None;
    }
    let ordinal = args.ordinal_loss || args.ordinal_softmax_loss;
    let n: usize = raw_scores.len();
    let mut buckets: Vec<i32> = Vec::new();
    let mut i: usize = 0;
    while i < n
        invariant
            n == raw_scores@.len(),
            i <= n,
            buckets@ == buckets_of(raw_scores@.take(i as int), ordinal),
        decreases n - i,
    {
        buckets.push(score_bucket(raw_scores[i], ordinal));
        i = i + 1;
        assert(buckets@ =~= buckets_of(raw_scores@.take(i as int), ordinal));
    }
    assert(raw_scores@.take(n as int) =~= raw_scores@);
    Some(count_buckets(&buckets))
}

// ---------------------------------------------------------------------------
// Word targets
// ---------------------------------------------------------------------------

/// A word with its human score.
#[derive(Debug, Clone, Copy, PartialEq, Eq, Structural)]
pub struct ScoredWord {
    pub word_position: usize,
    pub human_score: Real32,
    pub human_score_raw: i32,
}

/// A word that the scoring head is trained on.
#[derive(Debug, Clone, Copy, PartialEq, Eq, Structural)]
pub struct WordTarget {
    pub word_position: usize,
    pub human_score: Real32,
    pub human_score_raw: i32,
    pub num_words: usize,
    /// Loss weight for this word (one = default, higher = more important).
    pub weight: Real32,
}

/// How word targets are weighted and repeated.
pub struct WordOptions {
    /// The weight of each score, where words are weighted.
    pub weights: Option<Vec<(i32, Real32)>>,
    /// Whether weights are by ordinal class.
    pub ordinal: bool,
    pub oversample_factor: usize,
    pub oversample_below: i32,
}

/// The weight of a score: that of the first entry for it, one where there is
/// none.
pub open spec fn weight_in(weights: Seq<(i32, Real32)>, bucket: i32) -> Real32
    decreases weights.len(),
{
    if weights.len() == 0 {
        Real32 { bits: ONE_32 }
    } else if weights[0].0 == bucket {
        weights[0].1
    } else {
        weight_in(weights.drop_first(), bucket)
    }
}

pub open spec fn weight_of(options: WordOptions, raw: i32) -> Real32 {
    match options.weights {
        Some(weights) => weight_in(weights@, targets::bucket(raw, options.ordinal)),
        None => Real32 { bits: ONE_32 },
    }
}

fn find_weight(options: &WordOptions, raw: i32) -> (r: Real32)
    ensures
        r == weight_of(*options, raw),
{
    match &options.weights {
        None => Real32 { bits: ONE_32 },
        Some(weights) => {
            let bucket: i32 = score_bucket(raw, options.ordinal);
            let n: usize = weights.len();
            let mut i: usize = 0;
            assert(weights@.skip(0) =~= weights@);
            while i < n
                invariant
                    n == weights@.len(),
                    i <= n,
                    weight_of(*options, raw) == weight_in(weights@.skip(i as int), bucket),
                decreases n - i,
            {
                assert(weights@.skip(i as int).drop_first() =~= weights@.skip(i + 1));
                if weights[i].0 == bucket {
                    return weights[i].1;
                }
                i = i + 1;
            }
            Real32 { bits: ONE_32 }
        },
    }
}

pub open spec fn target_of(word: ScoredWord, num_words: usize, options: WordOptions) -> WordTarget {
    WordTarget {
        word_position: word.word_position,
        human_score: word.human_score,
        human_score_raw: word.human_score_raw,
        num_words,
        weight: weight_of(options, word.human_score_raw),
    }
}

/// The targets of the words that lie within the sentence, in order.
pub open spec fn plain_targets(
    words: Seq<ScoredWord>,
    num_words: usize,
    options: WordOptions,
) -> Seq<WordTarget>
    decreases words.len(),
{
    if words.len() == 0 {
        seq![]
    } else {
        let before = plain_targets(words.drop_last(), num_words, options);
        if words.last().word_position < num_words {
            before.push(target_of(words.last(), num_words, options))
        } else {
            before
        }
    }
}

/// The repetitions of low-score words: each stands `factor - 1` times more.
pub open spec fn repetitions(words: Seq<WordTarget>, factor: nat, below: i32) -> Seq<WordTarget>
    decreases words.len(),
{
    if words.len() == 0 || factor <= 1 {
        seq![]
    } else {
        let before = repetitions(words.drop_last(), factor, below);
        if words.last().human_score_raw < below {
            before + dataset::copies(words.last(), (factor - 1) as nat)
        } else {
            before
        }
    }
}

/// The words of an utterance, with repetitions, before they are sorted.
pub open spec fn unsorted_targets(
    words: Seq<ScoredWord>,
    num_words: usize,
    options: WordOptions,
) -> Seq<WordTarget> {
    let plain = plain_targets(words, num_words, options);
    plain + repetitions(plain, options.oversample_factor as nat, options.oversample_below)
}

pub open spec fn keyed_targets(words: Seq<WordTarget>) -> Seq<Keyed<WordTarget>> {
    words.map_values(|w: WordTarget| Keyed { key: w.word_position as u64, item: w })
}

/// `r` holds the words of `s` from the first position to the last; words of
/// one position keep their order.
pub open spec fn by_position(s: Seq<WordTarget>, r: Seq<WordTarget>) -> bool {
    order::sorted_from(keyed_targets(s), keyed_targets(r))
}

fn sort_by_position(words: &Vec<WordTarget>) -> (r: Vec<WordTarget>)
    ensures
        by_position(words@, r@),
        r@.len() == words@.len(),
{
    let n: usize = words.len();
    let mut keyed: Vec<Keyed<WordTarget>> = Vec::new();
    let mut i: usize = 0;
    while i < n
        invariant
            n == words@.len(),
            i <= n,
            keyed@ == keyed_targets(words@).take(i as int),
        decreases n - i,
    {
        let w: WordTarget = words[i];
        keyed.push(Keyed { key: w.word_position as u64, item: w });
        i = i + 1;
        assert(keyed@ =~= keyed_targets(words@).take(i as int));
    }
    assert(keyed@ =~= keyed_targets(words@));
    let sorted = stable_sort(keyed);
    proof {
        order::lemma_same_length(keyed_targets(words@), sorted@);
        assert forall|k: int| 0 <= k < sorted@.len() implies (#[trigger] sorted@[k]).key
            == sorted@[k].item.word_position as u64 by {
            order::lemma_sorted_member(keyed_targets(words@), sorted@, k);
        }
    }
    let mut out: Vec<WordTarget> = Vec::new();
    let mut k: usize = 0;
    while k < n
        invariant
            n == sorted@.len(),
            k <= n,
            out@.len() == k,
            forall|j: int| 0 <= j < k ==> #[trigger] out@[j] == sorted@[j].item,
        decreases n - k,
    {
        out.push(sorted[k].item);
        k = k + 1;
    }
    assert(keyed_targets(out@) =~= sorted@);
    out
}

/// The word targets of an utterance of `num_words` words: those within the
/// sentence, weighted, with the low scores repeated, by position.
pub fn build_word_targets(
    words: &Vec<ScoredWord>,
    num_words: usize,
    options: &WordOptions,
) -> (r: Vec<WordTarget>)
    ensures
        by_position(unsorted_targets(words@, num_words, *options), r@),
        r@.len() == unsorted_targets(words@, num_words, *options).len(),
{
    let n: usize = words.len();
    let mut out: Vec<WordTarget> = Vec::new();
    let mut i: usize = 0;
    assert(words@.take(0) =~= Seq::<ScoredWord>::empty());
    while i < n
        invariant
            n == words@.len(),
            i <= n,
            out@ == plain_targets(words@.take(i as int), num_words, *options),
        decreases n - i,
    {
        let ghost upto = words@.take(i + 1);
        assert(upto.drop_last() =~= words@.take(i as int));
        assert(upto.last() == words@[i as int]);
        let w: ScoredWord = words[i];
        if w.word_position < num_words {
            out.push(
                WordTarget {
                    word_position: w.word_position,
                    human_score: w.human_score,
                    human_score_raw: w.human_score_raw,
                    num_words,
                    weight: find_weight(options, w.human_score_raw),
                },
            );
        }
        i = i + 1;
    }
    assert(words@.take(n as int) =~= words@);
    let ghost plain = out@;
    let factor: usize = options.oversample_factor;
    let m: usize = out.len();
    let mut k: usize = 0;
    assert(plain.take(0) =~= Seq::<WordTarget>::empty());
    assert(out@ =~= plain + repetitions(plain.take(0), factor as nat, options.oversample_below));
    if factor > 1 {
        while k < m
            invariant
                m == plain.len(),
                k <= m,
                m <= out@.len(),
                factor == options.oversample_factor,
                factor > 1,
                out@ == plain + repetitions(
                    plain.take(k as int),
                    factor as nat,
                    options.oversample_below,
                ),
            decreases m - k,
        {
            let ghost upto = plain.take(k + 1);
            assert(upto.drop_last() =~= plain.take(k as int));
            let w: WordTarget = out[k];
            assert(w == plain[k as int]);
            assert(upto.last() == w);
            if w.human_score_raw < options.oversample_below {
                let ghost before = out@;
                let mut c: usize = 1;
                assert(out@ =~= before + dataset::copies(w, 0));
                while c < factor
                    invariant
                        1 <= c <= factor,
                        out@ == before + dataset::copies(w, (c - 1) as nat),
                    decreases factor - c,
                {
                    out.push(w);
                    c = c + 1;
                    assert(out@ =~= before + dataset::copies(w, (c - 1) as nat));
                }
                assert(out@ =~= plain + repetitions(
                    upto,
                    factor as nat,
                    options.oversample_below,
                ));
            }
            k = k + 1;
        }
    } else {
        assert(repetitions(plain, factor as nat, options.oversample_below)
            =~= Seq::<WordTarget>::empty());
    }
    assert(plain.take(m as int) =~= plain);
    sort_by_position(&out)
}

/// What an utterance is fine-tuned on.
pub struct PreparedWords {
    pub ctc_targets: Vec<i32>,
    pub words: Vec<WordTarget>,
}

/// Whether an utterance can be fine-tuned on: its sentence resolves to targets
/// that its frames can be aligned with, and has a scored word.
pub open spec fn usable(
    num_frames: nat,
    sentence: Seq<char>,
    dict: Entries,
    words: Seq<ScoredWord>,
    options: WordOptions,
) -> bool {
    let num_words = text::runs(sentence, Separator::Whitespace).len();
    match phoneme_map::transcript_outcome(sentence, dict) {
        Ok((targets, _)) => dataset::alignable(num_frames, targets.len()) && plain_targets(
            words,
            num_words as usize,
            options,
        ).len() > 0,
        Err(_) => false,
    }
}

/// The targets of an utterance with `num_frames` frames; `None` where it cannot
/// be used.
pub fn prepare_utterance(
    num_frames: usize,
    sentence: &str,
    dict: &CmuDict,
    words: &Vec<ScoredWord>,
    options: &WordOptions,
) -> (r: Option<PreparedWords>)
    ensures
        match r {
            Some(prepared) => usable(num_frames as nat, sentence@, dict@, words@, *options) && ({
                let num_words = text::runs(sentence@, Separator::Whitespace).len() as usize;
                &&& phoneme_map::transcript_outcome(sentence@, dict@) is Ok
                &&& prepared.ctc_targets@ == (phoneme_map::transcript_outcome(
                    sentence@,
                    dict@,
                )->Ok_0).0
                &&& by_position(unsorted_targets(words@, num_words, *options), prepared.words@)
            }),
            None => !usable(num_frames as nat, sentence@, dict@, words@, *options),
        },
{
    let num_words: usize = split_whitespace(sentence).len();
    let ghost count = text::runs(sentence@, Separator::Whitespace).len();
    assert(num_words == count);
    if num_words == 0 {
        return None;
    }
    let (ctc_targets, _stats) = match transcript_to_targets(sentence, dict) {
        Ok(found) => found,
        Err(_) => {
            return None;
        },
    };
    if num_frames < ctc_targets.len() {
        return None;
    }
    let targets = build_word_targets(words, num_words, options);
    if targets.len() == 0 {
        return None;
    }
    proof {
        let plain = plain_targets(words@, num_words, *options);
        if plain.len() == 0 {
            assert(repetitions(plain, options.oversample_factor as nat, options.oversample_below)
                =~= Seq::<WordTarget>::empty());
        }
    }
    Some(PreparedWords { ctc_targets, words: targets })
}

/// Refuses a data set of which no utterance could be prepared.
pub fn require_prepared(prepared: usize) -> (r: Result<()>)
    ensures
        match r {
            Ok(_) => prepared > 0,
            Err(e) => prepared == 0 && e@ == ErrorView::Config(
                "No utterances could be prepared from the SO762 dataset"@,
            ),
        },
{
    if prepared == 0 {
        return Err(Error::config("No utterances could be prepared from the SO762 dataset"));
    }
    Ok(())
}

// ---------------------------------------------------------------------------
// Holdout
// ---------------------------------------------------------------------------

/// A word of the holdout set.
#[derive(Debug, Clone, Copy, PartialEq, Eq, Structural)]
pub struct HoldoutWord {
    pub word_position: usize,
    pub human_score: Real64,
}

/// Those of the words that lie within the sentence, in order.
pub open spec fn within_sentence(words: Seq<HoldoutWord>, num_words: nat) -> Seq<HoldoutWord> {
    words.filter(|w: HoldoutWord| w.word_position < num_words)
}

/// The words of a holdout utterance that are scored, and the number of words
/// of its sentence; `None` where there is nothing to score.
pub fn holdout_words(sentence: &str, words: &Vec<HoldoutWord>) -> (r: Option<
    (Vec<HoldoutWord>, usize),
>)
    ensures
        ({
            let count = text::runs(sentence@, Separator::Whitespace).len();
            match r {
                Some((kept, num_words)) => num_words == count && kept@ == within_sentence(
                    words@,
                    count,
                ) && kept@.len() > 0,
                None => within_sentence(words@, count).len() == 0,
            }
        }),
{
    let num_words: usize = split_whitespace(sentence).len();
    let ghost count = text::runs(sentence@, Separator::Whitespace).len();
    assert(num_words == count);
    let ghost keep = |w: HoldoutWord| w.word_position < count;
    let n: usize = words.len();
    let mut out: Vec<HoldoutWord> = Vec::new();
    let mut i: usize = 0;
    assert(words@.take(0).filter(keep) =~= Seq::<HoldoutWord>::empty()) by {
        reveal(Seq::filter);
    }
    while i < n
        invariant
            n == words@.len(),
            i <= n,
            num_words == count,
            keep == (|w: HoldoutWord| w.word_position < count),
            out@ == words@.take(i as int).filter(keep),
        decreases n - i,
    {
        proof {
            let upto = words@.take(i + 1);
            assert(upto.drop_last() =~= words@.take(i as int));
            reveal(Seq::filter);
        }
        let w: HoldoutWord = words[i];
        if w.word_position < num_words {
            out.push(w);
        }
        i = i + 1;
    }
    assert(words@.take(n as int) =~= words@);
    if out.len() == 0 {
        return None;
    }
    Some((out, num_words))
}

/// Refuses a holdout set of which the teacher cache knows no utterance.
pub fn require_holdout(teacher_mode: bool, utterances: usize) -> (r: Result<()>)
    ensures
        match r {
            Ok(_) => !(teacher_mode && utterances == 0),
            Err(e) => teacher_mode && utterances == 0 && e@ == ErrorView::Config(
                "Teacher-feature holdout evaluation matched 0 utterances. Ensure --distillation-features contains the holdout split, not only the training set."@,
            ),
        },
{
    if teacher_mode && utterances == 0 {
        return Err(
            Error::config(
                "Teacher-feature holdout evaluation matched 0 utterances. Ensure --distillation-features contains the holdout split, not only the training set.",
            ),
        );
    }
    Ok(())
}

} // verus!
