//! The words that the scoring head is trained on: their weights, their order, how
//! often they occur, and the targets and masks made of their scores.

use vstd::prelude::*;

use crate::finetune::prepare::{HoldoutWord, ScoredWord, WordOptions, WordTarget};
use crate::finetune::{mixup, prepare, targets};
use crate::ieee::Real32;
use crate::order::Keyed;
use crate::text::Separator;
use crate::{dataset, order, phoneme_map, text};

verus! {

// ---------------------------------------------------------------------------
// Weights
// ---------------------------------------------------------------------------

/// Whether a table of weights has at most one entry for each score.
pub open spec fn distinct_scores(weights: Seq<(i32, Real32)>) -> bool {
    forall|i: int, j: int|
        0 <= i < j < weights.len() ==> (#[trigger] weights[i]).0 != (#[trigger] weights[j]).0
}

proof fn lemma_weight_of_entry(weights: Seq<(i32, Real32)>, i: int)
    requires
        distinct_scores(weights),
        0 <= i < weights.len(),
    ensures
        prepare::weight_in(weights, weights[i].0) == weights[i].1,
    decreases weights.len(),
{
    if i > 0 {
        let rest = weights.drop_first();
        assert(weights[0].0 != weights[i].0);
        assert forall|a: int, b: int| 0 <= a < b < rest.len() implies (#[trigger] rest[a]).0 != (
        #[trigger] rest[b]).0 by {
            assert(weights[a + 1].0 != weights[b + 1].0);
        }
        assert(rest[i - 1] == weights[i]);
        lemma_weight_of_entry(rest, i - 1);
    }
}

proof fn lemma_weight_without_entry(weights: Seq<(i32, Real32)>, bucket: i32)
    requires
        forall|i: int| 0 <= i < weights.len() ==> (#[trigger] weights[i]).0 != bucket,
    ensures
        prepare::weight_in(weights, bucket) == (Real32 { bits: 0x3f80_0000 }),
    decreases weights.len(),
{
    if weights.len() > 0 {
        let rest = weights.drop_first();
        assert(weights[0].0 != bucket);
        assert forall|i: int| 0 <= i < rest.len() implies (#[trigger] rest[i]).0 != bucket by {
            assert(rest[i] == weights[i + 1]);
        }
        lemma_weight_without_entry(rest, bucket);
    }
}

/// A word whose score has an entry in the table is given that entry's weight,
/// wherever in the table the entry stands.
pub proof fn law_word_has_the_weight_of_its_score(
    word: ScoredWord,
    num_words: usize,
    options: WordOptions,
    table: Vec<(i32, Real32)>,
    i: int,
)
    requires
        options.weights == Some(table),
        distinct_scores(table@),
        0 <= i < table@.len(),
        table@[i].0 == targets::bucket(word.human_score_raw, options.ordinal),
    ensures
        prepare::target_of(word, num_words, options).weight == table@[i].1,
{
    lemma_weight_of_entry(table@, i);
}

/// A word whose score has no entry weighs one, and so does every word where there
/// is no table. (One has the bits `0x3f80_0000`.)
pub proof fn law_word_without_entry_weighs_one(
    word: ScoredWord,
    num_words: usize,
    options: WordOptions,
)
    requires
        options.weights matches Some(table) ==> forall|i: int|
            0 <= i < table@.len() ==> (#[trigger] table@[i]).0 != targets::bucket(
                word.human_score_raw,
                options.ordinal,
            ),
    ensures
        prepare::target_of(word, num_words, options).weight == (Real32 { bits: 0x3f80_0000 }),
{
    match options.weights {
        Some(table) => {
            lemma_weight_without_entry(
                table@,
                targets::bucket(word.human_score_raw, options.ordinal),
            );
        },
        None => {},
    }
}

/// A table of weights may list its scores in any order.
pub proof fn law_order_of_weights_does_not_matter(
    a: Seq<(i32, Real32)>,
    b: Seq<(i32, Real32)>,
    bucket: i32,
)
    requires
        distinct_scores(a),
        distinct_scores(b),
        forall|x: (i32, Real32)| #[trigger] a.contains(x) <==> b.contains(x),
    ensures
        prepare::weight_in(a, bucket) == prepare::weight_in(b, bucket),
{
    if exists|i: int| 0 <= i < a.len() && (#[trigger] a[i]).0 == bucket {
        let i = choose|i: int| 0 <= i < a.len() && (#[trigger] a[i]).0 == bucket;
        assert(a.contains(a[i]));
        let j = choose|j: int| 0 <= j < b.len() && b[j] == a[i];
        lemma_weight_of_entry(a, i);
        lemma_weight_of_entry(b, j);
    } else {
        assert forall|j: int| 0 <= j < b.len() implies (#[trigger] b[j]).0 != bucket by {
            assert(b.contains(b[j]));
            assert(a.contains(b[j]));
            let i = choose|i: int| 0 <= i < a.len() && a[i] == b[j];
            assert(a[i].0 != bucket);
        }
        lemma_weight_without_entry(a, bucket);
        lemma_weight_without_entry(b, bucket);
    }
}

/// The ordinal class of a score is the number of thresholds below it; weights are
/// looked up by class where the loss is ordinal, by raw score elsewhere.
pub proof fn law_score_classes(raw: i32)
    ensures
        targets::bucket(raw, true) == (if raw > 2 {
            1int
        } else {
            0
        }) + (if raw > 5 {
            1int
        } else {
            0
        }) + (if raw > 7 {
            1int
        } else {
            0
        }) + (if raw > 9 {
            1int
        } else {
            0
        }),
        targets::bucket(raw, true) == targets::bin_of(raw as int),
        targets::bucket(raw, false) == raw,
{
}

// ---------------------------------------------------------------------------
// Counts
// ---------------------------------------------------------------------------

proof fn lemma_occurrences(s: Seq<i32>, x: i32)
    ensures
        prepare::occurrences(s, x) == s.filter(|y: i32| y == x).len(),
    decreases s.len(),
{
    reveal(Seq::filter);
    if s.len() > 0 {
        lemma_occurrences(s.drop_last(), x);
    }
}

/// A tally has one entry for each score that occurs, in rising order of scores,
/// with the number of times that the score occurs.
pub proof fn law_scores_are_tallied(s: Seq<i32>, counts: Seq<(i32, usize)>, x: i32)
    requires
        prepare::tallied(s, counts),
    ensures
        s.contains(x) <==> exists|i: int| 0 <= i < counts.len() && (#[trigger] counts[i]).0 == x,
        forall|i: int|
            0 <= i < counts.len() && (#[trigger] counts[i]).0 == x ==> counts[i].1 == s.filter(
                |y: i32| y == x,
            ).len(),
        forall|i: int, j: int|
            0 <= i < j < counts.len() ==> (#[trigger] counts[i]).0 < (#[trigger] counts[j]).0,
{
    lemma_occurrences(s, x);
    if s.contains(x) {
        let k = choose|k: int| 0 <= k < s.len() && s[k] == x;
        assert(prepare::has_count(counts, s[k]));
    }
    if exists|i: int| 0 <= i < counts.len() && (#[trigger] counts[i]).0 == x {
        let i = choose|i: int| 0 <= i < counts.len() && (#[trigger] counts[i]).0 == x;
        let kept = s.filter(|y: i32| y == x);
        assert(kept.len() > 0);
        s.lemma_filter_contains_rev(|y: i32| y == x, kept[0]);
        s.filter_lemma(|y: i32| y == x);
        assert(kept[0] == x);
    }
}

/// Scores are tallied by the bucket that each falls into, in order.
pub proof fn law_buckets_of_scores(raw_scores: Seq<i32>, ordinal: bool, i: int)
    requires
        0 <= i < raw_scores.len(),
    ensures
        prepare::buckets_of(raw_scores, ordinal).len() == raw_scores.len(),
        prepare::buckets_of(raw_scores, ordinal)[i] == targets::bucket(raw_scores[i], ordinal),
        prepare::buckets_of(raw_scores, false) == raw_scores,
{
    assert(prepare::buckets_of(raw_scores, false) =~= raw_scores);
}

// ---------------------------------------------------------------------------
// Targets of an utterance
// ---------------------------------------------------------------------------

/// The targets of an utterance are its words that lie within the sentence, in
/// order, each with its own score and the length of the sentence.
pub proof fn law_words_within_the_sentence(
    words: Seq<ScoredWord>,
    num_words: usize,
    options: WordOptions,
)
    ensures
        prepare::plain_targets(words, num_words, options) == words.filter(
            |w: ScoredWord| w.word_position < num_words,
        ).map_values(
            |w: ScoredWord|
                WordTarget {
                    word_position: w.word_position,
                    human_score: w.human_score,
                    human_score_raw: w.human_score_raw,
                    num_words,
                    weight: prepare::weight_of(options, w.human_score_raw),
                },
        ),
    decreases words.len(),
{
    reveal(Seq::filter);
    let keep = |w: ScoredWord| w.word_position < num_words;
    let show = |w: ScoredWord|
        WordTarget {
            word_position: w.word_position,
            human_score: w.human_score,
            human_score_raw: w.human_score_raw,
            num_words,
            weight: prepare::weight_of(options, w.human_score_raw),
        };
    if words.len() == 0 {
        assert(prepare::plain_targets(words, num_words, options) =~= words.filter(keep).map_values(
            show,
        ));
    } else {
        let front = words.drop_last();
        law_words_within_the_sentence(front, num_words, options);
        if keep(words.last()) {
            assert(words.filter(keep) == front.filter(keep).push(words.last()));
            assert(front.filter(keep).push(words.last()).map_values(show) =~= front.filter(
                keep,
            ).map_values(show).push(show(words.last())));
        }
    }
}

proof fn lemma_copies_filter(x: WordTarget, n: nat, t: WordTarget)
    ensures
        dataset::copies(x, n).filter(|y: WordTarget| y == t).len() == if x == t {
            n
        } else {
            0
        },
    decreases n,
{
    reveal(Seq::filter);
    if n > 0 {
        assert(dataset::copies(x, n).drop_last() =~= dataset::copies(x, (n - 1) as nat));
        lemma_copies_filter(x, (n - 1) as nat, t);
    }
}

proof fn lemma_repetitions_filter(words: Seq<WordTarget>, factor: nat, below: i32, t: WordTarget)
    requires
        factor > 1,
    ensures
        prepare::repetitions(words, factor, below).filter(|y: WordTarget| y == t).len() == if
        t.human_score_raw < below {
            words.filter(|y: WordTarget| y == t).len() * (factor - 1)
        } else {
            0
        },
    decreases words.len(),
{
    reveal(Seq::filter);
    let same = |y: WordTarget| y == t;
    if words.len() > 0 {
        let front = words.drop_last();
        let last = words.last();
        lemma_repetitions_filter(front, factor, below, t);
        lemma_copies_filter(last, (factor - 1) as nat, t);
        Seq::filter_distributes_over_add(
            prepare::repetitions(front, factor, below),
            dataset::copies(last, (factor - 1) as nat),
            same,
        );
        let before = front.filter(same).len();
        assert((before + 1) * (factor - 1) == before * (factor - 1) + (factor - 1)) by (
        nonlinear_arith);
    } else {
        assert(0 * (factor - 1) == 0);
    }
}

/// A target scored below the limit occurs as many times over as the factor says;
/// every other one as often as in the utterance. The targets as they come in
/// stand first.
pub proof fn law_low_scores_are_repeated(
    words: Seq<ScoredWord>,
    num_words: usize,
    options: WordOptions,
    t: WordTarget,
)
    ensures
        ({
            let plain = prepare::plain_targets(words, num_words, options);
            let all = prepare::unsorted_targets(words, num_words, options);
            &&& plain.is_prefix_of(all)
            &&& all.filter(|y: WordTarget| y == t).len() == plain.filter(
                |y: WordTarget| y == t,
            ).len() * (if t.human_score_raw < options.oversample_below && options.oversample_factor
                > 1 {
                options.oversample_factor as int
            } else {
                1
            })
        }),
{
    reveal(Seq::filter);
    let plain = prepare::plain_targets(words, num_words, options);
    let factor = options.oversample_factor as nat;
    let below = options.oversample_below;
    let more = prepare::repetitions(plain, factor, below);
    let same = |y: WordTarget| y == t;
    Seq::filter_distributes_over_add(plain, more, same);
    let n = plain.filter(same).len() as int;
    if factor > 1 {
        lemma_repetitions_filter(plain, factor, below, t);
        assert(n + n * (factor - 1) == n * factor) by (nonlinear_arith);
    } else {
        assert(more.filter(same).len() == 0);
    }
    assert(n * 1 == n);
}

proof fn lemma_keyed_filter(s: Seq<WordTarget>, k: u64)
    ensures
        order::with_key(prepare::keyed_targets(s), k) == prepare::keyed_targets(
            s.filter(|x: WordTarget| x.word_position as u64 == k),
        ),
    decreases s.len(),
{
    reveal(Seq::filter);
    let keep = |x: WordTarget| x.word_position as u64 == k;
    if s.len() == 0 {
        assert(order::with_key(prepare::keyed_targets(s), k) =~= prepare::keyed_targets(
            s.filter(keep),
        ));
    } else {
        lemma_keyed_filter(s.drop_last(), k);
        assert(prepare::keyed_targets(s).drop_last() =~= prepare::keyed_targets(s.drop_last()));
        assert(prepare::keyed_targets(s).last() == (Keyed {
            key: s.last().word_position as u64,
            item: s.last(),
        }));
        assert(order::with_key(prepare::keyed_targets(s), k) =~= prepare::keyed_targets(
            s.filter(keep),
        ));
    }
}

/// Targets go by their place in the sentence, and those of one place keep the
/// order that they came in; none is lost and none is added.
pub proof fn law_targets_go_by_position(s: Seq<WordTarget>, r: Seq<WordTarget>, position: usize)
    requires
        prepare::by_position(s, r),
    ensures
        forall|i: int, j: int|
            0 <= i <= j < r.len() ==> (#[trigger] r[i]).word_position <= (
            #[trigger] r[j]).word_position,
        r.filter(|x: WordTarget| x.word_position == position) == s.filter(
            |x: WordTarget| x.word_position == position,
        ),
{
    let k = position as u64;
    let keep = |x: WordTarget| x.word_position as u64 == k;
    assert(keep =~= |x: WordTarget| x.word_position == position);
    lemma_keyed_filter(s, k);
    lemma_keyed_filter(r, k);
    assert(order::with_key(prepare::keyed_targets(r), k) == order::with_key(
        prepare::keyed_targets(s),
        k,
    ));
    let a = r.filter(keep);
    let b = s.filter(keep);
    assert(prepare::keyed_targets(a) == prepare::keyed_targets(b));
    assert(a.len() == prepare::keyed_targets(a).len() && b.len() == prepare::keyed_targets(
        b,
    ).len());
    assert forall|i: int| 0 <= i < a.len() implies a[i] == b[i] by {
        assert(prepare::keyed_targets(a)[i].item == a[i]);
        assert(prepare::keyed_targets(b)[i].item == b[i]);
    }
    assert(a =~= b);
    assert forall|i: int, j: int| 0 <= i <= j < r.len() implies (#[trigger] r[i]).word_position <= (
    #[trigger] r[j]).word_position by {
        assert(prepare::keyed_targets(r)[i].key <= prepare::keyed_targets(r)[j].key);
    }
}

/// An utterance can be trained on exactly when its transcript has targets for
/// which there are frames enough and one of its words lies within the sentence.
pub proof fn law_usable_utterances(
    num_frames: nat,
    sentence: Seq<char>,
    dict: phoneme_map::Entries,
    words: Seq<ScoredWord>,
    options: WordOptions,
)
    requires
        text::runs(sentence, Separator::Whitespace).len() <= usize::MAX,
    ensures
        prepare::usable(num_frames, sentence, dict, words, options) <==> (
        phoneme_map::transcript_outcome(sentence, dict) is Ok && dataset::alignable(
            num_frames,
            (phoneme_map::transcript_outcome(sentence, dict)->Ok_0).0.len(),
        ) && exists|i: int|
            0 <= i < words.len() && (#[trigger] words[i]).word_position < text::runs(
                sentence,
                Separator::Whitespace,
            ).len()),
{
    let count = text::runs(sentence, Separator::Whitespace).len() as usize;
    let keep = |w: ScoredWord| w.word_position < count;
    law_words_within_the_sentence(words, count, options);
    words.filter_lemma(keep);
    if exists|i: int| 0 <= i < words.len() && (#[trigger] words[i]).word_position < count {
        let i = choose|i: int| 0 <= i < words.len() && (#[trigger] words[i]).word_position < count;
        assert(keep(words[i]));
        assert(words.filter(keep).contains(words[i]));
    }
    if words.filter(keep).len() > 0 {
        let x = words.filter(keep)[0];
        assert(keep(x));
        words.lemma_filter_contains_rev(keep, x);
        let i = choose|i: int| 0 <= i < words.len() && words[i] == x;
        assert(words[i].word_position < count);
    }
}

/// Of the words of a held-out utterance, those within the sentence are kept, in
/// order, and no other.
pub proof fn law_holdout_words_within_the_sentence(
    words: Seq<HoldoutWord>,
    more: Seq<HoldoutWord>,
    w: HoldoutWord,
    num_words: nat,
)
    ensures
        prepare::within_sentence(words, num_words).contains(w) <==> words.contains(w)
            && w.word_position < num_words,
        prepare::within_sentence(words + more, num_words) == prepare::within_sentence(
            words,
            num_words,
        ) + prepare::within_sentence(more, num_words),
        prepare::within_sentence(seq![w], num_words) == if w.word_position < num_words {
            seq![w]
        } else {
            seq![]
        },
{
    let keep = |x: HoldoutWord| x.word_position < num_words;
    words.filter_lemma(keep);
    Seq::filter_distributes_over_add(words, more, keep);
    if words.filter(keep).contains(w) {
        words.lemma_filter_contains_rev(keep, w);
        let i = choose|i: int| 0 <= i < words.filter(keep).len() && words.filter(keep)[i] == w;
        assert(keep(words.filter(keep)[i]));
    }
    if words.contains(w) && keep(w) {
        let i = choose|i: int| 0 <= i < words.len() && words[i] == w;
        assert(words.filter(keep).contains(words[i]));
    }
    reveal(Seq::filter);
    assert(seq![w].drop_last() =~= Seq::<HoldoutWord>::empty());
    assert(Seq::<HoldoutWord>::empty().filter(keep) =~= Seq::<HoldoutWord>::empty());
    assert(prepare::within_sentence(seq![w], num_words) =~= if w.word_position < num_words {
        seq![w]
    } else {
        seq![]
    });
}

// ---------------------------------------------------------------------------
// Targets and masks
// ---------------------------------------------------------------------------

/// The ordinal target of a word has four places, the `k`-th of which says whether
/// the score is above the `k`-th threshold.
pub proof fn law_ordinal_targets(raw: Seq<i32>, i: int)
    requires
        0 <= i < raw.len(),
    ensures
        ({
            let r = targets::rows(raw.len(), 4, targets::passes(raw));
            &&& r.len() == 4 * raw.len()
            &&& r[4 * i] == (raw[i] > 2)
            &&& r[4 * i + 1] == (raw[i] > 5)
            &&& r[4 * i + 2] == (raw[i] > 7)
            &&& r[4 * i + 3] == (raw[i] > 9)
        }),
{
    targets::law_matrix_cell(raw.len(), 4, targets::passes(raw), i, 0);
    targets::law_matrix_cell(raw.len(), 4, targets::passes(raw), i, 1);
    targets::law_matrix_cell(raw.len(), 4, targets::passes(raw), i, 2);
    targets::law_matrix_cell(raw.len(), 4, targets::passes(raw), i, 3);
}

/// The class target of a word has five places, of which only that of its class
/// holds.
pub proof fn law_class_targets(raw: Seq<i32>, i: int)
    requires
        0 <= i < raw.len(),
    ensures
        ({
            let r = targets::rows(raw.len(), 5, targets::is_bin(raw));
            &&& r.len() == 5 * raw.len()
            &&& r[5 * i] == (raw[i] <= 2)
            &&& r[5 * i + 1] == (2 < raw[i] <= 5)
            &&& r[5 * i + 2] == (5 < raw[i] <= 7)
            &&& r[5 * i + 3] == (7 < raw[i] <= 9)
            &&& r[5 * i + 4] == (9 < raw[i])
        }),
{
    targets::law_matrix_cell(raw.len(), 5, targets::is_bin(raw), i, 0);
    targets::law_matrix_cell(raw.len(), 5, targets::is_bin(raw), i, 1);
    targets::law_matrix_cell(raw.len(), 5, targets::is_bin(raw), i, 2);
    targets::law_matrix_cell(raw.len(), 5, targets::is_bin(raw), i, 3);
    targets::law_matrix_cell(raw.len(), 5, targets::is_bin(raw), i, 4);
}

/// The masks over pairs of words: equal scores, higher scores, and two different
/// words.
pub proof fn law_masks_over_pairs(raw: Seq<i32>, i: int, j: int)
    requires
        0 <= i < raw.len(),
        0 <= j < raw.len(),
    ensures
        ({
            let n = raw.len();
            let at = i * n + j;
            &&& 0 <= at < n * n
            &&& targets::rows(n, n, targets::same_score(raw)).len() == n * n
            &&& targets::rows(n, n, targets::higher_score(raw)).len() == n * n
            &&& targets::rows(n, n, targets::off_diagonal()).len() == n * n
            &&& targets::rows(n, n, targets::same_score(raw))[at] == (raw[i] == raw[j])
            &&& targets::rows(n, n, targets::higher_score(raw))[at] == (raw[i] > raw[j])
            &&& targets::rows(n, n, targets::off_diagonal())[at] == (i != j)
        }),
{
    let n = raw.len();
    targets::law_matrix_cell(n, n, targets::same_score(raw), i, j);
    targets::law_matrix_cell(n, n, targets::higher_score(raw), i, j);
    targets::law_matrix_cell(n, n, targets::off_diagonal(), i, j);
}

/// Of two different words, one is close to the other where their scores differ by
/// at most one, far from it where they differ by three or more.
pub proof fn law_triplet_masks(raw: Seq<i32>, i: int, j: int)
    requires
        0 <= i < raw.len(),
        0 <= j < raw.len(),
    ensures
        ({
            let n = raw.len();
            let at = i * n + j;
            &&& 0 <= at < n * n
            &&& targets::rows(n, n, targets::close_to(raw))[at] == (i != j && -1 <= raw[i] - raw[j]
                <= 1)
            &&& targets::rows(n, n, targets::far_from(raw))[at] == (i != j && (raw[i] - raw[j] >= 3
                || raw[j] - raw[i] >= 3))
        }),
{
    let n = raw.len();
    targets::law_matrix_cell(n, n, targets::close_to(raw), i, j);
    targets::law_matrix_cell(n, n, targets::far_from(raw), i, j);
}

/// The places of a mask that hold are counted.
pub proof fn law_places_are_counted(s: Seq<bool>)
    ensures
        targets::count_true(s) == s.filter(|b: bool| b).len(),
    decreases s.len(),
{
    reveal(Seq::filter);
    if s.len() > 0 {
        law_places_are_counted(s.drop_last());
    }
}

/// The count of a row is that of its places in the mask.
pub proof fn law_rows_are_counted(
    height: nat,
    width: nat,
    cell: spec_fn(int, int) -> bool,
    i: int,
)
    requires
        0 <= i < height,
        width <= usize::MAX,
    ensures
        targets::row_counts(height, width, cell).len() == height,
        0 <= i * width <= (i + 1) * width <= height * width,
        targets::row_counts(height, width, cell)[i] == targets::rows(height, width, cell).subrange(
            i * width,
            (i + 1) * width,
        ).filter(|b: bool| b).len(),
{
    let mask = targets::rows(height, width, cell);
    assert(0 <= i * width && i * width + width == (i + 1) * width && (i + 1) * width <= height
        * width) by (nonlinear_arith)
        requires
            0 <= i,
            i + 1 <= height,
            0 <= width,
    ;
    targets::law_matrix_cell(height, width, cell, 0, 0);
    let part = mask.subrange(i * width, (i + 1) * width);
    assert forall|j: int| 0 <= j < width implies #[trigger] part[j] == targets::row(
        i,
        width,
        cell,
    )[j] by {
        targets::law_matrix_cell(height, width, cell, i, j);
    }
    assert(part =~= targets::row(i, width, cell));
    law_places_are_counted(part);
    targets::lemma_count_true_bound(part);
}

// ---------------------------------------------------------------------------
// Mixing words
// ---------------------------------------------------------------------------

/// The words that are mixed are those scored at the limit or below, in order.
pub proof fn law_low_scores_are_mixed(raw: Seq<i32>, below: i32, i: int)
    requires
        raw.len() <= usize::MAX,
        0 <= i < raw.len(),
    ensures
        mixup::low_scores(raw, below).contains(i as usize) <==> raw[i] <= below,
        forall|a: int, b: int|
            0 <= a < b < mixup::low_scores(raw, below).len() ==> (#[trigger] mixup::low_scores(
                raw,
                below,
            )[a]) < (#[trigger] mixup::low_scores(raw, below)[b]),
        forall|a: int|
            0 <= a < mixup::low_scores(raw, below).len() ==> (#[trigger] mixup::low_scores(
                raw,
                below,
            )[a]) < raw.len(),
    decreases raw.len(),
{
    let front = raw.drop_last();
    let before = mixup::low_scores(front, below);
    if front.len() > 0 {
        law_low_scores_are_mixed(
            front,
            below,
            if i < front.len() {
                i
            } else {
                0
            },
        );
    } else {
        assert(before =~= seq![]);
    }
    let r = mixup::low_scores(raw, below);
    let last = (raw.len() - 1) as usize;
    if raw.last() <= below {
        assert(r == before.push(last));
        assert(r[before.len() as int] == last);
    }
    if i < front.len() {
        assert(front[i] == raw[i]);
        if before.contains(i as usize) {
            let k = choose|k: int| 0 <= k < before.len() && before[k] == i as usize;
            assert(r[k] == i as usize);
        }
        if r.contains(i as usize) {
            let k = choose|k: int| 0 <= k < r.len() && r[k] == i as usize;
            assert(k < before.len());
            assert(before[k] == i as usize);
        }
    } else {
        assert(raw[i] == raw.last());
        if r.contains(i as usize) && raw[i] > below {
            let k = choose|k: int| 0 <= k < r.len() && r[k] == i as usize;
            assert(before[k] < front.len());
        }
    }
}

/// Each mixed word is paired with another word: the draw itself, or the one after
/// it where the draw is at or behind the word.
pub proof fn law_mixed_pairs(anchors: Seq<usize>, draws: Seq<usize>, n: int, k: int)
    requires
        anchors.len() == draws.len(),
        0 <= k < anchors.len(),
        anchors[k] < n <= usize::MAX,
        draws[k] < n - 1,
    ensures
        mixup::pairs_of(anchors, draws).len() == anchors.len(),
        mixup::pairs_of(anchors, draws)[k].0 == anchors[k],
        draws[k] < anchors[k] ==> mixup::pairs_of(anchors, draws)[k].1 == draws[k],
        draws[k] >= anchors[k] ==> mixup::pairs_of(anchors, draws)[k].1 == draws[k] + 1,
        mixup::pairs_of(anchors, draws)[k].1 != anchors[k],
        mixup::pairs_of(anchors, draws)[k].1 < n,
{
}

} // verus!
