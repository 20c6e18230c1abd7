//! Batches: what is padded and masked, how samples are sorted, and how many of
//! them an attention budget takes.

use vstd::prelude::*;

use crate::dataset;
use crate::dataset::{BatchData, Candidate, TrainingSample};
use crate::ieee::Real32;
use crate::order::Keyed;
use crate::{order, text};

verus! {

// ---------------------------------------------------------------------------
// Padding
// ---------------------------------------------------------------------------

proof fn lemma_most_frames<T>(samples: Seq<TrainingSample<T>>)
    ensures
        forall|i: int|
            0 <= i < samples.len() ==> (#[trigger] samples[i]).feature_frames@.len()
                <= dataset::most_frames(samples),
        samples.len() > 0 ==> exists|i: int|
            0 <= i < samples.len() && (#[trigger] samples[i]).feature_frames@.len()
                == dataset::most_frames(samples),
    decreases samples.len(),
{
    if samples.len() > 0 {
        let front = samples.drop_last();
        lemma_most_frames(front);
        assert forall|i: int| 0 <= i < samples.len() implies (
        #[trigger] samples[i]).feature_frames@.len() <= dataset::most_frames(samples) by {
            if i < front.len() {
                assert(front[i] == samples[i]);
            }
        }
        if dataset::most_frames(samples) == samples.last().feature_frames@.len() {
            assert(samples[samples.len() - 1] == samples.last());
        } else {
            let i = choose|i: int|
                0 <= i < front.len() && (#[trigger] front[i]).feature_frames@.len()
                    == dataset::most_frames(front);
            assert(samples[i] == front[i]);
        }
    }
}

proof fn lemma_most_targets<T>(samples: Seq<TrainingSample<T>>)
    ensures
        forall|i: int|
            0 <= i < samples.len() ==> (#[trigger] samples[i]).targets@.len()
                <= dataset::most_targets(samples),
        samples.len() > 0 ==> exists|i: int|
            0 <= i < samples.len() && (#[trigger] samples[i]).targets@.len()
                == dataset::most_targets(samples),
    decreases samples.len(),
{
    if samples.len() > 0 {
        let front = samples.drop_last();
        lemma_most_targets(front);
        assert forall|i: int| 0 <= i < samples.len() implies (#[trigger] samples[i]).targets@.len()
            <= dataset::most_targets(samples) by {
            if i < front.len() {
                assert(front[i] == samples[i]);
            }
        }
        if dataset::most_targets(samples) == samples.last().targets@.len() {
            assert(samples[samples.len() - 1] == samples.last());
        } else {
            let i = choose|i: int|
                0 <= i < front.len() && (#[trigger] front[i]).targets@.len()
                    == dataset::most_targets(front);
            assert(samples[i] == front[i]);
        }
    }
}

/// A batch is as wide as its longest sample needs, and no wider: in time and in
/// targets.
pub proof fn law_batch_is_as_wide_as_needed<T>(
    batch: BatchData<T>,
    samples: Seq<TrainingSample<T>>,
    zero: T,
)
    requires
        dataset::pads(batch, samples, zero),
    ensures
        forall|i: int|
            0 <= i < samples.len() ==> (#[trigger] samples[i]).feature_frames@.len()
                <= batch.max_time && samples[i].targets@.len() <= batch.max_target,
        samples.len() > 0 ==> exists|i: int|
            0 <= i < samples.len() && (#[trigger] samples[i]).feature_frames@.len()
                == batch.max_time,
        samples.len() > 0 ==> exists|i: int|
            0 <= i < samples.len() && (#[trigger] samples[i]).targets@.len() == batch.max_target,
        samples.len() == 0 ==> batch.max_time == 0 && batch.max_target == 0,
        batch.size == samples.len(),
{
    lemma_most_frames(samples);
    lemma_most_targets(samples);
}

/// Place `i * m + f` lies in row `i` of rows of `m`.
proof fn lemma_row_place(i: int, n: int, m: int, f: int)
    requires
        0 <= i < n,
        0 <= f < m,
    ensures
        0 <= i * m + f < n * m,
        n * m == (n - 1) * m + m,
        i < n - 1 ==> i * m + f < (n - 1) * m,
{
    assert(0 <= i * m) by (nonlinear_arith)
        requires
            0 <= i,
            0 <= m,
    ;
    assert(n * m == (n - 1) * m + m) by (nonlinear_arith);
    assert(i * m + m <= n * m) by (nonlinear_arith)
        requires
            i + 1 <= n,
            0 <= m,
    ;
    if i < n - 1 {
        assert(i * m + m <= (n - 1) * m) by (nonlinear_arith)
            requires
                i + 1 <= n - 1,
                0 <= m,
        ;
    }
}

proof fn lemma_mask_cell<T>(samples: Seq<TrainingSample<T>>, m: nat, i: int, f: int)
    requires
        forall|k: int|
            0 <= k < samples.len() ==> (#[trigger] samples[k]).feature_frames@.len() <= m,
    ensures
        dataset::pad_masks(samples, m).len() == samples.len() * m,
        0 <= i < samples.len() && 0 <= f < m ==> dataset::pad_masks(samples, m)[i * m + f] == (f
            >= samples[i].feature_frames@.len()),
    decreases samples.len(),
{
    let n = samples.len() as int;
    let w = m as int;
    if n == 0 {
        assert(n * w == 0) by (nonlinear_arith)
            requires
                n == 0,
        ;
    } else {
        let front = samples.drop_last();
        assert forall|k: int| 0 <= k < front.len() implies (
        #[trigger] front[k]).feature_frames@.len() <= m by {
            assert(front[k] == samples[k]);
        }
        lemma_mask_cell(front, m, i, f);
        assert(samples[n - 1].feature_frames@.len() <= m);
        assert(n * w == (n - 1) * w + w) by (nonlinear_arith);
        if 0 <= i < n && 0 <= f < w {
            lemma_row_place(i, n, w, f);
            if i < n - 1 {
                assert(front[i] == samples[i]);
            }
        }
    }
}

/// The mask of a batch has one place for every frame of every row, and a place is
/// masked exactly where its sample has ended.
pub proof fn law_mask_marks_padding<T>(
    batch: BatchData<T>,
    samples: Seq<TrainingSample<T>>,
    zero: T,
    i: int,
    f: int,
)
    requires
        dataset::pads(batch, samples, zero),
        0 <= i < samples.len(),
        0 <= f < batch.max_time,
    ensures
        batch.pad_mask@.len() == samples.len() * batch.max_time,
        0 <= i * batch.max_time + f < batch.pad_mask@.len(),
        batch.pad_mask@[i * batch.max_time + f] <==> f >= samples[i].feature_frames@.len(),
{
    lemma_most_frames(samples);
    lemma_mask_cell(samples, dataset::most_frames(samples), i, f);
    lemma_row_place(i, samples.len() as int, batch.max_time as int, f);
}

proof fn lemma_target_cell<T>(samples: Seq<TrainingSample<T>>, m: nat, i: int, k: int)
    requires
        forall|j: int| 0 <= j < samples.len() ==> (#[trigger] samples[j]).targets@.len() <= m,
    ensures
        dataset::padded_targets(samples, m).len() == samples.len() * m,
        0 <= i < samples.len() && 0 <= k < m ==> dataset::padded_targets(samples, m)[i * m + k]
            == if k < samples[i].targets@.len() {
            samples[i].targets@[k]
        } else {
            0
        },
    decreases samples.len(),
{
    let n = samples.len() as int;
    let w = m as int;
    if n == 0 {
        assert(n * w == 0) by (nonlinear_arith)
            requires
                n == 0,
        ;
    } else {
        let front = samples.drop_last();
        assert forall|j: int| 0 <= j < front.len() implies (#[trigger] front[j]).targets@.len()
            <= m by {
            assert(front[j] == samples[j]);
        }
        lemma_target_cell(front, m, i, k);
        assert(samples[n - 1].targets@.len() <= m);
        assert(n * w == (n - 1) * w + w) by (nonlinear_arith);
        if 0 <= i < n && 0 <= k < w {
            lemma_row_place(i, n, w, k);
            if i < n - 1 {
                assert(front[i] == samples[i]);
            }
        }
    }
}

/// Row `i` of the targets of a batch holds the targets of sample `i`, in order,
/// and blanks behind them.
pub proof fn law_targets_are_padded_with_blanks<T>(
    batch: BatchData<T>,
    samples: Seq<TrainingSample<T>>,
    zero: T,
    i: int,
    k: int,
)
    requires
        dataset::pads(batch, samples, zero),
        0 <= i < samples.len(),
        0 <= k < batch.max_target,
    ensures
        batch.targets@.len() == samples.len() * batch.max_target,
        0 <= i * batch.max_target + k < batch.targets@.len(),
        batch.targets@[i * batch.max_target + k] == if k < samples[i].targets@.len() {
            samples[i].targets@[k]
        } else {
            0
        },
{
    lemma_most_targets(samples);
    lemma_target_cell(samples, dataset::most_targets(samples), i, k);
    lemma_row_place(i, samples.len() as int, batch.max_target as int, k);
}

/// Row `i` of the inputs of a batch holds the frames of sample `i`, in order, and
/// zeros behind them.
pub proof fn law_inputs_are_padded_with_zero<T>(
    batch: BatchData<T>,
    samples: Seq<TrainingSample<T>>,
    zero: T,
    i: int,
    f: int,
    c: int,
)
    requires
        dataset::pads(batch, samples, zero),
        dataset::fits(samples),
        0 <= i < samples.len(),
        0 <= f < batch.max_time,
        0 <= c < samples[0].feature_dim,
    ensures
        batch.feature_dim == samples[0].feature_dim,
        batch.inputs@.len() == samples.len() * (batch.max_time * batch.feature_dim),
        batch.inputs@[(i * batch.max_time + f) * batch.feature_dim + c] == if f
            < samples[i].feature_frames@.len() {
            samples[i].feature_frames@[f]@[c]
        } else {
            zero
        },
{
    lemma_most_frames(samples);
    dataset::law_padded_cell(
        samples,
        dataset::most_frames(samples),
        samples[0].feature_dim as nat,
        zero,
        i,
        f,
        c,
    );
}

/// A batch keeps the lengths that its samples had before they were padded.
pub proof fn law_lengths_are_kept<T>(
    batch: BatchData<T>,
    samples: Seq<TrainingSample<T>>,
    zero: T,
    i: int,
)
    requires
        dataset::pads(batch, samples, zero),
        0 <= i < samples.len(),
        samples[i].feature_frames@.len() <= i32::MAX,
        samples[i].targets@.len() <= i32::MAX,
    ensures
        batch.input_lengths@.len() == samples.len(),
        batch.target_lengths@.len() == samples.len(),
        batch.input_lengths@[i] == samples[i].feature_frames@.len(),
        batch.target_lengths@[i] == samples[i].targets@.len(),
{
}

// ---------------------------------------------------------------------------
// Budget
// ---------------------------------------------------------------------------

proof fn lemma_grown_stops(
    lengths: Seq<int>,
    start: int,
    end: int,
    budget: int,
    cap: int,
    heads: int,
)
    requires
        0 <= start < end <= lengths.len(),
    ensures
        ({
            let e = dataset::grown(lengths, start, end, budget, cap, heads);
            &&& end <= e <= lengths.len()
            &&& e < lengths.len() ==> e - start >= cap || (e - start + 1) * heads * lengths[e]
                * lengths[e] > budget
            &&& e > end ==> e - start <= cap && (e - start) * heads * lengths[e - 1] * lengths[e
                - 1] <= budget
        }),
    decreases lengths.len() - end,
{
    if end < lengths.len() && end - start < cap && (end - start + 1) * heads * lengths[end]
        * lengths[end] <= budget {
        lemma_grown_stops(lengths, start, end + 1, budget, cap, heads);
    }
}

/// The attention of a batch of more than one sample, its number of samples times
/// the heads times the square of its longest length, is within the budget, and a
/// batch takes every further sample that the budget and the cap allow.
pub proof fn law_budgeted_batches_are_full(
    lengths: Seq<int>,
    start: int,
    budget: int,
    cap: int,
    heads: int,
    i: int,
)
    requires
        0 <= start <= lengths.len(),
        0 <= i < dataset::dynamic_spans_from(lengths, start, budget, cap, heads).len(),
    ensures
        ({
            let (s, e) = dataset::dynamic_spans_from(lengths, start, budget, cap, heads)[i];
            &&& 0 <= s < e <= lengths.len()
            &&& e - s > 1 ==> e - s <= cap && (e - s) * heads * lengths[e - 1] * lengths[e - 1]
                <= budget
            &&& e < lengths.len() ==> e - s >= cap || (e - s + 1) * heads * lengths[e] * lengths[e]
                > budget
        }),
    decreases lengths.len() - start,
{
    if start < lengths.len() {
        lemma_grown_stops(lengths, start, start + 1, budget, cap, heads);
        let end = dataset::grown(lengths, start, start + 1, budget, cap, heads);
        let rest = dataset::dynamic_spans_from(lengths, end, budget, cap, heads);
        assert(dataset::dynamic_spans_from(lengths, start, budget, cap, heads) == seq![(start, end)]
            + rest);
        if i > 0 {
            law_budgeted_batches_are_full(lengths, end, budget, cap, heads, i - 1);
        }
    }
}

/// Every fixed batch but the last holds exactly as many samples as were asked
/// for.
pub proof fn law_fixed_batches_are_full(start: int, n: int, size: int, i: int)
    requires
        0 <= start <= n,
        size > 0,
        0 <= i < dataset::fixed_spans_from(start, n, size).len() - 1,
    ensures
        dataset::fixed_spans_from(start, n, size)[i].1 - dataset::fixed_spans_from(
            start,
            n,
            size,
        )[i].0 == size,
    decreases n - start,
{
    let end = if start + size < n {
        start + size
    } else {
        n
    };
    let rest = dataset::fixed_spans_from(end, n, size);
    assert(dataset::fixed_spans_from(start, n, size) == seq![(start, end)] + rest);
    if i > 0 {
        law_fixed_batches_are_full(end, n, size, i - 1);
    }
}

// ---------------------------------------------------------------------------
// Order
// ---------------------------------------------------------------------------

proof fn lemma_keyed_filter<T>(s: Seq<TrainingSample<T>>, k: u64)
    ensures
        order::with_key(dataset::keyed(s), k) == dataset::keyed(
            s.filter(|x: TrainingSample<T>| x.feature_frames@.len() == k),
        ),
    decreases s.len(),
{
    reveal(Seq::filter);
    let keep = |x: TrainingSample<T>| x.feature_frames@.len() == k;
    let by_key = |x: Keyed<TrainingSample<T>>| x.key == k;
    if s.len() == 0 {
        assert(dataset::keyed(s) =~= Seq::empty());
        assert(order::with_key(dataset::keyed(s), k) =~= dataset::keyed(s.filter(keep)));
    } else {
        let front = s.drop_last();
        lemma_keyed_filter(front, k);
        assert(dataset::keyed(s).drop_last() =~= dataset::keyed(front));
        let last = s.last();
        assert(dataset::keyed(s).last() == (Keyed {
            key: last.feature_frames.len() as u64,
            item: last,
        }));
        if last.feature_frames@.len() == k {
            assert(s.filter(keep) == front.filter(keep).push(last));
            assert(dataset::keyed(front.filter(keep).push(last)) =~= dataset::keyed(
                front.filter(keep),
            ).push(dataset::keyed(s).last()));
        } else {
            assert(s.filter(keep) == front.filter(keep));
        }
    }
}

/// Sorting puts samples with fewer frames first, and keeps samples with as many
/// frames in the order they came in; none is lost and none is added.
pub proof fn law_samples_sorted_by_frames<T>(
    s: Seq<TrainingSample<T>>,
    r: Seq<TrainingSample<T>>,
    k: u64,
)
    requires
        dataset::sorted_by_frames(s, r),
    ensures
        forall|i: int, j: int|
            0 <= i <= j < r.len() ==> (#[trigger] r[i]).feature_frames@.len() <= (
            #[trigger] r[j]).feature_frames@.len(),
        r.filter(|x: TrainingSample<T>| x.feature_frames@.len() == k) == s.filter(
            |x: TrainingSample<T>| x.feature_frames@.len() == k,
        ),
{
    let keep = |x: TrainingSample<T>| x.feature_frames@.len() == k;
    lemma_keyed_filter(s, k);
    lemma_keyed_filter(r, k);
    assert(order::with_key(dataset::keyed(r), k) == order::with_key(dataset::keyed(s), k));
    let a = r.filter(keep);
    let b = s.filter(keep);
    assert(dataset::keyed(a) == dataset::keyed(b));
    assert(a.len() == dataset::keyed(a).len() && b.len() == dataset::keyed(b).len());
    assert forall|i: int| 0 <= i < a.len() implies a[i] == b[i] by {
        assert(dataset::keyed(a)[i].item == a[i]);
        assert(dataset::keyed(b)[i].item == b[i]);
    }
    assert(a =~= b);
    assert forall|i: int, j: int| 0 <= i <= j < r.len() implies (
    #[trigger] r[i]).feature_frames@.len() <= (#[trigger] r[j]).feature_frames@.len() by {
        assert(dataset::keyed(r)[i].key <= dataset::keyed(r)[j].key);
    }
}

// ---------------------------------------------------------------------------
// Utterances
// ---------------------------------------------------------------------------

/// An utterance is taken where it lasts at least half a second and at most as
/// long as is asked for. (0.5 has the bits `0x3f00_0000`.)
pub proof fn law_duration_limits(duration: Real32, longest: Real32)
    requires
        !duration.nan(),
        !longest.nan(),
    ensures
        dataset::duration_fits(duration, longest) <==> duration.place() >= 0x3f00_0000
            && duration.place() <= longest.place(),
{
}

/// The utterances that are taken are those whose duration fits, in order.
pub proof fn law_fitting_utterances_are_kept(candidates: Seq<Candidate>, longest: Real32)
    ensures
        dataset::fitting(candidates, longest) == candidates.filter(
            |c: Candidate| dataset::duration_fits(c.duration, longest),
        ).map_values(|c: Candidate| (c.meta.audio_path@, c.meta.transcript@)),
    decreases candidates.len(),
{
    reveal(Seq::filter);
    let keep = |c: Candidate| dataset::duration_fits(c.duration, longest);
    let show = |c: Candidate| (c.meta.audio_path@, c.meta.transcript@);
    if candidates.len() == 0 {
        assert(dataset::fitting(candidates, longest) =~= candidates.filter(keep).map_values(show));
    } else {
        let front = candidates.drop_last();
        law_fitting_utterances_are_kept(front, longest);
        if keep(candidates.last()) {
            assert(candidates.filter(keep) == front.filter(keep).push(candidates.last()));
            assert(front.filter(keep).push(candidates.last()).map_values(show) =~= front.filter(
                keep,
            ).map_values(show).push(show(candidates.last())));
        }
    }
}

/// A transcript can be aligned where there is a frame for every target.
pub proof fn law_alignable_needs_a_frame_per_target(frames: nat, targets: nat)
    ensures
        dataset::alignable(frames, targets) <==> frames >= targets,
{
}

proof fn lemma_trim_none(s: Seq<char>)
    requires
        s.len() > 0,
        !text::is_white(s[0]),
        !text::is_white(s.last()),
    ensures
        text::trimmed(s) == s,
{
}

proof fn lemma_run_len_all(s: Seq<char>, rest: Seq<char>)
    requires
        forall|i: int| 0 <= i < s.len() ==> #[trigger] s[i] != ' ',
    ensures
        text::run_len(s + seq![' '] + rest, text::Separator::Mark(' ')) == s.len(),
    decreases s.len(),
{
    let all = s + seq![' '] + rest;
    if s.len() > 0 {
        assert(all[0] == s[0]);
        assert(all.drop_first() =~= s.drop_first() + seq![' '] + rest);
        lemma_run_len_all(s.drop_first(), rest);
    } else {
        assert(all[0] == ' ');
    }
}

/// A line of a transcript file is an utterance's name, a blank, and its text.
pub proof fn law_transcript_line(id: Seq<char>, words: Seq<char>)
    requires
        id.len() > 0,
        forall|i: int| 0 <= i < id.len() ==> !text::is_white(#[trigger] id[i]),
        words.len() > 0,
        !text::is_white(words[0]),
        !text::is_white(words.last()),
    ensures
        dataset::line_parts(id + seq![' '] + words) == Some((id, words)),
{
    let line = id + seq![' '] + words;
    assert(line[0] == id[0]);
    assert(line.last() == words.last());
    lemma_trim_none(line);
    assert forall|i: int| 0 <= i < id.len() implies #[trigger] id[i] != ' ' by {
        assert(!text::is_white(id[i]));
    }
    lemma_run_len_all(id, words);
    assert(line.take(id.len() as int) =~= id);
    assert(line.skip(id.len() as int + 1) =~= words);
    lemma_trim_none(words);
}

/// A transcript file gives what its lines give, in order.
pub proof fn law_transcript_lines_are_read_in_order(a: Seq<Seq<char>>, b: Seq<Seq<char>>)
    ensures
        dataset::transcript_parts(a + b) == dataset::transcript_parts(a)
            + dataset::transcript_parts(b),
        a.len() == 1 ==> dataset::transcript_parts(a) == match dataset::line_parts(a[0]) {
            Some(parts) => seq![parts],
            None => seq![],
        },
    decreases b.len(),
{
    if a.len() == 1 {
        assert(a.drop_last() =~= Seq::<Seq<char>>::empty());
        assert(dataset::transcript_parts(a.drop_last()) =~= Seq::<(Seq<char>, Seq<char>)>::empty());
        assert(a.last() == a[0]);
        match dataset::line_parts(a[0]) {
            Some(parts) => {
                assert(dataset::transcript_parts(a) =~= seq![parts]);
            },
            None => {},
        }
    }
    if b.len() == 0 {
        assert(a + b =~= a);
        assert(dataset::transcript_parts(a) + dataset::transcript_parts(b)
            =~= dataset::transcript_parts(a));
    } else {
        law_transcript_lines_are_read_in_order(a, b.drop_last());
        assert((a + b).drop_last() =~= a + b.drop_last());
        assert((a + b).last() == b.last());
        match dataset::line_parts(b.last()) {
            Some(parts) => {
                assert((dataset::transcript_parts(a) + dataset::transcript_parts(
                    b.drop_last(),
                )).push(parts) =~= dataset::transcript_parts(a) + dataset::transcript_parts(
                    b.drop_last(),
                ).push(parts));
            },
            None => {},
        }
    }
}

} // verus!
