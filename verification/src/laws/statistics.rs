//! Evaluation: ranks, resampling, which method is best and how it is judged.

use vstd::prelude::*;

use crate::evaluate::metrics::{Evaluation, MetricAccumulator, WordScores};
use crate::evaluate::report::EvaluationMetric;
use crate::evaluate::{metrics, ranks, report};
use crate::finetune::config::{ScoringHeadConfig, ScoringInputSource};
use crate::finetune::report::{Gate, SnapshotRow};
use crate::grouping::Group;
use crate::ieee::Real64;
use crate::{finetune, grouping, text};

verus! {

// ---------------------------------------------------------------------------
// Order and ranks
// ---------------------------------------------------------------------------

/// An order of values holds each of them exactly once.
pub proof fn law_order_holds_every_place(order: Seq<usize>, k: usize)
    requires
        ranks::permutation(order),
    ensures
        order.contains(k) <==> k < order.len(),
        order.no_duplicates(),
{
    let n = order.len() as int;
    let places = order.map_values(|x: usize| x as int);
    assert(places.no_duplicates()) by {
        assert forall|i: int, j: int|
            0 <= i < places.len() && 0 <= j < places.len() && i != j implies #[trigger] places[i]
            != #[trigger] places[j] by {
            if i < j {
                assert(order[i] != order[j]);
            } else {
                assert(order[j] != order[i]);
            }
        }
    }
    places.unique_seq_to_set();
    let all = vstd::set_lib::set_int_range(0, n);
    vstd::set_lib::lemma_int_range(0, n);
    assert(places.to_set().subset_of(all)) by {
        assert forall|x: int| places.to_set().contains(x) implies all.contains(x) by {
            let i = choose|i: int| 0 <= i < places.len() && places[i] == x;
            assert(order[i] < order.len());
        }
    }
    vstd::set_lib::lemma_subset_equality(places.to_set(), all);
    if k < order.len() {
        assert(all.contains(k as int));
        assert(places.to_set().contains(k as int));
        let i = choose|i: int| 0 <= i < places.len() && places[i] == k as int;
        assert(order[i] == k);
    }
    if order.contains(k) {
        let i = choose|i: int| 0 <= i < order.len() && order[i] == k;
        assert(order[i] < order.len());
    }
}

/// In an order of numbers, none is less than one before it, and equal ones keep
/// the order that they came in.
pub proof fn law_values_are_ordered(values: Seq<Real64>, a: int, b: int)
    requires
        ranks::goes_before(values, a, b),
        !values[a].nan(),
        !values[b].nan(),
    ensures
        values[a].at_most(values[b]),
        !values[b].less(values[a]),
        !values[a].less(values[b]) ==> a < b,
{
}

proof fn lemma_group(reach: Seq<usize>, from: int, p: int)
    requires
        ranks::sound_reach(reach),
        0 <= from <= p < reach.len(),
    ensures
        ({
            let (a, b) = ranks::group_from(reach, from, p);
            &&& from <= a <= p < b
            &&& b == reach[a]
            &&& ranks::group_from(reach, from, a) == (a, b)
        }),
    decreases p - from,
{
    if p >= reach[from] {
        lemma_group(reach, reach[from] as int, p);
    }
}

/// Values that tie share the mean of their places: twice the rank is the sum of
/// the first place and the last, counted from one.
pub proof fn law_ties_share_their_mean_place(reach: Seq<usize>, p: int)
    requires
        ranks::sound_reach(reach),
        0 <= p < reach.len(),
    ensures
        ({
            let (a, b) = ranks::group_from(reach, 0, p);
            &&& a <= p < b
            &&& b == reach[a]
            &&& ranks::doubled_rank(reach, p) == (a + 1) + b
            &&& ranks::doubled_rank(reach, a) == (a + 1) + b
        }),
{
    lemma_group(reach, 0, p);
}

proof fn lemma_untied(reach: Seq<usize>, from: int, p: int)
    requires
        0 <= from <= p < reach.len(),
        forall|i: int| 0 <= i < reach.len() ==> (#[trigger] reach[i]) == i + 1,
    ensures
        ranks::group_from(reach, from, p) == (p, p + 1),
    decreases p - from,
{
    assert(reach[from] == from + 1);
    if p > from {
        lemma_untied(reach, from + 1, p);
    }
}

/// Where nothing ties, the rank of a value is its place, counted from one; where
/// everything ties, all have the middle one.
pub proof fn law_ranks_without_ties(reach: Seq<usize>, p: int)
    requires
        0 <= p < reach.len(),
    ensures
        (forall|i: int| 0 <= i < reach.len() ==> (#[trigger] reach[i]) == i + 1)
            ==> ranks::doubled_rank(reach, p) == 2 * (p + 1),
        reach[0] == reach.len() ==> ranks::doubled_rank(reach, p) == reach.len() + 1,
{
    if forall|i: int| 0 <= i < reach.len() ==> (#[trigger] reach[i]) == i + 1 {
        lemma_untied(reach, 0, p);
    }
}

// ---------------------------------------------------------------------------
// Resampling
// ---------------------------------------------------------------------------

/// One step of the generator multiplies by its factor and adds one, modulo two to
/// the power of 64.
pub proof fn law_generator_step(state: u64)
    ensures
        exists|q: int|
            ranks::lcg(state) + #[trigger] (0x1_0000_0000_0000_0000 * q) == state
                * 6_364_136_223_846_793_005 + 1,
{
    let x = state * 6_364_136_223_846_793_005 + 1;
    vstd::arithmetic::div_mod::lemma_fundamental_div_mod(x, 0x1_0000_0000_0000_0000);
    let q = x / 0x1_0000_0000_0000_0000;
    assert(ranks::lcg(state) == x % 0x1_0000_0000_0000_0000);
    assert(ranks::lcg(state) + 0x1_0000_0000_0000_0000 * q == x);
}

/// Steps add up: after some steps and some more, the generator is where it is
/// after all of them at once.
pub proof fn law_generator_steps_add_up(state: u64, a: nat, b: nat)
    ensures
        ranks::lcg_after(state, 0) == state,
        ranks::lcg_after(state, 1) == ranks::lcg(state),
        ranks::lcg_after(state, a + b) == ranks::lcg_after(ranks::lcg_after(state, a), b),
    decreases b,
{
    reveal_with_fuel(ranks::lcg_after, 2);
    if b > 0 {
        law_generator_steps_add_up(state, a, (b - 1) as nat);
        assert(((a + b) - 1) as nat == a + ((b - 1) as nat));
    }
}

/// A place is drawn from the upper 31 bits of a state.
pub proof fn law_place_is_drawn_from_the_upper_bits(state: u64, n: int)
    requires
        n > 0,
    ensures
        ranks::picked(state, n) == (state >> 33) as int % n,
        0 <= ranks::picked(state, n) < n,
{
    assert(state >> 33 == state / 0x2_0000_0000) by (bit_vector);
}

// ---------------------------------------------------------------------------
// Methods
// ---------------------------------------------------------------------------

/// The best method is one that scored at least ten words, and there is none only
/// where no method did.
pub proof fn law_best_method_scored_enough(metrics: Seq<EvaluationMetric>)
    ensures
        match report::best_method(metrics) {
            Some(b) => 0 <= b < metrics.len() && metrics[b].words_scored >= 10,
            None => forall|i: int|
                0 <= i < metrics.len() ==> (#[trigger] metrics[i]).words_scored < 10,
        },
{
    report::lemma_best_method_in_range(metrics);
}

/// No method that scored enough words goes with people's scores more closely than
/// the best one; of equally good ones it is the last.
pub proof fn law_no_method_beats_the_best(metrics: Seq<EvaluationMetric>, i: int)
    requires
        0 <= i < metrics.len(),
        metrics[i].words_scored >= 10,
        forall|k: int| 0 <= k < metrics.len() ==> !(#[trigger] metrics[k]).rho.nan(),
    ensures
        match report::best_method(metrics) {
            Some(b) => metrics[i].rho.at_most(metrics[b].rho) && (i > b ==> metrics[i].rho.less(
                metrics[b].rho,
            )),
            None => false,
        },
{
    report::law_best_method_is_best(metrics, i);
}

/// The judgement goes by two limits: 0.30 and 0.40, with the bits
/// `0x3fd3_3333_3333_3333` and `0x3fd9_9999_9999_999a`.
pub proof fn law_limits_of_success(rho: Real64)
    ensures
        rho.nan() ==> finetune::report::gate_for(rho) == Gate::Fail,
        !rho.nan() ==> (finetune::report::gate_for(rho) == Gate::Fail <==> rho.place()
            < 0x3fd3_3333_3333_3333),
        !rho.nan() ==> (finetune::report::gate_for(rho) == Gate::FullSuccess <==> rho.place()
            >= 0x3fd9_9999_9999_999a),
{
}

/// The best snapshot has the highest correlation of all; of equally good ones it
/// is the last.
pub proof fn law_best_snapshot(rows: Seq<SnapshotRow>, i: int)
    requires
        0 <= i < rows.len(),
        forall|k: int| 0 <= k < rows.len() ==> !(#[trigger] rows[k]).rho.nan(),
    ensures
        ({
            let b = finetune::report::best_snapshot(rows);
            &&& 0 <= b < rows.len()
            &&& rows[i].rho.at_most(rows[b].rho)
        }),
{
    finetune::report::law_best_snapshot_is_best(rows, i);
    let b = finetune::report::best_snapshot(rows);
    assert(!rows[b].rho.nan());
    assert(!rows[i].rho.nan());
    assert(rows[i].rho.total_place() <= rows[b].rho.total_place());
}

// ---------------------------------------------------------------------------
// Words
// ---------------------------------------------------------------------------

/// A recorded score stands behind the ones before it, beside the human score of
/// the same word.
pub proof fn law_recorded_scores_stay_paired(
    before: MetricAccumulator,
    after: MetricAccumulator,
    predicted: Real64,
    human: Real64,
)
    requires
        before.paired(),
        after.extends(before, predicted, human),
    ensures
        after.predicted@.len() == after.human@.len(),
        after.predicted@.len() == before.predicted@.len() + 1,
        after.predicted@.last() == predicted,
        after.human@.last() == human,
        forall|i: int|
            0 <= i < before.predicted@.len() ==> #[trigger] after.predicted@[i]
                == before.predicted@[i] && after.human@[i] == before.human@[i],
{
}

/// A word counts as scored exactly where one of the methods in use has a score for
/// it.
pub proof fn law_scored_words_have_a_score(evaluation: Evaluation, scores: WordScores)
    ensures
        scores.gop is None && scores.self_aligned is None && scores.head is None
            ==> !evaluation.scored(scores),
        scores.gop is Some ==> evaluation.scored(scores),
        scores.self_aligned is Some ==> evaluation.scored(scores),
        scores.head is Some && evaluation.head is Some ==> evaluation.scored(scores),
        scores.gop is None && scores.self_aligned is None && evaluation.head is None
            ==> !evaluation.scored(scores),
{
}

/// Teacher scores are missing exactly where the head reads the teacher's features
/// and nothing was scored by it.
pub proof fn law_missing_teacher_scores(evaluation: Evaluation, source: ScoringInputSource)
    ensures
        source == ScoringInputSource::Backbone ==> !evaluation.lacks_teacher_scores(source),
        source == ScoringInputSource::TeacherCache && evaluation.head is None
            ==> evaluation.lacks_teacher_scores(source),
        evaluation.head matches Some(h) ==> h.predicted@.len() > 0
            ==> !evaluation.lacks_teacher_scores(source),
        evaluation.head matches Some(h) ==> h.predicted@.len() == 0 && source
            == ScoringInputSource::TeacherCache ==> evaluation.lacks_teacher_scores(source),
{
}

/// A scorer is described by the loss that it was trained with.
pub proof fn law_scorer_is_described_by_its_loss(config: ScoringHeadConfig)
    ensures
        config.ordinal_softmax_loss ==> metrics::scorer_text(config)
            == "SO762 fine-tuned 5-class ordinal scorer"@,
        !config.ordinal_softmax_loss && config.ordinal_loss ==> metrics::scorer_text(config)
            == "SO762 fine-tuned threshold-ordinal scorer"@,
        !config.ordinal_softmax_loss && !config.ordinal_loss ==> metrics::scorer_text(config)
            == "SO762 fine-tuned regression scorer"@,
{
}

// ---------------------------------------------------------------------------
// Groups
// ---------------------------------------------------------------------------

proof fn lemma_places(names: Seq<Seq<char>>, name: Seq<char>, i: int)
    requires
        names.len() <= usize::MAX,
        0 <= i < names.len(),
    ensures
        grouping::places(names, name).contains(i as usize) <==> names[i] == name,
        forall|a: int, b: int|
            0 <= a < b < grouping::places(names, name).len() ==> (#[trigger] grouping::places(
                names,
                name,
            )[a]) < (#[trigger] grouping::places(names, name)[b]),
        forall|a: int|
            0 <= a < grouping::places(names, name).len() ==> (#[trigger] grouping::places(
                names,
                name,
            )[a]) < names.len(),
    decreases names.len(),
{
    let front = names.drop_last();
    let before = grouping::places(front, name);
    if front.len() > 0 {
        lemma_places(
            front,
            name,
            if i < front.len() {
                i
            } else {
                0
            },
        );
    } else {
        assert(before =~= seq![]);
    }
    let r = grouping::places(names, name);
    let last = (names.len() - 1) as usize;
    if names.last() == name {
        assert(r == before.push(last));
        assert(r[before.len() as int] == last);
    }
    if i < front.len() {
        assert(front[i] == names[i]);
        if before.contains(i as usize) {
            let k = choose|k: int| 0 <= k < before.len() && before[k] == i as usize;
            assert(r[k] == i as usize);
        }
        if r.contains(i as usize) {
            let k = choose|k: int| 0 <= k < r.len() && r[k] == i as usize;
            assert(k < before.len());
            assert(before[k] == i as usize);
        }
    } else {
        assert(names[i] == names.last());
        if r.contains(i as usize) && names[i] != name {
            let k = choose|k: int| 0 <= k < r.len() && r[k] == i as usize;
            assert(before[k] < front.len());
        }
    }
}

/// A group holds the places of its name and no other, in rising order; groups
/// stand in the order of their names, and every name has one.
pub proof fn law_groups_hold_their_names(
    names: Seq<Seq<char>>,
    groups: Seq<Group>,
    g: int,
    h: int,
    i: int,
)
    requires
        names.len() <= usize::MAX,
        grouping::grouped(names, groups),
        0 <= g < groups.len(),
        0 <= h < groups.len(),
        0 <= i < names.len(),
    ensures
        groups[g].members@.contains(i as usize) <==> names[i] == groups[g].name@,
        forall|a: int, b: int|
            0 <= a < b < groups[g].members@.len() ==> (#[trigger] groups[g].members@[a]) < (
            #[trigger] groups[g].members@[b]),
        forall|a: int|
            0 <= a < groups[g].members@.len() ==> (#[trigger] groups[g].members@[a]) < names.len(),
        groups[g].members@.len() > 0,
        g < h ==> text::before(groups[g].name@, groups[h].name@),
        exists|k: int| 0 <= k < groups.len() && (#[trigger] groups[k]).name@ == names[i],
{
    lemma_places(names, groups[g].name@, i);
    assert(grouping::has_group(groups, names[i]));
}

} // verus!
