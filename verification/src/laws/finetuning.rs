//! A fine-tuning run: which utterances a step takes, what an epoch counts, when
//! the holdout set is scored, and which settings are accepted.

use vstd::prelude::*;

use crate::finetune::config::{FineTuneArgs, ScoringHeadConfig, ScoringInputSource};
use crate::finetune::head::HeadAttempt;
use crate::finetune::plan::Weighting;
use crate::finetune::prepare::WordTarget;
use crate::finetune::run::{Action, FineTuneRun, Phase, PlannedWord};
use crate::finetune::{config, head, plan, run};
use crate::ieee::Real32;
use crate::laws::training;
use crate::model;

verus! {

// ---------------------------------------------------------------------------
// Steps
// ---------------------------------------------------------------------------

/// An epoch has as many steps as its utterances fill, the last one perhaps not
/// wholly.
pub proof fn law_steps_of_an_epoch(utterances: int, batch_size: int)
    requires
        utterances >= 0,
        batch_size > 0,
    ensures
        run::steps_for(utterances, batch_size) * batch_size >= utterances,
        (run::steps_for(utterances, batch_size) - 1) * batch_size < utterances || utterances == 0,
        utterances == 0 <==> run::steps_for(utterances, batch_size) == 0,
{
    vstd::arithmetic::div_mod::lemma_fundamental_div_mod(utterances, batch_size);
    let q = utterances / batch_size;
    let r = utterances % batch_size;
    assert(q >= 0 && batch_size * q == q * batch_size && (q + 1) * batch_size == q * batch_size
        + batch_size && (q - 1) * batch_size == q * batch_size - batch_size) by (nonlinear_arith)
        requires
            utterances == batch_size * q + r,
            0 <= r < batch_size,
            utterances >= 0,
            batch_size > 0,
    ;
    if utterances == 0 {
        assert(q == 0) by (nonlinear_arith)
            requires
                0 == batch_size * q + r,
                0 <= r < batch_size,
                q >= 0,
                batch_size > 0,
        ;
    } else if r == 0 {
        assert(q > 0) by (nonlinear_arith)
            requires
                utterances == batch_size * q,
                utterances > 0,
                batch_size > 0,
        ;
    }
}

/// The steps of an epoch take its utterances one after another: the first starts
/// at the first utterance, each goes on where the one before ended, none is larger
/// than the batch size, and the last ends with the last utterance.
pub proof fn law_steps_take_utterances_in_order(at: FineTuneRun, taken: usize)
    requires
        at.valid(),
        at.phase == (Phase::Batch { step: taken }),
    ensures
        match at.due() {
            Action::Train { epoch, step, total_steps, start, end } => {
                &&& epoch == at.epoch + 1
                &&& step == taken
                &&& taken == 0 ==> start == 0
                &&& start < end <= at.utterances
                &&& end - start <= at.batch_size
                &&& step + 1 == total_steps <==> end == at.utterances
                &&& end < at.utterances ==> end - start == at.batch_size
                &&& end < at.utterances ==> (at.after(None).due() matches Action::Train {
                    start: next,
                    ..
                } && next == end)
            },
            _ => false,
        },
{
    let b = at.batch_size as int;
    let n = at.utterances as int;
    let s = taken as int;
    let total = at.total_steps();
    law_steps_of_an_epoch(n, b);
    assert(0 <= s * b && (s + 1) * b == s * b + b) by (nonlinear_arith)
        requires
            s >= 0,
            b > 0,
    ;
    assert(s * b <= (total - 1) * b) by (nonlinear_arith)
        requires
            s <= total - 1,
            b > 0,
    ;
    assert(total <= n) by (nonlinear_arith)
        requires
            (total - 1) * b < n,
            b > 0,
            n > 0,
    ;
    if s + 1 < total {
        assert((s + 1) * b <= (total - 1) * b) by (nonlinear_arith)
            requires
                s + 1 <= total - 1,
                b > 0,
        ;
    } else {
        assert(s + 1 == total);
    }
    if s == 0 {
        assert(s * b == 0) by (nonlinear_arith)
            requires
                s == 0,
        ;
    }
}

/// A step that trained counts itself and its words; one that did not counts
/// nothing. The last step is followed by the close of the epoch.
pub proof fn law_steps_are_counted(at: FineTuneRun, taken: usize, words: usize)
    requires
        at.valid(),
        at.phase == (Phase::Batch { step: taken }),
        at.words + words <= usize::MAX,
    ensures
        at.after(Some(words)).batches == at.batches + 1,
        at.after(Some(words)).words == at.words + words,
        at.after(None).batches == at.batches,
        at.after(None).words == at.words,
        at.after(None).phase == at.after(Some(words)).phase,
        at.after(None).epoch == at.epoch,
        at.after(Some(words)).epoch == at.epoch,
        taken + 1 < at.total_steps() ==> at.after(None).phase == (Phase::Batch {
            step: (taken + 1) as usize,
        }),
        taken + 1 == at.total_steps() ==> at.after(None).phase == Phase::Close,
{
    law_steps_of_an_epoch(at.utterances as int, at.batch_size as int);
    let total = at.total_steps();
    let b = at.batch_size as int;
    let n = at.utterances as int;
    assert(total <= n) by (nonlinear_arith)
        requires
            (total - 1) * b < n,
            b > 0,
            n > 0,
    ;
}

/// Metrics are written after every twenty-fifth step that counts and after the
/// last step of an epoch, and after no other.
pub proof fn law_metrics_are_written_every_so_often(at: FineTuneRun, step: int)
    ensures
        at.metrics_due(step) <==> (training::multiple(25, at.batches + 1) || step + 1
            == at.total_steps()),
{
    training::lemma_multiple(25, at.batches + 1);
}

/// The close of an epoch reports its number, counted from one, and what it
/// counted.
pub proof fn law_close_of_an_epoch(at: FineTuneRun)
    requires
        at.valid(),
        at.phase == Phase::Close,
    ensures
        match at.due() {
            Action::CloseEpoch { epoch, batches, words } => epoch == at.epoch + 1 && batches
                == at.batches && words == at.words,
            _ => false,
        },
{
}

/// The holdout set is scored after the close of an epoch exactly where there is
/// one and the interval divides the epoch's number; an interval of zero never
/// scores it.
pub proof fn law_holdout_is_scored_at_the_interval(at: FineTuneRun, trained: Option<usize>)
    requires
        at.valid(),
        at.phase == Phase::Close,
    ensures
        at.after(trained).phase == Phase::Evaluate <==> (at.has_holdout && training::multiple(
            at.eval_interval as int,
            at.epoch + 1,
        )),
        at.after(trained).phase == Phase::Evaluate ==> (
        at.after(trained).due() matches Action::EvaluateHoldout { epoch } && epoch == at.epoch + 1),
        at.after(trained).phase == Phase::Evaluate ==> at.after(trained).epoch == at.epoch,
        at.after(trained).phase != Phase::Evaluate ==> at.after(trained).epoch == at.epoch + 1,
{
    if at.eval_interval > 0 {
        training::lemma_multiple(at.eval_interval as int, at.epoch + 1);
    } else {
        assert(!training::multiple(0, at.epoch + 1)) by {
            assert forall|q: int| #[trigger] (0 * q) == 0 by {
                assert(0 * q == 0) by (nonlinear_arith);
            }
        }
    }
}

/// An epoch starts with its first step and nothing counted; one without
/// utterances is closed at once, and after the last epoch the run is finished.
pub proof fn law_next_epoch_starts_afresh(at: FineTuneRun, trained: Option<usize>)
    requires
        at.valid(),
        at.phase == Phase::Evaluate || (at.phase == Phase::Close && !at.has_holdout),
    ensures
        at.after(trained).epoch == at.epoch + 1,
        at.after(trained).batches == 0,
        at.after(trained).words == 0,
        at.after(trained).phase == Phase::Finished <==> at.epoch + 1 == at.epochs,
        at.epoch + 1 < at.epochs && at.utterances > 0 ==> at.after(trained).phase == (
        Phase::Batch { step: 0 }),
        at.epoch + 1 < at.epochs && at.utterances == 0 ==> at.after(trained).phase == Phase::Close,
{
    law_steps_of_an_epoch(at.utterances as int, at.batch_size as int);
}

/// No step changes what the run was set up with.
pub proof fn law_settings_of_a_run_stay(at: FineTuneRun, trained: Option<usize>)
    ensures
        at.after(trained).utterances == at.utterances,
        at.after(trained).batch_size == at.batch_size,
        at.after(trained).epochs == at.epochs,
        at.after(trained).eval_interval == at.eval_interval,
        at.after(trained).has_holdout == at.has_holdout,
        at.phase == Phase::Finished ==> at.after(trained) == at && at.due() == Action::Finish,
{
}

// ---------------------------------------------------------------------------
// Scoring plan
// ---------------------------------------------------------------------------

/// The words that are scored are those that get frames, in order, each with its
/// share of the frames and its own scores and weight.
pub proof fn law_scored_words(frames: int, words: Seq<WordTarget>)
    ensures
        run::scoring_plan(frames, words) == words.filter_map(
            |w: WordTarget|
                match model::word_span(frames, w.num_words as int, w.word_position as int) {
                    Some((start, end)) => Some(
                        PlannedWord {
                            start: start as usize,
                            end: end as usize,
                            human_score: w.human_score,
                            human_score_raw: w.human_score_raw,
                            weight: w.weight,
                        },
                    ),
                    None => None,
                },
        ),
    decreases words.len(),
{
    let f = |w: WordTarget|
        match model::word_span(frames, w.num_words as int, w.word_position as int) {
            Some((start, end)) => Some(
                PlannedWord {
                    start: start as usize,
                    end: end as usize,
                    human_score: w.human_score,
                    human_score_raw: w.human_score_raw,
                    weight: w.weight,
                },
            ),
            None => None,
        };
    if words.len() > 0 {
        law_scored_words(frames, words.drop_last());
    }
    assert(run::scoring_plan(frames, words) =~= words.filter_map(f));
}

// ---------------------------------------------------------------------------
// Losses
// ---------------------------------------------------------------------------

/// The first finite loss comes before every other one, and there is none only
/// where no loss is finite.
pub proof fn law_first_finite_loss(losses: Seq<Real32>)
    ensures
        match run::first_finite(losses) {
            Some(loss) => exists|i: int|
                0 <= i < losses.len() && #[trigger] losses[i] == loss && loss.finite() && forall|
                    j: int,
                | 0 <= j < i ==> !(#[trigger] losses[j]).finite(),
            None => forall|j: int| 0 <= j < losses.len() ==> !(#[trigger] losses[j]).finite(),
        },
    decreases losses.len(),
{
    if losses.len() > 0 && !losses[0].finite() {
        let rest = losses.drop_first();
        law_first_finite_loss(rest);
        match run::first_finite(rest) {
            Some(loss) => {
                let i = choose|i: int|
                    0 <= i < rest.len() && #[trigger] rest[i] == loss && loss.finite() && forall|
                        j: int,
                    | 0 <= j < i ==> !(#[trigger] rest[j]).finite();
                assert(losses[i + 1] == loss);
                assert forall|j: int| 0 <= j < i + 1 implies !(#[trigger] losses[j]).finite() by {
                    if j > 0 {
                        assert(losses[j] == rest[j - 1]);
                    }
                }
            },
            None => {
                assert forall|j: int| 0 <= j < losses.len() implies !(
                #[trigger] losses[j]).finite() by {
                    if j > 0 {
                        assert(losses[j] == rest[j - 1]);
                    }
                }
            },
        }
    } else if losses.len() > 0 {
        assert(losses[0] == run::first_finite(losses)->0);
    }
}

/// The last finite loss comes after every other one, and there is none only where
/// no loss is finite.
pub proof fn law_last_finite_loss(losses: Seq<Real32>)
    ensures
        match run::last_finite(losses) {
            Some(loss) => exists|i: int|
                0 <= i < losses.len() && #[trigger] losses[i] == loss && loss.finite() && forall|
                    j: int,
                | i < j < losses.len() ==> !(#[trigger] losses[j]).finite(),
            None => forall|j: int| 0 <= j < losses.len() ==> !(#[trigger] losses[j]).finite(),
        },
    decreases losses.len(),
{
    if losses.len() > 0 && !losses.last().finite() {
        let front = losses.drop_last();
        law_last_finite_loss(front);
        match run::last_finite(front) {
            Some(loss) => {
                let i = choose|i: int|
                    0 <= i < front.len() && #[trigger] front[i] == loss && loss.finite() && forall|
                        j: int,
                    | i < j < front.len() ==> !(#[trigger] front[j]).finite();
                assert(losses[i] == loss);
                assert forall|j: int| i < j < losses.len() implies !(
                #[trigger] losses[j]).finite() by {
                    if j < front.len() {
                        assert(losses[j] == front[j]);
                    }
                }
            },
            None => {
                assert forall|j: int| 0 <= j < losses.len() implies !(
                #[trigger] losses[j]).finite() by {
                    if j < front.len() {
                        assert(losses[j] == front[j]);
                    }
                }
            },
        }
    } else if losses.len() > 0 {
        assert(losses[losses.len() - 1] == run::last_finite(losses)->0);
    }
}

// ---------------------------------------------------------------------------
// Settings
// ---------------------------------------------------------------------------

/// Whether a number lies from zero to one. (One has the bits `0x3f80_0000`.)
pub open spec fn fraction(x: Real32) -> bool {
    0 <= x.place() <= 0x3f80_0000
}

/// Whether a number is above the smallest step from one. (It has the bits
/// `0x3400_0000`.)
pub open spec fn noticeable(x: Real32) -> bool {
    0x3400_0000 < x.place() <= 0x7f80_0000
}

/// Settings are refused exactly where a number is out of its range or two
/// settings exclude each other. A number that is not one passes where only a sign
/// is asked for.
pub proof fn law_accepted_settings(args: FineTuneArgs)
    ensures
        config::first_problem(args) is None <==> ({
            let classes = args.ordinal_loss || args.ordinal_softmax_loss;
            &&& fraction(args.ctc_weight)
            &&& fraction(args.feature_mixup_alpha)
            &&& 0 <= args.score_balance_beta.place() < 0x3f80_0000
            &&& args.balanced_mse_noise_sigma.place() > 0 || args.balanced_mse_noise_sigma.nan()
            &&& args.rank_similarity_tau.place() > 0 || args.rank_similarity_tau.nan()
            &&& args.pairwise_ranking_margin.place() > 0 || args.pairwise_ranking_margin.nan()
            &&& args.triplet_ranking_margin.place() > 0 || args.triplet_ranking_margin.nan()
            &&& args.rank_regularization_weight.place() >= 0
                || args.rank_regularization_weight.nan()
            &&& args.pairwise_ranking_weight.place() >= 0 || args.pairwise_ranking_weight.nan()
            &&& args.triplet_ranking_weight.place() >= 0 || args.triplet_ranking_weight.nan()
            &&& !(args.ordinal_loss && args.ordinal_softmax_loss)
            &&& !(classes && args.balanced_mse)
            &&& !(args.score_balanced_loss && (classes || args.balanced_mse))
            &&& !(noticeable(args.focal_gamma) && (classes || args.balanced_mse))
            &&& !(args.weighted_loss && (args.balanced_mse || args.score_balanced_loss))
            &&& !(noticeable(args.feature_mixup_alpha) && (classes || args.balanced_mse))
        }),
{
}

/// What is wrong with settings, in the order in which it is looked for.
pub open spec fn problems(args: FineTuneArgs) -> Seq<(bool, Seq<char>)> {
    let focal = noticeable(args.focal_gamma);
    let o = args.ordinal_loss;
    let s = args.ordinal_softmax_loss;
    let m = args.balanced_mse;
    let b = args.score_balanced_loss;
    seq![
        (!fraction(args.ctc_weight), "ctc_weight must be within 0.0..=1.0"@),
        (o && s, "ordinal_loss and ordinal_softmax_loss are mutually exclusive"@),
        (o && m, "ordinal_loss and balanced_mse are mutually exclusive"@),
        (s && m, "ordinal_softmax_loss and balanced_mse are mutually exclusive"@),
        (b && m, "score_balanced_loss and balanced_mse are mutually exclusive"@),
        (b && o, "score_balanced_loss and ordinal_loss are mutually exclusive"@),
        (b && s, "score_balanced_loss and ordinal_softmax_loss are mutually exclusive"@),
        (o && focal, "focal_gamma is not supported with ordinal_loss"@),
        (s && focal, "focal_gamma is not supported with ordinal_softmax_loss"@),
        (m && focal, "focal_gamma is not supported with balanced_mse"@),
        (m && args.weighted_loss, "weighted_loss is not supported with balanced_mse"@),
        (b && args.weighted_loss, "weighted_loss is not supported with score_balanced_loss"@),
        (
            !args.balanced_mse_noise_sigma.nan() && args.balanced_mse_noise_sigma.place() <= 0,
            "balanced_mse_noise_sigma must be > 0"@,
        ),
        (
            !(0 <= args.score_balance_beta.place() < 0x3f80_0000),
            "score_balance_beta must be within 0.0..1.0"@,
        ),
        (!fraction(args.feature_mixup_alpha), "feature_mixup_alpha must be within 0.0..=1.0"@),
        (
            noticeable(args.feature_mixup_alpha) && (o || s || m),
            "feature_mixup_alpha is only supported with regression-style scoring losses"@,
        ),
        (
            !args.rank_regularization_weight.nan() && args.rank_regularization_weight.place() < 0,
            "rank_regularization_weight must be >= 0"@,
        ),
        (
            !args.rank_similarity_tau.nan() && args.rank_similarity_tau.place() <= 0,
            "rank_similarity_tau must be > 0"@,
        ),
        (
            !args.pairwise_ranking_weight.nan() && args.pairwise_ranking_weight.place() < 0,
            "pairwise_ranking_weight must be >= 0"@,
        ),
        (
            !args.triplet_ranking_weight.nan() && args.triplet_ranking_weight.place() < 0,
            "triplet_ranking_weight must be >= 0"@,
        ),
        (
            !args.pairwise_ranking_margin.nan() && args.pairwise_ranking_margin.place() <= 0,
            "pairwise_ranking_margin must be > 0"@,
        ),
        (
            !args.triplet_ranking_margin.nan() && args.triplet_ranking_margin.place() <= 0,
            "triplet_ranking_margin must be > 0"@,
        ),
    ]
}

/// The problem that is reported is the first of those that hold.
pub proof fn law_first_problem_is_reported(args: FineTuneArgs, k: int)
    requires
        0 <= k < problems(args).len(),
        problems(args)[k].0,
        forall|j: int| 0 <= j < k ==> !(#[trigger] problems(args)[j]).0,
    ensures
        config::first_problem(args) == Some(problems(args)[k].1),
{
    let p = problems(args);
    assert(p.len() == 22);
    if k > 0 {
        assert(!p[0].0);
    }
    if k > 1 {
        assert(!p[1].0);
    }
    if k > 2 {
        assert(!p[2].0);
    }
    if k > 3 {
        assert(!p[3].0);
    }
    if k > 4 {
        assert(!p[4].0);
    }
    if k > 5 {
        assert(!p[5].0);
    }
    if k > 6 {
        assert(!p[6].0);
    }
    if k > 7 {
        assert(!p[7].0);
    }
    if k > 8 {
        assert(!p[8].0);
    }
    if k > 9 {
        assert(!p[9].0);
    }
    if k > 10 {
        assert(!p[10].0);
    }
    if k > 11 {
        assert(!p[11].0);
    }
    if k > 12 {
        assert(!p[12].0);
    }
    if k > 13 {
        assert(!p[13].0);
    }
    if k > 14 {
        assert(!p[14].0);
    }
    if k > 15 {
        assert(!p[15].0);
    }
    if k > 16 {
        assert(!p[16].0);
    }
    if k > 17 {
        assert(!p[17].0);
    }
    if k > 18 {
        assert(!p[18].0);
    }
    if k > 19 {
        assert(!p[19].0);
    }
    if k > 20 {
        assert(!p[20].0);
    }
}

/// The scores' class boundaries rise, and each class has its centre between the
/// boundaries round it.
pub proof fn law_class_centres_lie_between_boundaries(k: int)
    requires
        0 <= k < 4,
    ensures
        config::ordinal_boundaries().len() == 4,
        config::ordinal_bin_centers().len() == 5,
        config::ordinal_bin_centers()[k].less(config::ordinal_boundaries()[k]),
        config::ordinal_boundaries()[k].less(config::ordinal_bin_centers()[k + 1]),
{
}

/// The shape of a head: one output, or five with the softmax loss; the width asked
/// for, or 256.
pub proof fn law_shape_of_a_head(args: FineTuneArgs, backbone_dim: usize)
    ensures
        args.ordinal_softmax_loss ==> config::output_width(args) == 5,
        !args.ordinal_softmax_loss ==> config::output_width(args) == 1,
        args.scoring_hidden > 0 ==> config::hidden_in_use(args) == args.scoring_hidden,
        args.scoring_hidden == 0 ==> config::hidden_in_use(args) == 256,
        args.teacher_as_input ==> config::input_width(args, backbone_dim) == 1024,
        !args.teacher_as_input ==> config::input_width(args, backbone_dim) == backbone_dim,
{
}

/// A saved head has the shape that was saved with it; where none was, it is as its
/// loss and its source ask for.
pub proof fn law_shape_of_a_saved_head(saved: ScoringHeadConfig, backbone_dim: usize)
    ensures
        saved.output_dim > 0 ==> config::saved_output_width(saved) == saved.output_dim,
        saved.output_dim == 0 && saved.ordinal_softmax_loss ==> config::saved_output_width(saved)
            == 5,
        saved.output_dim == 0 && !saved.ordinal_softmax_loss ==> config::saved_output_width(saved)
            == 1,
        saved.scoring_input_dim > 0 ==> config::saved_input_width(saved, backbone_dim)
            == saved.scoring_input_dim,
        saved.scoring_input_dim == 0 && saved.scoring_input_source
            == ScoringInputSource::TeacherCache ==> config::saved_input_width(saved, backbone_dim)
            == 1024,
        saved.scoring_input_dim == 0 && saved.scoring_input_source == ScoringInputSource::Backbone
            ==> config::saved_input_width(saved, backbone_dim) == backbone_dim,
{
}

/// With the teacher's features as input only the scores are trained: the other two
/// losses weigh nothing. Elsewhere both weigh what was asked for.
pub proof fn law_weights_in_effect(args: FineTuneArgs)
    ensures
        args.teacher_as_input ==> config::ctc_weight_in_effect(args) == (Real32 { bits: 0 }),
        args.teacher_as_input ==> config::distillation_in_effect(args) == (Real32 { bits: 0 }),
        !args.teacher_as_input ==> config::ctc_weight_in_effect(args) == args.ctc_weight,
        !args.teacher_as_input ==> config::distillation_in_effect(args)
            == args.distillation_weight,
        config::input_source(args) == ScoringInputSource::TeacherCache <==> args.teacher_as_input,
{
}

/// The loss is named after the first of the settings that is on.
pub proof fn law_name_of_the_loss(args: FineTuneArgs)
    ensures
        args.ordinal_softmax_loss ==> config::loss_mode(args) == "ordinal_softmax"@,
        args.ordinal_loss && !args.ordinal_softmax_loss ==> config::loss_mode(args) == "ordinal"@,
        args.balanced_mse && !args.ordinal_loss && !args.ordinal_softmax_loss ==> config::loss_mode(
            args,
        ) == "balanced_mse"@,
        args.score_balanced_loss && !args.balanced_mse && !args.ordinal_loss
            && !args.ordinal_softmax_loss ==> config::loss_mode(args)
            == "score_balanced_regression"@,
        !args.score_balanced_loss && !args.balanced_mse && !args.ordinal_loss
            && !args.ordinal_softmax_loss ==> config::loss_mode(args) == "regression"@,
{
}

/// Words are weighted by balance where that is asked for, else by how rare their
/// score is where that is, else evenly; a loss is added where its weight is
/// noticeable.
pub proof fn law_weighting(args: FineTuneArgs, weight: Real32)
    ensures
        plan::weighting_of(args) == Weighting::ScoreBalanced <==> args.score_balanced_loss,
        plan::weighting_of(args) == Weighting::InverseFrequency <==> args.weighted_loss
            && !args.score_balanced_loss,
        plan::weighting_of(args) == Weighting::Even <==> !args.weighted_loss
            && !args.score_balanced_loss,
        plan::counts(weight) <==> noticeable(weight),
{
}

/// The base of a run is named by its checkpoint, where it starts from one.
pub proof fn law_name_of_the_base(args: FineTuneArgs)
    ensures
        args.fresh_init ==> config::base_label(args) == "fresh_init ("@ + args.feature_mode.name()
            + ")"@,
        !args.fresh_init ==> (args.checkpoint matches Some(path) ==> config::base_label(args)
            == path@),
        !args.fresh_init && args.checkpoint is None ==> config::base_label(args)
            == "<missing checkpoint>"@,
{
}

/// Each setting that the teacher's features override is named, and no other.
pub proof fn law_overrides_are_named(args: FineTuneArgs)
    ensures
        ({
            let lines = plan::overrides(args);
            let weight = "  Teacher-input mode forces ctc_weight=0.0"@;
            let frozen = "  Teacher-input mode forces freeze_backbone=true"@;
            let matching = "  Teacher-input mode disables feature-matching distillation loss"@;
            let rest = lines.drop_first();
            &&& lines.len() > 0
            &&& args.fresh_init ==> lines[0]
                == "  Base model: freshly initialized but BYPASSED (teacher features used instead)"@
            &&& !args.fresh_init ==> lines[0]
                == "  Base model: loaded but BYPASSED (teacher features used instead)"@
            &&& noticeable(args.ctc_weight) ==> rest.len() > 0 && rest[0] == weight
            &&& noticeable(args.distillation_weight) ==> rest.len() > 0 && rest.last() == matching
            &&& !args.freeze_backbone ==> rest.contains(frozen)
            &&& rest.len() == (if noticeable(args.ctc_weight) {
                1int
            } else {
                0
            }) + (if !args.freeze_backbone {
                1int
            } else {
                0
            }) + (if noticeable(args.distillation_weight) {
                1int
            } else {
                0
            })
        }),
{
    let lines = plan::overrides(args);
    let rest = lines.drop_first();
    let frozen = "  Teacher-input mode forces freeze_backbone=true"@;
    if !args.freeze_backbone {
        if noticeable(args.ctc_weight) {
            assert(rest[1] == frozen);
        } else {
            assert(rest[0] == frozen);
        }
    }
}

// ---------------------------------------------------------------------------
// Heads
// ---------------------------------------------------------------------------

/// Each width is tried in turn: with the pooling layer, and for a head with a
/// single output without it right after.
pub proof fn law_heads_are_tried_in_order(widths: Seq<usize>, output: usize, i: int)
    requires
        0 <= i < widths.len(),
    ensures
        ({
            let tried = head::attempts(widths, output);
            let present = HeadAttempt { legacy: false, hidden: widths[i], output };
            let older = HeadAttempt { legacy: true, hidden: widths[i], output };
            &&& output == 1 ==> tried.len() == 2 * widths.len() && tried[2 * i] == present
                && tried[2 * i + 1] == older
            &&& output != 1 ==> tried.len() == widths.len() && tried[i] == present
        }),
    decreases widths.len(),
{
    let front = widths.drop_last();
    if front.len() > 0 {
        law_heads_are_tried_in_order(
            front,
            output,
            if i < front.len() {
                i
            } else {
                0
            },
        );
    } else {
        assert(head::attempts(front, output) =~= seq![]);
    }
}

/// The failures are listed in order, with a semicolon between each two.
pub proof fn law_failures_are_listed(a: Seq<Seq<char>>, b: Seq<Seq<char>>, x: Seq<char>)
    requires
        a.len() > 0,
        b.len() > 0,
    ensures
        head::listed(seq![x]) == x,
        head::listed(a + b) == head::listed(a) + "; "@ + head::listed(b),
    decreases b.len(),
{
    if b.len() == 1 {
        assert((a + b).drop_last() =~= a);
        assert((a + b).last() == b[0]);
    } else {
        law_failures_are_listed(a, b.drop_last(), x);
        assert((a + b).drop_last() =~= a + b.drop_last());
        assert(head::listed(a + b) =~= head::listed(a) + "; "@ + head::listed(b));
    }
}

} // verus!
