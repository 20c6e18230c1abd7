//! What a fine-tuning run does, by its arguments: where the base model comes
//! from, how words are weighted, which losses are added up, and whether a holdout
//! set is evaluated.

use vstd::prelude::*;

use super::config;
use super::config::FineTuneArgs;
use crate::ieee::{Real32, EPSILON_32};
use crate::text;

verus! {

/// Whether a weight is large enough to matter.
pub open spec fn counts(weight: Real32) -> bool {
    config::epsilon32().less(weight)
}

/// Whether a weight is large enough to matter.
pub fn weight_counts(weight: Real32) -> (r: bool)
    ensures
        r == counts(weight),
{
    Real32::new(EPSILON_32).lt(weight)
}

/// How the words of a run are weighted.
#[derive(Debug, Clone, Copy, PartialEq, Eq, Structural)]
pub enum Weighting {
    /// All alike.
    Even,
    /// By the effective number of words with their score.
    ScoreBalanced,
    /// By the inverse frequency of their score.
    InverseFrequency,
}

pub open spec fn weighting_of(args: FineTuneArgs) -> Weighting {
    if args.score_balanced_loss {
        Weighting::ScoreBalanced
    } else if args.weighted_loss {
        Weighting::InverseFrequency
    } else {
        Weighting::Even
    }
}

/// How the words of a run are weighted.
pub fn weighting(args: &FineTuneArgs) -> (r: Weighting)
    ensures
        r == weighting_of(*args),
{
    if args.score_balanced_loss {
        Weighting::ScoreBalanced
    } else if args.weighted_loss {
        Weighting::InverseFrequency
    } else {
        Weighting::Even
    }
}

/// The losses that join the scoring loss and the CTC loss.
#[derive(Debug, Clone, Copy, PartialEq, Eq, Structural)]
pub struct AddedLosses {
    pub rank: bool,
    pub pairwise: bool,
    pub triplet: bool,
}

/// The losses that are added, each where its weight matters.
pub fn added_losses(args: &FineTuneArgs) -> (r: AddedLosses)
    ensures
        r.rank == counts(args.rank_regularization_weight),
        r.pairwise == counts(args.pairwise_ranking_weight),
        r.triplet == counts(args.triplet_ranking_weight),
{
    AddedLosses {
        rank: weight_counts(args.rank_regularization_weight),
        pairwise: weight_counts(args.pairwise_ranking_weight),
        triplet: weight_counts(args.triplet_ranking_weight),
    }
}

/// The checkpoint that the base model is loaded from; `None` where it starts
/// afresh.
pub fn base_checkpoint(args: &FineTuneArgs) -> (r: Option<&str>)
    ensures
        match r {
            Some(path) => !args.fresh_init && args.checkpoint is Some && path@
                == args.checkpoint->0@,
            None => args.fresh_init || args.checkpoint is None,
        },
{
    if args.fresh_init {
        return None;
    }
    match &args.checkpoint {
        Some(path) => Some(path.as_str()),
        None => None,
    }
}

/// What becomes of the holdout set.
#[derive(Debug, Clone, Copy, PartialEq, Eq, Structural)]
pub enum HoldoutPlan {
    /// There is none.
    Absent,
    /// It is given, but no interval to evaluate it at.
    Ignored,
    /// It is evaluated, by the teacher's features or the backbone's.
    Evaluate { by_teacher: bool },
}

/// What becomes of the holdout set, given whether teacher features are at hand.
pub fn holdout_plan(args: &FineTuneArgs, has_teacher: bool) -> (r: HoldoutPlan)
    ensures
        r == if args.holdout is None {
            HoldoutPlan::Absent
        } else if args.eval_interval == 0 {
            HoldoutPlan::Ignored
        } else {
            HoldoutPlan::Evaluate { by_teacher: has_teacher && args.teacher_as_input }
        },
{
    match &args.holdout {
        None => HoldoutPlan::Absent,
        Some(_) => if args.eval_interval == 0 {
            HoldoutPlan::Ignored
        } else {
            HoldoutPlan::Evaluate { by_teacher: has_teacher && args.teacher_as_input }
        },
    }
}

/// `lines` and, where `holds`, `line` behind them.
pub open spec fn with_line(lines: Seq<Seq<char>>, holds: bool, line: Seq<char>) -> Seq<
    Seq<char>,
> {
    if holds {
        lines.push(line)
    } else {
        lines
    }
}

/// What teacher features as input override, line by line.
pub open spec fn overrides(args: FineTuneArgs) -> Seq<Seq<char>> {
    let bypassed = seq![
        if args.fresh_init {
            "  Base model: freshly initialized but BYPASSED (teacher features used instead)"@
        } else {
            "  Base model: loaded but BYPASSED (teacher features used instead)"@
        },
    ];
    let weight = with_line(
        bypassed,
        counts(args.ctc_weight),
        "  Teacher-input mode forces ctc_weight=0.0"@,
    );
    let frozen = with_line(
        weight,
        !args.freeze_backbone,
        "  Teacher-input mode forces freeze_backbone=true"@,
    );
    with_line(
        frozen,
        counts(args.distillation_weight),
        "  Teacher-input mode disables feature-matching distillation loss"@,
    )
}

fn push_line(lines: &mut Vec<String>, holds: bool, line: &str)
    ensures
        text::strings(final(lines)@) == with_line(text::strings(old(lines)@), holds, line@),
{
    if holds {
        let ghost before = lines@;
        lines.push(line.to_owned());
        assert(text::strings(lines@) =~= text::strings(before).push(line@));
    }
}

/// What teacher features as input override, for logs; `None` where the backbone's
/// features are the input.
pub fn teacher_overrides(args: &FineTuneArgs) -> (r: Option<Vec<String>>)
    ensures
        match r {
            Some(lines) => args.teacher_as_input && text::strings(lines@) == overrides(*args),
            None => !args.teacher_as_input,
        },
{
    if !args.teacher_as_input {
        return None;
    }
    let mut lines: Vec<String> = Vec::new();
    if args.fresh_init {
        lines.push(
            "  Base model: freshly initialized but BYPASSED (teacher features used instead)".to_owned(),
        );
    } else {
        lines.push(
            "  Base model: loaded but BYPASSED (teacher features used instead)".to_owned(),
        );
    }
    assert(text::strings(lines@) =~= seq![
        if args.fresh_init {
            "  Base model: freshly initialized but BYPASSED (teacher features used instead)"@
        } else {
            "  Base model: loaded but BYPASSED (teacher features used instead)"@
        },
    ]);
    push_line(
        &mut lines,
        weight_counts(args.ctc_weight),
        "  Teacher-input mode forces ctc_weight=0.0",
    );
    push_line(
        &mut lines,
        !args.freeze_backbone,
        "  Teacher-input mode forces freeze_backbone=true",
    );
    push_line(
        &mut lines,
        weight_counts(args.distillation_weight),
        "  Teacher-input mode disables feature-matching distillation loss",
    );
    Some(lines)
}

/// The arguments that pass validation weight words in one way at most, and
/// weight them evenly under the balanced squared error.
pub proof fn law_valid_args_choose_one_weighting(args: FineTuneArgs)
    requires
        config::first_problem(args) is None,
    ensures
        !(args.score_balanced_loss && args.weighted_loss),
        args.balanced_mse ==> weighting_of(args) == Weighting::Even,
        weighting_of(args) == Weighting::ScoreBalanced ==> !args.ordinal_loss
            && !args.ordinal_softmax_loss,
{
}

/// With teacher features as input, neither the CTC loss nor distillation counts,
/// whatever the arguments say of their weights.
pub proof fn law_teacher_input_leaves_scoring(args: FineTuneArgs)
    requires
        args.teacher_as_input,
    ensures
        !counts(config::ctc_weight_in_effect(args)),
        !counts(config::distillation_in_effect(args)),
        config::input_source(args) == config::ScoringInputSource::TeacherCache,
{
}

} // verus!
