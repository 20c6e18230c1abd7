//! Reports and metric lines of a fine-tuning run.
//!
//! Floating-point values come as text, rounded as they are to be shown; where
//! a decision depends on one, its value comes along.

use vstd::prelude::*;

use super::config;
use super::config::{
    base_checkpoint_label, build_scoring_head_config, effective_freeze_backbone,
    scoring_input_dim_from_config, scoring_input_source_from_args, scoring_loss_mode, FineTuneArgs,
};
use crate::clock;
use crate::clock::utc_minute;
use crate::ieee::Real64;
use crate::markdown;
use crate::markdown::{push_code_field, push_count, push_field, push_truth};
use crate::text;
use crate::text::{decimal_of, signed_decimal_of};

verus! {

/// Bits of 0.30: the correlation from which on a start is worth while.
pub const START_GATE: u64 = 0x3fd3_3333_3333_3333;

/// Bits of 0.40: the correlation that is aimed at.
pub const SUCCESS_GATE: u64 = 0x3fd9_9999_9999_999a;

/// What a correlation comes to.
#[derive(Debug, Clone, Copy, PartialEq, Eq, Structural)]
pub enum Gate {
    FullSuccess,
    Start,
    Fail,
}

pub open spec fn gate_for(rho: Real64) -> Gate {
    if (Real64 { bits: SUCCESS_GATE }).at_most(rho) {
        Gate::FullSuccess
    } else if (Real64 { bits: START_GATE }).at_most(rho) {
        Gate::Start
    } else {
        Gate::Fail
    }
}

/// Which gate a correlation passes.
pub fn gate_of(rho: Real64) -> (r: Gate)
    ensures
        r == gate_for(rho),
{
    if Real64::new(SUCCESS_GATE).le(rho) {
        Gate::FullSuccess
    } else if Real64::new(START_GATE).le(rho) {
        Gate::Start
    } else {
        Gate::Fail
    }
}

/// The numbers of the arguments, as text.
pub struct ArgNumbers {
    pub learning_rate: String,
    /// The CTC weight in effect.
    pub ctc_weight: String,
    pub balanced_mse_noise_sigma: String,
    pub score_balance_beta: String,
    pub rank_regularization_weight: String,
    pub rank_similarity_tau: String,
    pub feature_mixup_alpha: String,
    pub pairwise_ranking_weight: String,
    pub pairwise_ranking_margin: String,
    pub triplet_ranking_weight: String,
    pub triplet_ranking_margin: String,
}

/// The statistics of an epoch, as text.
pub struct EpochRow {
    pub total_loss: String,
    pub ctc_loss: String,
    pub mse_loss: String,
    pub words: usize,
    pub seconds: String,
}

/// An evaluation on the holdout set.
pub struct SnapshotRow {
    pub epoch: usize,
    pub rho: Real64,
    pub rho_text: String,
    pub pcc: String,
    pub ci_low: String,
    pub ci_high: String,
    pub words_scored: usize,
}

pub open spec fn epoch_row(index: nat, row: EpochRow) -> Seq<char> {
    "| "@ + text::decimal(index) + " | "@ + row.total_loss@ + " | "@ + row.ctc_loss@ + " | "@
        + row.mse_loss@ + " | "@ + text::decimal(row.words as nat) + " | "@ + row.seconds@
        + " |\n"@
}

pub open spec fn epoch_rows(rows: Seq<EpochRow>) -> Seq<char>
    decreases rows.len(),
{
    if rows.len() == 0 {
        seq![]
    } else {
        epoch_rows(rows.drop_last()) + epoch_row(rows.len(), rows.last())
    }
}

pub open spec fn snapshot_row(row: SnapshotRow) -> Seq<char> {
    "| "@ + text::decimal(row.epoch as nat) + " | "@ + row.rho_text@ + " | "@ + row.pcc@ + " | ["@
        + row.ci_low@ + ", "@ + row.ci_high@ + "] | "@ + text::decimal(row.words_scored as nat)
        + " |\n"@
}

pub open spec fn snapshot_rows(rows: Seq<SnapshotRow>) -> Seq<char>
    decreases rows.len(),
{
    if rows.len() == 0 {
        seq![]
    } else {
        snapshot_rows(rows.drop_last()) + snapshot_row(rows.last())
    }
}

/// The snapshot with the highest correlation; among equals, the last.
pub open spec fn best_snapshot(rows: Seq<SnapshotRow>) -> int
    decreases rows.len(),
{
    if rows.len() <= 1 {
        0
    } else {
        let before = best_snapshot(rows.drop_last());
        if rows[before].rho.total_place() > rows.last().rho.total_place() {
            before
        } else {
            rows.len() - 1
        }
    }
}

/// No snapshot has a higher correlation than the best one, and none after it
/// has the same.
pub proof fn law_best_snapshot_is_best(rows: Seq<SnapshotRow>, i: int)
    requires
        0 <= i < rows.len(),
    ensures
        0 <= best_snapshot(rows) < rows.len(),
        rows[i].rho.total_place() <= rows[best_snapshot(rows)].rho.total_place(),
        i > best_snapshot(rows) ==> rows[i].rho.total_place() < rows[best_snapshot(
            rows,
        )].rho.total_place(),
    decreases rows.len(),
{
    if rows.len() > 1 {
        law_best_snapshot_is_best(
            rows.drop_last(),
            if i < rows.len() - 1 {
                i
            } else {
                0
            },
        );
    }
}

fn find_best_snapshot(rows: &Vec<SnapshotRow>) -> (r: usize)
    requires
        rows@.len() > 0,
    ensures
        r == best_snapshot(rows@),
        r < rows@.len(),
{
    let n: usize = rows.len();
    let mut best: usize = 0;
    let mut i: usize = 1;
    while i < n
        invariant
            n == rows@.len(),
            1 <= i <= n,
            best < i,
            best == best_snapshot(rows@.take(i as int)),
        decreases n - i,
    {
        let ghost upto = rows@.take(i + 1);
        assert(upto.drop_last() =~= rows@.take(i as int));
        if !rows[best].rho.total_gt(rows[i].rho) {
            best = i;
        }
        i = i + 1;
    }
    assert(rows@.take(n as int) =~= rows@);
    best
}

pub open spec fn gate_text(best: SnapshotRow) -> Seq<char> {
    let at = best.rho_text@ + " at epoch "@ + text::decimal(best.epoch as nat);
    match gate_for(best.rho) {
        Gate::FullSuccess => "**FULL SUCCESS** — best inline holdout ρ = "@ + at
            + " meets the 0.40 full-success gate.\n"@,
        Gate::Start => "**START GATE PASS** — best inline holdout ρ = "@ + at
            + " meets the 0.30 start gate, but remains below the 0.40 full-success gate.\n"@,
        Gate::Fail => "**FAIL** — best inline holdout ρ = "@ + at
            + " remains below the 0.30 start gate.\n"@,
    }
}

/// The part of the report on the inline evaluations.
pub open spec fn evaluation_part(rows: Seq<SnapshotRow>) -> Seq<char> {
    if rows.len() == 0 {
        "\n## Inline Holdout Evaluation\n\nNo inline holdout evaluation was recorded for this run.\n"@
    } else {
        "\n## Inline Holdout Evaluation\n\n"@
            + "| Epoch | Spearman ρ | Pearson PCC | 95% CI (ρ) | Words |\n"@
            + "|---|---|---|---|---|\n"@ + snapshot_rows(rows) + "\n## Gate Snapshot\n\n"@
            + gate_text(rows[best_snapshot(rows)])
    }
}

pub open spec fn next_step(teacher_as_input: bool) -> Seq<char> {
    if teacher_as_input {
        "Run the evaluation with --checkpoint <base> --scoring-head <head> --distillation-features <cache>` against the holdout split for a final audit, but use the inline holdout table above as the primary training artifact for gate review.\n"@
    } else {
        "Run the evaluation with --checkpoint <base> --scoring-head <head>` against the holdout split for a final audit, but use the inline holdout table above as the primary training artifact for gate review.\n"@
    }
}

/// What a report is on, besides the arguments.
pub struct RunSummary {
    pub backend_name: String,
    pub base_params: usize,
    pub head_params: usize,
    pub utterance_count: usize,
    pub total_words: usize,
    pub final_model_path: String,
    pub final_head_path: String,
}

/// The first part of the report: where the run came from.
pub open spec fn origin_part(date: Seq<char>, args: FineTuneArgs, run: RunSummary) -> Seq<char> {
    "# SpeechAligner SO762 Fine-Tuning Report\n\n"@ + markdown::field("Date"@, date)
        + markdown::code_field("Base checkpoint"@, config::base_label(args)) + markdown::code_field(
        "Dataset"@,
        args.dataset@,
    ) + markdown::field("Backend"@, run.backend_name@) + markdown::field(
        "Feature mode"@,
        args.feature_mode.name(),
    ) + markdown::field("Teacher as input"@, markdown::truth(args.teacher_as_input))
        + markdown::field("Scoring input source"@, config::input_source(args).name())
        + markdown::field(
        "Scoring input dim"@,
        text::decimal(config::input_width(args, 512) as nat),
    ) + markdown::field("Base model parameters"@, text::decimal(run.base_params as nat))
        + markdown::field("Scoring head parameters"@, text::decimal(run.head_params as nat))
}

/// The second part of the report: how the run was set up.
pub open spec fn settings_part(args: FineTuneArgs, numbers: ArgNumbers) -> Seq<char> {
    markdown::field("Epochs"@, text::decimal(args.epochs as nat)) + markdown::field(
        "Learning rate"@,
        numbers.learning_rate@,
    ) + markdown::field("Scoring loss mode"@, config::loss_mode(args)) + markdown::field(
        "CTC weight"@,
        numbers.ctc_weight@,
    ) + markdown::field("Weighted loss"@, markdown::truth(args.weighted_loss)) + markdown::field(
        "Balanced MSE"@,
        markdown::truth(args.balanced_mse),
    ) + markdown::field("Balanced MSE noise sigma"@, numbers.balanced_mse_noise_sigma@)
        + markdown::field("Score-balanced loss"@, markdown::truth(args.score_balanced_loss))
        + markdown::field("Score-balance beta"@, numbers.score_balance_beta@) + markdown::field(
        "Ordinal loss"@,
        markdown::truth(args.ordinal_loss),
    ) + markdown::field("Ordinal softmax loss"@, markdown::truth(args.ordinal_softmax_loss))
        + markdown::field("Pooling mode"@, args.pooling_mode.name()) + markdown::field(
        "Freeze backbone"@,
        markdown::truth(args.teacher_as_input || args.freeze_backbone),
    ) + markdown::field("Scoring hidden dim"@, text::decimal(args.scoring_hidden as nat))
}

/// The third part of the report: the regularization of the run.
pub open spec fn regularization_part(args: FineTuneArgs, numbers: ArgNumbers) -> Seq<char> {
    markdown::field("Rank regularization weight"@, numbers.rank_regularization_weight@)
        + markdown::field("Rank similarity tau"@, numbers.rank_similarity_tau@) + markdown::field(
        "Feature mixup alpha"@,
        numbers.feature_mixup_alpha@,
    ) + markdown::field(
        "Feature mixup below"@,
        text::signed_decimal(args.feature_mixup_below as int),
    ) + markdown::field("Pairwise ranking weight"@, numbers.pairwise_ranking_weight@)
        + markdown::field("Pairwise ranking margin"@, numbers.pairwise_ranking_margin@)
        + markdown::field("Triplet ranking weight"@, numbers.triplet_ranking_weight@)
        + markdown::field("Triplet ranking margin"@, numbers.triplet_ranking_margin@)
        + markdown::field("Oversample factor"@, text::decimal(args.oversample_factor as nat))
        + markdown::field(
        "Oversample below"@,
        text::signed_decimal(args.oversample_below as int),
    )
}

/// The fourth part of the report: what the run was on, and what it left.
pub open spec fn outcome_part(run: RunSummary) -> Seq<char> {
    markdown::field("Utterances"@, text::decimal(run.utterance_count as nat)) + markdown::field(
        "Words"@,
        text::decimal(run.total_words as nat),
    ) + markdown::code_field("Final model"@, run.final_model_path@) + markdown::code_field(
        "Final scoring head"@,
        run.final_head_path@,
    )
}

/// The report on a fine-tuning run that ended at `date`.
pub open spec fn report(
    date: Seq<char>,
    args: FineTuneArgs,
    numbers: ArgNumbers,
    run: RunSummary,
    epochs: Seq<EpochRow>,
    snapshots: Seq<SnapshotRow>,
) -> Seq<char> {
    origin_part(date, args, run) + settings_part(args, numbers) + regularization_part(
        args,
        numbers,
    ) + outcome_part(run) + "\n---\n\n## Epoch Metrics\n\n"@
        + "| Epoch | Total Loss | CTC Loss | MSE Loss | Words | Seconds |\n"@
        + "|---|---|---|---|---|---|\n"@ + epoch_rows(epochs) + evaluation_part(snapshots)
        + "\n## Next Step\n\n"@ + next_step(args.teacher_as_input)
}

fn origin_text(date: &str, args: &FineTuneArgs, run: &RunSummary) -> (r: String)
    ensures
        r@ == origin_part(date@, *args, *run),
{
    let mut out = "# SpeechAligner SO762 Fine-Tuning Report\n\n".to_owned();
    push_field(&mut out, "Date", date);
    let base = base_checkpoint_label(args);
    push_code_field(&mut out, "Base checkpoint", base.as_str());
    push_code_field(&mut out, "Dataset", args.dataset.as_str());
    push_field(&mut out, "Backend", run.backend_name.as_str());
    push_field(&mut out, "Feature mode", args.feature_mode.label());
    push_truth(&mut out, "Teacher as input", args.teacher_as_input);
    let source = scoring_input_source_from_args(args);
    push_field(&mut out, "Scoring input source", source.label());
    let head = build_scoring_head_config(args);
    push_count(&mut out, "Scoring input dim", scoring_input_dim_from_config(&head, 512));
    push_count(&mut out, "Base model parameters", run.base_params);
    push_count(&mut out, "Scoring head parameters", run.head_params);
    out
}

fn settings_text(args: &FineTuneArgs, numbers: &ArgNumbers) -> (r: String)
    ensures
        r@ == settings_part(*args, *numbers),
{
    let mut out = String::new();
    push_count(&mut out, "Epochs", args.epochs);
    assert(out@ =~= markdown::field("Epochs"@, text::decimal(args.epochs as nat)));
    push_field(&mut out, "Learning rate", numbers.learning_rate.as_str());
    push_field(&mut out, "Scoring loss mode", scoring_loss_mode(args));
    push_field(&mut out, "CTC weight", numbers.ctc_weight.as_str());
    push_truth(&mut out, "Weighted loss", args.weighted_loss);
    push_truth(&mut out, "Balanced MSE", args.balanced_mse);
    push_field(
        &mut out,
        "Balanced MSE noise sigma",
        numbers.balanced_mse_noise_sigma.as_str(),
    );
    push_truth(&mut out, "Score-balanced loss", args.score_balanced_loss);
    push_field(&mut out, "Score-balance beta", numbers.score_balance_beta.as_str());
    push_truth(&mut out, "Ordinal loss", args.ordinal_loss);
    push_truth(&mut out, "Ordinal softmax loss", args.ordinal_softmax_loss);
    push_field(&mut out, "Pooling mode", args.pooling_mode.label());
    push_truth(&mut out, "Freeze backbone", effective_freeze_backbone(args));
    push_count(&mut out, "Scoring hidden dim", args.scoring_hidden);
    out
}

fn regularization_text(args: &FineTuneArgs, numbers: &ArgNumbers) -> (r: String)
    ensures
        r@ == regularization_part(*args, *numbers),
{
    let mut out = String::new();
    push_field(
        &mut out,
        "Rank regularization weight",
        numbers.rank_regularization_weight.as_str(),
    );
    assert(out@ =~= markdown::field(
        "Rank regularization weight"@,
        numbers.rank_regularization_weight@,
    ));
    push_field(&mut out, "Rank similarity tau", numbers.rank_similarity_tau.as_str());
    push_field(&mut out, "Feature mixup alpha", numbers.feature_mixup_alpha.as_str());
    let mixup_below = signed_decimal_of(args.feature_mixup_below);
    push_field(&mut out, "Feature mixup below", mixup_below.as_str());
    push_field(&mut out, "Pairwise ranking weight", numbers.pairwise_ranking_weight.as_str());
    push_field(&mut out, "Pairwise ranking margin", numbers.pairwise_ranking_margin.as_str());
    push_field(&mut out, "Triplet ranking weight", numbers.triplet_ranking_weight.as_str());
    push_field(&mut out, "Triplet ranking margin", numbers.triplet_ranking_margin.as_str());
    push_count(&mut out, "Oversample factor", args.oversample_factor);
    let oversample_below = signed_decimal_of(args.oversample_below);
    push_field(&mut out, "Oversample below", oversample_below.as_str());
    out
}

fn outcome_text(run: &RunSummary) -> (r: String)
    ensures
        r@ == outcome_part(*run),
{
    let mut out = String::new();
    push_count(&mut out, "Utterances", run.utterance_count);
    assert(out@ =~= markdown::field("Utterances"@, text::decimal(run.utterance_count as nat)));
    push_count(&mut out, "Words", run.total_words);
    push_code_field(&mut out, "Final model", run.final_model_path.as_str());
    push_code_field(&mut out, "Final scoring head", run.final_head_path.as_str());
    out
}

fn push_epoch_rows(out: &mut String, rows: &Vec<EpochRow>)
    ensures
        final(out)@ == old(out)@ + epoch_rows(rows@),
{
    let ghost before = out@;
    let n: usize = rows.len();
    let mut i: usize = 0;
    assert(rows@.take(0) =~= Seq::<EpochRow>::empty());
    assert(out@ =~= before + epoch_rows(rows@.take(0)));
    while i < n
        invariant
            n == rows@.len(),
            i <= n,
            out@ == before + epoch_rows(rows@.take(i as int)),
        decreases n - i,
    {
        let ghost upto = rows@.take(i + 1);
        assert(upto.drop_last() =~= rows@.take(i as int));
        let ghost so_far = out@;
        let row = &rows[i];
        out.append("| ");
        let number = decimal_of((i + 1) as u64);
        out.append(number.as_str());
        out.append(" | ");
        out.append(row.total_loss.as_str());
        out.append(" | ");
        out.append(row.ctc_loss.as_str());
        out.append(" | ");
        out.append(row.mse_loss.as_str());
        out.append(" | ");
        let words = decimal_of(row.words as u64);
        out.append(words.as_str());
        out.append(" | ");
        out.append(row.seconds.as_str());
        out.append(" |\n");
        assert(out@ =~= so_far + epoch_row((i + 1) as nat, rows@[i as int]));
        assert(out@ =~= before + epoch_rows(upto));
        i = i + 1;
    }
    assert(rows@.take(n as int) =~= rows@);
}

fn push_snapshot_rows(out: &mut String, rows: &Vec<SnapshotRow>)
    ensures
        final(out)@ == old(out)@ + snapshot_rows(rows@),
{
    let ghost before = out@;
    let n: usize = rows.len();
    let mut i: usize = 0;
    assert(rows@.take(0) =~= Seq::<SnapshotRow>::empty());
    assert(out@ =~= before + snapshot_rows(rows@.take(0)));
    while i < n
        invariant
            n == rows@.len(),
            i <= n,
            out@ == before + snapshot_rows(rows@.take(i as int)),
        decreases n - i,
    {
        let ghost upto = rows@.take(i + 1);
        assert(upto.drop_last() =~= rows@.take(i as int));
        let ghost so_far = out@;
        let row = &rows[i];
        out.append("| ");
        let epoch = decimal_of(row.epoch as u64);
        out.append(epoch.as_str());
        out.append(" | ");
        out.append(row.rho_text.as_str());
        out.append(" | ");
        out.append(row.pcc.as_str());
        out.append(" | [");
        out.append(row.ci_low.as_str());
        out.append(", ");
        out.append(row.ci_high.as_str());
        out.append("] | ");
        let words = decimal_of(row.words_scored as u64);
        out.append(words.as_str());
        out.append(" |\n");
        assert(out@ =~= so_far + snapshot_row(rows@[i as int]));
        assert(out@ =~= before + snapshot_rows(upto));
        i = i + 1;
    }
    assert(rows@.take(n as int) =~= rows@);
}

fn gate_sentence(best: &SnapshotRow) -> (r: String)
    ensures
        r@ == gate_text(*best),
{
    let epoch = decimal_of(best.epoch as u64);
    let mut at = best.rho_text.clone();
    at.append(" at epoch ");
    at.append(epoch.as_str());
    match gate_of(best.rho) {
        Gate::FullSuccess => {
            let mut out = "**FULL SUCCESS** — best inline holdout ρ = ".to_owned();
            out.append(at.as_str());
            out.append(" meets the 0.40 full-success gate.\n");
            out
        },
        Gate::Start => {
            let mut out = "**START GATE PASS** — best inline holdout ρ = ".to_owned();
            out.append(at.as_str());
            out.append(
                " meets the 0.30 start gate, but remains below the 0.40 full-success gate.\n",
            );
            out
        },
        Gate::Fail => {
            let mut out = "**FAIL** — best inline holdout ρ = ".to_owned();
            out.append(at.as_str());
            out.append(" remains below the 0.30 start gate.\n");
            out
        },
    }
}

fn evaluation_text(rows: &Vec<SnapshotRow>) -> (r: String)
    ensures
        r@ == evaluation_part(rows@),
{
    if rows.len() == 0 {
        return "\n## Inline Holdout Evaluation\n\nNo inline holdout evaluation was recorded for this run.\n".to_owned();
    }
    let mut out = "\n## Inline Holdout Evaluation\n\n".to_owned();
    out.append("| Epoch | Spearman ρ | Pearson PCC | 95% CI (ρ) | Words |\n");
    out.append("|---|---|---|---|---|\n");
    push_snapshot_rows(&mut out, rows);
    out.append("\n## Gate Snapshot\n\n");
    let best: usize = find_best_snapshot(rows);
    let sentence = gate_sentence(&rows[best]);
    out.append(sentence.as_str());
    out
}

/// Writes the report on a fine-tuning run that ended at `date`.
pub fn finetune_report(
    date: &str,
    args: &FineTuneArgs,
    numbers: &ArgNumbers,
    run: &RunSummary,
    epochs: &Vec<EpochRow>,
    snapshots: &Vec<SnapshotRow>,
) -> (r: String)
    ensures
        r@ == report(date@, *args, *numbers, *run, epochs@, snapshots@),
{
    let mut out = origin_text(date, args, run);
    let settings = settings_text(args, numbers);
    out.append(settings.as_str());
    let regularization = regularization_text(args, numbers);
    out.append(regularization.as_str());
    let outcome = outcome_text(run);
    out.append(outcome.as_str());
    out.append("\n---\n\n## Epoch Metrics\n\n");
    out.append("| Epoch | Total Loss | CTC Loss | MSE Loss | Words | Seconds |\n");
    out.append("|---|---|---|---|---|---|\n");
    push_epoch_rows(&mut out, epochs);
    let evaluation = evaluation_text(snapshots);
    out.append(evaluation.as_str());
    out.append("\n## Next Step\n\n");
    if args.teacher_as_input {
        out.append(
            "Run the evaluation with --checkpoint <base> --scoring-head <head> --distillation-features <cache>` against the holdout split for a final audit, but use the inline holdout table above as the primary training artifact for gate review.\n",
        );
    } else {
        out.append(
            "Run the evaluation with --checkpoint <base> --scoring-head <head>` against the holdout split for a final audit, but use the inline holdout table above as the primary training artifact for gate review.\n",
        );
    }
    out
}

/// Writes the report on a fine-tuning run that ends now.
pub fn generate_finetune_report(
    args: &FineTuneArgs,
    numbers: &ArgNumbers,
    run: &RunSummary,
    epochs: &Vec<EpochRow>,
    snapshots: &Vec<SnapshotRow>,
) -> (r: String)
    ensures
        exists|date: Seq<char>|
            clock::names_minute(date) && #[trigger] report(
                date,
                *args,
                *numbers,
                *run,
                epochs@,
                snapshots@,
            ) == r@,
{
    let date = utc_minute();
    finetune_report(date.as_str(), args, numbers, run, epochs, snapshots)
}

// ---------------------------------------------------------------------------
// Metric lines
// ---------------------------------------------------------------------------

/// A batch of a fine-tuning run, for the metrics file.
pub struct BatchMetrics {
    pub epoch: usize,
    pub batch: usize,
    pub total_batches: usize,
    pub batch_utterances: usize,
    pub batch_words: usize,
    pub loss: String,
    pub ctc_loss: String,
    pub mse_loss: String,
    pub samples_per_sec: String,
    pub elapsed_secs: String,
    pub batch_elapsed_secs: String,
}

pub open spec fn batch_json(m: BatchMetrics) -> Seq<char> {
    "{\"event\":\"batch\",\"epoch\":"@ + text::decimal(m.epoch as nat) + ",\"batch\":"@
        + text::decimal(m.batch as nat) + ",\"total_batches\":"@ + text::decimal(
        m.total_batches as nat,
    ) + ",\"batch_utterances\":"@ + text::decimal(m.batch_utterances as nat) + ",\"batch_words\":"@
        + text::decimal(m.batch_words as nat) + ",\"loss\":"@ + m.loss@ + ",\"ctc_loss\":"@
        + m.ctc_loss@ + ",\"mse_loss\":"@ + m.mse_loss@ + ",\"samples_per_sec\":"@
        + m.samples_per_sec@ + ",\"elapsed_secs\":"@ + m.elapsed_secs@
        + ",\"batch_elapsed_secs\":"@ + m.batch_elapsed_secs@ + "}\n"@
}

/// The metric line of a batch.
pub fn batch_line(m: &BatchMetrics) -> (r: String)
    ensures
        r@ == batch_json(*m),
{
    let mut out = "{\"event\":\"batch\",\"epoch\":".to_owned();
    let epoch = decimal_of(m.epoch as u64);
    out.append(epoch.as_str());
    out.append(",\"batch\":");
    let batch = decimal_of(m.batch as u64);
    out.append(batch.as_str());
    out.append(",\"total_batches\":");
    let total = decimal_of(m.total_batches as u64);
    out.append(total.as_str());
    out.append(",\"batch_utterances\":");
    let utterances = decimal_of(m.batch_utterances as u64);
    out.append(utterances.as_str());
    out.append(",\"batch_words\":");
    let words = decimal_of(m.batch_words as u64);
    out.append(words.as_str());
    out.append(",\"loss\":");
    out.append(m.loss.as_str());
    out.append(",\"ctc_loss\":");
    out.append(m.ctc_loss.as_str());
    out.append(",\"mse_loss\":");
    out.append(m.mse_loss.as_str());
    out.append(",\"samples_per_sec\":");
    out.append(m.samples_per_sec.as_str());
    out.append(",\"elapsed_secs\":");
    out.append(m.elapsed_secs.as_str());
    out.append(",\"batch_elapsed_secs\":");
    out.append(m.batch_elapsed_secs.as_str());
    out.append("}\n");
    out
}

/// An epoch of a fine-tuning run, for the metrics file.
pub struct EpochMetrics {
    pub epoch: usize,
    pub total_epochs: usize,
    pub avg_loss: String,
    pub ctc_loss: String,
    pub mse_loss: String,
    pub words: usize,
    pub batches: usize,
    pub utterances: usize,
    pub epoch_secs: String,
    pub throughput: String,
    pub words_per_sec: String,
    pub elapsed_secs: String,
    pub eta_secs: String,
}

pub open spec fn epoch_json(m: EpochMetrics) -> Seq<char> {
    "{\"event\":\"epoch\",\"epoch\":"@ + text::decimal(m.epoch as nat) + ",\"total_epochs\":"@
        + text::decimal(m.total_epochs as nat) + ",\"avg_loss\":"@ + m.avg_loss@
        + ",\"ctc_loss\":"@ + m.ctc_loss@ + ",\"mse_loss\":"@ + m.mse_loss@ + ",\"words\":"@
        + text::decimal(m.words as nat) + ",\"batches\":"@ + text::decimal(m.batches as nat)
        + ",\"utterances\":"@ + text::decimal(m.utterances as nat) + ",\"epoch_secs\":"@
        + m.epoch_secs@ + ",\"throughput\":"@ + m.throughput@ + ",\"words_per_sec\":"@
        + m.words_per_sec@ + ",\"elapsed_secs\":"@ + m.elapsed_secs@ + ",\"eta_secs\":"@
        + m.eta_secs@ + "}\n"@
}

/// The metric line of an epoch.
pub fn epoch_line(m: &EpochMetrics) -> (r: String)
    ensures
        r@ == epoch_json(*m),
{
    let mut out = "{\"event\":\"epoch\",\"epoch\":".to_owned();
    let epoch = decimal_of(m.epoch as u64);
    out.append(epoch.as_str());
    out.append(",\"total_epochs\":");
    let total = decimal_of(m.total_epochs as u64);
    out.append(total.as_str());
    out.append(",\"avg_loss\":");
    out.append(m.avg_loss.as_str());
    out.append(",\"ctc_loss\":");
    out.append(m.ctc_loss.as_str());
    out.append(",\"mse_loss\":");
    out.append(m.mse_loss.as_str());
    out.append(",\"words\":");
    let words = decimal_of(m.words as u64);
    out.append(words.as_str());
    out.append(",\"batches\":");
    let batches = decimal_of(m.batches as u64);
    out.append(batches.as_str());
    out.append(",\"utterances\":");
    let utterances = decimal_of(m.utterances as u64);
    out.append(utterances.as_str());
    out.append(",\"epoch_secs\":");
    out.append(m.epoch_secs.as_str());
    out.append(",\"throughput\":");
    out.append(m.throughput.as_str());
    out.append(",\"words_per_sec\":");
    out.append(m.words_per_sec.as_str());
    out.append(",\"elapsed_secs\":");
    out.append(m.elapsed_secs.as_str());
    out.append(",\"eta_secs\":");
    out.append(m.eta_secs.as_str());
    out.append("}\n");
    out
}

/// An evaluation on the holdout set, for the metrics file.
pub struct EvalMetrics {
    pub epoch: usize,
    pub rho: String,
    pub pcc: String,
    pub ci_low: String,
    pub ci_high: String,
    pub words_scored: usize,
    pub elapsed_secs: String,
}

pub open spec fn eval_json(m: EvalMetrics) -> Seq<char> {
    "{\"event\":\"eval\",\"epoch\":"@ + text::decimal(m.epoch as nat) + ",\"rho\":"@ + m.rho@
        + ",\"pcc\":"@ + m.pcc@ + ",\"ci_lo\":"@ + m.ci_low@ + ",\"ci_hi\":"@ + m.ci_high@
        + ",\"words_scored\":"@ + text::decimal(m.words_scored as nat) + ",\"elapsed_secs\":"@
        + m.elapsed_secs@ + "}\n"@
}

/// The metric line of an evaluation.
pub fn eval_line(m: &EvalMetrics) -> (r: String)
    ensures
        r@ == eval_json(*m),
{
    let mut out = "{\"event\":\"eval\",\"epoch\":".to_owned();
    let epoch = decimal_of(m.epoch as u64);
    out.append(epoch.as_str());
    out.append(",\"rho\":");
    out.append(m.rho.as_str());
    out.append(",\"pcc\":");
    out.append(m.pcc.as_str());
    out.append(",\"ci_lo\":");
    out.append(m.ci_low.as_str());
    out.append(",\"ci_hi\":");
    out.append(m.ci_high.as_str());
    out.append(",\"words_scored\":");
    let words = decimal_of(m.words_scored as u64);
    out.append(words.as_str());
    out.append(",\"elapsed_secs\":");
    out.append(m.elapsed_secs.as_str());
    out.append("}\n");
    out
}

pub open spec fn complete_json(
    epochs: nat,
    first: Seq<char>,
    last: Seq<char>,
    reduction: Seq<char>,
    total: Seq<char>,
) -> Seq<char> {
    "{\"event\":\"complete\",\"epochs\":"@ + text::decimal(epochs) + ",\"first_loss\":"@ + first
        + ",\"last_loss\":"@ + last + ",\"reduction_pct\":"@ + reduction + ",\"total_secs\":"@
        + total + "}\n"@
}

/// The metric line of the end of a run.
pub fn complete_line(
    epochs: usize,
    first_loss: &str,
    last_loss: &str,
    reduction_pct: &str,
    total_secs: &str,
) -> (r: String)
    ensures
        r@ == complete_json(
            epochs as nat,
            first_loss@,
            last_loss@,
            reduction_pct@,
            total_secs@,
        ),
{
    let mut out = "{\"event\":\"complete\",\"epochs\":".to_owned();
    let count = decimal_of(epochs as u64);
    out.append(count.as_str());
    out.append(",\"first_loss\":");
    out.append(first_loss);
    out.append(",\"last_loss\":");
    out.append(last_loss);
    out.append(",\"reduction_pct\":");
    out.append(reduction_pct);
    out.append(",\"total_secs\":");
    out.append(total_secs);
    out.append("}\n");
    out
}

} // verus!
