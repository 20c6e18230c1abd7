//! Reports and metric lines: what they tell, and where.

use vstd::prelude::*;

use crate::evaluate::report as evaluation;
use crate::evaluate::report::{EvaluationMetric, EvaluationSummary};
use crate::finetune::config::FineTuneArgs;
use crate::finetune::report;
use crate::finetune::report::{
    ArgNumbers, BatchMetrics, EpochMetrics, EpochRow, EvalMetrics, Gate, RunSummary, SnapshotRow,
};
use crate::precompute::PrecomputedManifest;
use crate::train::{
    PrecomputedRun, TrainBatchMetrics, TrainEpochMetrics, TrainPrecomputedArgs, TrainRealArgs,
};
use crate::{markdown, text, train};

verus! {

/// Whether a text holds another, somewhere.
#[verifier::opaque]
pub open spec fn holds(whole: Seq<char>, part: Seq<char>) -> bool {
    exists|a: Seq<char>, b: Seq<char>| whole == #[trigger] (a + part + b)
}

proof fn lemma_holds_more(x: Seq<char>, y: Seq<char>, part: Seq<char>)
    requires
        holds(x, part) || holds(y, part),
    ensures
        holds(x + y, part),
{
    reveal(holds);
    if holds(x, part) {
        let (a, b) = choose|a: Seq<char>, b: Seq<char>| x == #[trigger] (a + part + b);
        assert(x + y =~= a + part + (b + y));
    } else {
        let (a, b) = choose|a: Seq<char>, b: Seq<char>| y == #[trigger] (a + part + b);
        assert(x + y =~= (x + a) + part + b);
    }
}

/// What holds a text still holds it with more before it or behind it.
proof fn lemma_part_told(part: Seq<char>)
    ensures
        holds(part, part),
        forall|x: Seq<char>, y: Seq<char>|
            holds(x, part) || holds(y, part) ==> #[trigger] holds(x + y, part),
{
    assert(holds(part, part)) by {
        reveal(holds);
        assert(part =~= Seq::<char>::empty() + part + Seq::<char>::empty());
    }
    assert forall|x: Seq<char>, y: Seq<char>|
        holds(x, part) || holds(y, part) implies #[trigger] holds(x + y, part) by {
        lemma_holds_more(x, y, part);
    }
}

proof fn lemma_told(name: Seq<char>, value: Seq<char>)
    ensures
        holds(name + value, name + value),
        forall|x: Seq<char>| holds(#[trigger] (x + name + value), name + value),
        forall|x: Seq<char>, y: Seq<char>|
            holds(x, name + value) || holds(y, name + value) ==> #[trigger] holds(
                x + y,
                name + value,
            ),
{
    let part = name + value;
    lemma_part_told(part);
    assert forall|x: Seq<char>| holds(#[trigger] (x + name + value), part) by {
        assert(x + name + value =~= x + part);
        lemma_holds_more(x, part, part);
    }
}

// ---------------------------------------------------------------------------
// Metric lines
// ---------------------------------------------------------------------------

/// Every number of a training batch stands under its own name.
pub proof fn law_training_batch_line(m: TrainBatchMetrics)
    ensures
        ({
            let line = train::batch_json(m);
            &&& holds(line, "{\"event\":\"batch\",\"epoch\":"@ + text::decimal(m.epoch as nat))
            &&& holds(line, ",\"batch\":"@ + text::decimal(m.batch as nat))
            &&& holds(line, ",\"total_batches\":"@ + text::decimal( m.total_batches as nat, ))
            &&& holds(line, ",\"batch_samples\":"@ + text::decimal(m.batch_samples as nat))
            &&& holds(line, ",\"loss\":"@ + m.loss@)
            &&& holds(line, ",\"samples_per_sec\":"@ + m.samples_per_sec@)
            &&& holds(line, ",\"elapsed_secs\":"@ + m.elapsed_secs@)
        }),
{
    lemma_told("{\"event\":\"batch\",\"epoch\":"@, text::decimal(m.epoch as nat));
    lemma_told(",\"batch\":"@, text::decimal(m.batch as nat));
    lemma_told(",\"total_batches\":"@, text::decimal( m.total_batches as nat, ));
    lemma_told(",\"batch_samples\":"@, text::decimal(m.batch_samples as nat));
    lemma_told(",\"loss\":"@, m.loss@);
    lemma_told(",\"samples_per_sec\":"@, m.samples_per_sec@);
    lemma_told(",\"elapsed_secs\":"@, m.elapsed_secs@);
}

/// Every number of a training epoch stands under its own name.
pub proof fn law_training_epoch_line(m: TrainEpochMetrics)
    ensures
        ({
            let line = train::epoch_json(m);
            &&& holds(line, "{\"event\":\"epoch\",\"epoch\":"@ + text::decimal(m.epoch as nat))
            &&& holds(line, ",\"total_epochs\":"@ + text::decimal(m.total_epochs as nat))
            &&& holds(line, ",\"avg_loss\":"@ + m.avg_loss@)
            &&& holds(line, ",\"batches\":"@ + text::decimal(m.batches as nat))
            &&& holds(line, ",\"epoch_secs\":"@ + m.epoch_secs@)
            &&& holds(line, ",\"throughput\":"@ + m.throughput@)
            &&& holds(line, ",\"elapsed_secs\":"@ + m.elapsed_secs@)
            &&& holds(line, ",\"eta_secs\":"@ + m.eta_secs@)
        }),
{
    lemma_told("{\"event\":\"epoch\",\"epoch\":"@, text::decimal(m.epoch as nat));
    lemma_told(",\"total_epochs\":"@, text::decimal(m.total_epochs as nat));
    lemma_told(",\"avg_loss\":"@, m.avg_loss@);
    lemma_told(",\"batches\":"@, text::decimal(m.batches as nat));
    lemma_told(",\"epoch_secs\":"@, m.epoch_secs@);
    lemma_told(",\"throughput\":"@, m.throughput@);
    lemma_told(",\"elapsed_secs\":"@, m.elapsed_secs@);
    lemma_told(",\"eta_secs\":"@, m.eta_secs@);
}

/// Every number of a fine-tuning batch stands under its own name.
pub proof fn law_finetuning_batch_line(m: BatchMetrics)
    ensures
        ({
            let line = report::batch_json(m);
            &&& holds(line, "{\"event\":\"batch\",\"epoch\":"@ + text::decimal(m.epoch as nat))
            &&& holds(line, ",\"batch\":"@ + text::decimal(m.batch as nat))
            &&& holds(line, ",\"total_batches\":"@ + text::decimal( m.total_batches as nat, ))
            &&& holds(line, ",\"batch_utterances\":"@ + text::decimal(m.batch_utterances as nat))
            &&& holds(line, ",\"batch_words\":"@ + text::decimal(m.batch_words as nat))
            &&& holds(line, ",\"loss\":"@ + m.loss@)
            &&& holds(line, ",\"ctc_loss\":"@ + m.ctc_loss@)
            &&& holds(line, ",\"mse_loss\":"@ + m.mse_loss@)
            &&& holds(line, ",\"samples_per_sec\":"@ + m.samples_per_sec@)
            &&& holds(line, ",\"elapsed_secs\":"@ + m.elapsed_secs@)
            &&& holds(line, ",\"batch_elapsed_secs\":"@ + m.batch_elapsed_secs@)
        }),
{
    lemma_told("{\"event\":\"batch\",\"epoch\":"@, text::decimal(m.epoch as nat));
    lemma_told(",\"batch\":"@, text::decimal(m.batch as nat));
    lemma_told(",\"total_batches\":"@, text::decimal( m.total_batches as nat, ));
    lemma_told(",\"batch_utterances\":"@, text::decimal(m.batch_utterances as nat));
    lemma_told(",\"batch_words\":"@, text::decimal(m.batch_words as nat));
    lemma_told(",\"loss\":"@, m.loss@);
    lemma_told(",\"ctc_loss\":"@, m.ctc_loss@);
    lemma_told(",\"mse_loss\":"@, m.mse_loss@);
    lemma_told(",\"samples_per_sec\":"@, m.samples_per_sec@);
    lemma_told(",\"elapsed_secs\":"@, m.elapsed_secs@);
    lemma_told(",\"batch_elapsed_secs\":"@, m.batch_elapsed_secs@);
}

/// Every number of a fine-tuning epoch stands under its own name.
pub proof fn law_finetuning_epoch_line(m: EpochMetrics)
    ensures
        ({
            let line = report::epoch_json(m);
            &&& holds(line, "{\"event\":\"epoch\",\"epoch\":"@ + text::decimal(m.epoch as nat))
            &&& holds(line, ",\"total_epochs\":"@ + text::decimal(m.total_epochs as nat))
            &&& holds(line, ",\"avg_loss\":"@ + m.avg_loss@)
            &&& holds(line, ",\"ctc_loss\":"@ + m.ctc_loss@)
            &&& holds(line, ",\"mse_loss\":"@ + m.mse_loss@)
            &&& holds(line, ",\"words\":"@ + text::decimal(m.words as nat))
            &&& holds(line, ",\"batches\":"@ + text::decimal(m.batches as nat))
            &&& holds(line, ",\"utterances\":"@ + text::decimal(m.utterances as nat))
            &&& holds(line, ",\"epoch_secs\":"@ + m.epoch_secs@)
            &&& holds(line, ",\"throughput\":"@ + m.throughput@)
            &&& holds(line, ",\"words_per_sec\":"@ + m.words_per_sec@)
            &&& holds(line, ",\"elapsed_secs\":"@ + m.elapsed_secs@)
            &&& holds(line, ",\"eta_secs\":"@ + m.eta_secs@)
        }),
{
    lemma_told("{\"event\":\"epoch\",\"epoch\":"@, text::decimal(m.epoch as nat));
    lemma_told(",\"total_epochs\":"@, text::decimal(m.total_epochs as nat));
    lemma_told(",\"avg_loss\":"@, m.avg_loss@);
    lemma_told(",\"ctc_loss\":"@, m.ctc_loss@);
    lemma_told(",\"mse_loss\":"@, m.mse_loss@);
    lemma_told(",\"words\":"@, text::decimal(m.words as nat));
    lemma_told(",\"batches\":"@, text::decimal(m.batches as nat));
    lemma_told(",\"utterances\":"@, text::decimal(m.utterances as nat));
    lemma_told(",\"epoch_secs\":"@, m.epoch_secs@);
    lemma_told(",\"throughput\":"@, m.throughput@);
    lemma_told(",\"words_per_sec\":"@, m.words_per_sec@);
    lemma_told(",\"elapsed_secs\":"@, m.elapsed_secs@);
    lemma_told(",\"eta_secs\":"@, m.eta_secs@);
}

/// Every number of an evaluation stands under its own name.
pub proof fn law_holdout_line(m: EvalMetrics)
    ensures
        ({
            let line = report::eval_json(m);
            &&& holds(line, "{\"event\":\"eval\",\"epoch\":"@ + text::decimal(m.epoch as nat))
            &&& holds(line, ",\"rho\":"@ + m.rho@)
            &&& holds(line, ",\"pcc\":"@ + m.pcc@)
            &&& holds(line, ",\"ci_lo\":"@ + m.ci_low@)
            &&& holds(line, ",\"ci_hi\":"@ + m.ci_high@)
            &&& holds(line, ",\"words_scored\":"@ + text::decimal(m.words_scored as nat))
            &&& holds(line, ",\"elapsed_secs\":"@ + m.elapsed_secs@)
        }),
{
    lemma_told("{\"event\":\"eval\",\"epoch\":"@, text::decimal(m.epoch as nat));
    lemma_told(",\"rho\":"@, m.rho@);
    lemma_told(",\"pcc\":"@, m.pcc@);
    lemma_told(",\"ci_lo\":"@, m.ci_low@);
    lemma_told(",\"ci_hi\":"@, m.ci_high@);
    lemma_told(",\"words_scored\":"@, text::decimal(m.words_scored as nat));
    lemma_told(",\"elapsed_secs\":"@, m.elapsed_secs@);
}

/// Every number of a finished run stands under its own name.
pub proof fn law_complete_line(epochs: nat, first: Seq<char>, last: Seq<char>, reduction: Seq<char>, total: Seq<char>)
    ensures
        ({
            let line = report::complete_json(epochs, first, last, reduction, total);
            &&& holds(line, "{\"event\":\"complete\",\"epochs\":"@ + text::decimal(epochs))
            &&& holds(line, ",\"first_loss\":"@ + first)
            &&& holds(line, ",\"last_loss\":"@ + last)
            &&& holds(line, ",\"reduction_pct\":"@ + reduction)
            &&& holds(line, ",\"total_secs\":"@ + total)
        }),
{
    lemma_told("{\"event\":\"complete\",\"epochs\":"@, text::decimal(epochs));
    lemma_told(",\"first_loss\":"@, first);
    lemma_told(",\"last_loss\":"@, last);
    lemma_told(",\"reduction_pct\":"@, reduction);
    lemma_told(",\"total_secs\":"@, total);
}

/// Losses are listed in order, one to a row, numbered from one.
pub proof fn law_losses_are_listed(rows: Seq<Seq<char>>)
    ensures
        markdown::loss_rows(rows) == Seq::new(
            rows.len(),
            |i: int| "| "@ + text::decimal((i + 1) as nat) + " | "@ + rows[i] + " |\n"@,
        ).flatten(),
    decreases rows.len(),
{
    let shown = Seq::new(
        rows.len(),
        |i: int| "| "@ + text::decimal((i + 1) as nat) + " | "@ + rows[i] + " |\n"@,
    );
    if rows.len() > 0 {
        let front = rows.drop_last();
        law_losses_are_listed(front);
        let before = shown.drop_last();
        let rows = front;
        assert(before =~= Seq::new(
            rows.len(),
            |i: int| "| "@ + text::decimal((i + 1) as nat) + " | "@ + rows[i] + " |\n"@,
        ));
        before.lemma_flatten_push(shown.last());
        assert(before.push(shown.last()) =~= shown);
    } else {
        assert(shown.flatten() =~= seq![]);
    }
}

/// Epochs are listed in order, one to a row, numbered from one.
pub proof fn law_epochs_are_listed(rows: Seq<EpochRow>)
    ensures
        report::epoch_rows(rows) == Seq::new(
            rows.len(),
            |i: int| "| "@ + text::decimal((i + 1) as nat) + " | "@ + rows[i].total_loss@ + " | "@ + rows[i].ctc_loss@ + " | "@ + rows[i].mse_loss@ + " | "@ + text::decimal(rows[i].words as nat) + " | "@ + rows[i].seconds@ + " |\n"@,
        ).flatten(),
    decreases rows.len(),
{
    let shown = Seq::new(
        rows.len(),
        |i: int| "| "@ + text::decimal((i + 1) as nat) + " | "@ + rows[i].total_loss@ + " | "@ + rows[i].ctc_loss@ + " | "@ + rows[i].mse_loss@ + " | "@ + text::decimal(rows[i].words as nat) + " | "@ + rows[i].seconds@ + " |\n"@,
    );
    if rows.len() > 0 {
        let front = rows.drop_last();
        law_epochs_are_listed(front);
        let before = shown.drop_last();
        let rows = front;
        assert(before =~= Seq::new(
            rows.len(),
            |i: int| "| "@ + text::decimal((i + 1) as nat) + " | "@ + rows[i].total_loss@ + " | "@ + rows[i].ctc_loss@ + " | "@ + rows[i].mse_loss@ + " | "@ + text::decimal(rows[i].words as nat) + " | "@ + rows[i].seconds@ + " |\n"@,
        ));
        before.lemma_flatten_push(shown.last());
        assert(before.push(shown.last()) =~= shown);
    } else {
        assert(shown.flatten() =~= seq![]);
    }
}

/// Evaluations are listed in order, one to a row.
pub proof fn law_snapshots_are_listed(rows: Seq<SnapshotRow>)
    ensures
        report::snapshot_rows(rows) == Seq::new(
            rows.len(),
            |i: int| "| "@ + text::decimal(rows[i].epoch as nat) + " | "@ + rows[i].rho_text@ + " | "@ + rows[i].pcc@ + " | ["@ + rows[i].ci_low@ + ", "@ + rows[i].ci_high@ + "] | "@ + text::decimal(rows[i].words_scored as nat) + " |\n"@,
        ).flatten(),
    decreases rows.len(),
{
    let shown = Seq::new(
        rows.len(),
        |i: int| "| "@ + text::decimal(rows[i].epoch as nat) + " | "@ + rows[i].rho_text@ + " | "@ + rows[i].pcc@ + " | ["@ + rows[i].ci_low@ + ", "@ + rows[i].ci_high@ + "] | "@ + text::decimal(rows[i].words_scored as nat) + " |\n"@,
    );
    if rows.len() > 0 {
        let front = rows.drop_last();
        law_snapshots_are_listed(front);
        let before = shown.drop_last();
        let rows = front;
        assert(before =~= Seq::new(
            rows.len(),
            |i: int| "| "@ + text::decimal(rows[i].epoch as nat) + " | "@ + rows[i].rho_text@ + " | "@ + rows[i].pcc@ + " | ["@ + rows[i].ci_low@ + ", "@ + rows[i].ci_high@ + "] | "@ + text::decimal(rows[i].words_scored as nat) + " |\n"@,
        ));
        before.lemma_flatten_push(shown.last());
        assert(before.push(shown.last()) =~= shown);
    } else {
        assert(shown.flatten() =~= seq![]);
    }
}

// ---------------------------------------------------------------------------
// Reports
// ---------------------------------------------------------------------------

/// A line of a report that gives a value under a name.
pub open spec fn line_of(name: Seq<char>, value: Seq<char>) -> Seq<char> {
    "**"@ + name + "**: "@ + value + "\n"@
}

/// How a report says whether something is so.
pub open spec fn yes_or_no(b: bool) -> Seq<char> {
    if b {
        "true"@
    } else {
        "false"@
    }
}

/// A training report gives every setting under its own name, and the losses.
#[verifier::rlimit(40)]
pub proof fn law_training_report_tells(date: Seq<char>, args: TrainRealArgs, learning_rate: Seq<char>, losses: Seq<Seq<char>>, params: nat, num_samples: nat, backend: Seq<char>)
    ensures
        ({
            let whole = train::training_report(date, args, learning_rate, losses, params, num_samples, backend);
            &&& holds(whole, line_of("Backend"@, backend))
            &&& holds(whole, line_of("Parameters"@, text::decimal(params)))
            &&& holds(whole, line_of("Date"@, date))
            &&& holds(whole, line_of("Dataset"@, args.data_dir@))
            &&& holds(whole, line_of("Split"@, args.split@))
            &&& holds(whole, line_of("Samples"@, text::decimal(num_samples)))
            &&& holds(whole, line_of("Epochs"@, text::decimal(args.epochs as nat)))
            &&& holds(whole, line_of("Batch Size"@, text::decimal(args.batch_size as nat)))
            &&& holds(whole, line_of("Learning Rate"@, learning_rate))
            &&& holds(whole, line_of("Checkpoint"@, args.checkpoint_dir@))
            &&& holds(whole, markdown::loss_rows(losses))
        }),
{
    lemma_part_told(line_of("Backend"@, backend));
    lemma_part_told(line_of("Parameters"@, text::decimal(params)));
    lemma_part_told(line_of("Date"@, date));
    lemma_part_told(line_of("Dataset"@, args.data_dir@));
    lemma_part_told(line_of("Split"@, args.split@));
    lemma_part_told(line_of("Samples"@, text::decimal(num_samples)));
    lemma_part_told(line_of("Epochs"@, text::decimal(args.epochs as nat)));
    lemma_part_told(line_of("Batch Size"@, text::decimal(args.batch_size as nat)));
    lemma_part_told(line_of("Learning Rate"@, learning_rate));
    lemma_part_told(line_of("Checkpoint"@, args.checkpoint_dir@));
    lemma_part_told(markdown::loss_rows(losses));
}

/// A report on training from a cache gives every setting under its own name, and the losses.
#[verifier::rlimit(40)]
pub proof fn law_cached_training_report_tells(date: Seq<char>, args: TrainPrecomputedArgs, manifest: PrecomputedManifest, run: PrecomputedRun)
    ensures
        ({
            let whole = train::precomputed_report(date, args, manifest, run);
            &&& holds(whole, line_of("Backend"@, run.backend_name@))
            &&& holds(whole, line_of("Parameters"@, text::decimal(run.params as nat)))
            &&& holds(whole, line_of("Cache Dir"@, args.cache_dir@))
            &&& holds(whole, line_of("Source Data"@, manifest.data_dir@))
            &&& holds(whole, line_of("Split"@, manifest.split@))
            &&& holds(whole, line_of("Duration Cap"@, train::duration_cap_text(run.duration_cap)))
            &&& holds(whole, line_of("Samples"@, text::decimal(run.num_samples as nat)))
            &&& holds(whole, line_of("Total Frames"@, text::decimal(manifest.total_frames as nat)))
            &&& holds(whole, line_of("Feature Dim"@, text::decimal(manifest.feature_dim as nat)))
            &&& holds(whole, line_of("Total OOV"@, text::decimal(manifest.total_oov as nat)))
            &&& holds(whole, line_of("Date"@, date))
            &&& holds(whole, line_of("Epochs"@, text::decimal(args.epochs as nat)))
            &&& holds(whole, line_of("Attention Heads"@, text::decimal(run.attention_heads as nat)))
            &&& holds(whole, line_of("Max Attention Elements"@, text::decimal(args.max_attn_elements as nat)))
            &&& holds(whole, line_of("Max Samples Per Batch"@, text::decimal(args.max_samples_per_batch as nat)))
            &&& holds(whole, line_of("Learning Rate"@, run.learning_rate@))
            &&& holds(whole, line_of("Checkpoint"@, args.checkpoint_dir@))
            &&& holds(whole, markdown::loss_rows(text::strings(run.losses@)))
        }),
{
    lemma_part_told(line_of("Backend"@, run.backend_name@));
    lemma_part_told(line_of("Parameters"@, text::decimal(run.params as nat)));
    lemma_part_told(line_of("Cache Dir"@, args.cache_dir@));
    lemma_part_told(line_of("Source Data"@, manifest.data_dir@));
    lemma_part_told(line_of("Split"@, manifest.split@));
    lemma_part_told(line_of("Duration Cap"@, train::duration_cap_text(run.duration_cap)));
    lemma_part_told(line_of("Samples"@, text::decimal(run.num_samples as nat)));
    lemma_part_told(line_of("Total Frames"@, text::decimal(manifest.total_frames as nat)));
    lemma_part_told(line_of("Feature Dim"@, text::decimal(manifest.feature_dim as nat)));
    lemma_part_told(line_of("Total OOV"@, text::decimal(manifest.total_oov as nat)));
    lemma_part_told(line_of("Date"@, date));
    lemma_part_told(line_of("Epochs"@, text::decimal(args.epochs as nat)));
    lemma_part_told(line_of("Attention Heads"@, text::decimal(run.attention_heads as nat)));
    lemma_part_told(line_of("Max Attention Elements"@, text::decimal(args.max_attn_elements as nat)));
    lemma_part_told(line_of("Max Samples Per Batch"@, text::decimal(args.max_samples_per_batch as nat)));
    lemma_part_told(line_of("Learning Rate"@, run.learning_rate@));
    lemma_part_told(line_of("Checkpoint"@, args.checkpoint_dir@));
    lemma_part_told(markdown::loss_rows(text::strings(run.losses@)));
}

/// A fine-tuning report says where the run came from and what came of it.
#[verifier::rlimit(40)]
pub proof fn law_finetuning_report_tells_origin(date: Seq<char>, args: FineTuneArgs, numbers: ArgNumbers, run: RunSummary, epochs: Seq<EpochRow>, snapshots: Seq<SnapshotRow>)
    ensures
        ({
            let whole = report::report(date, args, numbers, run, epochs, snapshots);
            &&& holds(whole, line_of("Date"@, date))
            &&& holds(whole, line_of("Base checkpoint"@, "`"@ + crate::finetune::config::base_label(args) + "`"@))
            &&& holds(whole, line_of("Dataset"@, "`"@ + args.dataset@ + "`"@))
            &&& holds(whole, line_of("Backend"@, run.backend_name@))
            &&& holds(whole, line_of("Feature mode"@, args.feature_mode.name()))
            &&& holds(whole, line_of("Teacher as input"@, yes_or_no(args.teacher_as_input)))
            &&& holds(whole, line_of("Scoring input source"@, crate::finetune::config::input_source(args).name()))
            &&& holds(whole, line_of("Scoring input dim"@, text::decimal(crate::finetune::config::input_width(args, 512) as nat)))
            &&& holds(whole, line_of("Base model parameters"@, text::decimal(run.base_params as nat)))
            &&& holds(whole, line_of("Scoring head parameters"@, text::decimal(run.head_params as nat)))
            &&& holds(whole, line_of("Utterances"@, text::decimal(run.utterance_count as nat)))
            &&& holds(whole, line_of("Words"@, text::decimal(run.total_words as nat)))
            &&& holds(whole, line_of("Final model"@, "`"@ + run.final_model_path@ + "`"@))
            &&& holds(whole, line_of("Final scoring head"@, "`"@ + run.final_head_path@ + "`"@))
            &&& holds(whole, report::epoch_rows(epochs))
            &&& holds(whole, report::evaluation_part(snapshots))
        }),
{
    lemma_part_told(line_of("Date"@, date));
    lemma_part_told(line_of("Base checkpoint"@, "`"@ + crate::finetune::config::base_label(args) + "`"@));
    lemma_part_told(line_of("Dataset"@, "`"@ + args.dataset@ + "`"@));
    lemma_part_told(line_of("Backend"@, run.backend_name@));
    lemma_part_told(line_of("Feature mode"@, args.feature_mode.name()));
    lemma_part_told(line_of("Teacher as input"@, yes_or_no(args.teacher_as_input)));
    lemma_part_told(line_of("Scoring input source"@, crate::finetune::config::input_source(args).name()));
    lemma_part_told(line_of("Scoring input dim"@, text::decimal(crate::finetune::config::input_width(args, 512) as nat)));
    lemma_part_told(line_of("Base model parameters"@, text::decimal(run.base_params as nat)));
    lemma_part_told(line_of("Scoring head parameters"@, text::decimal(run.head_params as nat)));
    lemma_part_told(line_of("Utterances"@, text::decimal(run.utterance_count as nat)));
    lemma_part_told(line_of("Words"@, text::decimal(run.total_words as nat)));
    lemma_part_told(line_of("Final model"@, "`"@ + run.final_model_path@ + "`"@));
    lemma_part_told(line_of("Final scoring head"@, "`"@ + run.final_head_path@ + "`"@));
    lemma_part_told(report::epoch_rows(epochs));
    lemma_part_told(report::evaluation_part(snapshots));
}

/// A fine-tuning report gives every setting under its own name.
#[verifier::rlimit(40)]
pub proof fn law_finetuning_report_tells_settings(date: Seq<char>, args: FineTuneArgs, numbers: ArgNumbers, run: RunSummary, epochs: Seq<EpochRow>, snapshots: Seq<SnapshotRow>)
    ensures
        ({
            let whole = report::report(date, args, numbers, run, epochs, snapshots);
            &&& holds(whole, line_of("Epochs"@, text::decimal(args.epochs as nat)))
            &&& holds(whole, line_of("Learning rate"@, numbers.learning_rate@))
            &&& holds(whole, line_of("Scoring loss mode"@, crate::finetune::config::loss_mode(args)))
            &&& holds(whole, line_of("CTC weight"@, numbers.ctc_weight@))
            &&& holds(whole, line_of("Weighted loss"@, yes_or_no(args.weighted_loss)))
            &&& holds(whole, line_of("Balanced MSE"@, yes_or_no(args.balanced_mse)))
            &&& holds(whole, line_of("Balanced MSE noise sigma"@, numbers.balanced_mse_noise_sigma@))
            &&& holds(whole, line_of("Score-balanced loss"@, yes_or_no(args.score_balanced_loss)))
            &&& holds(whole, line_of("Score-balance beta"@, numbers.score_balance_beta@))
            &&& holds(whole, line_of("Ordinal loss"@, yes_or_no(args.ordinal_loss)))
            &&& holds(whole, line_of("Ordinal softmax loss"@, yes_or_no(args.ordinal_softmax_loss)))
            &&& holds(whole, line_of("Pooling mode"@, args.pooling_mode.name()))
            &&& holds(whole, line_of("Freeze backbone"@, yes_or_no(args.teacher_as_input || args.freeze_backbone)))
            &&& holds(whole, line_of("Scoring hidden dim"@, text::decimal(args.scoring_hidden as nat)))
            &&& holds(whole, line_of("Rank regularization weight"@, numbers.rank_regularization_weight@))
            &&& holds(whole, line_of("Rank similarity tau"@, numbers.rank_similarity_tau@))
            &&& holds(whole, line_of("Feature mixup alpha"@, numbers.feature_mixup_alpha@))
            &&& holds(whole, line_of("Feature mixup below"@, text::signed_decimal(args.feature_mixup_below as int)))
            &&& holds(whole, line_of("Pairwise ranking weight"@, numbers.pairwise_ranking_weight@))
            &&& holds(whole, line_of("Pairwise ranking margin"@, numbers.pairwise_ranking_margin@))
            &&& holds(whole, line_of("Triplet ranking weight"@, numbers.triplet_ranking_weight@))
            &&& holds(whole, line_of("Triplet ranking margin"@, numbers.triplet_ranking_margin@))
            &&& holds(whole, line_of("Oversample factor"@, text::decimal(args.oversample_factor as nat)))
            &&& holds(whole, line_of("Oversample below"@, text::signed_decimal(args.oversample_below as int)))
        }),
{
    lemma_part_told(line_of("Epochs"@, text::decimal(args.epochs as nat)));
    lemma_part_told(line_of("Learning rate"@, numbers.learning_rate@));
    lemma_part_told(line_of("Scoring loss mode"@, crate::finetune::config::loss_mode(args)));
    lemma_part_told(line_of("CTC weight"@, numbers.ctc_weight@));
    lemma_part_told(line_of("Weighted loss"@, yes_or_no(args.weighted_loss)));
    lemma_part_told(line_of("Balanced MSE"@, yes_or_no(args.balanced_mse)));
    lemma_part_told(line_of("Balanced MSE noise sigma"@, numbers.balanced_mse_noise_sigma@));
    lemma_part_told(line_of("Score-balanced loss"@, yes_or_no(args.score_balanced_loss)));
    lemma_part_told(line_of("Score-balance beta"@, numbers.score_balance_beta@));
    lemma_part_told(line_of("Ordinal loss"@, yes_or_no(args.ordinal_loss)));
    lemma_part_told(line_of("Ordinal softmax loss"@, yes_or_no(args.ordinal_softmax_loss)));
    lemma_part_told(line_of("Pooling mode"@, args.pooling_mode.name()));
    lemma_part_told(line_of("Freeze backbone"@, yes_or_no(args.teacher_as_input || args.freeze_backbone)));
    lemma_part_told(line_of("Scoring hidden dim"@, text::decimal(args.scoring_hidden as nat)));
    lemma_part_told(line_of("Rank regularization weight"@, numbers.rank_regularization_weight@));
    lemma_part_told(line_of("Rank similarity tau"@, numbers.rank_similarity_tau@));
    lemma_part_told(line_of("Feature mixup alpha"@, numbers.feature_mixup_alpha@));
    lemma_part_told(line_of("Feature mixup below"@, text::signed_decimal(args.feature_mixup_below as int)));
    lemma_part_told(line_of("Pairwise ranking weight"@, numbers.pairwise_ranking_weight@));
    lemma_part_told(line_of("Pairwise ranking margin"@, numbers.pairwise_ranking_margin@));
    lemma_part_told(line_of("Triplet ranking weight"@, numbers.triplet_ranking_weight@));
    lemma_part_told(line_of("Triplet ranking margin"@, numbers.triplet_ranking_margin@));
    lemma_part_told(line_of("Oversample factor"@, text::decimal(args.oversample_factor as nat)));
    lemma_part_told(line_of("Oversample below"@, text::signed_decimal(args.oversample_below as int)));
}

/// An evaluation report gives its counts and means under their own names, every method, and the best one.
#[verifier::rlimit(40)]
pub proof fn law_evaluation_report_tells(date: Seq<char>, summary: EvaluationSummary, metrics: Seq<EvaluationMetric>, best: int)
    requires
        evaluation::best_method(metrics) == Some(best),
    ensures
        ({
            let whole = evaluation::evaluation_report(date, summary, metrics);
            &&& holds(whole, line_of("Date"@, date))
            &&& holds(whole, line_of("Checkpoint"@, "`"@ + summary.checkpoint@ + "`"@))
            &&& holds(whole, line_of("Feature mode"@, summary.feature_mode.name()))
            &&& holds(whole, line_of("Dataset"@, "SpeechOcean762 holdout (word-level)"@))
            &&& holds(whole, line_of("Words Scored"@, text::decimal(summary.scored as nat)))
            &&& holds(whole, line_of("Words Skipped"@, text::decimal(summary.skipped as nat)))
            &&& holds(whole, line_of("Human score mean"@, summary.human_mean@))
            &&& holds(whole, line_of("GOP LogProb mean"@, summary.gop_mean@ + " ["@ + summary.gop_min@ + ", "@ + summary.gop_max@ + "]"@))
            &&& holds(whole, evaluation::method_rows(metrics, metrics[best].name@))
            &&& holds(whole, metrics[best].name@)
            &&& holds(whole, evaluation::decision_part(metrics[best]))
        }),
{
    lemma_part_told(line_of("Date"@, date));
    lemma_part_told(line_of("Checkpoint"@, "`"@ + summary.checkpoint@ + "`"@));
    lemma_part_told(line_of("Feature mode"@, summary.feature_mode.name()));
    lemma_part_told(line_of("Dataset"@, "SpeechOcean762 holdout (word-level)"@));
    lemma_part_told(line_of("Words Scored"@, text::decimal(summary.scored as nat)));
    lemma_part_told(line_of("Words Skipped"@, text::decimal(summary.skipped as nat)));
    lemma_part_told(line_of("Human score mean"@, summary.human_mean@));
    lemma_part_told(line_of("GOP LogProb mean"@, summary.gop_mean@ + " ["@ + summary.gop_min@ + ", "@ + summary.gop_max@ + "]"@));
    lemma_part_told(evaluation::method_rows(metrics, metrics[best].name@));
    lemma_part_told(metrics[best].name@);
    lemma_part_told(evaluation::decision_part(metrics[best]));
}
/// The methods are listed in order, one to a row, and the name and the correlation
/// of the best one stand out.
pub proof fn law_methods_are_listed(rows: Seq<EvaluationMetric>, best: Seq<char>)
    ensures
        evaluation::method_rows(rows, best) == Seq::new(
            rows.len(),
            |i: int| method_line(rows[i], rows[i].name@ == best),
        ).flatten(),
    decreases rows.len(),
{
    let shown = Seq::new(rows.len(), |i: int| method_line(rows[i], rows[i].name@ == best));
    if rows.len() > 0 {
        let front = rows.drop_last();
        law_methods_are_listed(front, best);
        let before = shown.drop_last();
        assert(before =~= Seq::new(
            front.len(),
            |i: int| method_line(front[i], front[i].name@ == best),
        ));
        before.lemma_flatten_push(shown.last());
        assert(before.push(shown.last()) =~= shown);
        lemma_method_line(rows.last(), rows.last().name@ == best);
    } else {
        assert(shown.flatten() =~= seq![]);
    }
}

/// The row of a method: its name, the words it scored, its two correlations with
/// the interval of the first, and what it is.
pub open spec fn method_line(m: EvaluationMetric, strong: bool) -> Seq<char> {
    let name = if strong {
        "**"@ + m.name@ + "**"@
    } else {
        m.name@
    };
    let rho = if strong {
        "**"@ + m.rho_text@ + "**"@
    } else {
        m.rho_text@
    };
    "| "@ + name + " | "@ + text::decimal(m.words_scored as nat) + " | "@ + rho + " | "@ + m.pcc@
        + " | ["@ + m.ci_low@ + ", "@ + m.ci_high@ + "] | "@ + m.description@ + " |\n"@
}

proof fn lemma_method_line(m: EvaluationMetric, strong: bool)
    ensures
        evaluation::method_row(m, strong) == method_line(m, strong),
{
    reveal_strlit("");
    let row = evaluation::method_row(m, strong);
    let line = method_line(m, strong);
    let words = text::decimal(m.words_scored as nat);
    let e = evaluation::emphasis(strong);
    let name = e + m.name@ + e;
    let rho = e + m.rho_text@ + e;
    if strong {
        assert(name == "**"@ + m.name@ + "**"@);
        assert(rho == "**"@ + m.rho_text@ + "**"@);
    } else {
        assert(name =~= m.name@);
        assert(rho =~= m.rho_text@);
    }
    assert("| "@ + e + m.name@ + e =~= "| "@ + name);
    let head = "| "@ + name + " | "@ + words + " | "@;
    assert(head + e + m.rho_text@ + e =~= head + rho);
}

/// The judgement in an evaluation report is that of the best method.
pub proof fn law_judgement_of_the_best_method(best: EvaluationMetric)
    ensures
        report::gate_for(best.rho) == Gate::FullSuccess ==> holds(
            evaluation::decision_part(best),
            "**FULL SUCCESS** — ρ = "@ + best.rho_text@,
        ),
        report::gate_for(best.rho) == Gate::Start ==> holds(
            evaluation::decision_part(best),
            "**START GATE PASS** — ρ = "@ + best.rho_text@,
        ),
        report::gate_for(best.rho) == Gate::Fail ==> holds(
            evaluation::decision_part(best),
            "**FAIL** — best ρ = "@ + best.rho_text@,
        ),
{
    lemma_told("**FULL SUCCESS** — ρ = "@, best.rho_text@);
    lemma_told("**START GATE PASS** — ρ = "@, best.rho_text@);
    lemma_told("**FAIL** — best ρ = "@, best.rho_text@);
}

/// A fine-tuning report lists its evaluations and judges the best of them; where
/// there were none it says so.
pub proof fn law_judgement_of_the_best_snapshot(rows: Seq<SnapshotRow>)
    ensures
        rows.len() == 0 ==> report::evaluation_part(rows)
            == "\n## Inline Holdout Evaluation\n\nNo inline holdout evaluation was recorded for this run.\n"@,
        rows.len() > 0 ==> ({
            let best = rows[report::best_snapshot(rows)];
            let part = report::evaluation_part(rows);
            let at = best.rho_text@ + " at epoch "@ + text::decimal(best.epoch as nat);
            &&& holds(part, report::snapshot_rows(rows))
            &&& report::gate_for(best.rho) == Gate::FullSuccess ==> holds(
                part,
                "**FULL SUCCESS** — best inline holdout ρ = "@ + at,
            )
            &&& report::gate_for(best.rho) == Gate::Start ==> holds(
                part,
                "**START GATE PASS** — best inline holdout ρ = "@ + at,
            )
            &&& report::gate_for(best.rho) == Gate::Fail ==> holds(
                part,
                "**FAIL** — best inline holdout ρ = "@ + at,
            )
        }),
{
    if rows.len() > 0 {
        let best = rows[report::best_snapshot(rows)];
        let at = best.rho_text@ + " at epoch "@ + text::decimal(best.epoch as nat);
        lemma_part_told(report::snapshot_rows(rows));
        lemma_told("**FULL SUCCESS** — best inline holdout ρ = "@, at);
        lemma_told("**START GATE PASS** — best inline holdout ρ = "@, at);
        lemma_told("**FAIL** — best inline holdout ρ = "@, at);
    }
}

/// A name is filled up with blanks to a width, and never cut.
pub proof fn law_names_are_filled_up(name: Seq<char>, width: nat, i: int)
    ensures
        name.is_prefix_of(evaluation::filled(name, width)),
        name.len() <= width ==> evaluation::filled(name, width).len() == width,
        name.len() >= width ==> evaluation::filled(name, width) == name,
        name.len() <= i < width ==> evaluation::filled(name, width)[i] == ' ',
{
    if name.len() >= width {
        assert(evaluation::filled(name, width) =~= name);
    }
}

} // verus!
