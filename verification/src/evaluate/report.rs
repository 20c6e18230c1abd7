//! The results of an evaluation and the report on them.
//!
//! Floating-point values come as text, rounded as they are to be shown; where
//! a decision depends on one, its value comes along.

use vstd::prelude::*;

use super::metrics::MIN_WORDS;
use crate::clock;
use crate::clock::utc_minute;
use crate::error::{Error, ErrorView, Result};
use crate::finetune::report;
use crate::finetune::report::{gate_of, Gate};
use crate::ieee::Real64;
use crate::markdown;
use crate::markdown::{push_code_field, push_count, push_field};
use crate::mfcc::FeatureMode;
use crate::text;
use crate::text::decimal_of;

verus! {

/// How well a method agrees with the human scores.
pub struct EvaluationMetric {
    pub name: &'static str,
    pub rho: Real64,
    pub rho_text: String,
    pub pcc: String,
    pub ci_low: String,
    pub ci_high: String,
    pub words_scored: usize,
    pub description: &'static str,
}

/// The method with the highest correlation, among those that scored enough
/// words; among equals, the last.
pub open spec fn best_method(metrics: Seq<EvaluationMetric>) -> Option<int>
    decreases metrics.len(),
{
    if metrics.len() == 0 {
        None
    } else {
        let before = best_method(metrics.drop_last());
        let last = metrics.last();
        if last.words_scored < MIN_WORDS {
            before
        } else {
            match before {
                Some(b) => if last.rho.less(metrics[b].rho) {
                    Some(b)
                } else {
                    Some(metrics.len() - 1)
                },
                None => Some(metrics.len() - 1),
            }
        }
    }
}

pub proof fn lemma_best_method_in_range(metrics: Seq<EvaluationMetric>)
    ensures
        best_method(metrics) matches Some(b) ==> 0 <= b < metrics.len() && metrics[b].words_scored
            >= MIN_WORDS,
        best_method(metrics) is None ==> forall|i: int|
            0 <= i < metrics.len() ==> (#[trigger] metrics[i]).words_scored < MIN_WORDS,
    decreases metrics.len(),
{
    if metrics.len() > 0 {
        lemma_best_method_in_range(metrics.drop_last());
        let front = metrics.drop_last();
        assert forall|i: int| 0 <= i < metrics.len() && best_method(metrics) is None implies (
        #[trigger] metrics[i]).words_scored < MIN_WORDS by {
            if i < front.len() {
                assert(front[i].words_scored < MIN_WORDS);
            }
        }
    }
}

/// Where every correlation is a number, no method that scored enough words is
/// better than the best one, and none after it is as good.
pub proof fn law_best_method_is_best(metrics: Seq<EvaluationMetric>, i: int)
    requires
        0 <= i < metrics.len(),
        metrics[i].words_scored >= MIN_WORDS,
        forall|k: int| 0 <= k < metrics.len() ==> !(#[trigger] metrics[k]).rho.nan(),
    ensures
        best_method(metrics) is Some,
        metrics[i].rho.at_most(metrics[best_method(metrics)->0].rho),
        i > best_method(metrics)->0 ==> metrics[i].rho.less(metrics[best_method(metrics)->0].rho),
    decreases metrics.len(),
{
    let front = metrics.drop_last();
    lemma_best_method_in_range(front);
    assert forall|k: int| 0 <= k < front.len() implies !(#[trigger] front[k]).rho.nan() by {
        assert(front[k] == metrics[k]);
    }
    if i < front.len() {
        law_best_method_is_best(front, i);
    }
}

/// The method with the highest correlation, if any scored enough words.
pub fn find_best_method(metrics: &Vec<EvaluationMetric>) -> (r: Option<usize>)
    ensures
        match r {
            Some(b) => best_method(metrics@) == Some(b as int) && b < metrics@.len(),
            None => best_method(metrics@) is None,
        },
{
    let n: usize = metrics.len();
    let mut best: Option<usize> = None;
    let mut i: usize = 0;
    assert(metrics@.take(0) =~= Seq::<EvaluationMetric>::empty());
    while i < n
        invariant
            n == metrics@.len(),
            i <= n,
            match best {
                Some(b) => best_method(metrics@.take(i as int)) == Some(b as int) && b < i,
                None => best_method(metrics@.take(i as int)) is None,
            },
        decreases n - i,
    {
        let ghost upto = metrics@.take(i + 1);
        assert(upto.drop_last() =~= metrics@.take(i as int));
        assert(upto.last() == metrics@[i as int]);
        if metrics[i].words_scored >= MIN_WORDS {
            match best {
                Some(b) => {
                    assert(upto[b as int] == metrics@[b as int]);
                    if !metrics[i].rho.lt(metrics[b].rho) {
                        best = Some(i);
                    }
                },
                None => {
                    best = Some(i);
                },
            }
        }
        i = i + 1;
    }
    assert(metrics@.take(n as int) =~= metrics@);
    best
}

/// The method with the highest correlation; an error where none scored enough
/// words.
pub fn require_best_method(metrics: &Vec<EvaluationMetric>) -> (r: Result<usize>)
    ensures
        match r {
            Ok(b) => best_method(metrics@) == Some(b as int) && b < metrics@.len(),
            Err(e) => best_method(metrics@) is None && e@ == ErrorView::Process(
                "No evaluation metrics were produced"@,
            ),
        },
{
    match find_best_method(metrics) {
        Some(b) => Ok(b),
        None => Err(Error::process("No evaluation metrics were produced")),
    }
}

/// `name` and as many spaces as fill `width`.
pub open spec fn filled(name: Seq<char>, width: nat) -> Seq<char> {
    name + Seq::new(
        if name.len() < width {
            (width - name.len()) as nat
        } else {
            0
        },
        |i: int| ' ',
    )
}

/// The result line of a method.
pub fn metric_line(metric: &EvaluationMetric) -> (r: String)
    ensures
        r@ == "  "@ + filled(metric.name@, 12) + " ρ="@ + metric.rho_text@ + "  PCC="@ + metric.pcc@
            + "  CI ["@ + metric.ci_low@ + ", "@ + metric.ci_high@ + "]  words="@ + text::decimal(
            metric.words_scored as nat,
        ) + "  ("@ + metric.description@ + ")"@,
{
    let mut name = metric.name.to_owned();
    let width: usize = metric.name.unicode_len();
    let mut have: usize = width;
    assert(name@ =~= metric.name@ + Seq::new(0, |i: int| ' '));
    while have < 12
        invariant
            width == metric.name@.len(),
            width <= have,
            have <= 12 || have == width,
            name@ == metric.name@ + Seq::new((have - width) as nat, |i: int| ' '),
        decreases 12 - have,
    {
        let ghost before = name@;
        name.push(' ');
        have = have + 1;
        assert(name@ =~= metric.name@ + Seq::new((have - width) as nat, |i: int| ' '));
    }
    assert(name@ =~= filled(metric.name@, 12));
    let mut out = "  ".to_owned();
    out.append(name.as_str());
    out.append(" ρ=");
    out.append(metric.rho_text.as_str());
    out.append("  PCC=");
    out.append(metric.pcc.as_str());
    out.append("  CI [");
    out.append(metric.ci_low.as_str());
    out.append(", ");
    out.append(metric.ci_high.as_str());
    out.append("]  words=");
    let words = decimal_of(metric.words_scored as u64);
    out.append(words.as_str());
    out.append("  (");
    out.append(metric.description);
    out.append(")");
    out
}

pub open spec fn outcome(rho: Real64, shown: Seq<char>) -> Seq<char> {
    match report::gate_for(rho) {
        Gate::FullSuccess => "FULL SUCCESS: ρ = "@ + shown
            + " ≥ 0.40 — Path A full success gate met"@,
        Gate::Start => "START GATE PASS: ρ = "@ + shown
            + " ≥ 0.30 — start gate cleared, but 0.40 full-success gate remains unmet"@,
        Gate::Fail => "  GATE FAIL: ρ = "@ + shown + " < 0.30 — start gate not met"@,
    }
}

/// What the best correlation comes to, and the line that says so.
pub fn gate_line(best: &EvaluationMetric) -> (r: (Gate, String))
    ensures
        r.0 == report::gate_for(best.rho),
        r.1@ == outcome(best.rho, best.rho_text@),
{
    let gate = gate_of(best.rho);
    let mut out = match gate {
        Gate::FullSuccess => "FULL SUCCESS: ρ = ".to_owned(),
        Gate::Start => "START GATE PASS: ρ = ".to_owned(),
        Gate::Fail => "  GATE FAIL: ρ = ".to_owned(),
    };
    out.append(best.rho_text.as_str());
    match gate {
        Gate::FullSuccess => {
            out.append(" ≥ 0.40 — Path A full success gate met");
        },
        Gate::Start => {
            out.append(
                " ≥ 0.30 — start gate cleared, but 0.40 full-success gate remains unmet",
            );
        },
        Gate::Fail => {
            out.append(" < 0.30 — start gate not met");
        },
    }
    (gate, out)
}

// ---------------------------------------------------------------------------
// The report
// ---------------------------------------------------------------------------

/// What a report is on, besides the methods.
pub struct EvaluationSummary {
    pub checkpoint: String,
    pub scoring_head: Option<String>,
    pub feature_mode: FeatureMode,
    pub scored: usize,
    pub skipped: usize,
    pub human_mean: String,
    pub gop_mean: String,
    pub gop_min: String,
    pub gop_max: String,
}

pub open spec fn head_part(scoring_head: Option<String>) -> Seq<char> {
    match scoring_head {
        Some(path) => markdown::code_field("Scoring head"@, path@),
        None => seq![],
    }
}

pub open spec fn summary_part(date: Seq<char>, summary: EvaluationSummary) -> Seq<char> {
    "# SpeechAligner Evaluation Report\n\n"@ + markdown::field("Date"@, date)
        + markdown::code_field("Checkpoint"@, summary.checkpoint@) + head_part(summary.scoring_head)
        + markdown::field("Feature mode"@, summary.feature_mode.name()) + markdown::field(
        "Dataset"@,
        "SpeechOcean762 holdout (word-level)"@,
    ) + markdown::field("Words Scored"@, text::decimal(summary.scored as nat)) + markdown::field(
        "Words Skipped"@,
        text::decimal(summary.skipped as nat),
    ) + markdown::field("Human score mean"@, summary.human_mean@) + markdown::field(
        "GOP LogProb mean"@,
        summary.gop_mean@ + " ["@ + summary.gop_min@ + ", "@ + summary.gop_max@ + "]"@,
    )
}

pub open spec fn emphasis(strong: bool) -> Seq<char> {
    if strong {
        "**"@
    } else {
        ""@
    }
}

pub open spec fn method_row(metric: EvaluationMetric, strong: bool) -> Seq<char> {
    "| "@ + emphasis(strong) + metric.name@ + emphasis(strong) + " | "@ + text::decimal(
        metric.words_scored as nat,
    ) + " | "@ + emphasis(strong) + metric.rho_text@ + emphasis(strong) + " | "@ + metric.pcc@
        + " | ["@ + metric.ci_low@ + ", "@ + metric.ci_high@ + "] | "@ + metric.description@
        + " |\n"@
}

/// One row for each method, the one named `best` set off.
pub open spec fn method_rows(metrics: Seq<EvaluationMetric>, best: Seq<char>) -> Seq<char>
    decreases metrics.len(),
{
    if metrics.len() == 0 {
        seq![]
    } else {
        method_rows(metrics.drop_last(), best) + method_row(
            metrics.last(),
            metrics.last().name@ == best,
        )
    }
}

pub open spec fn decision_part(best: EvaluationMetric) -> Seq<char> {
    match report::gate_for(best.rho) {
        Gate::FullSuccess => "**FULL SUCCESS** — ρ = "@ + best.rho_text@
            + " ≥ 0.40. Path A full-success gate met.\n"@,
        Gate::Start => "**START GATE PASS** — ρ = "@ + best.rho_text@
            + " ≥ 0.30, so start gate cleared. Full-success gate 0.40 remains unmet.\n"@,
        Gate::Fail => "**FAIL** — best ρ = "@ + best.rho_text@
            + " < 0.30, so start gate not met.\n"@
            + "\nNext steps:\n1. Validate richer feature paths (for example logmel80 or teacher features)\n2. Fine-tune scoring head on SpeechOcean762 with inline holdout tracking\n3. Re-evaluate before proceeding to large-scale training\n"@,
    }
}

/// The report on an evaluation that ended at `date`.
pub open spec fn evaluation_report(
    date: Seq<char>,
    summary: EvaluationSummary,
    metrics: Seq<EvaluationMetric>,
) -> Seq<char> {
    match best_method(metrics) {
        None => "# SpeechAligner Evaluation Report\n\nNo metrics available.\n"@,
        Some(b) => {
            let best = metrics[b];
            summary_part(date, summary) + "\n---\n\n## Method Comparison\n\n"@
                + "| Method | Words | Spearman ρ | Pearson PCC | 95% CI (ρ) | Description |\n"@
                + "|--------|-------|-----------|------------|------------|-------------|\n"@
                + method_rows(metrics, best.name@) + "\n**Best method**: "@ + best.name@ + " (ρ="@
                + best.rho_text@ + ", PCC="@ + best.pcc@ + ")\n"@ + "\n## Gate Decision\n\n"@
                + decision_part(best)
        },
    }
}

fn summary_text(date: &str, summary: &EvaluationSummary) -> (r: String)
    ensures
        r@ == summary_part(date@, *summary),
{
    let mut out = "# SpeechAligner Evaluation Report\n\n".to_owned();
    push_field(&mut out, "Date", date);
    push_code_field(&mut out, "Checkpoint", summary.checkpoint.as_str());
    let ghost before = out@;
    match &summary.scoring_head {
        Some(path) => {
            push_code_field(&mut out, "Scoring head", path.as_str());
        },
        None => {
            assert(out@ =~= before + Seq::<char>::empty());
        },
    }
    assert(out@ == before + head_part(summary.scoring_head));
    push_field(&mut out, "Feature mode", summary.feature_mode.label());
    push_field(&mut out, "Dataset", "SpeechOcean762 holdout (word-level)");
    push_count(&mut out, "Words Scored", summary.scored);
    push_count(&mut out, "Words Skipped", summary.skipped);
    push_field(&mut out, "Human score mean", summary.human_mean.as_str());
    let mut range = summary.gop_mean.clone();
    range.append(" [");
    range.append(summary.gop_min.as_str());
    range.append(", ");
    range.append(summary.gop_max.as_str());
    range.append("]");
    push_field(&mut out, "GOP LogProb mean", range.as_str());
    out
}

fn row_text(metric: &EvaluationMetric, strong: bool) -> (r: String)
    ensures
        r@ == method_row(*metric, strong),
{
    let mark = if strong {
        "**"
    } else {
        ""
    };
    let mut out = "| ".to_owned();
    out.append(mark);
    out.append(metric.name);
    out.append(mark);
    out.append(" | ");
    let words = decimal_of(metric.words_scored as u64);
    out.append(words.as_str());
    out.append(" | ");
    out.append(mark);
    out.append(metric.rho_text.as_str());
    out.append(mark);
    out.append(" | ");
    out.append(metric.pcc.as_str());
    out.append(" | [");
    out.append(metric.ci_low.as_str());
    out.append(", ");
    out.append(metric.ci_high.as_str());
    out.append("] | ");
    out.append(metric.description);
    out.append(" |\n");
    out
}

fn rows_text(metrics: &Vec<EvaluationMetric>, best: &str) -> (r: String)
    ensures
        r@ == method_rows(metrics@, best@),
{
    let n: usize = metrics.len();
    let mut out = String::new();
    let mut i: usize = 0;
    assert(metrics@.take(0) =~= Seq::<EvaluationMetric>::empty());
    assert(out@ =~= method_rows(metrics@.take(0), best@));
    while i < n
        invariant
            n == metrics@.len(),
            i <= n,
            out@ == method_rows(metrics@.take(i as int), best@),
        decreases n - i,
    {
        let ghost upto = metrics@.take(i + 1);
        assert(upto.drop_last() =~= metrics@.take(i as int));
        assert(upto.last() == metrics@[i as int]);
        let row = row_text(&metrics[i], metrics[i].name.eq(best));
        out.append(row.as_str());
        i = i + 1;
    }
    assert(metrics@.take(n as int) =~= metrics@);
    out
}

fn decision_text(best: &EvaluationMetric) -> (r: String)
    ensures
        r@ == decision_part(*best),
{
    match gate_of(best.rho) {
        Gate::FullSuccess => {
            let mut out = "**FULL SUCCESS** — ρ = ".to_owned();
            out.append(best.rho_text.as_str());
            out.append(" ≥ 0.40. Path A full-success gate met.\n");
            out
        },
        Gate::Start => {
            let mut out = "**START GATE PASS** — ρ = ".to_owned();
            out.append(best.rho_text.as_str());
            out.append(" ≥ 0.30, so start gate cleared. Full-success gate 0.40 remains unmet.\n");
            out
        },
        Gate::Fail => {
            let mut out = "**FAIL** — best ρ = ".to_owned();
            out.append(best.rho_text.as_str());
            out.append(" < 0.30, so start gate not met.\n");
            out.append(
                "\nNext steps:\n1. Validate richer feature paths (for example logmel80 or teacher features)\n2. Fine-tune scoring head on SpeechOcean762 with inline holdout tracking\n3. Re-evaluate before proceeding to large-scale training\n",
            );
            out
        },
    }
}

/// Writes the report on an evaluation that ended at `date`.
pub fn write_evaluation_report(
    date: &str,
    summary: &EvaluationSummary,
    metrics: &Vec<EvaluationMetric>,
) -> (r: String)
    ensures
        r@ == evaluation_report(date@, *summary, metrics@),
{
    match find_best_method(metrics) {
        None => "# SpeechAligner Evaluation Report\n\nNo metrics available.\n".to_owned(),
        Some(b) => {
            let best = &metrics[b];
            let mut out = summary_text(date, summary);
            out.append("\n---\n\n## Method Comparison\n\n");
            out.append(
                "| Method | Words | Spearman ρ | Pearson PCC | 95% CI (ρ) | Description |\n",
            );
            out.append(
                "|--------|-------|-----------|------------|------------|-------------|\n",
            );
            let rows = rows_text(metrics, best.name);
            out.append(rows.as_str());
            out.append("\n**Best method**: ");
            out.append(best.name);
            out.append(" (ρ=");
            out.append(best.rho_text.as_str());
            out.append(", PCC=");
            out.append(best.pcc.as_str());
            out.append(")\n");
            out.append("\n## Gate Decision\n\n");
            let decision = decision_text(best);
            out.append(decision.as_str());
            out
        },
    }
}

/// Writes the report on an evaluation that ends now.
pub fn format_report_multi(summary: &EvaluationSummary, metrics: &Vec<EvaluationMetric>) -> (r:
    String)
    ensures
        exists|date: Seq<char>|
            clock::names_minute(date) && #[trigger] evaluation_report(date, *summary, metrics@)
                == r@,
{
    let date = utc_minute();
    write_evaluation_report(date.as_str(), summary, metrics)
}

} // verus!
