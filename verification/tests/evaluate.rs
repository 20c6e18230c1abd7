//! Evaluation against human scores.

use burn_speech_training::error::Error;
use burn_speech_training::evaluate::ctc::{ctc_best_path, Segment};
use burn_speech_training::evaluate::gop::{
    best_margin, best_score, margin_terms, plan_word, self_align, Alignment,
};
use burn_speech_training::evaluate::metrics::{
    check_teacher_inputs, resolved_feature_mode, scorer_description, scoring_mode_label,
    Evaluation, WordScores,
};
use burn_speech_training::evaluate::ranks::{
    order_by_value, resample, tied_ranks, BOOTSTRAP_SEED,
};
use burn_speech_training::evaluate::report::{
    find_best_method, format_report_multi, gate_line, metric_line, require_best_method,
    write_evaluation_report, EvaluationMetric, EvaluationSummary,
};
use burn_speech_training::evaluate::EvaluateArgs;
use burn_speech_training::finetune::config::{ScoringHeadConfig, ScoringInputSource};
use burn_speech_training::finetune::report::Gate;
use burn_speech_training::ieee::{Real32, Real64};
use burn_speech_training::mfcc::FeatureMode;

fn single(value: f32) -> Real32 {
    Real32::new(value.to_bits())
}

fn double(value: f64) -> Real64 {
    Real64::new(value.to_bits())
}

fn reals(values: &[f32]) -> Vec<Real32> {
    values.iter().map(|v| single(*v)).collect()
}

/// Ranks, with values closer than 1e-12 tied.
fn ranks(values: &[f64]) -> Vec<f64> {
    let held: Vec<Real64> = values.iter().map(|v| double(*v)).collect();
    let order = order_by_value(&held);
    let n = order.len();
    let reach: Vec<usize> = (0..n)
        .map(|i| {
            let mut j = i;
            while j < n && (values[order[j]] - values[order[i]]).abs() < 1e-12 {
                j += 1;
            }
            j
        })
        .collect();
    tied_ranks(&order, &reach)
        .iter()
        .map(|r| *r as f64 / 2.0)
        .collect()
}

#[test]
fn test_ranks_basic() {
    let values = vec![3.0, 1.0, 4.0, 1.0, 5.0];
    let r = ranks(&values);
    let expected = [3.0, 1.5, 4.0, 1.5, 5.0];
    // 1.0 appears twice → tied rank = (1+2)/2 = 1.5
    assert_eq!(r.len(), expected.len());
    for (actual, target) in r.iter().zip(expected.iter()) {
        assert!((actual - target).abs() < 1e-10);
    }
}

#[test]
fn test_ranks_all_equal() {
    let values = vec![7.0, 7.0, 7.0];
    let r = ranks(&values);
    // All tied → average rank = (1+2+3)/3 = 2.0
    for val in &r {
        assert!((val - 2.0).abs() < 1e-10);
    }
}

#[test]
fn ranks_keep_their_sum() {
    for values in [vec![], vec![2.0], vec![-1.0, 3.5, -1.0, 3.5, 3.5, 0.0, -0.0]] {
        let n = values.len() as f64;
        assert_eq!(ranks(&values).iter().sum::<f64>(), n * (n + 1.0) / 2.0);
    }
}

#[test]
fn equal_values_keep_their_order() {
    let values: Vec<Real64> = [2.0, -1.0, 0.0, -0.0, f64::NEG_INFINITY]
        .iter()
        .map(|v| double(*v))
        .collect();
    assert_eq!(order_by_value(&values), vec![4, 1, 2, 3, 0]);
}

#[test]
fn resamples_are_reproducible() {
    let (first, state) = resample(BOOTSTRAP_SEED, 5);
    let (whole, _) = resample(BOOTSTRAP_SEED, 100);
    assert_eq!(whole[..5].to_vec(), vec![27, 68, 97, 74, 9]);
    assert_eq!(state, 1_363_481_262_641_415_071);
    assert!(first.iter().all(|i| *i < 5));
    let mut expected = BOOTSTRAP_SEED;
    for place in resample(BOOTSTRAP_SEED, 37).0 {
        expected = expected
            .wrapping_mul(6_364_136_223_846_793_005)
            .wrapping_add(1);
        assert_eq!(place, ((expected >> 33) as usize) % 37);
    }
}

// ---------------------------------------------------------------------------
// The best path
// ---------------------------------------------------------------------------

fn segment(class: usize, start: usize, end: usize) -> Segment {
    Segment { class, start, end }
}

/// Scores in which the given classes are best, frame by frame.
fn scores_for(best: &[usize], classes: usize) -> Vec<Real32> {
    best.iter()
        .flat_map(|b| (0..classes).map(move |c| single(if c == *b { -0.1 } else { -3.0 })))
        .collect()
}

#[test]
fn repeats_and_blanks_are_collapsed() {
    let scores = scores_for(&[0, 2, 2, 0, 2, 1, 1, 0], 3);
    assert_eq!(
        ctc_best_path(&scores, 8, 3),
        vec![segment(2, 1, 3), segment(2, 4, 5), segment(1, 5, 7)]
    );
}

#[test]
fn scores_that_do_not_fill_the_frames_give_no_path() {
    let scores = scores_for(&[1, 1], 2);
    assert_eq!(ctc_best_path(&scores, 3, 2), vec![]);
    assert_eq!(ctc_best_path(&scores, 0, 2), vec![]);
    assert_eq!(ctc_best_path(&scores, 2, 0), vec![]);
}

#[test]
fn the_first_of_equal_scores_wins() {
    assert_eq!(ctc_best_path(&reals(&[-5.0, -1.0, -1.0]), 1, 3), vec![segment(1, 0, 1)]);
    // Nothing lies above negative infinity here: the blank stays.
    assert_eq!(
        ctc_best_path(&reals(&[f32::NAN, f32::NAN, f32::NEG_INFINITY]), 1, 3),
        vec![]
    );
}

// ---------------------------------------------------------------------------
// Words
// ---------------------------------------------------------------------------

fn phonemes(items: &[&str]) -> Vec<String> {
    items.iter().map(|s| (*s).to_owned()).collect()
}

#[test]
fn a_word_needs_a_phoneme_and_a_frame() {
    let plan = plan_word(10, 42, &phonemes(&["K", "??", "AE1"]), "the cat sat", 1).expect("plan");
    assert_eq!((plan.start, plan.end), (3, 6));
    assert_eq!(plan.classes, vec![21, 2]);
    assert!(plan_word(10, 42, &phonemes(&["??"]), "the cat sat", 1).is_none());
    assert!(plan_word(10, 42, &phonemes(&["K"]), "the cat sat", 3).is_none());
    assert!(plan_word(10, 21, &phonemes(&["K"]), "the cat sat", 0).is_none());
}

#[test]
fn best_scores_and_margins() {
    let scores = reals(&[1.0, 5.0, 2.0, 4.0, 3.0, 0.0]);
    assert_eq!(best_score(&scores, 2, 3, 0), single(4.0));
    assert_eq!(best_score(&scores, 2, 3, 1), single(5.0));
    assert_eq!(
        margin_terms(&scores, 2, 3, 1),
        vec![(single(5.0), single(2.0)), (single(3.0), single(4.0))]
    );
    assert_eq!(
        best_margin(&vec![double(-1.0), double(3.0), double(f64::NAN)]),
        double(3.0)
    );
    assert_eq!(best_margin(&vec![]), double(f64::NEG_INFINITY));
}

#[test]
fn phonemes_are_aligned_or_deleted() {
    // K is class 21, AE class 2.
    let path = vec![segment(2, 0, 2), segment(21, 2, 5), segment(2, 7, 9)];
    let found = self_align(
        10 * 42,
        &path,
        10,
        42,
        &phonemes(&["K", "AE", "T"]),
        "the cat sat",
        1,
    );
    // The word has frames 3 to 6.
    assert_eq!(
        found,
        Some(vec![
            Alignment::Frames {
                class: 21,
                start: 3,
                end: 5
            },
            Alignment::Deleted,
            Alignment::Deleted,
        ])
    );
    assert_eq!(
        self_align(10 * 42 - 1, &path, 10, 42, &phonemes(&["K"]), "the cat sat", 1),
        None
    );
    assert_eq!(self_align(420, &path, 10, 42, &phonemes(&[]), "the cat sat", 1), None);
}

// ---------------------------------------------------------------------------
// Methods
// ---------------------------------------------------------------------------

fn args() -> EvaluateArgs {
    EvaluateArgs {
        checkpoint: "/c".to_owned(),
        scoring_head: None,
        dataset: "/d".to_owned(),
        data_root: "/r".to_owned(),
        max_samples: None,
        feature_mode: FeatureMode::LogMel80,
        distillation_features: None,
    }
}

#[test]
fn a_head_brings_its_features_and_needs_its_inputs() {
    let mut config = ScoringHeadConfig::default();
    let mut a = args();
    assert_eq!(resolved_feature_mode(&a, &config), FeatureMode::LogMel80);
    a.scoring_head = Some("/h".to_owned());
    assert_eq!(resolved_feature_mode(&a, &config), FeatureMode::Mfcc39);
    assert!(check_teacher_inputs(&a, &config).is_ok());
    config.scoring_input_source = ScoringInputSource::TeacherCache;
    assert_eq!(
        check_teacher_inputs(&a, &config),
        Err(Error::Config(
            "Scoring head requires --distillation-features to replay cached teacher inputs"
                .to_owned()
        ))
    );
    a.distillation_features = Some("/t".to_owned());
    assert!(check_teacher_inputs(&a, &config).is_ok());
    assert_eq!(scoring_mode_label(&config), "regression");
    config.balanced_mse = true;
    assert_eq!(scoring_mode_label(&config), "balanced_mse");
    assert_eq!(scorer_description(&config), "SO762 fine-tuned regression scorer");
}

#[test]
fn every_method_gathers_its_scores() {
    let config = ScoringHeadConfig::default();
    let mut run = Evaluation::new(Some(&config));
    let none = WordScores {
        gop: None,
        self_aligned: None,
        head: None,
    };
    run.record_word(double(0.5), none);
    run.record_word(
        double(0.6),
        WordScores {
            gop: Some((double(1.0), double(2.0), double(3.0))),
            ..none
        },
    );
    run.record_word(
        double(0.7),
        WordScores {
            head: Some(double(4.0)),
            ..none
        },
    );
    assert_eq!(run.processed(), 2);
    assert_eq!(run.skipped, 1);
    assert_eq!(run.humans, vec![double(0.6), double(0.7)]);
    assert_eq!(run.max_logit.predicted, vec![double(2.0)]);
    assert_eq!(run.self_aligned.words_scored(), 0);
    let head = run.head.as_ref().expect("head");
    assert_eq!(head.human, vec![double(0.7)]);
    assert_eq!(run.progress(7, 300), None);
    assert_eq!(
        run.progress(200, 300),
        Some("  [200/300] utterances, 2 words scored, 1 skipped".to_owned())
    );
    assert_eq!(
        run.check_scored(ScoringInputSource::Backbone),
        Err(Error::Process(
            "Only 2 words scored — too few for meaningful correlation".to_owned()
        ))
    );
}

#[test]
fn a_score_for_an_absent_head_does_not_count() {
    let mut run = Evaluation::new(None);
    run.record_word(
        double(0.5),
        WordScores {
            gop: None,
            self_aligned: None,
            head: Some(double(1.0)),
        },
    );
    assert_eq!(run.processed(), 0);
    assert_eq!(run.skipped, 1);
    assert!(matches!(
        run.check_scored(ScoringInputSource::TeacherCache),
        Err(Error::Config(m)) if m.starts_with("Teacher-cache scoring head produced 0 words.")
    ));
}

// ---------------------------------------------------------------------------
// Results
// ---------------------------------------------------------------------------

fn metric(name: &'static str, rho: f64, words: usize) -> EvaluationMetric {
    EvaluationMetric {
        name,
        rho: double(rho),
        rho_text: format!("{rho:.4}"),
        pcc: "0.2000".to_owned(),
        ci_low: "0.1000".to_owned(),
        ci_high: "0.5000".to_owned(),
        words_scored: words,
        description: "how",
    }
}

#[test]
fn the_best_method_scored_enough_words() {
    let metrics = vec![metric("A", 0.3, 10), metric("B", 0.9, 9), metric("C", 0.3, 12)];
    assert_eq!(find_best_method(&metrics), Some(2));
    assert_eq!(find_best_method(&vec![metric("B", 0.9, 9)]), None);
    assert_eq!(
        require_best_method(&vec![]),
        Err(Error::Process(
            "No evaluation metrics were produced".to_owned()
        ))
    );
}

#[test]
fn result_lines() {
    assert_eq!(
        metric_line(&metric("GOP-SA", 0.25, 31)),
        format!(
            "  {:<12} ρ=0.2500  PCC=0.2000  CI [0.1000, 0.5000]  words=31  (how)",
            "GOP-SA"
        )
    );
    assert!(metric_line(&metric("LongerThanTwelve", 0.25, 31)).starts_with("  LongerThanTwelve ρ="));
    assert_eq!(
        gate_line(&metric("A", 0.45, 10)),
        (
            Gate::FullSuccess,
            "FULL SUCCESS: ρ = 0.4500 ≥ 0.40 — Path A full success gate met".to_owned()
        )
    );
    assert_eq!(gate_line(&metric("A", 0.35, 10)).0, Gate::Start);
    assert_eq!(
        gate_line(&metric("A", 0.1, 10)).1,
        "  GATE FAIL: ρ = 0.1000 < 0.30 — start gate not met"
    );
}

fn summary() -> EvaluationSummary {
    EvaluationSummary {
        checkpoint: "/c".to_owned(),
        scoring_head: None,
        feature_mode: FeatureMode::Mfcc39,
        scored: 20,
        skipped: 1,
        human_mean: "0.700".to_owned(),
        gop_mean: "-2.000".to_owned(),
        gop_min: "-9.000".to_owned(),
        gop_max: "-0.100".to_owned(),
    }
}

#[test]
fn the_evaluation_report() {
    let metrics = vec![metric("A", 0.1, 20), metric("B", 0.2, 20)];
    assert_eq!(
        write_evaluation_report("D", &summary(), &metrics),
        "# SpeechAligner Evaluation Report\n\n**Date**: D\n**Checkpoint**: `/c`\n\
         **Feature mode**: mfcc39\n**Dataset**: SpeechOcean762 holdout (word-level)\n\
         **Words Scored**: 20\n**Words Skipped**: 1\n**Human score mean**: 0.700\n\
         **GOP LogProb mean**: -2.000 [-9.000, -0.100]\n\n---\n\n## Method Comparison\n\n\
         | Method | Words | Spearman ρ | Pearson PCC | 95% CI (ρ) | Description |\n\
         |--------|-------|-----------|------------|------------|-------------|\n\
         | A | 20 | 0.1000 | 0.2000 | [0.1000, 0.5000] | how |\n\
         | **B** | 20 | **0.2000** | 0.2000 | [0.1000, 0.5000] | how |\n\
         \n**Best method**: B (ρ=0.2000, PCC=0.2000)\n\n## Gate Decision\n\n\
         **FAIL** — best ρ = 0.2000 < 0.30, so start gate not met.\n\nNext steps:\n\
         1. Validate richer feature paths (for example logmel80 or teacher features)\n\
         2. Fine-tune scoring head on SpeechOcean762 with inline holdout tracking\n\
         3. Re-evaluate before proceeding to large-scale training\n"
    );
    assert_eq!(
        format_report_multi(&summary(), &vec![]),
        "# SpeechAligner Evaluation Report\n\nNo metrics available.\n"
    );
    let now = format_report_multi(&summary(), &metrics);
    assert!(now.lines().any(|l| l.starts_with("**Date**: ") && l.ends_with(" UTC")));
}
