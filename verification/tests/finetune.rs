//! Fine-tuning on scored words.

use burn_speech_training::error::Error;
use burn_speech_training::finetune::config::{
    base_checkpoint_label, build_scoring_head_config, check_sources, configured_scoring_input_dim,
    distillation_weight, effective_ctc_weight, effective_freeze_backbone, lr_phase,
    score_prediction, scoring_head_hidden_candidates, scoring_input_dim_from_config, scoring_loss,
    scoring_loss_mode, validate_finetune, FineTuneArgs, LrPhase, ScorePrediction,
    ScoringHeadConfig, ScoringInputSource, ScoringLoss, ScoringPoolingMode, DISTILL_DIM,
};
use burn_speech_training::finetune::head::{head_attempts, head_failure, HeadAttempt};
use burn_speech_training::finetune::mixup::{
    mixup_anchors, mixup_applies, mixup_pairs, mixup_pairs_from, partner_from_draw,
};
use burn_speech_training::finetune::plan::{
    added_losses, base_checkpoint, holdout_plan, teacher_overrides, weight_counts, weighting,
    HoldoutPlan, Weighting,
};
use burn_speech_training::finetune::prepare::{
    build_word_targets, count_buckets, holdout_words, prepare_utterance, require_holdout,
    require_prepared, score_counts, HoldoutWord, ScoredWord, WordOptions, WordTarget,
};
use burn_speech_training::finetune::report::{
    batch_line, complete_line, epoch_line, eval_line, finetune_report, gate_of,
    generate_finetune_report, ArgNumbers, BatchMetrics, EpochMetrics, EpochRow, EvalMetrics, Gate,
    RunSummary, SnapshotRow,
};
use burn_speech_training::finetune::run::{
    batch_has_work, first_finite_loss, head_checkpoint_name, last_finite_loss,
    model_checkpoint_name, plan_scoring, require_utterances, sample_limit, scoring_frames, Action,
    FineTuneRun,
};
use burn_speech_training::finetune::targets::{
    off_diagonal_mask, ordinal_bin_index, ordinal_softmax_targets, ordinal_targets, pairwise_mask,
    positive_mask, triplet_masks,
};
use burn_speech_training::finetune::teacher::{
    aligned_frames, decode_teacher_features, every_other_row, leading_rows, TeacherFeatureCache,
    TeacherFeatureEntry,
};
use burn_speech_training::g2p::CmuDict;
use burn_speech_training::ieee::{Real32, Real64};
use burn_speech_training::mfcc::FeatureMode;

fn single(value: f32) -> Real32 {
    Real32::new(value.to_bits())
}

fn double(value: f64) -> Real64 {
    Real64::new(value.to_bits())
}

#[test]
fn test_scoring_input_dim_from_config_defaults_legacy_backbone_heads() {
    let config = ScoringHeadConfig::default();

    assert_eq!(scoring_input_dim_from_config(&config, 512), 512);
}

#[test]
fn test_teacher_feature_cache_reads_cached_frames() {
    let cache = TeacherFeatureCache::new(
        "/cache",
        vec![(
            "foo.wav".to_owned(),
            TeacherFeatureEntry {
                bin: "sample.bin".to_owned(),
                frames: 2,
            },
        )],
    );

    let mut bytes = Vec::new();
    bytes.extend_from_slice(b"W2V2");
    bytes.extend_from_slice(&1u32.to_le_bytes());
    bytes.extend_from_slice(&2u32.to_le_bytes());
    bytes.extend_from_slice(&1024u32.to_le_bytes());
    for idx in 0..(2 * 1024) {
        bytes.extend_from_slice(&(idx as f32).to_le_bytes());
    }

    let entry = cache.locate("foo.wav").expect("entry");
    assert_eq!(entry.bin, "sample.bin");
    let loaded = decode_teacher_features(&bytes, entry.frames).expect("cache read");

    assert_eq!(loaded.1, 2);
    assert_eq!(loaded.0.len(), 2 * 1024);
    assert_eq!(loaded.0[0], single(0.0));
    assert_eq!(loaded.0[1024], single(1024.0));
}

#[test]
fn test_ordinal_bin_index_matches_declared_buckets() {
    assert_eq!(ordinal_bin_index(0), 0);
    assert_eq!(ordinal_bin_index(2), 0);
    assert_eq!(ordinal_bin_index(3), 1);
    assert_eq!(ordinal_bin_index(5), 1);
    assert_eq!(ordinal_bin_index(6), 2);
    assert_eq!(ordinal_bin_index(7), 2);
    assert_eq!(ordinal_bin_index(8), 3);
    assert_eq!(ordinal_bin_index(9), 3);
    assert_eq!(ordinal_bin_index(10), 4);
}

#[test]
fn test_metrics_writer_epoch_keeps_batches_and_utterances_distinct() {
    let line = epoch_line(&EpochMetrics {
        epoch: 2,
        total_epochs: 20,
        avg_loss: "1.250000".to_owned(),
        ctc_loss: "0.500000".to_owned(),
        mse_loss: "0.750000".to_owned(),
        words: 96,
        batches: 4,
        utterances: 32,
        epoch_secs: "8.0".to_owned(),
        throughput: format!("{:.1}", 32.0 / 8.0),
        words_per_sec: "12.0".to_owned(),
        elapsed_secs: "8.0".to_owned(),
        eta_secs: "72.0".to_owned(),
    });
    let value: serde_json::Value = serde_json::from_str(&line).expect("epoch json");

    assert_eq!(
        value.get("utterances").and_then(serde_json::Value::as_u64),
        Some(32)
    );
    assert_eq!(
        value.get("batches").and_then(serde_json::Value::as_u64),
        Some(4)
    );
    let throughput = value
        .get("throughput")
        .and_then(serde_json::Value::as_f64)
        .expect("throughput");
    assert!((throughput - 4.0).abs() < 1e-6);
}

// ---------------------------------------------------------------------------
// Arguments
// ---------------------------------------------------------------------------

fn args() -> FineTuneArgs {
    FineTuneArgs {
        checkpoint: Some("/base".to_owned()),
        dataset: "/train.json".to_owned(),
        data_root: "/audio".to_owned(),
        feature_mode: FeatureMode::Mfcc39,
        fresh_init: false,
        epochs: 10,
        learning_rate: double(1e-4),
        ctc_weight: single(0.3),
        checkpoint_dir: "/out".to_owned(),
        max_samples: None,
        oversample_factor: 1,
        oversample_below: 6,
        weighted_loss: false,
        eval_interval: 5,
        holdout: None,
        batch_size: 8,
        focal_gamma: single(0.0),
        ordinal_loss: false,
        ordinal_softmax_loss: false,
        balanced_mse: false,
        balanced_mse_noise_sigma: single(0.2),
        score_balanced_loss: false,
        score_balance_beta: single(0.999),
        feature_mixup_alpha: single(0.0),
        feature_mixup_below: 5,
        warmup_epochs: 0,
        freeze_backbone: false,
        scoring_hidden: 256,
        rank_regularization_weight: single(0.0),
        rank_similarity_tau: single(0.15),
        pairwise_ranking_weight: single(0.0),
        pairwise_ranking_margin: single(0.05),
        triplet_ranking_weight: single(0.0),
        triplet_ranking_margin: single(0.1),
        pooling_mode: ScoringPoolingMode::Mean,
        distillation_features: None,
        distillation_weight: single(0.5),
        teacher_as_input: false,
    }
}

fn complaint(change: fn(&mut FineTuneArgs)) -> String {
    let mut a = args();
    change(&mut a);
    match validate_finetune(&a) {
        Ok(()) => "none".to_owned(),
        Err(e) => e.message().to_owned(),
    }
}

#[test]
fn arguments_are_checked_one_by_one() {
    assert_eq!(complaint(|_| ()), "none");
    assert_eq!(
        complaint(|a| a.ctc_weight = single(1.5)),
        "ctc_weight must be within 0.0..=1.0"
    );
    assert_eq!(
        complaint(|a| a.ctc_weight = single(f32::NAN)),
        "ctc_weight must be within 0.0..=1.0"
    );
    assert_eq!(
        complaint(|a| {
            a.ordinal_loss = true;
            a.ordinal_softmax_loss = true;
        }),
        "ordinal_loss and ordinal_softmax_loss are mutually exclusive"
    );
    assert_eq!(
        complaint(|a| {
            a.balanced_mse = true;
            a.weighted_loss = true;
        }),
        "weighted_loss is not supported with balanced_mse"
    );
    assert_eq!(
        complaint(|a| {
            a.ordinal_loss = true;
            a.focal_gamma = single(2.0);
        }),
        "focal_gamma is not supported with ordinal_loss"
    );
    assert_eq!(
        complaint(|a| a.balanced_mse_noise_sigma = single(0.0)),
        "balanced_mse_noise_sigma must be > 0"
    );
    assert_eq!(
        complaint(|a| a.score_balance_beta = single(1.0)),
        "score_balance_beta must be within 0.0..1.0"
    );
    assert_eq!(
        complaint(|a| {
            a.feature_mixup_alpha = single(0.4);
            a.balanced_mse = true;
        }),
        "feature_mixup_alpha is only supported with regression-style scoring losses"
    );
    assert_eq!(
        complaint(|a| a.triplet_ranking_margin = single(-0.0)),
        "triplet_ranking_margin must be > 0"
    );
}

#[test]
fn a_base_model_and_teacher_features_are_required() {
    let mut a = args();
    assert!(check_sources(&a).is_ok());
    a.checkpoint = None;
    assert_eq!(
        check_sources(&a),
        Err(Error::Config(
            "--checkpoint is required unless --fresh-init is set".to_owned()
        ))
    );
    a.fresh_init = true;
    a.teacher_as_input = true;
    assert_eq!(
        check_sources(&a),
        Err(Error::Config(
            "--teacher-as-input requires --distillation-features".to_owned()
        ))
    );
    assert_eq!(base_checkpoint_label(&args()), "/base");
}

#[test]
fn losses_follow_the_arguments() {
    let mut a = args();
    assert_eq!(scoring_loss(&a), ScoringLoss::Weighted);
    a.focal_gamma = single(2.0);
    assert_eq!(scoring_loss(&a), ScoringLoss::Focal);
    a.focal_gamma = single(0.0);
    a.balanced_mse = true;
    assert_eq!(scoring_loss(&a), ScoringLoss::BalancedMse);
    a.balanced_mse = false;
    a.ordinal_softmax_loss = true;
    assert_eq!(scoring_loss(&a), ScoringLoss::OrdinalSoftmax);
    let head = build_scoring_head_config(&a);
    assert_eq!(head.output_dim, 5);
    assert_eq!(score_prediction(&head), ScorePrediction::SoftmaxExpectation);
    a.ordinal_softmax_loss = false;
    a.ordinal_loss = true;
    assert_eq!(scoring_loss(&a), ScoringLoss::Ordinal);
    assert_eq!(
        score_prediction(&build_scoring_head_config(&a)),
        ScorePrediction::ThresholdExpectation
    );
    assert!(!scoring_loss_mode(&a).is_empty());
    assert_eq!(
        score_prediction(&ScoringHeadConfig::default()),
        ScorePrediction::Sigmoid
    );
}

#[test]
fn teacher_inputs_settle_weights_and_widths() {
    let mut a = args();
    assert_eq!(effective_ctc_weight(&a), single(0.3));
    assert!(!effective_freeze_backbone(&a));
    assert_eq!(configured_scoring_input_dim(&a, 512), 512);
    assert_eq!(distillation_weight(&a, None), Ok(single(0.0)));
    assert_eq!(distillation_weight(&a, Some(0)), Ok(single(0.0)));
    assert_eq!(distillation_weight(&a, Some(3)), Ok(single(0.5)));
    a.teacher_as_input = true;
    assert_eq!(effective_ctc_weight(&a), single(0.0));
    assert!(effective_freeze_backbone(&a));
    assert_eq!(configured_scoring_input_dim(&a, 512), DISTILL_DIM);
    assert_eq!(
        distillation_weight(&a, Some(0)),
        Err(Error::Config(
            "--teacher-as-input matched 0 utterances in --distillation-features".to_owned()
        ))
    );
    let head = build_scoring_head_config(&a);
    assert_eq!(head.scoring_input_source, ScoringInputSource::TeacherCache);
    assert_eq!(scoring_input_dim_from_config(&head, 512), 1024);
}

#[test]
fn arguments_choose_weighting_and_losses() {
    let mut a = args();
    assert_eq!(weighting(&a), Weighting::Even);
    a.weighted_loss = true;
    assert_eq!(weighting(&a), Weighting::InverseFrequency);
    a.score_balanced_loss = true;
    assert_eq!(weighting(&a), Weighting::ScoreBalanced);

    a.pairwise_ranking_weight = single(0.25);
    a.rank_regularization_weight = single(f32::EPSILON);
    let added = added_losses(&a);
    assert!(added.pairwise && !added.rank && !added.triplet);
    assert!(weight_counts(single(f32::EPSILON * 2.0)));
    assert!(!weight_counts(single(f32::NAN)));
}

#[test]
fn base_model_comes_from_the_checkpoint_unless_fresh() {
    let mut a = args();
    assert_eq!(base_checkpoint(&a), Some("/base"));
    a.fresh_init = true;
    assert_eq!(base_checkpoint(&a), None);
    a.fresh_init = false;
    a.checkpoint = None;
    assert_eq!(base_checkpoint(&a), None);
}

#[test]
fn holdout_needs_an_interval() {
    let mut a = args();
    assert_eq!(holdout_plan(&a, true), HoldoutPlan::Absent);
    a.holdout = Some("/holdout".to_owned());
    assert_eq!(
        holdout_plan(&a, true),
        HoldoutPlan::Evaluate { by_teacher: false }
    );
    a.teacher_as_input = true;
    assert_eq!(
        holdout_plan(&a, true),
        HoldoutPlan::Evaluate { by_teacher: true }
    );
    a.eval_interval = 0;
    assert_eq!(holdout_plan(&a, true), HoldoutPlan::Ignored);
}

#[test]
fn teacher_input_says_what_it_overrides() {
    let mut a = args();
    assert_eq!(teacher_overrides(&a), None);
    a.teacher_as_input = true;
    assert_eq!(
        teacher_overrides(&a),
        Some(vec![
            "  Base model: loaded but BYPASSED (teacher features used instead)".to_owned(),
            "  Teacher-input mode forces ctc_weight=0.0".to_owned(),
            "  Teacher-input mode forces freeze_backbone=true".to_owned(),
            "  Teacher-input mode disables feature-matching distillation loss".to_owned(),
        ])
    );
    a.fresh_init = true;
    a.freeze_backbone = true;
    a.ctc_weight = single(0.0);
    a.distillation_weight = single(0.0);
    assert_eq!(
        teacher_overrides(&a),
        Some(vec![
            "  Base model: freshly initialized but BYPASSED (teacher features used instead)"
                .to_owned()
        ])
    );
}

#[test]
fn hidden_widths_are_tried_in_order() {
    let mut config = ScoringHeadConfig::default();
    assert_eq!(scoring_head_hidden_candidates(&config), vec![256, 512]);
    config.hidden_dim = 384;
    assert_eq!(scoring_head_hidden_candidates(&config), vec![256, 384, 512]);
    config.hidden_dim = 0;
    assert_eq!(scoring_head_hidden_candidates(&config), vec![256, 512]);
}

#[test]
fn legacy_heads_are_tried_where_there_is_one_output() {
    let mut config = ScoringHeadConfig::default();
    config.output_dim = 1;
    let labels: Vec<String> = head_attempts(&config).iter().map(|a| a.label()).collect();
    assert_eq!(
        labels,
        vec!["new/256x1", "legacy/256x1", "new/512x1", "legacy/512x1"]
    );

    config.output_dim = 5;
    config.hidden_dim = 300;
    let labels: Vec<String> = head_attempts(&config).iter().map(|a| a.label()).collect();
    assert_eq!(labels, vec!["new/256x5", "new/300x5", "new/512x5"]);
}

#[test]
fn trained_shape_is_tried_on_loading() {
    for hidden in [0, 100, 256, 384, 512, 640] {
        let mut a = args();
        a.scoring_hidden = hidden;
        a.ordinal_softmax_loss = true;
        let attempts = head_attempts(&build_scoring_head_config(&a));
        let width = if hidden == 0 { 256 } else { hidden };
        assert!(attempts.contains(&HeadAttempt { legacy: false, hidden: width, output: 5 }));
    }
}

#[test]
fn every_failed_shape_is_named() {
    let attempt = HeadAttempt { legacy: true, hidden: 256, output: 1 };
    let first = attempt.failure("panic during load_record");
    assert_eq!(first, "legacy/256x1: panic during load_record");
    let failures = vec![first, "b".to_owned(), "c".to_owned()];
    match head_failure("/h.bin", &failures) {
        Error::Process(message) => assert_eq!(
            message,
            "Failed to load scoring head /h.bin: legacy/256x1: panic during load_record; b; c"
        ),
        other => panic!("{:?}", other),
    }
}

#[test]
fn learning_rate_warms_up_and_decays() {
    assert_eq!(lr_phase(3, 0, 10), LrPhase::Flat);
    assert_eq!(lr_phase(1, 3, 10), LrPhase::Warmup { step: 2, of: 3 });
    assert_eq!(lr_phase(3, 3, 10), LrPhase::Decay { done: 0, of: 7 });
    assert_eq!(lr_phase(9, 3, 10), LrPhase::Decay { done: 6, of: 7 });
}

// ---------------------------------------------------------------------------
// Targets
// ---------------------------------------------------------------------------

#[test]
fn scores_become_matrices() {
    assert_eq!(
        ordinal_targets(&vec![6, 10]),
        vec![true, true, false, false, true, true, true, true]
    );
    assert_eq!(
        ordinal_softmax_targets(&vec![6]),
        vec![false, false, true, false, false]
    );
    assert_eq!(positive_mask(&vec![3, 4]), vec![true, false, false, true]);
    let (mask, pairs) = pairwise_mask(&vec![5, 2, 9]);
    assert_eq!(
        mask,
        vec![false, true, false, false, false, false, true, true, false]
    );
    assert_eq!(pairs, 3);
    assert_eq!(off_diagonal_mask(2), vec![false, true, true, false]);
}

#[test]
fn thresholds_passed_are_the_bin() {
    for raw in -3..15 {
        let passed = ordinal_targets(&vec![raw]).iter().filter(|b| **b).count();
        assert_eq!(passed, ordinal_bin_index(raw));
    }
}

#[test]
fn triplets_need_a_near_and_a_far_word() {
    let masks = triplet_masks(&vec![10, 9, 2]);
    assert_eq!(masks.valid_anchors, vec![true, true, false]);
    assert_eq!(masks.valid_count, 2);
    assert_eq!(masks.positive_counts, vec![1, 1, 0]);
    assert_eq!(masks.negative_counts, vec![1, 1, 2]);
    assert!(!masks.positive[0]);
}

// ---------------------------------------------------------------------------
// Preparation
// ---------------------------------------------------------------------------

fn word(position: usize, raw: i32) -> ScoredWord {
    ScoredWord {
        word_position: position,
        human_score: single(raw as f32 / 10.0),
        human_score_raw: raw,
    }
}

#[test]
fn buckets_are_counted_in_order() {
    assert_eq!(
        count_buckets(&vec![4, 2, 4, 9, 2, 4]),
        vec![(2, 2), (4, 3), (9, 1)]
    );
    let mut a = args();
    assert_eq!(score_counts(&a, &vec![1, 1]), None);
    a.weighted_loss = true;
    assert_eq!(score_counts(&a, &vec![1, 1, 10]), Some(vec![(1, 2), (10, 1)]));
    a.ordinal_loss = true;
    assert_eq!(score_counts(&a, &vec![1, 2, 10]), Some(vec![(0, 2), (4, 1)]));
}

#[test]
fn word_targets_are_weighted_repeated_and_sorted() {
    let options = WordOptions {
        weights: Some(vec![(4, single(2.5))]),
        ordinal: false,
        oversample_factor: 3,
        oversample_below: 5,
    };
    let targets = build_word_targets(&vec![word(1, 9), word(0, 4), word(7, 4)], 2, &options);
    let seen: Vec<(usize, i32, Real32)> = targets
        .iter()
        .map(|t| (t.word_position, t.human_score_raw, t.weight))
        .collect();
    assert_eq!(
        seen,
        vec![
            (0, 4, single(2.5)),
            (0, 4, single(2.5)),
            (0, 4, single(2.5)),
            (1, 9, single(1.0)),
        ]
    );
    assert!(targets.iter().all(|t| t.num_words == 2));
}

#[test]
fn utterances_are_prepared_or_passed_over() {
    let dict = CmuDict::parse("cat K AE1 T\n");
    let options = WordOptions {
        weights: None,
        ordinal: false,
        oversample_factor: 1,
        oversample_below: 0,
    };
    let words = vec![word(0, 8)];
    let prepared = prepare_utterance(3, "CAT", &dict, &words, &options).expect("fits");
    assert_eq!(prepared.ctc_targets.len(), 3);
    assert_eq!(prepared.words.len(), 1);
    assert!(prepare_utterance(2, "CAT", &dict, &words, &options).is_none());
    assert!(prepare_utterance(9, "CAT", &dict, &vec![word(1, 8)], &options).is_none());
    assert!(prepare_utterance(9, "", &dict, &words, &options).is_none());
}

#[test]
fn nothing_prepared_is_an_error() {
    assert!(require_prepared(1).is_ok());
    assert!(matches!(require_prepared(0), Err(Error::Config(_))));
    assert!(require_utterances(1).is_ok());
    assert!(matches!(require_utterances(0), Err(Error::Config(_))));
    assert!(require_holdout(false, 0).is_ok());
    assert!(matches!(require_holdout(true, 0), Err(Error::Config(_))));
}

#[test]
fn holdout_words_lie_in_their_sentence() {
    let words: Vec<HoldoutWord> = [0, 5, 1]
        .iter()
        .map(|p| HoldoutWord {
            word_position: *p,
            human_score: double(0.5),
        })
        .collect();
    let (kept, count) = holdout_words("two words", &words).expect("some");
    assert_eq!(count, 2);
    let positions: Vec<usize> = kept.iter().map(|w| w.word_position).collect();
    assert_eq!(positions, vec![0, 1]);
    assert!(holdout_words("", &words).is_none());
}

// ---------------------------------------------------------------------------
// Teacher features
// ---------------------------------------------------------------------------

fn teacher_file(version: u32, frames: u32, dim: u32, values: usize) -> Vec<u8> {
    let mut bytes = b"W2V2".to_vec();
    for w in [version, frames, dim] {
        bytes.extend_from_slice(&w.to_le_bytes());
    }
    for i in 0..values {
        bytes.extend_from_slice(&(i as f32).to_le_bytes());
    }
    bytes
}

#[test]
fn faulty_teacher_files_are_not_read() {
    assert!(decode_teacher_features(&teacher_file(1, 1, 1024, 1024), 1).is_some());
    assert!(decode_teacher_features(&teacher_file(1, 1, 1024, 1023), 1).is_none());
    assert!(decode_teacher_features(&teacher_file(1, 1, 512, 512), 1).is_none());
    assert!(decode_teacher_features(&b"W2V2".to_vec(), 1).is_none());
    let mut other = teacher_file(1, 1, 1024, 1024);
    other[0] = b'X';
    assert!(decode_teacher_features(&other, 1).is_none());
}

#[test]
fn teacher_and_student_frames_are_matched() {
    assert_eq!(aligned_frames(7, 10), 3);
    assert_eq!(aligned_frames(30, 10), 10);
    assert_eq!(
        every_other_row(&vec![1, 2, 3, 4, 5, 6, 7, 8], 2, 2),
        vec![1, 2, 5, 6]
    );
    let rows: Vec<usize> = (0..3 * 1024).collect();
    assert_eq!(leading_rows(&rows, 2), rows[..2048].to_vec());
    let cache = TeacherFeatureCache::new("/cache", vec![]);
    assert_eq!(cache.root(), "/cache");
    assert!(cache.locate("x").is_none());
}

// ---------------------------------------------------------------------------
// Mixup
// ---------------------------------------------------------------------------

#[test]
fn words_of_low_score_get_another_word() {
    assert!(mixup_applies(single(0.2), 2));
    assert!(!mixup_applies(single(0.0), 2));
    assert!(!mixup_applies(single(0.2), 1));
    assert_eq!(mixup_anchors(&vec![3, 9, 5, 6], 5), vec![0, 2]);
    assert_eq!(partner_from_draw(2, 4, 1), 1);
    assert_eq!(partner_from_draw(2, 4, 2), 3);
    assert_eq!(
        mixup_pairs_from(&vec![0, 2], 4, &vec![0, 1]),
        vec![(0, 1), (2, 1)]
    );
}

#[test]
fn drawn_partners_differ_from_their_words() {
    let scores = vec![1, 2, 3, 4, 5, 6];
    let mut seen = [false; 6];
    for _ in 0..200 {
        let pairs = mixup_pairs(&scores, 1);
        assert_eq!(pairs.len(), 1);
        let (anchor, partner) = pairs[0];
        assert_eq!(anchor, 0);
        assert!(partner > 0 && partner < 6);
        seen[partner] = true;
    }
    // Every other word is drawn sooner or later.
    assert_eq!(seen, [false, true, true, true, true, true]);
}

// ---------------------------------------------------------------------------
// The run
// ---------------------------------------------------------------------------

#[test]
fn a_run_goes_through_batches_epochs_and_evaluations() {
    let mut run = FineTuneRun::new(5, 2, 2, 2, true);
    assert_eq!(run.steps(), 3);
    let mut log = Vec::new();
    loop {
        match run.action() {
            Action::Train {
                epoch, start, end, ..
            } => {
                log.push(format!("train {epoch} {start}..{end}"));
                run.advance(Some(end - start));
            }
            Action::CloseEpoch {
                epoch,
                batches,
                words,
            } => {
                log.push(format!("close {epoch} {batches} {words}"));
                run.advance(None);
            }
            Action::EvaluateHoldout { epoch } => {
                log.push(format!("evaluate {epoch}"));
                run.advance(None);
            }
            Action::Finish => break,
        }
    }
    assert_eq!(
        log,
        vec![
            "train 1 0..2",
            "train 1 2..4",
            "train 1 4..5",
            "close 1 3 5",
            "train 2 0..2",
            "train 2 2..4",
            "train 2 4..5",
            "close 2 3 5",
            "evaluate 2",
        ]
    );
}

#[test]
fn a_batch_size_of_zero_counts_as_one() {
    assert_eq!(FineTuneRun::new(3, 0, 1, 0, false).steps(), 3);
}

#[test]
fn losses_that_are_not_finite_are_refused() {
    assert!(FineTuneRun::accepts(single(1.0)));
    assert!(!FineTuneRun::accepts(single(f32::NAN)));
    assert!(!FineTuneRun::accepts(single(f32::INFINITY)));
    let losses = vec![single(f32::NAN), single(2.0), single(1.0), single(f32::INFINITY)];
    assert_eq!(first_finite_loss(&losses), Some(single(2.0)));
    assert_eq!(last_finite_loss(&losses), Some(single(1.0)));
    assert_eq!(first_finite_loss(&vec![single(f32::NAN)]), None);
}

#[test]
fn words_are_scored_over_their_frames() {
    let target = |position: usize| WordTarget {
        word_position: position,
        human_score: single(0.4),
        human_score_raw: 4,
        num_words: 3,
        weight: single(1.0),
    };
    let plan = plan_scoring(10, &vec![target(0), target(5), target(2)]);
    let spans: Vec<(usize, usize)> = plan.iter().map(|w| (w.start, w.end)).collect();
    assert_eq!(spans, vec![(0, 3), (6, 10)]);
    assert_eq!(scoring_frames(false, 10, 2, None), Some(10));
    assert_eq!(scoring_frames(true, 10, 2, Some(4)), Some(4));
    assert_eq!(scoring_frames(true, 10, 2, Some(0)), None);
    assert_eq!(scoring_frames(false, 10, 0, None), None);
    assert!(batch_has_work(1, 1));
    assert!(!batch_has_work(0, 1));
    assert_eq!(sample_limit(Some(3), 10), 3);
    assert_eq!(sample_limit(Some(30), 10), 10);
    assert_eq!(sample_limit(None, 10), 10);
    assert_ne!(model_checkpoint_name(1), head_checkpoint_name(1));
}

// ---------------------------------------------------------------------------
// Reports
// ---------------------------------------------------------------------------

#[test]
fn gates() {
    assert_eq!(gate_of(double(0.40)), Gate::FullSuccess);
    assert_eq!(gate_of(double(0.399_999)), Gate::Start);
    assert_eq!(gate_of(double(0.30)), Gate::Start);
    assert_eq!(gate_of(double(0.299_999)), Gate::Fail);
    assert_eq!(gate_of(double(f64::NAN)), Gate::Fail);
}

fn numbers() -> ArgNumbers {
    let n = || "0.1".to_owned();
    ArgNumbers {
        learning_rate: n(),
        ctc_weight: n(),
        balanced_mse_noise_sigma: n(),
        score_balance_beta: n(),
        rank_regularization_weight: n(),
        rank_similarity_tau: n(),
        feature_mixup_alpha: n(),
        pairwise_ranking_weight: n(),
        pairwise_ranking_margin: n(),
        triplet_ranking_weight: n(),
        triplet_ranking_margin: n(),
    }
}

fn summary() -> RunSummary {
    RunSummary {
        backend_name: "cpu".to_owned(),
        base_params: 1,
        head_params: 2,
        utterance_count: 3,
        total_words: 4,
        final_model_path: "/m".to_owned(),
        final_head_path: "/h".to_owned(),
    }
}

fn snapshot(epoch: usize, rho: f64) -> SnapshotRow {
    SnapshotRow {
        epoch,
        rho: double(rho),
        rho_text: format!("{rho:.4}"),
        pcc: "0.5000".to_owned(),
        ci_low: "0.1000".to_owned(),
        ci_high: "0.6000".to_owned(),
        words_scored: 50,
    }
}

#[test]
fn the_report_names_the_best_snapshot() {
    let epochs = vec![EpochRow {
        total_loss: "1.000000".to_owned(),
        ctc_loss: "0.500000".to_owned(),
        mse_loss: "0.500000".to_owned(),
        words: 4,
        seconds: "2.0".to_owned(),
    }];
    let snapshots = vec![snapshot(1, 0.35), snapshot(2, 0.31)];
    let text = finetune_report("2024-01-02 03:04 UTC", &args(), &numbers(), &summary(), &epochs, &snapshots);
    assert!(text.contains("**Date**: 2024-01-02 03:04 UTC\n"));
    assert!(text.contains("| 1 | 1.000000 | 0.500000 | 0.500000 | 4 | 2.0 |\n"));
    assert!(text.contains("| 2 | 0.3100 | 0.5000 | [0.1000, 0.6000] | 50 |\n"));
    assert!(text.contains("**START GATE PASS** — best inline holdout ρ = 0.3500 at epoch 1"));
}

#[test]
fn the_report_is_dated_now() {
    let text = generate_finetune_report(&args(), &numbers(), &summary(), &vec![], &vec![]);
    let date = text
        .lines()
        .find_map(|l| l.strip_prefix("**Date**: "))
        .expect("date");
    // YYYY-MM-DD HH:MM UTC
    assert_eq!(date.len(), 20);
    assert!(date.ends_with(" UTC"));
    assert_eq!(date.as_bytes()[4], b'-');
    assert_eq!(date.as_bytes()[13], b':');
    assert_eq!(
        text,
        finetune_report(date, &args(), &numbers(), &summary(), &vec![], &vec![])
    );
    assert!(text.contains("No inline holdout evaluation was recorded for this run."));
}

#[test]
fn metric_lines_are_json() {
    let n = |v: &str| v.to_owned();
    let lines = [
        batch_line(&BatchMetrics {
            epoch: 1,
            batch: 25,
            total_batches: 30,
            batch_utterances: 8,
            batch_words: 40,
            loss: n("1.5"),
            ctc_loss: n("1.0"),
            mse_loss: n("0.5"),
            samples_per_sec: n("10.0"),
            elapsed_secs: n("3.0"),
            batch_elapsed_secs: n("0.8"),
        }),
        eval_line(&EvalMetrics {
            epoch: 5,
            rho: n("0.3"),
            pcc: n("0.2"),
            ci_low: n("0.1"),
            ci_high: n("0.4"),
            words_scored: 77,
            elapsed_secs: n("9.0"),
        }),
        complete_line(10, "2.0", "1.0", "50.0", "99.0"),
    ];
    for line in &lines {
        let value: serde_json::Value = serde_json::from_str(line).expect("json");
        assert!(value.get("event").is_some());
        assert!(line.ends_with("}\n"));
    }
    assert!(lines[2].contains("\"epochs\":10"));
}
