//! Training runs.

use burn_speech_training::error::Error;
use burn_speech_training::ieee::{Real32, Real64};
use burn_speech_training::mfcc::FeatureMode;
use burn_speech_training::precompute::PrecomputedManifest;
use burn_speech_training::train::{
    batch_line, checkpoint_epoch_from_name, checkpoint_name, collect_resume_state, epoch_line,
    generate_precomputed_training_report, generate_training_report, loss_reduction,
    read_metric_line, validate_train_precomputed, validate_train_real, write_precomputed_report,
    write_training_report, ExtractionTally, MetricLine, PrecomputedRun, ResumeState, TrainAction,
    TrainBatchMetrics, TrainEpochMetrics, TrainPrecomputedArgs, TrainRealArgs, TrainRun,
};

fn single(value: f32) -> Real32 {
    Real32::new(value.to_bits())
}

fn double(value: f64) -> Real64 {
    Real64::new(value.to_bits())
}

fn strings(items: &[&str]) -> Vec<String> {
    items.iter().map(|s| (*s).to_owned()).collect()
}

#[test]
fn test_collect_resume_state_uses_existing_metrics_and_checkpoints() {
    let lines = strings(&[
        "{\"event\":\"epoch\",\"epoch\":2,\"elapsed_secs\":18.0}",
        "{\"event\":\"batch\",\"epoch\":2,\"elapsed_secs\":20.0}",
    ]);
    let names = strings(&["training-metrics.jsonl", "speech-aligner-epoch-3"]);

    let state = collect_resume_state(Some("speech-aligner-epoch-2"), &names, &lines);

    assert_eq!(
        state,
        ResumeState {
            completed_epochs: 3,
            elapsed_offset_secs: double(20.0)
        }
    );
}

#[test]
fn metric_lines_tell_epoch_and_time() {
    assert_eq!(
        read_metric_line("{\"event\":\"complete\",\"epochs\":7,\"total_secs\":12}"),
        MetricLine {
            epoch: None,
            epochs: Some(7),
            elapsed_secs: None,
            total_secs: Some(double(12.0)),
        }
    );
    let nothing = MetricLine {
        epoch: None,
        epochs: None,
        elapsed_secs: None,
        total_secs: None,
    };
    assert_eq!(read_metric_line("not json"), nothing);
    assert_eq!(read_metric_line("[1, 2]"), nothing);
    assert_eq!(read_metric_line("{\"epoch\":-1,\"elapsed_secs\":\"x\"}"), nothing);
    assert_eq!(read_metric_line("{\"epoch\":2.5}").epoch, None);
}

#[test]
fn resumption_takes_the_furthest_of_all() {
    let none: Vec<String> = vec![];
    let start = collect_resume_state(None, &none, &none);
    assert_eq!(start.completed_epochs, 0);
    assert_eq!(start.elapsed_offset_secs, double(0.0));

    let lines = strings(&[
        "{\"epochs\":9,\"total_secs\":50.5}",
        "garbage",
        "{\"epoch\":4,\"elapsed_secs\":70.25}",
        "{\"epoch\":1,\"epochs\":99,\"elapsed_secs\":-3.0}",
    ]);
    let state = collect_resume_state(Some("elsewhere"), &none, &lines);
    assert_eq!(state.completed_epochs, 9);
    assert_eq!(state.elapsed_offset_secs, double(70.25));
}

#[test]
fn checkpoint_names_tell_their_epoch() {
    for epoch in [0, 1, 12, 345] {
        assert_eq!(checkpoint_epoch_from_name(&checkpoint_name(epoch)), Some(epoch));
    }
    assert_eq!(checkpoint_name(12), "speech-aligner-epoch-12");
    assert_eq!(checkpoint_epoch_from_name("speech-aligner-final"), None);
    assert_eq!(checkpoint_epoch_from_name("speech-aligner-epoch-x"), None);
    assert_eq!(checkpoint_epoch_from_name("speech-aligner-epoch-"), None);
}

// ---------------------------------------------------------------------------
// Arguments and extraction
// ---------------------------------------------------------------------------

fn real_args() -> TrainRealArgs {
    TrainRealArgs {
        data_dir: "/data".to_owned(),
        split: "dev".to_owned(),
        epochs: 2,
        batch_size: 4,
        learning_rate: double(0.001),
        checkpoint_dir: "/out".to_owned(),
        checkpoint_interval: 1,
        max_duration_secs: single(15.0),
        feature_mode: FeatureMode::Mfcc39,
    }
}

fn precomputed_args() -> TrainPrecomputedArgs {
    TrainPrecomputedArgs {
        cache_dir: "/cache".to_owned(),
        epochs: 3,
        max_attn_elements: 1000,
        max_samples_per_batch: 8,
        learning_rate: double(0.001),
        checkpoint_dir: "/out".to_owned(),
        checkpoint_interval: 0,
        resume_from: None,
    }
}

#[test]
fn empty_batches_are_refused() {
    assert!(validate_train_real(&real_args()).is_ok());
    let mut real = real_args();
    real.batch_size = 0;
    assert_eq!(
        validate_train_real(&real),
        Err(Error::Config("batch_size must be > 0".to_owned()))
    );
    assert!(validate_train_precomputed(&precomputed_args()).is_ok());
    let mut pre = precomputed_args();
    pre.max_samples_per_batch = 0;
    assert_eq!(
        validate_train_precomputed(&pre),
        Err(Error::Config("max_samples_per_batch must be > 0".to_owned()))
    );
    pre.max_attn_elements = 0;
    assert_eq!(
        validate_train_precomputed(&pre),
        Err(Error::Config("max_attn_elements must be > 0".to_owned()))
    );
}

#[test]
fn extraction_is_tallied() {
    let mut tally = ExtractionTally::new();
    assert_eq!(
        tally.finish(),
        Err(Error::Config(
            "No valid training samples after processing".to_owned()
        ))
    );
    tally.record(Some(2));
    tally.record(None);
    tally.record(Some(1));
    assert_eq!(
        tally.finish(),
        Ok("  Final: 2 samples, 1 skipped, 3 total OOV words".to_owned())
    );
    assert_eq!(tally.progress(3, 1000), None);
    assert_eq!(
        tally.progress(500, 1000),
        Some("  Processed 500/1000 (skipped: 1, OOV words: 3)".to_owned())
    );
    assert!(tally.progress(3, 3).is_some());
}

// ---------------------------------------------------------------------------
// The run
// ---------------------------------------------------------------------------

fn play(mut run: TrainRun, batches: usize, loss: f32) -> Vec<String> {
    let mut log = Vec::new();
    loop {
        match run.action() {
            TrainAction::MakeBatches { epoch } => {
                log.push(format!("make {epoch}"));
                run.planned(batches);
            }
            TrainAction::Train {
                epoch, batch, emit, ..
            } => {
                log.push(format!("train {epoch} {batch}{}", if emit { " emit" } else { "" }));
                assert_eq!(run.trained(single(loss)), loss.is_finite());
            }
            TrainAction::CloseEpoch {
                epoch,
                batches,
                save,
            } => {
                log.push(format!("close {epoch} {batches}{}", if save { " save" } else { "" }));
                run.closed();
            }
            TrainAction::Finish => return log,
        }
    }
}

#[test]
fn odd_epochs_go_the_other_way_round() {
    assert_eq!(
        play(TrainRun::new(2, 3, 2, 2), 3, 1.0),
        vec![
            "make 4",
            "train 4 0",
            "train 4 1 emit",
            "train 4 2 emit",
            "close 4 3 save",
            "make 5",
            "train 5 2",
            "train 5 1 emit",
            "train 5 0 emit",
            "close 5 3",
        ]
    );
}

#[test]
fn batches_whose_loss_is_not_finite_do_not_count() {
    assert_eq!(
        play(TrainRun::new(1, 0, 50, 0), 2, f32::NAN),
        vec!["make 1", "train 1 0", "train 1 1 emit", "close 1 0"]
    );
    assert_eq!(play(TrainRun::new(1, 0, 50, 0), 0, 1.0), vec!["make 1", "close 1 0"]);
    assert_eq!(play(TrainRun::new(0, 0, 50, 0), 1, 1.0), Vec::<String>::new());
}

#[test]
fn the_loss_reduction_needs_two_numbers() {
    assert_eq!(
        loss_reduction(&vec![single(2.0), single(9.0), single(1.0)]),
        Some((single(2.0), single(1.0)))
    );
    assert_eq!(loss_reduction(&vec![]), None);
    assert_eq!(loss_reduction(&vec![single(0.0), single(1.0)]), None);
    assert_eq!(loss_reduction(&vec![single(f32::EPSILON), single(1.0)]), None);
    assert!(loss_reduction(&vec![single(-2.0), single(1.0)]).is_some());
    assert_eq!(loss_reduction(&vec![single(2.0), single(f32::NAN)]), None);
}

// ---------------------------------------------------------------------------
// Lines and reports
// ---------------------------------------------------------------------------

#[test]
fn written_metric_lines_can_be_read() {
    let batch = batch_line(&TrainBatchMetrics {
        epoch: 3,
        batch: 10,
        total_batches: 20,
        batch_samples: 4,
        loss: "1.500000".to_owned(),
        samples_per_sec: "12.00".to_owned(),
        elapsed_secs: "7.5".to_owned(),
    });
    assert_eq!(
        batch,
        "{\"event\":\"batch\",\"epoch\":3,\"batch\":10,\"total_batches\":20,\"batch_samples\":4,\
         \"loss\":1.500000,\"samples_per_sec\":12.00,\"elapsed_secs\":7.5}\n"
    );
    assert_eq!(read_metric_line(&batch).epoch, Some(3));
    assert_eq!(read_metric_line(&batch).elapsed_secs, Some(double(7.5)));
    let epoch = epoch_line(&TrainEpochMetrics {
        epoch: 4,
        total_epochs: 5,
        avg_loss: "1.0".to_owned(),
        batches: 20,
        epoch_secs: "3.0".to_owned(),
        throughput: "26.7".to_owned(),
        elapsed_secs: "9.0".to_owned(),
        eta_secs: "2.3".to_owned(),
    });
    assert_eq!(read_metric_line(&epoch).epoch, Some(4));
    assert_eq!(read_metric_line(&epoch).elapsed_secs, Some(double(9.0)));
}

#[test]
fn the_training_report() {
    let losses = strings(&["2.000000", "1.000000"]);
    let text = write_training_report("D", &real_args(), "0.001", &losses, 42, 7, "cpu");
    assert_eq!(
        text,
        "# SpeechAligner Real-Data Training Report\n\n**Date**: D\n\
         **Burn Version**: 0.21.0-pre.2\n**Backend**: cpu\n\
         **Model**: SpeechAligner (4x ConvSE + Self-Attention + Triple Head)\n\
         **Parameters**: 42\n**Dataset**: /data\n**Split**: dev\n**Samples**: 7\n\
         **Epochs**: 2\n**Batch Size**: 4\n**Learning Rate**: 0.001\n**Checkpoint**: /out\n\n\
         ---\n\n## Loss Curve\n\n| Epoch | Avg Loss |\n|---|---|\n\
         | 1 | 2.000000 |\n| 2 | 1.000000 |\n\
         \n## Specification References\n\n- Data: LibriSpeech\n"
    );
    let now = generate_training_report(&real_args(), "0.001", &losses, 42, 7, "cpu");
    let date = now
        .lines()
        .find_map(|l| l.strip_prefix("**Date**: "))
        .expect("date");
    assert!(date.ends_with(" UTC"));
    assert_eq!(
        now,
        write_training_report(date, &real_args(), "0.001", &losses, 42, 7, "cpu")
    );
}

#[test]
fn the_precomputed_training_report() {
    let manifest = PrecomputedManifest {
        feature_dim: 39,
        num_samples: 7,
        total_frames: 700,
        total_oov: 3,
        data_dir: "/data".to_owned(),
        split: "dev".to_owned(),
        feature_mode: FeatureMode::Mfcc39,
        max_duration_secs: None,
        entries: vec![],
    };
    let mut run = PrecomputedRun {
        learning_rate: "0.001".to_owned(),
        duration_cap: None,
        losses: strings(&["1.000000"]),
        params: 42,
        num_samples: 7,
        backend_name: "cpu".to_owned(),
        attention_heads: 8,
    };
    let mut args = precomputed_args();
    let text = write_precomputed_report("D", &args, &manifest, &run);
    assert!(text.contains("**Duration Cap**: unknown (legacy manifest)\n"));
    assert!(!text.contains("Resume From"));
    assert!(text.contains("**Max Attention Elements**: 1000\n**Max Samples Per Batch**: 8\n"));
    assert!(text.contains("dynamic batching (`B × heads × T²`)\n"));
    assert!(text.ends_with(
        "| 1 | 1.000000 |\n\n## Specification References\n\n\
         - Data: LibriSpeech precomputed MFCC cache\n"
    ));
    run.duration_cap = Some("15.0".to_owned());
    args.resume_from = Some("/old".to_owned());
    let text = generate_precomputed_training_report(&args, &manifest, &run);
    assert!(text.contains("**Duration Cap**: 15.0s\n"));
    assert!(text.contains("**Checkpoint**: /out\n**Resume From**: /old\n\n---\n"));
}
