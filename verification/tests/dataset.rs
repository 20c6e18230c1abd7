//! Utterances, samples and batches.

use burn_speech_training::dataset::{
    audio_file_name, bytes_per_second, check_sample_rate, create_batches, create_dynamic_batches,
    dynamic_spans, fixed_spans, is_trans_file, pad_batch, parse_trans_file, parse_trans_line,
    process_utterance, select_utterances, sort_by_frames, BatchData, Candidate, TrainingSample,
    UtteranceMeta,
};
use burn_speech_training::error::Error;
use burn_speech_training::g2p::CmuDict;
use burn_speech_training::grouping::group_by_name;
use burn_speech_training::ieee::Real32;
use burn_speech_training::mfcc::MFCC_DIM;

#[test]
fn test_estimate_duration_heuristic() {
    // 4KB should be ~1 second for FLAC
    let dur_flac = 4000.0_f32 / bytes_per_second("flac") as f32;
    assert!((dur_flac - 1.0).abs() < 0.1);

    // 32KB should be ~1 second for WAV
    let dur_wav = 32000.0_f32 / bytes_per_second("wav") as f32;
    assert!((dur_wav - 1.0).abs() < 0.1);
}

#[test]
fn test_parse_trans_line_format() {
    let line = "1234-5678-0001 THIS IS A TEST";
    let entry = parse_trans_line(line).expect("space");
    assert_eq!(entry.utt_id, "1234-5678-0001");
    assert_eq!(entry.transcript, "THIS IS A TEST");
}

#[test]
fn test_ctc_validity_check() {
    let min_frames_for_3_targets = 2 * 3 + 1; // = 7
    assert!(10 >= min_frames_for_3_targets);
    assert!(5 < min_frames_for_3_targets);
}

fn sample_with_frames(num_frames: usize) -> TrainingSample<f32> {
    TrainingSample {
        feature_frames: vec![vec![0.0f32; MFCC_DIM]; num_frames],
        feature_dim: MFCC_DIM,
        targets: vec![1; (num_frames / 5).max(1)],
        oov_count: 0,
    }
}

fn batch_sizes(batches: &[BatchData<f32>]) -> Vec<usize> {
    batches.iter().map(|batch| batch.input_lengths.len()).collect()
}

#[test]
fn test_dynamic_batches_respect_attention_budget() {
    let samples = vec![
        sample_with_frames(10),
        sample_with_frames(10),
        sample_with_frames(20),
    ];

    let (_, batches) = create_dynamic_batches(samples, 1_600, 16, 2, 0.0);

    assert_eq!(batch_sizes(&batches), vec![2, 1]);
}

#[test]
fn test_dynamic_batches_respect_max_samples_cap() {
    let samples = vec![
        sample_with_frames(8),
        sample_with_frames(8),
        sample_with_frames(8),
        sample_with_frames(8),
    ];

    let (_, batches) = create_dynamic_batches(samples, 1_000_000, 2, 1, 0.0);

    assert_eq!(batch_sizes(&batches), vec![2, 2]);
}

#[test]
fn test_dynamic_batches_fall_back_to_single_sample_when_needed() {
    let samples = vec![sample_with_frames(100), sample_with_frames(100)];

    let (_, batches) = create_dynamic_batches(samples, 1, 16, 8, 0.0);

    assert_eq!(batch_sizes(&batches), vec![1, 1]);
}

#[test]
fn test_dynamic_batches_scale_with_attention_head_count() {
    let one_head_samples = vec![
        sample_with_frames(50),
        sample_with_frames(50),
        sample_with_frames(50),
        sample_with_frames(50),
    ];
    let two_head_samples = vec![
        sample_with_frames(50),
        sample_with_frames(50),
        sample_with_frames(50),
        sample_with_frames(50),
    ];

    let (_, one_head_batches) = create_dynamic_batches(one_head_samples, 10_000, 16, 1, 0.0);
    let (_, two_head_batches) = create_dynamic_batches(two_head_samples, 10_000, 16, 2, 0.0);

    assert_eq!(batch_sizes(&one_head_batches), vec![4]);
    assert_eq!(batch_sizes(&two_head_batches), vec![2, 2]);
}

// ---------------------------------------------------------------------------
// Scanning
// ---------------------------------------------------------------------------

#[test]
fn transcript_files_are_read_line_by_line() {
    let entries = parse_trans_file("  1-2-3   GOOD DAY \r\n\nnoblank\n4-5-6 YES\n");
    let parts: Vec<(String, String)> = entries
        .into_iter()
        .map(|e| (e.utt_id, e.transcript))
        .collect();
    assert_eq!(
        parts,
        vec![
            ("1-2-3".to_owned(), "GOOD DAY".to_owned()),
            ("4-5-6".to_owned(), "YES".to_owned()),
        ]
    );
    assert!(parse_trans_line("noblank").is_none());
    assert!(is_trans_file("103-1240.trans.txt"));
    assert!(!is_trans_file("103-1240.txt"));
}

#[test]
fn flac_is_preferred_to_wav() {
    assert_eq!(audio_file_name("a", true, true), Some("a.flac".to_owned()));
    assert_eq!(audio_file_name("a", false, true), Some("a.wav".to_owned()));
    assert_eq!(audio_file_name("a", false, false), None);
}

#[test]
fn only_the_expected_sample_rate_is_accepted() {
    assert!(check_sample_rate(None, "x.wav").is_ok());
    assert!(check_sample_rate(Some(16_000), "x.wav").is_ok());
    assert_eq!(
        check_sample_rate(Some(44_100), "x.wav"),
        Err(Error::Config(
            "Audio sample rate 44100Hz != expected 16000Hz in x.wav".to_owned()
        ))
    );
}

fn candidate(name: &str, seconds: f32) -> Candidate {
    Candidate {
        meta: UtteranceMeta {
            audio_path: name.to_owned(),
            transcript: "A".to_owned(),
        },
        duration: Real32::new(seconds.to_bits()),
    }
}

#[test]
fn utterances_are_chosen_by_duration() {
    let longest = Real32::new(5.0f32.to_bits());
    let candidates = vec![
        candidate("short", 0.25),
        candidate("least", 0.5),
        candidate("most", 5.0),
        candidate("long", 5.5),
    ];
    let chosen = select_utterances(&candidates, longest, "/data", "dev").expect("some");
    let names: Vec<&str> = chosen.iter().map(|m| m.audio_path.as_str()).collect();
    assert_eq!(names, vec!["least", "most"]);

    let none = select_utterances(&vec![candidate("long", 9.0)], longest, "/data", "dev");
    assert!(matches!(
        none,
        Err(Error::Config(m)) if m == "No utterances found in /data/dev"
    ));
}

#[test]
fn groups_are_in_order_of_name_and_keep_their_members_in_order() {
    let names: Vec<String> = ["b", "a", "b", "c", "a"].iter().map(|s| (*s).to_owned()).collect();
    let groups: Vec<(String, Vec<usize>)> = group_by_name(&names)
        .into_iter()
        .map(|g| (g.name, g.members))
        .collect();
    assert_eq!(
        groups,
        vec![
            ("a".to_owned(), vec![1, 4]),
            ("b".to_owned(), vec![0, 2]),
            ("c".to_owned(), vec![3]),
        ]
    );
}

// ---------------------------------------------------------------------------
// Samples
// ---------------------------------------------------------------------------

fn meta(transcript: &str) -> UtteranceMeta {
    UtteranceMeta {
        audio_path: "a.flac".to_owned(),
        transcript: transcript.to_owned(),
    }
}

#[test]
fn an_utterance_needs_as_many_frames_as_targets() {
    let dict = CmuDict::parse("cat K AE1 T\n");
    let frames = |n: usize| vec![vec![0.5f32; 2]; n];

    let sample = process_utterance(&meta("CAT"), frames(3), 2, &dict).expect("fits");
    assert_eq!(sample.targets.len(), 3);
    assert_eq!(sample.feature_frames, frames(3));
    assert_eq!(sample.feature_dim, 2);
    assert_eq!(sample.oov_count, 0);

    let refused = process_utterance(&meta("CAT"), frames(2), 2, &dict);
    assert!(matches!(
        refused,
        Err(Error::Config(m))
            if m == "CTC constraint violated: 2 frames < target length 3 for a.flac"
    ));
    assert!(process_utterance(&meta("..."), frames(9), 2, &dict).is_err());
}

#[test]
fn samples_are_sorted_by_frames_and_equal_ones_keep_their_order() {
    let mut samples = vec![
        sample_with_frames(3),
        sample_with_frames(1),
        sample_with_frames(3),
        sample_with_frames(2),
    ];
    for (i, s) in samples.iter_mut().enumerate() {
        s.oov_count = i;
    }
    let sorted = sort_by_frames(samples);
    let order: Vec<usize> = sorted.iter().map(|s| s.oov_count).collect();
    assert_eq!(order, vec![1, 3, 0, 2]);
}

// ---------------------------------------------------------------------------
// Batches
// ---------------------------------------------------------------------------

#[test]
fn spans_cover_all_samples() {
    assert_eq!(fixed_spans(7, 3), vec![(0, 3), (3, 6), (6, 7)]);
    assert_eq!(fixed_spans(0, 3), vec![]);
    // 1 * 10 * 10 is above the limit already: single samples all the same.
    assert_eq!(dynamic_spans(&vec![10, 10], 50, 8, 1), vec![(0, 1), (1, 2)]);
    assert_eq!(dynamic_spans(&vec![2, 2, 4], 16, 8, 1), vec![(0, 2), (2, 3)]);
}

fn small(values: &[[i32; 2]], targets: &[i32]) -> TrainingSample<i32> {
    TrainingSample {
        feature_frames: values.iter().map(|f| f.to_vec()).collect(),
        feature_dim: 2,
        targets: targets.to_vec(),
        oov_count: 0,
    }
}

#[test]
fn batches_are_padded_with_zero() {
    let samples = vec![small(&[[1, 2]], &[7, 8]), small(&[[3, 4], [5, 6]], &[9])];
    let batch = pad_batch(&samples, 0, 2, 0);
    assert_eq!(batch.size, 2);
    assert_eq!(batch.max_time, 2);
    assert_eq!(batch.max_target, 2);
    assert_eq!(batch.feature_dim, 2);
    assert_eq!(batch.inputs, vec![1, 2, 0, 0, 3, 4, 5, 6]);
    assert_eq!(batch.targets, vec![7, 8, 9, 0]);
    assert_eq!(batch.input_lengths, vec![1, 2]);
    assert_eq!(batch.target_lengths, vec![2, 1]);
    assert_eq!(batch.pad_mask, vec![false, true, false, false]);
}

#[test]
fn fixed_batches_take_sorted_samples() {
    let samples = vec![
        small(&[[1, 1], [1, 1], [1, 1]], &[1]),
        small(&[[2, 2]], &[1]),
        small(&[[3, 3], [3, 3]], &[1]),
    ];
    let (sorted, batches) = create_batches(samples, 2, 0);
    let lengths: Vec<usize> = sorted.iter().map(|s| s.feature_frames.len()).collect();
    assert_eq!(lengths, vec![1, 2, 3]);
    let sizes: Vec<usize> = batches.iter().map(|b| b.size).collect();
    assert_eq!(sizes, vec![2, 1]);
    assert_eq!(batches[0].inputs, vec![2, 2, 0, 0, 3, 3, 3, 3]);
}
