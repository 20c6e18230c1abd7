//! The feature cache.

use burn_speech_training::error::Error;
use burn_speech_training::g2p::CmuDict;
use burn_speech_training::ieee::Real32;
use burn_speech_training::mfcc::FeatureMode;
use burn_speech_training::precompute::{
    check_manifest, decode_binary_sample, encode_binary_sample, estimate_cache_size, load_entry,
    make_entry, sample_file_name, PrecomputeArgs, PrecomputeTally, PrecomputedEntry,
    PrecomputedManifest,
};

const MAGIC: [u8; 4] = *b"MFCC";

fn single(value: f32) -> Real32 {
    Real32::new(value.to_bits())
}

#[test]
fn test_binary_roundtrip() {
    let dim = FeatureMode::Mfcc39.feature_dim();
    let frames = vec![
        vec![single(1.0); dim],
        vec![single(2.0); dim],
        vec![single(3.0); dim],
    ];
    let targets = vec![0i32, 5, 10, 41];

    let data = encode_binary_sample("test.bin", &frames, dim, &targets).expect("write");
    let (loaded_frames, loaded_targets) =
        decode_binary_sample("test.bin", &data, 3, 4, dim).expect("load");

    assert_eq!(loaded_frames.len(), 3);
    assert_eq!(loaded_targets, vec![0, 5, 10, 41]);
    for (i, frame) in loaded_frames.iter().enumerate() {
        let expected = (i + 1) as f32;
        assert!((f32::from_bits(frame[0].bits) - expected).abs() < 1e-6);
    }
}

#[test]
fn test_binary_magic_validation() {
    let data = b"BAAD".to_vec();

    let result = decode_binary_sample("bad.bin", &data, 1, 1, FeatureMode::Mfcc39.feature_dim());
    assert!(result.is_err());
}

#[test]
fn test_binary_version_validation() {
    let mut data = Vec::new();
    data.extend_from_slice(&MAGIC);
    data.extend_from_slice(&99u32.to_le_bytes()); // bad version

    let result =
        decode_binary_sample("badver.bin", &data, 0, 0, FeatureMode::Mfcc39.feature_dim());
    assert!(result.is_err());
}

#[test]
fn test_size_mismatch_rejected() {
    let dim = FeatureMode::Mfcc39.feature_dim();
    let frames = vec![vec![single(1.0); dim]];
    let targets = vec![0i32];
    let data = encode_binary_sample("test.bin", &frames, dim, &targets).expect("write");

    // Request wrong counts
    let result = decode_binary_sample("test.bin", &data, 2, 1, dim);
    assert!(result.is_err());
}

// ---------------------------------------------------------------------------
// The file format
// ---------------------------------------------------------------------------

fn config_error<T>(r: Result<T, Error>) -> String {
    match r {
        Ok(_) => panic!("should be refused"),
        Err(Error::Config(m)) => m,
        Err(e) => panic!("other kind of error: {e:?}"),
    }
}

#[test]
fn sample_files_are_little_endian() {
    let data = encode_binary_sample("s", &vec![vec![single(1.0)], vec![single(-2.0)]], 1, &vec![258])
        .expect("encodes");
    let mut expected = b"MFCC".to_vec();
    expected.extend_from_slice(&1u32.to_le_bytes());
    expected.extend_from_slice(&2u32.to_le_bytes());
    expected.extend_from_slice(&1u32.to_le_bytes());
    expected.extend_from_slice(&1.0f32.to_le_bytes());
    expected.extend_from_slice(&(-2.0f32).to_le_bytes());
    expected.extend_from_slice(&258i32.to_le_bytes());
    assert_eq!(data, expected);
}

#[test]
fn frames_of_another_width_are_not_written() {
    let frames = vec![vec![single(0.0); 2], vec![single(0.0); 3]];
    assert_eq!(
        config_error(encode_binary_sample("s.bin", &frames, 2, &vec![])),
        "Feature frame width mismatch while writing s.bin: expected 2, got 3"
    );
}

fn header(version: u32, frames: u32, targets: u32) -> Vec<u8> {
    let mut data = b"MFCC".to_vec();
    for word in [version, frames, targets] {
        data.extend_from_slice(&word.to_le_bytes());
    }
    data
}

#[test]
fn each_fault_of_a_sample_file_is_told() {
    let read = |data: Vec<u8>| config_error(decode_binary_sample("f", &data, 1, 1, 1));
    assert_eq!(read(b"MF".to_vec()), "Corrupt file f: failed to fill whole buffer");
    assert_eq!(read(b"BAAD".to_vec()), "Bad magic in f");
    assert_eq!(read(b"MFCC".to_vec()), "Corrupt file f: failed to fill whole buffer");
    assert_eq!(read(header(99, 1, 1)), "Unsupported version 99 in f");
    assert_eq!(
        read(header(1, 100_001, 1)),
        "Unreasonable sizes in f: 100001f/1t (max 100000)"
    );
    assert_eq!(
        read(header(1, 2, 1)),
        "Size mismatch in f: expected 1f/1t, got 2f/1t"
    );
    assert_eq!(
        read(header(1, 1, 1)),
        "Corrupt feature data in f: failed to fill whole buffer"
    );
    let mut data = header(1, 1, 1);
    data.extend_from_slice(&[0; 4]);
    assert_eq!(
        read(data),
        "Corrupt target data in f: failed to fill whole buffer"
    );
}

// ---------------------------------------------------------------------------
// The manifest
// ---------------------------------------------------------------------------

fn entry(index: usize, frames: usize, targets: usize, oov: usize) -> PrecomputedEntry {
    PrecomputedEntry {
        index,
        num_frames: frames,
        num_targets: targets,
        oov_count: oov,
        audio_path: format!("{index}.wav"),
    }
}

fn args() -> PrecomputeArgs {
    PrecomputeArgs {
        data_dir: "/data".to_owned(),
        split: "train-clean-100".to_owned(),
        output_dir: "/cache".to_owned(),
        max_duration_secs: single(15.0),
        feature_mode: FeatureMode::Mfcc39,
    }
}

#[test]
fn the_tally_makes_the_manifest() {
    let mut tally = PrecomputeTally::new();
    tally.record(entry(0, 50, 10, 1));
    tally.skip();
    tally.record(entry(2, 60, 15, 2));
    assert_eq!(tally.skipped, 1);
    assert_eq!(tally.progress(3, 7), None);
    assert!(tally.progress(7, 7).expect("last").ends_with("1 skipped, 110 total frames"));
    let manifest = tally.finish(&args()).expect("samples");
    assert_eq!(manifest.num_samples, 2);
    assert_eq!(manifest.total_frames, 110);
    assert_eq!(manifest.total_oov, 3);
    assert_eq!(manifest.feature_dim, 39);
    assert_eq!(manifest.max_duration_secs, Some(single(15.0)));
    assert_eq!(
        estimate_cache_size(&manifest),
        (16 + 50 * 39 * 4 + 10 * 4) + (16 + 60 * 39 * 4 + 15 * 4)
    );
    assert!(check_manifest(&manifest).is_ok());
}

#[test]
fn nothing_extracted_is_an_error() {
    assert_eq!(
        config_error(PrecomputeTally::new().finish(&args())),
        "No valid samples after extraction"
    );
}

#[test]
fn a_manifest_needs_a_feature_dimension() {
    let manifest = PrecomputedManifest {
        feature_dim: 0,
        num_samples: 0,
        total_frames: 0,
        total_oov: 0,
        data_dir: String::new(),
        split: String::new(),
        feature_mode: FeatureMode::Mfcc39,
        max_duration_secs: None,
        entries: vec![],
    };
    assert_eq!(
        config_error(check_manifest(&manifest)),
        "Feature dimension mismatch: manifest has invalid feature_dim=0"
    );
}

#[test]
fn the_size_estimate_is_that_of_the_files() {
    let frames = vec![vec![single(0.5); 39]; 4];
    let data = encode_binary_sample("s", &frames, 39, &vec![1, 2, 3]).expect("encodes");
    let mut tally = PrecomputeTally::new();
    tally.record(entry(0, 4, 3, 0));
    let manifest = tally.finish(&args()).expect("one sample");
    assert_eq!(estimate_cache_size(&manifest), data.len());
}

#[test]
fn entries_are_made_and_loaded() {
    let dict = CmuDict::parse("cat K AE1 T\n");
    let (made, targets) = make_entry(5, 4, "CAT", &dict, "c.flac").expect("fits");
    assert_eq!(made.index, 5);
    assert_eq!(made.num_targets, 3);
    assert_eq!(sample_file_name(made.index), "sample_000005.bin");
    let frames = vec![vec![single(1.5); 2]; 4];
    let data = encode_binary_sample("x", &frames, 2, &targets).expect("encodes");
    let sample = load_entry("x", &data, &made, 2).expect("loads");
    assert_eq!(sample.feature_frames, frames);
    assert_eq!(sample.targets, targets);
    assert_eq!(
        config_error(make_entry(0, 2, "CAT", &dict, "c.flac")),
        "CTC constraint: 2 frames < 3 targets"
    );
}
