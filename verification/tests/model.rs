//! Model dimensions, feature framing and text helpers.

use burn_speech_training::attention::SelfAttentionConfig;
use burn_speech_training::conv_block::ConvSEBlockConfig;
use burn_speech_training::error::Error;
use burn_speech_training::mfcc::{
    delta_neighbours, flatten_frames, frame_count, frame_span, join_cepstral, FeatureMode,
    FRAME_LEN,
};
use burn_speech_training::model::{proportional_word_frame_span, SpeechAlignerConfig};
use burn_speech_training::se_block::SEBlockConfig;
use burn_speech_training::text::{
    decimal_of, is_before, padded_decimal_of, parse_usize, signed_decimal_of, split_lines,
    split_whitespace,
};
use burn_speech_training::ui;

#[test]
fn test_proportional_word_frame_span_partitions_all_frames() {
    let spans = (0..3)
        .map(|word_position| proportional_word_frame_span(10, 3, word_position))
        .collect::<Vec<_>>();

    assert_eq!(spans, vec![Some((0, 3)), Some((3, 6)), Some((6, 10))]);
}

#[test]
fn test_invalid_head_count_returns_config_error() {
    let config = SpeechAlignerConfig {
        n_heads: 0,
        ..SpeechAlignerConfig::default()
    };

    let err = match config.plan() {
        Ok(_) => panic!("invalid config should be rejected"),
        Err(err) => err,
    };

    assert!(matches!(err, Error::Config { .. }));
}

#[test]
fn test_self_attention_rejects_invalid_head_count() {
    let err = match SelfAttentionConfig::new(32, 0).validate() {
        Ok(_) => panic!("zero attention heads should be rejected"),
        Err(err) => err,
    };

    assert!(matches!(err, Error::Config { .. }));
}

#[test]
fn attention_heads_must_divide_the_model() {
    assert!(SelfAttentionConfig::new(32, 5).validate().is_err());
    assert!(SelfAttentionConfig::new(32, 8).validate().is_ok());
}

#[test]
fn words_without_a_frame_have_no_span() {
    assert_eq!(proportional_word_frame_span(0, 3, 0), None);
    assert_eq!(proportional_word_frame_span(10, 0, 0), None);
    assert_eq!(proportional_word_frame_span(10, 3, 3), None);
    // More words than frames: the first word gets nothing.
    assert_eq!(proportional_word_frame_span(2, 3, 0), None);
    assert_eq!(proportional_word_frame_span(2, 3, 1), Some((0, 1)));
}

#[test]
fn spans_are_contiguous() {
    let mut at = 0;
    for word in 0..7 {
        let (start, end) = proportional_word_frame_span(100, 7, word).expect("span");
        assert_eq!(start, at);
        at = end;
    }
    assert_eq!(at, 100);
}

#[test]
fn the_plan_chains_the_layers() {
    let config = SpeechAlignerConfig::for_feature_mode(FeatureMode::LogMel80);
    let plan = config.plan().expect("valid");
    let widths: Vec<(usize, usize)> = plan
        .convs
        .iter()
        .map(|c| (c.in_channels, c.out_channels))
        .collect();
    let ch = config.channels;
    assert_eq!(
        widths,
        vec![(80, ch[0]), (ch[0], ch[1]), (ch[1], ch[2]), (ch[2], ch[3])]
    );
    assert_eq!(plan.attention.d_model, ch[3]);
    assert_eq!(plan.ctc_head, (ch[3], config.num_classes));
    assert_eq!(plan.boundary_head, (ch[3], 1));
    assert_eq!(SpeechAlignerConfig::with_input_dim(7).input_dim, 7);
}

#[test]
fn squeeze_widths() {
    assert_eq!(SEBlockConfig::new(64).bottleneck(), 8);
    assert_eq!(SEBlockConfig::new(4).bottleneck(), 1);
    assert_eq!(SEBlockConfig::new(4).with_reduction(0).bottleneck(), 4);
    assert_eq!(SEBlockConfig::new(64).with_reduction(16).bottleneck(), 4);
    let block = ConvSEBlockConfig::new(3, 32).with_se_reduction(4);
    assert_eq!(block.gate(), SEBlockConfig::new(32).with_reduction(4));
}

#[test]
fn feature_modes() {
    assert_eq!(FeatureMode::Mfcc39.feature_dim(), 39);
    assert_eq!(FeatureMode::LogMel80.feature_dim(), 80);
    assert_eq!(FeatureMode::Mfcc39.label(), "mfcc39");
    assert_eq!(FeatureMode::LogMel80.label(), "logmel80");
}

#[test]
fn test_extract_too_short() {
    let short = vec![0.0f32; FRAME_LEN - 1];
    assert!(frame_count(FeatureMode::Mfcc39, short.len()).is_err());
}

#[test]
fn frames_of_a_recording() {
    assert_eq!(frame_count(FeatureMode::Mfcc39, 400), Ok(1));
    assert_eq!(frame_count(FeatureMode::Mfcc39, 16_000), Ok(98));
    assert_eq!(frame_span(16_000, 97), (15_520, 15_920));
    let short = frame_count(FeatureMode::LogMel80, 399);
    assert_eq!(
        short,
        Err(Error::Config(
            "Audio too short for logmel80: 399 samples < 400 frame length".to_owned()
        ))
    );
}

#[test]
fn deltas_stop_at_the_ends() {
    assert_eq!(delta_neighbours(0, 5, 2), (0, 2));
    assert_eq!(delta_neighbours(2, 5, 2), (0, 4));
    assert_eq!(delta_neighbours(4, 5, 2), (2, 4));
}

#[test]
fn frames_are_joined_and_flattened() {
    assert_eq!(join_cepstral(&[1, 2], &[3, 4], &[5, 6]), vec![1, 2, 3, 4, 5, 6]);
    assert_eq!(flatten_frames(&[vec![1, 2], vec![3]]), vec![1, 2, 3]);
}

#[test]
fn numbers_as_text() {
    assert_eq!(decimal_of(0), "0");
    assert_eq!(decimal_of(u64::MAX), "18446744073709551615");
    assert_eq!(signed_decimal_of(-7), "-7");
    assert_eq!(signed_decimal_of(i32::MIN), "-2147483648");
    assert_eq!(padded_decimal_of(42, 6), "000042");
    assert_eq!(padded_decimal_of(1_234_567, 6), "1234567");
    for n in [0usize, 9, 10, 65_535, usize::MAX] {
        let digits: Vec<char> = decimal_of(n as u64).chars().collect();
        assert_eq!(parse_usize(&digits), Some(n));
    }
    for bad in ["", "x", "-1", "1x", "18446744073709551616"] {
        let chars: Vec<char> = bad.chars().collect();
        assert_eq!(parse_usize(&chars), bad.parse::<usize>().ok(), "{bad}");
    }
    let plus: Vec<char> = "+12".chars().collect();
    assert_eq!(parse_usize(&plus), "+12".parse::<usize>().ok());
}

#[test]
fn words_and_lines() {
    for text in ["", "  a\tb\u{a0}c \n", "one", "\u{2003}x\u{3000}y"] {
        let words: Vec<String> = split_whitespace(text)
            .into_iter()
            .map(|w| w.into_iter().collect())
            .collect();
        let expected: Vec<String> = text.split_whitespace().map(str::to_owned).collect();
        assert_eq!(words, expected);
    }
    for text in ["", "a\nb", "a\r\nb\n", "\n\n", "a\rb"] {
        let lines: Vec<String> = split_lines(text)
            .into_iter()
            .map(|w| w.into_iter().collect())
            .collect();
        let expected: Vec<String> = text.lines().map(str::to_owned).collect();
        assert_eq!(lines, expected);
    }
    assert!(is_before("a", "b"));
    assert!(is_before("a", "aa"));
    assert!(!is_before("b", "b"));
}

#[test]
fn console_lines() {
    assert_eq!(ui::section("message"), "=== message ===");
    assert_eq!(ui::step("message"), "  message");
    assert_eq!(ui::detail("message"), "    message");
    assert_eq!(ui::success("message"), "  [ok] message");
}
