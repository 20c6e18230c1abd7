//! The acoustic model: its dimensions, and where the words of an utterance lie
//! in its frames.
//!
//! Four convolution blocks, self-attention and three output heads (phonemes,
//! boundaries, alignment).

use vstd::prelude::*;

use crate::attention::SelfAttentionConfig;
use crate::conv_block::ConvSEBlockConfig;
use crate::error::{Error, ErrorView, Result};
use crate::mfcc::FeatureMode;
use crate::text;
use crate::text::decimal_of;

verus! {

/// Configuration for the `SpeechAligner` model.
#[derive(Debug, Clone, Copy)]
pub struct SpeechAlignerConfig {
    /// Input feature dimension (e.g., 39 for MFCC).
    pub input_dim: usize,
    /// Number of output classes (phonemes + blank for CTC).
    pub num_classes: usize,
    /// Number of attention heads.
    pub n_heads: usize,
    /// SE reduction ratio (passed through to `ConvSEBlockConfig`).
    pub se_reduction: usize,
    /// Channel widths for the 4 conv blocks.
    pub channels: [usize; 4],
    /// Conv kernel size.
    pub kernel_size: usize,
}

/// The default model for features of the given dimension.
pub open spec fn standard_model(input_dim: usize, config: SpeechAlignerConfig) -> bool {
    &&& config.input_dim == input_dim
    &&& config.num_classes == 42
    &&& config.n_heads == 8
    &&& config.se_reduction == 8
    &&& config.channels@ == seq![64usize, 128usize, 256usize, 512usize]
    &&& config.kernel_size == 3
}

impl Default for SpeechAlignerConfig {
    fn default() -> (r: Self)
        ensures
            standard_model(39, r),
    {
        let r = SpeechAlignerConfig {
            input_dim: 39,
            num_classes: 42,
            n_heads: 8,
            se_reduction: 8,
            channels: [64, 128, 256, 512],
            kernel_size: 3,
        };
        assert(r.channels@ =~= seq![64usize, 128usize, 256usize, 512usize]);
        r
    }
}

/// The dimensions of every layer of a model.
pub struct LayerPlan {
    /// The convolution blocks, from the input on.
    pub convs: Vec<ConvSEBlockConfig>,
    pub attention: SelfAttentionConfig,
    /// Input and output width of the phoneme head.
    pub phoneme_head: (usize, usize),
    /// Input and output width of the boundary head.
    pub boundary_head: (usize, usize),
    /// Input and output width of the alignment head.
    pub ctc_head: (usize, usize),
}

impl SpeechAlignerConfig {
    /// Build a config for the requested input feature representation.
    pub fn for_feature_mode(feature_mode: FeatureMode) -> (r: Self)
        ensures
            standard_model(feature_mode.dim(), r),
    {
        SpeechAlignerConfig::with_input_dim(feature_mode.feature_dim())
    }

    /// Build a config with an explicit input feature dimension.
    pub fn with_input_dim(input_dim: usize) -> (r: Self)
        ensures
            standard_model(input_dim, r),
    {
        let mut config = SpeechAlignerConfig::default();
        config.input_dim = input_dim;
        config
    }

    /// The width of the features behind the last convolution block.
    pub open spec fn width(self) -> usize {
        self.channels@[3]
    }

    /// Whether a model can be built: the heads share the model width evenly.
    pub open spec fn valid(self) -> bool {
        self.n_heads > 0 && self.width() as nat % self.n_heads as nat == 0
    }

    /// Block `i`: from the input, or the block before, to the block's own
    /// channels.
    pub open spec fn block(self, i: int) -> ConvSEBlockConfig {
        ConvSEBlockConfig {
            in_channels: if i == 0 {
                self.input_dim
            } else {
                self.channels@[i - 1]
            },
            out_channels: self.channels@[i],
            kernel_size: self.kernel_size,
            se_reduction: self.se_reduction,
        }
    }

    fn conv(&self, in_channels: usize, out_channels: usize) -> (r: ConvSEBlockConfig)
        ensures
            r == (ConvSEBlockConfig {
                in_channels,
                out_channels,
                kernel_size: self.kernel_size,
                se_reduction: self.se_reduction,
            }),
    {
        ConvSEBlockConfig::new(in_channels, out_channels).with_kernel_size(
            self.kernel_size,
        ).with_se_reduction(self.se_reduction)
    }

    /// The dimensions of every layer, or why no model can be built.
    pub fn plan(&self) -> (r: Result<LayerPlan>)
        ensures
            match r {
                Ok(plan) => {
                    &&& self.valid()
                    &&& plan.convs@ == seq![
                        self.block(0),
                        self.block(1),
                        self.block(2),
                        self.block(3),
                    ]
                    &&& plan.attention.d_model == self.width()
                    &&& plan.attention.n_heads == self.n_heads
                    &&& plan.attention.dropout.bits == 0
                    &&& plan.attention.valid()
                    &&& plan.phoneme_head == (self.width(), self.num_classes)
                    &&& plan.boundary_head == (self.width(), 1usize)
                    &&& plan.ctc_head == (self.width(), self.num_classes)
                },
                Err(e) => !self.valid() && e@ == if self.n_heads == 0 {
                    ErrorView::Config("SpeechAlignerConfig.n_heads must be > 0"@)
                } else {
                    ErrorView::Config(
                        "SpeechAlignerConfig.channels[3] ("@ + text::decimal(self.width() as nat)
                            + ") must be divisible by n_heads ("@ + text::decimal(
                            self.n_heads as nat,
                        ) + ")"@,
                    )
                },
            },
    {
        let d_model: usize = self.channels[3];
        if self.n_heads == 0 {
            return Err(Error::config("SpeechAlignerConfig.n_heads must be > 0"));
        }
        if d_model % self.n_heads != 0 {
            let mut msg = "SpeechAlignerConfig.channels[3] (".to_owned();
            let dim = decimal_of(d_model as u64);
            msg.append(dim.as_str());
            msg.append(") must be divisible by n_heads (");
            let heads = decimal_of(self.n_heads as u64);
            msg.append(heads.as_str());
            msg.append(")");
            return Err(Error::config(msg.as_str()));
        }
        let convs: Vec<ConvSEBlockConfig> = vec![
            self.conv(self.input_dim, self.channels[0]),
            self.conv(self.channels[0], self.channels[1]),
            self.conv(self.channels[1], self.channels[2]),
            self.conv(self.channels[2], self.channels[3]),
        ];
        assert(convs@ =~= seq![self.block(0), self.block(1), self.block(2), self.block(3)]);
        let attention = SelfAttentionConfig::new(d_model, self.n_heads);
        Ok(
            LayerPlan {
                convs,
                attention,
                phoneme_head: (d_model, self.num_classes),
                boundary_head: (d_model, 1),
                ctc_head: (d_model, self.num_classes),
            },
        )
    }
}

// ---------------------------------------------------------------------------
// Word spans
// ---------------------------------------------------------------------------

pub open spec fn saturated(n: int) -> int {
    if n > usize::MAX {
        usize::MAX as int
    } else {
        n
    }
}

/// The frame at which word `position` of `words` starts when the words share
/// the frames evenly.
pub open spec fn word_bound(frames: int, words: int, position: int) -> int {
    saturated(position * frames) / words
}

/// The frames of one word; `None` where the word does not exist, and where it
/// gets no frame.
pub open spec fn word_span(frames: int, words: int, position: int) -> Option<(int, int)> {
    if frames == 0 || words == 0 || position >= words {
        None
    } else {
        let start = word_bound(frames, words, position);
        let end = word_bound(frames, words, position + 1);
        if start >= end || end > frames {
            None
        } else {
            Some((start, end))
        }
    }
}

/// Estimate a word's frame span by partitioning the utterance proportionally.
///
/// This keeps the entire frame axis covered without floating-point rounding
/// drift.
pub fn proportional_word_frame_span(
    num_frames: usize,
    num_words: usize,
    word_position: usize,
) -> (r: Option<(usize, usize)>)
    ensures
        match r {
            Some((start, end)) => word_span(
                num_frames as int,
                num_words as int,
                word_position as int,
            ) == Some((start as int, end as int)) && start < end <= num_frames,
            None => word_span(num_frames as int, num_words as int, word_position as int) is None,
        },
{
    if num_frames == 0 || num_words == 0 || word_position >= num_words {
        return None;
    }
    let start: usize = saturating_product(word_position, num_frames) / num_words;
    let end: usize = saturating_product(word_position + 1, num_frames) / num_words;
    if start >= end || end > num_frames {
        return None;
    }
    Some((start, end))
}

fn saturating_product(a: usize, b: usize) -> (r: usize)
    ensures
        r == saturated(a * b),
{
    match a.checked_mul(b) {
        Some(p) => p,
        None => usize::MAX,
    }
}

proof fn lemma_bounds(frames: int, words: int, position: int)
    requires
        frames > 0,
        words > 0,
        words * frames <= usize::MAX,
        0 <= position <= words,
    ensures
        0 <= word_bound(frames, words, position) <= frames,
        position == 0 ==> word_bound(frames, words, position) == 0,
        position == words ==> word_bound(frames, words, position) == frames,
        word_bound(frames, words, position) == position * frames / words,
{
    assert(0 <= position * frames <= words * frames) by (nonlinear_arith)
        requires
            0 <= position <= words,
            frames > 0,
    ;
    assert(position * frames / words <= frames) by (nonlinear_arith)
        requires
            position * frames <= words * frames,
            words > 0,
    ;
    assert(position * frames / words >= 0) by (nonlinear_arith)
        requires
            position * frames >= 0,
            words > 0,
    ;
    if position == words {
        assert(words * frames / words == frames) by (nonlinear_arith)
            requires
                words > 0,
        ;
    }
    if position == 0 {
        assert(position * frames == 0) by (nonlinear_arith)
            requires
                position == 0,
        ;
    }
}

proof fn lemma_bounds_grow(frames: int, words: int, p: int, q: int)
    requires
        frames > 0,
        words > 0,
        words * frames <= usize::MAX,
        0 <= p <= q <= words,
    ensures
        word_bound(frames, words, p) <= word_bound(frames, words, q),
{
    lemma_bounds(frames, words, p);
    lemma_bounds(frames, words, q);
    assert(p * frames / words <= q * frames / words) by (nonlinear_arith)
        requires
            0 <= p <= q,
            frames > 0,
            words > 0,
    ;
}

/// The spans follow each other without a gap: the first starts at frame 0,
/// each ends where the next starts, and the last ends with the utterance.
pub proof fn law_spans_are_contiguous(frames: int, words: int, position: int)
    requires
        frames > 0,
        words > 0,
        words * frames <= usize::MAX,
        0 <= position < words,
    ensures
        word_bound(frames, words, 0) == 0,
        word_bound(frames, words, words) == frames,
        match word_span(frames, words, position) {
            Some((start, end)) => start == word_bound(frames, words, position) && end
                == word_bound(frames, words, position + 1),
            None => word_bound(frames, words, position) == word_bound(frames, words, position + 1),
        },
{
    lemma_bounds(frames, words, 0);
    lemma_bounds(frames, words, words);
    lemma_bounds(frames, words, position);
    lemma_bounds(frames, words, position + 1);
    lemma_bounds_grow(frames, words, position, position + 1);
}

/// Where there are at least as many frames as words, every word gets a frame.
pub proof fn law_every_word_has_a_span(frames: int, words: int, position: int)
    requires
        words > 0,
        frames >= words,
        words * frames <= usize::MAX,
        0 <= position < words,
    ensures
        word_span(frames, words, position) is Some,
{
    lemma_bounds(frames, words, position);
    lemma_bounds(frames, words, position + 1);
    assert((position + 1) * frames / words >= position * frames / words + 1) by (nonlinear_arith)
        requires
            words > 0,
            frames >= words,
            position >= 0,
    ;
}

pub open spec fn covers(frames: int, words: int, position: int, frame: int) -> bool {
    word_span(frames, words, position) matches Some((start, end)) && start <= frame < end
}

proof fn lemma_covering_word(frames: int, words: int, frame: int, upto: int) -> (position: int)
    requires
        frames > 0,
        words > 0,
        words * frames <= usize::MAX,
        0 < upto <= words,
        0 <= frame < word_bound(frames, words, upto),
    ensures
        0 <= position < upto,
        covers(frames, words, position, frame),
    decreases upto,
{
    lemma_bounds(frames, words, 0);
    lemma_bounds(frames, words, upto - 1);
    lemma_bounds(frames, words, upto);
    if word_bound(frames, words, upto - 1) <= frame {
        upto - 1
    } else {
        lemma_covering_word(frames, words, frame, upto - 1)
    }
}

/// The words partition the frames: every frame belongs to exactly one word.
pub proof fn law_words_partition_frames(frames: int, words: int, frame: int)
    requires
        words > 0,
        words * frames <= usize::MAX,
        0 <= frame < frames,
    ensures
        exists|p: int| 0 <= p < words && #[trigger] covers(frames, words, p, frame),
        forall|p: int, q: int|
            0 <= p < words && 0 <= q < words && #[trigger] covers(frames, words, p, frame)
                && #[trigger] covers(frames, words, q, frame) ==> p == q,
{
    lemma_bounds(frames, words, words);
    let p = lemma_covering_word(frames, words, frame, words);
    assert forall|p: int, q: int|
        0 <= p < words && 0 <= q < words && #[trigger] covers(frames, words, p, frame)
            && #[trigger] covers(frames, words, q, frame) implies p == q by {
        if p < q {
            lemma_bounds_grow(frames, words, p + 1, q);
        } else if q < p {
            lemma_bounds_grow(frames, words, q + 1, p);
        }
    }
}

} // verus!
