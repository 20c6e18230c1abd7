//! Frames of audio, shares of words and the shapes of layers.

use vstd::prelude::*;

use crate::attention::SelfAttentionConfig;
use crate::conv_block::ConvSEBlockConfig;
use crate::mfcc::FeatureMode;
use crate::model::SpeechAlignerConfig;
use crate::se_block::SEBlockConfig;
use crate::{mfcc, model};

verus! {

// ---------------------------------------------------------------------------
// Frames
// ---------------------------------------------------------------------------

/// Audio has a frame for every 160 samples on which one of 400 can start.
pub proof fn law_frames_of_audio(samples: nat)
    requires
        samples >= 400,
    ensures
        mfcc::frames_in(samples) >= 1,
        160 * (mfcc::frames_in(samples) - 1) + 400 <= samples,
        samples < 160 * mfcc::frames_in(samples) + 400,
{
}

/// A frame has 39 coefficients, or 80 bands.
pub proof fn law_width_of_a_frame(mode: FeatureMode)
    ensures
        mode == FeatureMode::Mfcc39 ==> mode.dim() == 39 && mode.name() == "mfcc39"@,
        mode == FeatureMode::LogMel80 ==> mode.dim() == 80 && mode.name() == "logmel80"@,
{
}

/// The neighbours of a frame lie at the same distance on both sides; at the ends
/// the first frame and the last stand in for those that are missing.
pub proof fn law_neighbours_of_a_frame(t: int, n: int, d: int)
    requires
        0 <= t < n,
        0 <= d,
    ensures
        ({
            let (a, b) = mfcc::neighbours(t, n, d);
            &&& 0 <= a <= t <= b < n
            &&& t >= d ==> t - a == d
            &&& t < d ==> a == 0
            &&& t + d < n ==> b - t == d
            &&& t + d >= n ==> b == n - 1
            &&& mfcc::neighbours(n - 1 - t, n, d) == (n - 1 - b, n - 1 - a)
        }),
{
}

/// Frames are laid out one behind the other.
pub proof fn law_frames_are_laid_out_in_order<T>(a: Seq<Vec<T>>, b: Seq<Vec<T>>, frame: Vec<T>)
    ensures
        mfcc::flat(a + b) == mfcc::flat(a) + mfcc::flat(b),
        mfcc::flat(seq![frame]) == frame@,
    decreases b.len(),
{
    assert(seq![frame].drop_last() =~= Seq::<Vec<T>>::empty());
    assert(mfcc::flat(Seq::<Vec<T>>::empty()) =~= Seq::<T>::empty());
    assert(mfcc::flat(seq![frame]) =~= frame@);
    if b.len() == 0 {
        assert(a + b =~= a);
        assert(mfcc::flat(a + b) =~= mfcc::flat(a) + mfcc::flat(b));
    } else {
        law_frames_are_laid_out_in_order(a, b.drop_last(), frame);
        assert((a + b).drop_last() =~= a + b.drop_last());
        assert(mfcc::flat(a + b) =~= mfcc::flat(a) + mfcc::flat(b));
    }
}

/// Value `c` of frame `f` stands at place `f * dim + c`.
pub proof fn law_place_of_a_value<T>(frames: Seq<Vec<T>>, dim: int, f: int, c: int)
    requires
        forall|k: int| 0 <= k < frames.len() ==> (#[trigger] frames[k])@.len() == dim,
        0 <= f < frames.len(),
        0 <= c < dim,
    ensures
        mfcc::flat(frames).len() == frames.len() * dim,
        0 <= f * dim + c < frames.len() * dim,
        mfcc::flat(frames)[f * dim + c] == frames[f]@[c],
{
    mfcc::lemma_flat_cell(frames, dim, f, c);
}

// ---------------------------------------------------------------------------
// Shares
// ---------------------------------------------------------------------------

/// A word's share of the frames is in proportion: frame `t` is the word's exactly
/// where the end of the frame lies within the word's part of the utterance.
pub proof fn law_share_of_a_word(frames: int, words: int, position: int, t: int)
    requires
        frames > 0,
        words > 0,
        words * frames <= usize::MAX,
        0 <= position < words,
        0 <= t < frames,
    ensures
        (model::word_span(frames, words, position) matches Some((start, end)) && start <= t < end)
            <==> position * frames < (t + 1) * words && (t + 1) * words <= (position + 1) * frames,
{
    let p = position;
    assert(0 <= p * frames <= (p + 1) * frames && (p + 1) * frames <= words * frames) by (
    nonlinear_arith)
        requires
            0 <= p,
            p + 1 <= words,
            frames > 0,
    ;
    let start = model::word_bound(frames, words, p);
    let end = model::word_bound(frames, words, p + 1);
    vstd::arithmetic::div_mod::lemma_fundamental_div_mod(p * frames, words);
    vstd::arithmetic::div_mod::lemma_fundamental_div_mod((p + 1) * frames, words);
    let r0 = p * frames % words;
    let r1 = (p + 1) * frames % words;
    assert(start <= t <==> p * frames < (t + 1) * words) by (nonlinear_arith)
        requires
            p * frames == words * start + r0,
            0 <= r0 < words,
    ;
    assert(t < end <==> (t + 1) * words <= (p + 1) * frames) by (nonlinear_arith)
        requires
            (p + 1) * frames == words * end + r1,
            0 <= r1 < words,
    ;
    assert(end <= frames) by (nonlinear_arith)
        requires
            (p + 1) * frames == words * end + r1,
            0 <= r1 < words,
            (p + 1) * frames <= words * frames,
            words > 0,
    ;
}

/// A word beyond the sentence has no share, and nothing has one of no frames.
pub proof fn law_no_share(frames: int, words: int, position: int)
    ensures
        frames == 0 ==> model::word_span(frames, words, position) is None,
        words == 0 ==> model::word_span(frames, words, position) is None,
        position >= words ==> model::word_span(frames, words, position) is None,
        model::word_span(frames, words, position) matches Some((start, end)) ==> start < end
            <= frames,
{
}

// ---------------------------------------------------------------------------
// Layers
// ---------------------------------------------------------------------------

/// Each block takes what the one before it gives, and the first takes the input.
pub proof fn law_blocks_fit_together(config: SpeechAlignerConfig, i: int)
    requires
        0 < i < 4,
    ensures
        config.block(0).in_channels == config.input_dim,
        config.block(i).in_channels == config.block(i - 1).out_channels,
        config.block(i).out_channels == config.channels@[i],
        config.block(3).out_channels == config.width(),
        config.block(i).kernel_size == config.kernel_size,
        config.block(i).se_reduction == config.se_reduction,
        config.block(0).kernel_size == config.kernel_size,
        config.block(0).se_reduction == config.se_reduction,
        config.block(0).out_channels == config.channels@[0],
{
}

/// The standard model takes the input's width through blocks of 64, 128, 256 and
/// 512 channels to 42 classes, with eight heads.
pub proof fn law_standard_model(input_dim: usize, config: SpeechAlignerConfig)
    requires
        model::standard_model(input_dim, config),
    ensures
        config.valid(),
        config.block(0) == (ConvSEBlockConfig {
            in_channels: input_dim,
            out_channels: 64,
            kernel_size: 3,
            se_reduction: 8,
        }),
        config.block(1).out_channels == 128,
        config.block(2).out_channels == 256,
        config.width() == 512,
        config.num_classes == 42,
        config.n_heads == 8,
{
}

proof fn lemma_shared(width: nat, heads: nat)
    requires
        heads > 0,
    ensures
        width % heads == 0 <==> exists|each: nat| #[trigger] (heads * each) == width,
{
    vstd::arithmetic::div_mod::lemma_fundamental_div_mod(width as int, heads as int);
    if width % heads == 0 {
        let each = width / heads;
        assert(heads * each == width);
    }
    if exists|each: nat| #[trigger] (heads * each) == width {
        let each = choose|each: nat| #[trigger] (heads * each) == width;
        vstd::arithmetic::div_mod::lemma_mod_multiples_basic(each as int, heads as int);
        assert(each * heads == heads * each) by (nonlinear_arith);
    }
}

/// Attention can be had exactly where its heads share the width evenly.
pub proof fn law_heads_share_the_width(attention: SelfAttentionConfig, config: SpeechAlignerConfig)
    ensures
        attention.valid() <==> attention.n_heads > 0 && exists|each: nat| #[trigger]
            (attention.n_heads as nat * each) == attention.d_model as nat,
        config.valid() <==> config.n_heads > 0 && exists|each: nat| #[trigger]
            (config.n_heads as nat * each) == config.width() as nat,
{
    if attention.n_heads > 0 {
        lemma_shared(attention.d_model as nat, attention.n_heads as nat);
    }
    if config.n_heads > 0 {
        lemma_shared(config.width() as nat, config.n_heads as nat);
    }
}

/// The narrow layer of a block has one channel for as many as the reduction says,
/// and at least one.
pub proof fn law_width_of_the_narrow_layer(block: SEBlockConfig)
    ensures
        block.narrow() >= 1,
        block.reduction > 0 && block.channels >= block.reduction ==> block.narrow()
            * block.reduction <= block.channels < (block.narrow() + 1) * block.reduction,
        block.channels < block.reduction ==> block.narrow() == 1,
        block.reduction == 0 && block.channels > 0 ==> block.narrow() == block.channels,
        block.channels == 0 ==> block.narrow() == 1,
{
    let c = block.channels as int;
    let r = block.reduction as int;
    if r > 0 {
        vstd::arithmetic::div_mod::lemma_fundamental_div_mod(c, r);
        let q = c / r;
        let rest = c % r;
        assert(q * r <= c < (q + 1) * r) by (nonlinear_arith)
            requires
                c == r * q + rest,
                0 <= rest < r,
        ;
        assert(c >= r ==> q >= 1) by (nonlinear_arith)
            requires
                c == r * q + rest,
                0 <= rest < r,
        ;
        assert(c < r && c >= 0 ==> q == 0) by (nonlinear_arith)
            requires
                c == r * q + rest,
                0 <= rest < r,
        ;
    }
}

} // verus!
