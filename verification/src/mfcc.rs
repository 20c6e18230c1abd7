//! Feature modes and the framing of audio into feature frames.
//!
//! - `mfcc39`: 13 cepstral coefficients with their first and second time
//!   differences.
//! - `logmel80`: 80 log-mel energies.

use vstd::prelude::*;

use crate::error::{Error, ErrorView, Result};
use crate::text;
use crate::text::decimal_of;

verus! {

/// Sample rate expected by the feature pipeline.
pub const SAMPLE_RATE: usize = 16_000;

/// MFCC feature dimension (13 static + 13 delta + 13 delta-delta).
pub const MFCC_DIM: usize = 39;

/// Log-mel feature dimension.
pub const LOG_MEL_DIM: usize = 80;

/// Number of static MFCC coefficients before delta computation.
pub const NUM_CEPSTRAL: usize = 13;

/// FFT size.
pub const FFT_SIZE: usize = 512;

/// Frame length in samples (25ms @ 16kHz).
pub const FRAME_LEN: usize = 400;

/// Hop length in samples (10ms @ 16kHz).
pub const HOP_LEN: usize = 160;

/// Audio feature representation.
#[derive(Debug, Clone, Copy, PartialEq, Eq, Structural)]
pub enum FeatureMode {
    Mfcc39,
    LogMel80,
}

impl Default for FeatureMode {
    fn default() -> (r: Self)
        ensures
            r == FeatureMode::Mfcc39,
    {
        FeatureMode::Mfcc39
    }
}

impl FeatureMode {
    pub open spec fn name(self) -> Seq<char> {
        match self {
            FeatureMode::Mfcc39 => "mfcc39"@,
            FeatureMode::LogMel80 => "logmel80"@,
        }
    }

    pub open spec fn dim(self) -> usize {
        match self {
            FeatureMode::Mfcc39 => MFCC_DIM,
            FeatureMode::LogMel80 => LOG_MEL_DIM,
        }
    }

    /// Human-readable label for logs/reports.
    pub fn label(self) -> (r: &'static str)
        ensures
            r@ == self.name(),
    {
        match self {
            FeatureMode::Mfcc39 => "mfcc39",
            FeatureMode::LogMel80 => "logmel80",
        }
    }

    /// Feature dimension emitted per frame.
    pub fn feature_dim(self) -> (r: usize)
        ensures
            r == self.dim(),
    {
        match self {
            FeatureMode::Mfcc39 => MFCC_DIM,
            FeatureMode::LogMel80 => LOG_MEL_DIM,
        }
    }

    /// Number of triangular filters in the mel bank.
    pub fn mel_filter_count(self) -> (r: usize)
        ensures
            r == match self {
                FeatureMode::Mfcc39 => 40usize,
                FeatureMode::LogMel80 => LOG_MEL_DIM,
            },
    {
        match self {
            FeatureMode::Mfcc39 => 40,
            FeatureMode::LogMel80 => LOG_MEL_DIM,
        }
    }
}

/// Number of frames in `samples` samples, at least one frame long.
pub open spec fn frames_in(samples: nat) -> nat {
    ((samples - FRAME_LEN) / HOP_LEN as int + 1) as nat
}

/// Number of frames that audio of `samples` samples gives. Audio shorter than
/// one frame is refused.
pub fn frame_count(mode: FeatureMode, samples: usize) -> (r: Result<usize>)
    ensures
        match r {
            Ok(n) => samples >= FRAME_LEN && n == frames_in(samples as nat),
            Err(e) => samples < FRAME_LEN && e@ == ErrorView::Config(
                "Audio too short for "@ + mode.name() + ": "@ + text::decimal(samples as nat)
                    + " samples < 400 frame length"@,
            ),
        },
{
    if samples < FRAME_LEN {
        let mut msg = "Audio too short for ".to_owned();
        msg.append(mode.label());
        msg.append(": ");
        let count = decimal_of(samples as u64);
        msg.append(count.as_str());
        msg.append(" samples < 400 frame length");
        return Err(Error::config(msg.as_str()));
    }
    Ok((samples - FRAME_LEN) / HOP_LEN + 1)
}

/// The samples of frame `index`: the first one, and the one after the last.
pub fn frame_span(samples: usize, index: usize) -> (r: (usize, usize))
    requires
        samples >= FRAME_LEN,
        index < frames_in(samples as nat),
    ensures
        r.0 == index * HOP_LEN,
        r.1 == r.0 + FRAME_LEN,
        r.1 <= samples,
{
    assert(index * HOP_LEN <= samples - FRAME_LEN) by {
        law_frames_fit(samples as nat, index as nat);
    }
    let start: usize = index * HOP_LEN;
    (start, start + FRAME_LEN)
}

/// Every frame lies within the samples, and one frame more would not.
pub proof fn law_frames_fit(samples: nat, index: nat)
    requires
        samples >= FRAME_LEN,
    ensures
        index < frames_in(samples) <==> index * HOP_LEN + FRAME_LEN <= samples,
{
}

/// The frames before and after `t` at distance `d` that a time difference is
/// taken of; at the ends, the first and the last frame stand in.
pub open spec fn neighbours(t: int, n: int, d: int) -> (int, int) {
    (
        if t - d > 0 {
            t - d
        } else {
            0
        },
        if t + d < n - 1 {
            t + d
        } else {
            n - 1
        },
    )
}

/// The frames on the two sides of frame `t` of `n` that the time difference at
/// distance `d` is taken of.
pub fn delta_neighbours(t: usize, n: usize, d: usize) -> (r: (usize, usize))
    requires
        t < n,
    ensures
        (r.0 as int, r.1 as int) == neighbours(t as int, n as int, d as int),
        r.0 <= t <= r.1 < n,
{
    let before: usize = if t > d {
        t - d
    } else {
        0
    };
    let after: usize = if d < n - 1 - t {
        t + d
    } else {
        n - 1
    };
    (before, after)
}

/// One MFCC frame: the static coefficients, their first and their second time
/// differences.
pub fn join_cepstral<T: Copy>(statics: &[T], deltas: &[T], delta_deltas: &[T]) -> (r: Vec<T>)
    ensures
        r@ == statics@ + deltas@ + delta_deltas@,
{
    let mut out: Vec<T> = Vec::new();
    append_slice(&mut out, statics);
    append_slice(&mut out, deltas);
    append_slice(&mut out, delta_deltas);
    assert(out@ =~= statics@ + deltas@ + delta_deltas@);
    out
}

/// Appends the items of `tail` to `out`.
pub(crate) fn append_slice<T: Copy>(out: &mut Vec<T>, tail: &[T])
    ensures
        final(out)@ == old(out)@ + tail@,
{
    let n: usize = tail.len();
    let mut i: usize = 0;
    assert(out@ =~= old(out)@ + tail@.take(0));
    while i < n
        invariant
            n == tail@.len(),
            i <= n,
            out@ == old(out)@ + tail@.take(i as int),
        decreases n - i,
    {
        out.push(tail[i]);
        assert(tail@.take(i + 1) =~= tail@.take(i as int).push(tail@[i as int]));
        assert(out@ =~= old(out)@ + tail@.take(i + 1));
        i = i + 1;
    }
    assert(tail@.take(n as int) =~= tail@);
}

/// The frames of an utterance one after the other.
pub open spec fn flat<T>(frames: Seq<Vec<T>>) -> Seq<T>
    decreases frames.len(),
{
    if frames.len() == 0 {
        seq![]
    } else {
        flat(frames.drop_last()) + frames.last()@
    }
}

/// The data of an utterance as one row after the other.
pub fn flatten_frames<T: Copy>(frames: &[Vec<T>]) -> (r: Vec<T>)
    ensures
        r@ == flat(frames@),
{
    let n: usize = frames.len();
    let mut out: Vec<T> = Vec::new();
    let mut i: usize = 0;
    assert(frames@.take(0) =~= Seq::<Vec<T>>::empty());
    while i < n
        invariant
            n == frames@.len(),
            i <= n,
            out@ == flat(frames@.take(i as int)),
        decreases n - i,
    {
        let ghost upto = frames@.take(i + 1);
        assert(upto.drop_last() =~= frames@.take(i as int));
        append_slice(&mut out, frames[i].as_slice());
        i = i + 1;
    }
    assert(frames@.take(n as int) =~= frames@);
    out
}

/// Frame by frame, `flat` holds what the frames hold.
pub proof fn lemma_flat_cell<T>(frames: Seq<Vec<T>>, dim: int, f: int, c: int)
    requires
        forall|k: int| 0 <= k < frames.len() ==> (#[trigger] frames[k])@.len() == dim,
    ensures
        flat(frames).len() == frames.len() * dim,
        0 <= f < frames.len() && 0 <= c < dim ==> flat(frames)[f * dim + c] == frames[f]@[c],
        0 <= f < frames.len() && 0 <= c < dim ==> 0 <= f * dim + c < frames.len() * dim,
    decreases frames.len(),
{
    let n = frames.len() as int;
    if n == 0 {
        assert(n * dim == 0) by (nonlinear_arith)
            requires
                n == 0,
        ;
    } else {
        lemma_flat_cell(frames.drop_last(), dim, f, c);
        assert(frames[n - 1]@.len() == dim);
        assert((n - 1) * dim + dim == n * dim) by (nonlinear_arith);
        if 0 <= f < n && 0 <= c < dim {
            assert(0 <= f * dim + c < n * dim) by (nonlinear_arith)
                requires
                    0 <= f < n,
                    0 <= c < dim,
            ;
            if f < n - 1 {
                assert(frames.drop_last()[f] == frames[f]);
            }
        }
    }
}

} // verus!
