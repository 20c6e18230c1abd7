//! Squeeze-and-excitation: the dimensions of the channel weighting.

use vstd::prelude::*;

verus! {

/// Configuration for a Squeeze-and-Excitation block.
#[derive(Debug, Clone, Copy, PartialEq, Eq, Structural)]
pub struct SEBlockConfig {
    /// Number of input/output channels.
    pub channels: usize,
    /// Reduction ratio for the bottleneck (default: 8).
    pub reduction: usize,
}

impl SEBlockConfig {
    /// Create a new SE block config.
    pub fn new(channels: usize) -> (r: Self)
        ensures
            r == (SEBlockConfig { channels, reduction: 8 }),
    {
        SEBlockConfig { channels, reduction: 8 }
    }

    /// Set the reduction ratio.
    pub fn with_reduction(self, reduction: usize) -> (r: Self)
        ensures
            r == (SEBlockConfig { reduction, ..self }),
    {
        SEBlockConfig { reduction, ..self }
    }

    /// The width of the bottleneck: a reduction of zero counts as one, and the
    /// bottleneck is never empty.
    pub open spec fn narrow(self) -> nat {
        let reduction = if self.reduction == 0 {
            1nat
        } else {
            self.reduction as nat
        };
        let width = self.channels as nat / reduction;
        if width == 0 {
            1
        } else {
            width
        }
    }

    /// The width of the bottleneck between the two layers of the channel weighting.
    pub fn bottleneck(&self) -> (r: usize)
        ensures
            r == self.narrow(),
            r >= 1,
    {
        let reduction: usize = if self.reduction == 0 {
            1
        } else {
            self.reduction
        };
        let width: usize = self.channels / reduction;
        if width == 0 {
            1
        } else {
            width
        }
    }
}

} // verus!
