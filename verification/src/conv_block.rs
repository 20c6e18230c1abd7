//! Convolution blocks: their dimensions.

use vstd::prelude::*;

use crate::se_block::SEBlockConfig;

verus! {

/// Configuration for a convolution block with a gate behind it.
#[derive(Debug, Clone, Copy, PartialEq, Eq, Structural)]
pub struct ConvSEBlockConfig {
    /// Input channels.
    pub in_channels: usize,
    /// Output channels.
    pub out_channels: usize,
    /// Kernel size (default: 3).
    pub kernel_size: usize,
    /// SE reduction ratio (default: 8).
    pub se_reduction: usize,
}

impl ConvSEBlockConfig {
    /// Create a new `ConvSE` block config.
    pub fn new(in_channels: usize, out_channels: usize) -> (r: Self)
        ensures
            r == (ConvSEBlockConfig { in_channels, out_channels, kernel_size: 3, se_reduction: 8 }),
    {
        ConvSEBlockConfig { in_channels, out_channels, kernel_size: 3, se_reduction: 8 }
    }

    /// Set the kernel size.
    pub fn with_kernel_size(self, kernel_size: usize) -> (r: Self)
        ensures
            r == (ConvSEBlockConfig { kernel_size, ..self }),
    {
        ConvSEBlockConfig { kernel_size, ..self }
    }

    /// Set the SE reduction ratio.
    pub fn with_se_reduction(self, se_reduction: usize) -> (r: Self)
        ensures
            r == (ConvSEBlockConfig { se_reduction, ..self }),
    {
        ConvSEBlockConfig { se_reduction, ..self }
    }

    /// The excitation behind the convolution: it has the block's output channels.
    pub fn gate(&self) -> (r: SEBlockConfig)
        ensures
            r == (SEBlockConfig { channels: self.out_channels, reduction: self.se_reduction }),
    {
        SEBlockConfig::new(self.out_channels).with_reduction(self.se_reduction)
    }
}

} // verus!
