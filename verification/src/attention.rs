//! Self-attention: what a configuration has to fulfil.

use vstd::prelude::*;

use crate::error::{Error, ErrorView, Result};
use crate::ieee::Real64;
use crate::text;
use crate::text::decimal_of;

verus! {

/// Configuration for the self-attention layer.
#[derive(Debug, Clone, Copy, PartialEq, Eq, Structural)]
pub struct SelfAttentionConfig {
    /// Model dimension (must match input feature dim).
    pub d_model: usize,
    /// Number of attention heads.
    pub n_heads: usize,
    /// Dropout rate (default: zero for deterministic training).
    pub dropout: Real64,
}

impl SelfAttentionConfig {
    /// Create a new self-attention config.
    pub fn new(d_model: usize, n_heads: usize) -> (r: Self)
        ensures
            r == (SelfAttentionConfig { d_model, n_heads, dropout: Real64 { bits: 0 } }),
    {
        SelfAttentionConfig { d_model, n_heads, dropout: Real64 { bits: 0 } }
    }

    /// Whether the heads share the model dimension evenly.
    pub open spec fn valid(self) -> bool {
        self.n_heads > 0 && self.d_model as nat % self.n_heads as nat == 0
    }

    /// Refuses a configuration without heads, and one whose heads do not share
    /// the model dimension evenly.
    pub fn validate(&self) -> (r: Result<()>)
        ensures
            match r {
                Ok(_) => self.valid(),
                Err(e) => !self.valid() && e@ == if self.n_heads == 0 {
                    ErrorView::Config("SelfAttentionConfig.n_heads must be > 0"@)
                } else {
                    ErrorView::Config(
                        "SelfAttentionConfig.d_model ("@ + text::decimal(self.d_model as nat)
                            + ") must be divisible by n_heads ("@ + text::decimal(
                            self.n_heads as nat,
                        ) + ")"@,
                    )
                },
            },
    {
        if self.n_heads == 0 {
            return Err(Error::config("SelfAttentionConfig.n_heads must be > 0"));
        }
        if self.d_model % self.n_heads != 0 {
            let mut msg = "SelfAttentionConfig.d_model (".to_owned();
            let dim = decimal_of(self.d_model as u64);
            msg.append(dim.as_str());
            msg.append(") must be divisible by n_heads (");
            let heads = decimal_of(self.n_heads as u64);
            msg.append(heads.as_str());
            msg.append(")");
            return Err(Error::config(msg.as_str()));
        }
        Ok(())
    }
}

} // verus!
