//! Loss terms of the variational auto-encoder.

use vstd::prelude::*;

verus! {

/// Kullback-Leibler regulariser of the latent distribution.
///
/// The term carries no parameters: two values are always equal.
#[derive(Debug, Clone, Copy)]
pub struct KLLoss {}

impl KLLoss {
    /// Creates the regulariser.
    pub fn new() -> (loss: Self)
        ensures
            loss == (KLLoss {}),
    {
        Self {}
    }
}

impl Default for KLLoss {
    fn default() -> (loss: Self)
        ensures
            loss == (KLLoss {}),
    {
        Self::new()
    }
}

} // verus!
