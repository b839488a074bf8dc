//! The parameters of the null consensus engine, as a chain scheme holds them.

use crate::uint::Uint;
use vstd::prelude::*;

verus! {

/// The parameters of the null engine.
#[derive(Debug, PartialEq)]
pub struct NullEngineParams {
    /// The reward for a block, where the scheme names one.
    pub block_reward: Option<Uint>,
}

/// The description of the null engine in a chain scheme.
#[derive(Debug, PartialEq)]
pub struct NullEngine {
    pub params: NullEngineParams,
}

impl NullEngineParams {
    /// The reward for a block as a number: what the scheme names, or nothing.
    pub open spec fn reward(self) -> Option<int> {
        match self.block_reward {
            Some(reward) => Some(reward@),
            None => None,
        }
    }
}

} // verus!
