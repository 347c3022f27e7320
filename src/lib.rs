//! Liquid staking and era reward accounting for a delegated proof-of-stake ledger.
//!
//! The state of each component is an explicit object that callers own and pass to
//! every operation; balances live in an [`assets::AssetBook`].

pub mod assets;
pub mod burn;
pub mod fixed;
pub mod liquid_staking;
pub mod reward;
pub mod types;
