//! The messages of the registry and its answers.
use vstd::prelude::*;
use crate::asset::{AssetInfo, PairInfo};

verus! {

/// How a registry is set up: the code of its pools and of their tokens.
#[derive(Debug, Clone, Copy, PartialEq, Eq, Structural)]
pub struct InstantiateMsg {
    pub pair_code_id: u64,
    pub token_code_id: u64,
}

/// The commands of the registry.
#[derive(Debug, Clone)]
pub enum ExecuteMsg {
    /// Changes the owner or the code ids.
    UpdateConfig { owner: Option<String>, token_code_id: Option<u64>, pair_code_id: Option<u64> },
    /// Creates the pool of a pair.
    CreatePair { asset_infos: [AssetInfo; 2] },
    /// Registers the decimals of a native denomination.
    AddNativeTokenDecimals { denom: String, decimals: u8 },
    /// Moves a pool to other code.
    MigratePair { contract: String, code_id: Option<u64> },
}

/// The queries of the registry.
#[derive(Debug, Clone)]
pub enum QueryMsg {
    Config {},
    Pair { asset_infos: [AssetInfo; 2] },
    Pairs { start_after: Option<[AssetInfo; 2]>, limit: Option<u32> },
    NativeTokenDecimals { denom: String },
}

#[derive(Debug, Clone)]
pub struct ConfigResponse {
    pub owner: String,
    pub pair_code_id: u64,
    pub token_code_id: u64,
}

/// Migrations take no arguments.
#[derive(Debug, Clone, Copy, PartialEq, Eq, Structural)]
pub struct MigrateMsg {}

#[derive(Debug, Clone)]
pub struct PairsResponse {
    pub pairs: Vec<PairInfo>,
}

#[derive(Debug, Clone, Copy, PartialEq, Eq, Structural)]
pub struct NativeTokenDecimalsResponse {
    pub decimals: u8,
}

} // verus!
