//! Value-movement instructions.
//!
//! The engine never moves assets itself: it decides amounts and recipients
//! and emits instructions for the surrounding system to execute.

use vstd::prelude::*;

use crate::state::AssetInfo;

verus! {

/// One value movement the engine asks the surrounding system to perform.
#[derive(PartialEq, Eq, Debug)]
pub enum ValueFlow {
    /// Destroy `amount` of the asset.
    Burn { asset: AssetInfo, amount: u128 },
    /// Send `amount` of the asset to `recipient`.
    Transfer { asset: AssetInfo, recipient: String, amount: u128 },
}

/// Builds the instruction moving `amount` of an asset to `receiver`.
pub fn into_cosmos_msg(asset_info: &AssetInfo, receiver: String, amount: u128) -> (r: ValueFlow)
    ensures
        r == (ValueFlow::Transfer { asset: *asset_info, recipient: receiver, amount }),
{
    ValueFlow::Transfer { asset: asset_info.clone(), recipient: receiver, amount }
}

} // verus!
