//! The XCM version 3 instructions that a transfer sends.

use crate::asset::{Asset, AssetFilter, Assets};
use crate::location::Location;
use crate::weights::WeightLimit;
use vstd::prelude::*;

verus! {

/// One instruction of a cross-consensus message (the ones a transfer uses).
#[derive(Debug)]
#[allow(inconsistent_fields)]
pub enum Instruction {
    /// Take the assets out of the origin's account into the holding register.
    WithdrawAsset(Assets),
    /// Move the assets to `dest`'s account and send it `xcm`, prefixed with a notice
    /// that the assets were deposited.
    TransferReserveAsset { assets: Assets, dest: Location, xcm: Xcm },
    /// Deposit the held assets that `assets` selects into `beneficiary`.
    DepositAsset { assets: AssetFilter, beneficiary: Location },
    /// Deposit the selected held assets into `dest`'s account and send it `xcm`.
    DepositReserveAsset { assets: AssetFilter, dest: Location, xcm: Xcm },
    /// Withdraw the selected held assets at their `reserve` and send the reserve `xcm`.
    InitiateReserveWithdraw { assets: AssetFilter, reserve: Location, xcm: Xcm },
    /// Remove the selected held assets and send `dest` `xcm`, prefixed with a notice
    /// that they were teleported.
    InitiateTeleport { assets: AssetFilter, dest: Location, xcm: Xcm },
    /// Pay for execution with `fees` taken from holding, up to `weight_limit`.
    BuyExecution { fees: Asset, weight_limit: WeightLimit },
}

/// A cross-consensus message: instructions executed in order.
#[derive(Debug)]
pub struct Xcm(pub Vec<Instruction>);

} // verus!
