//! Cross-chain transfer of an NFT collection: the checks a transfer passes, the kind
//! of reserve transfer it is, and the messages it sends.

use crate::asset::{
    asset_less, asset_lt, pushed, Asset, AssetFilter, AssetId, Assets, Fungibility, WildAsset,
};
use crate::codec::{
    decode_location, enc_junctions, enc_location, enc_xcm, junctions_bytes, location_bytes,
    location_decoding, xcm_bytes,
};
use crate::config::Config;
use crate::external::{blake2_256, blake2_256_digest, reanchor_encoded, xcm_reanchored};
use crate::location::{
    chain_part, non_chain_part, spec_chain_part, spec_non_chain_part, Junction, Junctions,
    Location,
};
use crate::message::{Instruction, Xcm};
use crate::weights::WeightLimit;
use vstd::prelude::*;

verus! {

/// Why a transfer or a registration is refused.
#[derive(Clone, Copy, PartialEq, Eq, Structural, Debug)]
pub enum Error {
    BadVersion,
    NotSupportedMultiLocation,
    NotCrossChainTransferableCurrency,
    TooManyAssetsBeingSent,
    DistinctReserveForAssetAndFee,
    AssetHasNoReserve,
    InvalidDest,
    InvalidAsset,
    AssetIndexNonExistent,
    MinXcmFeeNotDefined,
    FeeNotEnough,
    CannotReanchor,
    NotCrossChainTransfer,
    XcmExecutionFailed,
    NFTLocationAlreadyRegistered,
    UnweighableMessage,
    NftIdNotFOund,
    CannotUpdateLocation,
}

/// Why a call is refused: an unsigned origin, or an error of the pallet.
#[derive(Clone, Copy, PartialEq, Eq, Structural, Debug)]
pub enum DispatchError {
    BadOrigin,
    Module(Error),
}

/// Where the reserve of the assets lies, relative to here and the destination.
#[derive(Clone, Copy, PartialEq, Eq, Structural, Debug)]
pub enum TransferKind {
    /// This chain is the reserve.
    SelfReserveAsset,
    /// The destination is the reserve.
    ToReserve,
    /// A third chain is the reserve.
    ToNonReserve,
}

/// What a transfer sent: by whom, which assets, which fee, and to where.
#[derive(Debug)]
pub struct Transferred<AccountId> {
    pub sender: AccountId,
    pub assets: Assets,
    pub fee: Asset,
    pub dest: Location,
}

// ----- amounts -----

/// The amount of a fungible asset; zero for a non-fungible one.
pub open spec fn spec_fungible_amount(asset: Asset) -> u128 {
    match asset.fun {
        Fungibility::Fungible(amount) => amount,
        _ => 0,
    }
}

/// The amount of `asset` if it is fungible, or zero.
pub fn fungible_amount(asset: &Asset) -> (r: u128)
    ensures
        r == spec_fungible_amount(*asset),
{
    if let Fungibility::Fungible(amount) = asset.fun {
        amount
    } else {
        0
    }
}

/// Half (rounded down) of the amount of `asset`, of the same class.
pub open spec fn spec_half(asset: Asset) -> Asset {
    Asset { fun: Fungibility::Fungible(spec_fungible_amount(asset) / 2), id: asset.id }
}

/// Half (rounded down) of the amount of `asset`, as a fungible asset of the same class.
pub fn half(asset: &Asset) -> (r: Asset)
    ensures
        r == spec_half(*asset),
{
    let half_amount = fungible_amount(asset) / 2;
    Asset { fun: Fungibility::Fungible(half_amount), id: asset.id }
}

/// The amount of `asset` less `amount`, of the same class.
pub open spec fn spec_subtract_fee(asset: Asset, amount: u128) -> Asset {
    Asset {
        fun: Fungibility::Fungible((spec_fungible_amount(asset) - amount) as u128),
        id: asset.id,
    }
}

/// The amount of `asset` less `amount`, as a fungible asset of the same class.
pub fn subtract_fee(asset: &Asset, amount: u128) -> (r: Asset)
    requires
        spec_fungible_amount(*asset) >= amount,
    ensures
        r == spec_subtract_fee(*asset, amount),
{
    let final_amount = fungible_amount(asset) - amount;
    Asset { fun: Fungibility::Fungible(final_amount), id: asset.id }
}

// ----- reanchoring -----

/// `l`, seen from `target`, where `context` is the location of here.
pub open spec fn spec_reanchored(l: Location, target: Location, context: Junctions) -> Option<
    Location,
> {
    match xcm_reanchored(enc_location(l), enc_location(target), enc_junctions(context)) {
        Some(b) => location_decoding(b),
        None => None,
    }
}

/// `l`, seen from `target`, where `context` is the location of here; `None` where
/// XCM cannot reanchor it.
pub fn reanchored(l: &Location, target: &Location, context: &Junctions) -> (r: Option<Location>)
    ensures
        r == spec_reanchored(*l, *target, *context),
{
    let lb = location_bytes(l);
    let tb = location_bytes(target);
    let cb = junctions_bytes(context);
    match reanchor_encoded(lb.as_slice(), tb.as_slice(), cb.as_slice()) {
        Some(b) => decode_location(b.as_slice()),
        None => None,
    }
}

/// `asset` with its class seen from `target`: a concrete class is reanchored, an
/// abstract one stays.
pub open spec fn spec_asset_reanchored(asset: Asset, target: Location, context: Junctions) -> Option<
    Asset,
> {
    match asset.id {
        AssetId::Concrete(l) => match spec_reanchored(l, target, context) {
            Some(m) => Some(Asset { id: AssetId::Concrete(m), fun: asset.fun }),
            None => None,
        },
        AssetId::Abstract(_) => Some(asset),
    }
}

/// `asset` with its class seen from `target`, where `context` is the location of here.
pub fn asset_reanchored(asset: &Asset, target: &Location, context: &Junctions) -> (r: Option<Asset>)
    ensures
        r == spec_asset_reanchored(*asset, *target, *context),
{
    match asset.id {
        AssetId::Concrete(l) => match reanchored(&l, target, context) {
            Some(m) => Some(Asset { id: AssetId::Concrete(m), fun: asset.fun }),
            None => None,
        },
        AssetId::Abstract(_) => Some(*asset),
    }
}

// ----- instructions -----

/// `i` pays `fees` for execution, up to `limit`.
pub open spec fn is_buy_execution(i: Instruction, fees: Asset, limit: WeightLimit) -> bool {
    i matches Instruction::BuyExecution { fees: f, weight_limit: w } && f == fees && w == limit
}

/// `i` deposits up to `max_assets` held assets into `beneficiary`.
pub open spec fn is_deposit_asset(i: Instruction, max_assets: u32, beneficiary: Location) -> bool {
    i matches Instruction::DepositAsset {
        assets: AssetFilter::Wild(WildAsset::AllCounted(n)),
        beneficiary: b,
    } && n == max_assets && b == beneficiary
}

/// The instruction that deposits up to `max_assets` held assets into `recipient`.
pub fn deposit_asset(recipient: Location, max_assets: u32) -> (r: Instruction)
    ensures
        is_deposit_asset(r, max_assets, recipient),
{
    Instruction::DepositAsset {
        assets: AssetFilter::Wild(WildAsset::AllCounted(max_assets)),
        beneficiary: recipient,
    }
}

/// The fees `asset` pays at `at`: its class seen from `at`.
pub open spec fn spec_fees_at<C: Config>(config: &C, asset: Asset, at: Location) -> Option<Asset> {
    spec_asset_reanchored(asset, at, config.spec_universal_location())
}

/// The instruction that pays `asset`, seen from `at`, for execution at `at`; refused
/// with `CannotReanchor` where `asset` cannot be seen from `at`.
pub fn buy_execution<C: Config>(
    config: &C,
    asset: Asset,
    at: &Location,
    weight_limit: WeightLimit,
) -> (r: Result<Instruction, Error>)
    ensures
        match spec_fees_at(config, asset, *at) {
            Some(fees) => r matches Ok(i) && is_buy_execution(i, fees, weight_limit),
            None => r == Err::<Instruction, Error>(Error::CannotReanchor),
        },
{
    let ancestry = config.universal_location();
    match asset_reanchored(&asset, at, &ancestry) {
        Some(fees) => Ok(Instruction::BuyExecution { fees, weight_limit }),
        None => Err(Error::CannotReanchor),
    }
}

// ----- the kind of transfer -----

/// The destination's chain and the recipient inside it, if `dest` names both.
pub open spec fn spec_ensure_valid_dest(dest: Location) -> Result<(Location, Location), Error> {
    match (spec_chain_part(dest), spec_non_chain_part(dest)) {
        (Some(chain), Some(recipient)) => Ok((chain, recipient)),
        _ => Err(Error::InvalidDest),
    }
}

/// Splits `dest` into the chain it names and the recipient inside that chain;
/// refused with `InvalidDest` where it lacks either.
pub fn ensure_valid_dest(dest: &Location) -> (r: Result<(Location, Location), Error>)
    ensures
        r == spec_ensure_valid_dest(*dest),
{
    match (chain_part(dest), non_chain_part(dest)) {
        (Some(chain), Some(recipient)) => Ok((chain, recipient)),
        _ => Err(Error::InvalidDest),
    }
}

/// The kind of transfer to `dest` of assets whose reserve is `reserve`, with the
/// destination chain, the reserve and the recipient.
pub open spec fn spec_transfer_kind<C: Config>(
    config: &C,
    reserve: Option<Location>,
    dest: Location,
) -> Result<(TransferKind, Location, Location, Location), Error> {
    match spec_ensure_valid_dest(dest) {
        Err(e) => Err(e),
        Ok((chain, recipient)) => {
            let self_location = config.spec_self_location();
            if chain == self_location {
                Err(Error::NotCrossChainTransfer)
            } else {
                match reserve {
                    None => Err(Error::AssetHasNoReserve),
                    Some(reserve) => {
                        let kind = if reserve == self_location {
                            TransferKind::SelfReserveAsset
                        } else if reserve == chain {
                            TransferKind::ToReserve
                        } else {
                            TransferKind::ToNonReserve
                        };
                        Ok((kind, chain, reserve, recipient))
                    },
                }
            }
        },
    }
}

/// Decides the kind of transfer: the reserve is here, is the destination, or is a
/// third chain. Refused where `dest` is not a valid destination, is this chain, or
/// where the assets have no reserve.
pub fn transfer_kind<C: Config>(config: &C, reserve: Option<Location>, dest: &Location) -> (r: Result<
    (TransferKind, Location, Location, Location),
    Error,
>)
    ensures
        r == spec_transfer_kind(config, reserve, *dest),
{
    let (dest, recipient) = ensure_valid_dest(dest)?;
    let self_location = config.self_location();
    if dest == self_location {
        return Err(Error::NotCrossChainTransfer);
    }
    let reserve = match reserve {
        Some(r) => r,
        None => return Err(Error::AssetHasNoReserve),
    };
    let kind = if reserve == self_location {
        TransferKind::SelfReserveAsset
    } else if reserve == dest {
        TransferKind::ToReserve
    } else {
        TransferKind::ToNonReserve
    };
    Ok((kind, dest, reserve, recipient))
}

// ----- the messages -----

/// The inner message of a reserve transfer: pay `fees`, then deposit up to
/// `max_assets` assets into `recipient`.
pub open spec fn is_pay_and_deposit(
    x: Xcm,
    fees: Asset,
    limit: WeightLimit,
    max_assets: u32,
    recipient: Location,
) -> bool {
    &&& x.0@.len() == 2
    &&& is_buy_execution(x.0@[0], fees, limit)
    &&& is_deposit_asset(x.0@[1], max_assets, recipient)
}

/// The message of a transfer whose reserve is here: move `assets` to `dest`'s
/// account here and tell `dest` to pay `fees` and deposit them into `recipient`.
pub open spec fn is_self_reserve_message(
    x: Xcm,
    assets: Seq<Asset>,
    dest: Location,
    fees: Asset,
    limit: WeightLimit,
    recipient: Location,
) -> bool {
    &&& x.0@.len() == 1
    &&& x.0@[0] matches Instruction::TransferReserveAsset { assets: a, dest: d, xcm }
        && a@ == assets && d == dest && is_pay_and_deposit(
        xcm,
        fees,
        limit,
        assets.len() as u32,
        recipient,
    )
}

/// The message of a transfer to the reserve: withdraw `assets` here and have the
/// reserve pay `fees` and deposit them into `recipient`.
pub open spec fn is_to_reserve_message(
    x: Xcm,
    assets: Seq<Asset>,
    reserve: Location,
    fees: Asset,
    limit: WeightLimit,
    recipient: Location,
) -> bool {
    &&& x.0@.len() == 2
    &&& x.0@[0] matches Instruction::WithdrawAsset(a) && a@ == assets
    &&& x.0@[1] matches Instruction::InitiateReserveWithdraw {
        assets: AssetFilter::Wild(WildAsset::All),
        reserve: r,
        xcm,
    } && r == reserve && is_pay_and_deposit(xcm, fees, limit, assets.len() as u32, recipient)
}

/// The destination as the reserve addresses it: a sibling parachain of a relay-chain
/// reserve becomes its child.
pub open spec fn spec_reanchored_dest(reserve: Location, dest: Location) -> Location {
    match dest.interior {
        Junctions::X1(Junction::Parachain(id)) => if reserve == Location::spec_parent()
            && dest.parents == 1 {
            Location { parents: 0, interior: Junctions::X1(Junction::Parachain(id)) }
        } else {
            dest
        },
        _ => dest,
    }
}

/// The message of a transfer through a third chain, the reserve: withdraw `assets`
/// here; the reserve pays `reserve_fees`, then deposits the assets into `dest`'s
/// account there (or, teleporting, sends them on) and tells `dest` to pay
/// `dest_fees` and deposit them into `recipient`.
pub open spec fn is_non_reserve_message(
    x: Xcm,
    assets: Seq<Asset>,
    reserve: Location,
    dest: Location,
    reserve_fees: Asset,
    dest_fees: Asset,
    limit: WeightLimit,
    recipient: Location,
    use_teleport: bool,
) -> bool {
    let max_assets = assets.len() as u32;
    let on_dest = spec_reanchored_dest(reserve, dest);
    &&& x.0@.len() == 2
    &&& x.0@[0] matches Instruction::WithdrawAsset(a) && a@ == assets
    &&& x.0@[1] matches Instruction::InitiateReserveWithdraw {
        assets: AssetFilter::Wild(WildAsset::All),
        reserve: r,
        xcm,
    } && r == reserve && xcm.0@.len() == 2 && is_buy_execution(xcm.0@[0], reserve_fees, limit)
        && if use_teleport {
        xcm.0@[1] matches Instruction::InitiateTeleport {
            assets: AssetFilter::Wild(WildAsset::All),
            dest: d,
            xcm: inner,
        } && d == on_dest && is_pay_and_deposit(inner, dest_fees, limit, max_assets, recipient)
    } else {
        xcm.0@[1] matches Instruction::DepositReserveAsset {
            assets: AssetFilter::Wild(WildAsset::AllCounted(n)),
            dest: d,
            xcm: inner,
        } && n == max_assets && d == on_dest && is_pay_and_deposit(
            inner,
            dest_fees,
            limit,
            max_assets,
            recipient,
        )
    }
}

fn pay_and_deposit<C: Config>(
    config: &C,
    fee: Asset,
    at: &Location,
    weight_limit: WeightLimit,
    recipient: Location,
    max_assets: u32,
) -> (r: Result<Xcm, Error>)
    ensures
        match spec_fees_at(config, fee, *at) {
            Some(fees) => r matches Ok(x) && is_pay_and_deposit(
                x,
                fees,
                weight_limit,
                max_assets,
                recipient,
            ),
            None => r matches Err(e) && e == Error::CannotReanchor,
        },
{
    let buy = buy_execution(config, fee, at, weight_limit)?;
    let mut v: Vec<Instruction> = Vec::new();
    v.push(buy);
    v.push(deposit_asset(recipient, max_assets));
    Ok(Xcm(v))
}

/// The message of a transfer whose reserve is here; refused with `CannotReanchor`
/// where `fee` cannot be seen from `dest`.
pub fn transfer_self_reserve_asset<C: Config>(
    config: &C,
    assets: Assets,
    fee: Asset,
    dest: Location,
    recipient: Location,
    dest_weight_limit: WeightLimit,
) -> (r: Result<Xcm, Error>)
    ensures
        match spec_fees_at(config, fee, dest) {
            Some(fees) => r matches Ok(x) && is_self_reserve_message(
                x,
                assets@,
                dest,
                fees,
                dest_weight_limit,
                recipient,
            ),
            None => r matches Err(e) && e == Error::CannotReanchor,
        },
{
    let max_assets = assets.len() as u32;
    let inner = pay_and_deposit(config, fee, &dest, dest_weight_limit, recipient, max_assets)?;
    let mut v: Vec<Instruction> = Vec::new();
    v.push(Instruction::TransferReserveAsset { assets, dest, xcm: inner });
    Ok(Xcm(v))
}

/// The message of a transfer to the reserve; refused with `CannotReanchor` where
/// `fee` cannot be seen from the reserve.
pub fn transfer_to_reserve<C: Config>(
    config: &C,
    assets: Assets,
    fee: Asset,
    reserve: Location,
    recipient: Location,
    dest_weight_limit: WeightLimit,
) -> (r: Result<Xcm, Error>)
    ensures
        match spec_fees_at(config, fee, reserve) {
            Some(fees) => r matches Ok(x) && is_to_reserve_message(
                x,
                assets@,
                reserve,
                fees,
                dest_weight_limit,
                recipient,
            ),
            None => r matches Err(e) && e == Error::CannotReanchor,
        },
{
    let max_assets = assets.len() as u32;
    let inner = pay_and_deposit(config, fee, &reserve, dest_weight_limit, recipient, max_assets)?;
    let mut v: Vec<Instruction> = Vec::new();
    v.push(Instruction::WithdrawAsset(assets));
    v.push(
        Instruction::InitiateReserveWithdraw {
            assets: AssetFilter::Wild(WildAsset::All),
            reserve,
            xcm: inner,
        },
    );
    Ok(Xcm(v))
}

/// The destination as the reserve addresses it.
fn reanchored_dest(reserve: &Location, dest: &Location) -> (r: Location)
    ensures
        r == spec_reanchored_dest(*reserve, *dest),
{
    let mut out = *dest;
    if *reserve == Location::parent() {
        match dest.interior {
            Junctions::X1(Junction::Parachain(id)) => {
                if dest.parents == 1 {
                    out = Location { parents: 0, interior: Junctions::X1(Junction::Parachain(id)) };
                }
            },
            _ => {},
        }
    }
    out
}

/// The message of a transfer through a third chain, the reserve, with half the fee
/// paid at the reserve and half at the destination; refused with `CannotReanchor`
/// where half the fee cannot be seen from the reserve or from `dest`.
pub fn transfer_to_non_reserve<C: Config>(
    config: &C,
    assets: Assets,
    fee: Asset,
    reserve: Location,
    dest: Location,
    recipient: Location,
    dest_weight_limit: WeightLimit,
    use_teleport: bool,
) -> (r: Result<Xcm, Error>)
    ensures
        match (
            spec_fees_at(config, spec_half(fee), reserve),
            spec_fees_at(config, spec_half(fee), dest),
        ) {
            (Some(reserve_fees), Some(dest_fees)) => r matches Ok(x) && is_non_reserve_message(
                x,
                assets@,
                reserve,
                dest,
                reserve_fees,
                dest_fees,
                dest_weight_limit,
                recipient,
                use_teleport,
            ),
            _ => r matches Err(e) && e == Error::CannotReanchor,
        },
{
    let on_dest = reanchored_dest(&reserve, &dest);
    let max_assets = assets.len() as u32;
    let buy_at_reserve = buy_execution(config, half(&fee), &reserve, dest_weight_limit)?;
    let inner = pay_and_deposit(config, half(&fee), &dest, dest_weight_limit, recipient, max_assets)?;
    let onward = if !use_teleport {
        Instruction::DepositReserveAsset {
            assets: AssetFilter::Wild(WildAsset::AllCounted(max_assets)),
            dest: on_dest,
            xcm: inner,
        }
    } else {
        Instruction::InitiateTeleport {
            assets: AssetFilter::Wild(WildAsset::All),
            dest: on_dest,
            xcm: inner,
        }
    };
    let mut at_reserve: Vec<Instruction> = Vec::new();
    at_reserve.push(buy_at_reserve);
    at_reserve.push(onward);
    let mut v: Vec<Instruction> = Vec::new();
    v.push(Instruction::WithdrawAsset(assets));
    v.push(
        Instruction::InitiateReserveWithdraw {
            assets: AssetFilter::Wild(WildAsset::All),
            reserve,
            xcm: Xcm(at_reserve),
        },
    );
    Ok(Xcm(v))
}

// ----- one message, ready to execute -----

/// A message to execute with the origin it runs as and the hash of its encoding.
#[derive(Debug)]
pub struct PendingExecution {
    pub origin: Location,
    pub message: Xcm,
    pub hash: [u8; 32],
}

/// Why the message of a reserve transfer cannot be built, if it cannot.
pub open spec fn spec_reserve_kind_error<C: Config>(
    config: &C,
    fee: Asset,
    reserve: Option<Location>,
    dest: Location,
) -> Option<Error> {
    match spec_transfer_kind(config, reserve, dest) {
        Err(e) => Some(e),
        Ok((kind, chain, res, _)) => {
            let fees_missing = match kind {
                TransferKind::SelfReserveAsset => spec_fees_at(config, fee, chain) is None,
                TransferKind::ToReserve => spec_fees_at(config, fee, res) is None,
                TransferKind::ToNonReserve => spec_fees_at(config, spec_half(fee), res) is None
                    || spec_fees_at(config, spec_half(fee), chain) is None,
            };
            if fees_missing {
                Some(Error::CannotReanchor)
            } else {
                None
            }
        },
    }
}

/// `x` is the message of a reserve transfer of `assets` to `dest` paying `fee`, as its
/// kind requires; the recipient is `maybe_recipient_override` if given.
pub open spec fn is_reserve_kind_message<C: Config>(
    config: &C,
    x: Xcm,
    assets: Seq<Asset>,
    fee: Asset,
    reserve: Option<Location>,
    dest: Location,
    maybe_recipient_override: Option<Location>,
    limit: WeightLimit,
    use_teleport: bool,
) -> bool {
    match spec_transfer_kind(config, reserve, dest) {
        Ok((kind, chain, res, rec)) => {
            let recipient = match maybe_recipient_override {
                Some(r) => r,
                None => rec,
            };
            match kind {
                TransferKind::SelfReserveAsset => is_self_reserve_message(
                    x,
                    assets,
                    chain,
                    spec_fees_at(config, fee, chain).unwrap(),
                    limit,
                    recipient,
                ),
                TransferKind::ToReserve => is_to_reserve_message(
                    x,
                    assets,
                    res,
                    spec_fees_at(config, fee, res).unwrap(),
                    limit,
                    recipient,
                ),
                TransferKind::ToNonReserve => is_non_reserve_message(
                    x,
                    assets,
                    res,
                    chain,
                    spec_fees_at(config, spec_half(fee), res).unwrap(),
                    spec_fees_at(config, spec_half(fee), chain).unwrap(),
                    limit,
                    recipient,
                    use_teleport,
                ),
            }
        },
        Err(_) => false,
    }
}

/// `p` runs `origin`'s reserve transfer of `assets` to `dest`, as built by
/// `prepare_reserve_kind_xcm`, with the hash of the message's encoding.
pub open spec fn is_prepared<C: Config>(
    config: &C,
    p: PendingExecution,
    origin: Location,
    assets: Seq<Asset>,
    fee: Asset,
    reserve: Option<Location>,
    dest: Location,
    maybe_recipient_override: Option<Location>,
    limit: WeightLimit,
    use_teleport: bool,
) -> bool {
    &&& p.origin == origin
    &&& is_reserve_kind_message(
        config,
        p.message,
        assets,
        fee,
        reserve,
        dest,
        maybe_recipient_override,
        limit,
        use_teleport,
    )
    &&& p.hash@ == blake2_256_digest(enc_xcm(p.message))
}

/// Builds the message of a reserve transfer of the kind that `reserve` and `dest`
/// call for, with the hash of its encoding, ready to execute as `origin_location`.
pub fn prepare_reserve_kind_xcm<C: Config>(
    config: &C,
    origin_location: Location,
    assets: Assets,
    fee: Asset,
    reserve: Option<Location>,
    dest: &Location,
    maybe_recipient_override: Option<Location>,
    dest_weight_limit: WeightLimit,
    use_teleport: bool,
) -> (r: Result<PendingExecution, Error>)
    ensures
        match spec_reserve_kind_error(config, fee, reserve, *dest) {
            Some(e) => r matches Err(e2) && e2 == e,
            None => r matches Ok(p) && is_prepared(
                config,
                p,
                origin_location,
                assets@,
                fee,
                reserve,
                *dest,
                maybe_recipient_override,
                dest_weight_limit,
                use_teleport,
            ),
        },
{
    let (kind, dest, reserve, recipient) = transfer_kind(config, reserve, dest)?;
    let recipient = match maybe_recipient_override {
        Some(recipient) => recipient,
        None => recipient,
    };
    let msg = match kind {
        TransferKind::SelfReserveAsset => transfer_self_reserve_asset(
            config,
            assets,
            fee,
            dest,
            recipient,
            dest_weight_limit,
        )?,
        TransferKind::ToReserve => transfer_to_reserve(
            config,
            assets,
            fee,
            dest,
            recipient,
            dest_weight_limit,
        )?,
        TransferKind::ToNonReserve => transfer_to_non_reserve(
            config,
            assets,
            fee,
            reserve,
            dest,
            recipient,
            dest_weight_limit,
            use_teleport,
        )?,
    };
    let encoded = xcm_bytes(&msg);
    let hash = blake2_256(encoded.as_slice());
    Ok(PendingExecution { origin: origin_location, message: msg, hash })
}

/// What became of one prepared message handed to the runtime's executor.
#[derive(Clone, Copy, PartialEq, Eq, Structural, Debug)]
pub enum ExecutionReport {
    /// The runtime could not weigh the message.
    Unweighable,
    /// The message was executed but did not complete.
    Incomplete,
    /// The message was executed to completion.
    Complete,
}

/// Whether a transfer goes on after one of its messages was handed to the
/// executor: it stops with `UnweighableMessage` where the message could not be
/// weighed, with `XcmExecutionFailed` where it did not complete, and goes on otherwise.
pub fn execution_outcome(report: ExecutionReport) -> (r: Result<(), Error>)
    ensures
        r == match report {
            ExecutionReport::Unweighable => Err(Error::UnweighableMessage),
            ExecutionReport::Incomplete => Err(Error::XcmExecutionFailed),
            ExecutionReport::Complete => Ok::<(), Error>(()),
        },
{
    match report {
        ExecutionReport::Unweighable => Err(Error::UnweighableMessage),
        ExecutionReport::Incomplete => Err(Error::XcmExecutionFailed),
        ExecutionReport::Complete => Ok(()),
    }
}

// ----- the transfer of several assets -----

/// What a transfer does: the messages to execute, in order, and then its outcome.
/// Executing stops at the first message that fails.
#[derive(Debug)]
pub struct TransferPlan<AccountId> {
    pub executions: Vec<PendingExecution>,
    pub outcome: Result<Transferred<AccountId>, Error>,
}

/// How the fee of a transfer is paid.
#[derive(Clone, Copy, PartialEq, Eq, Structural, Debug)]
pub enum Route {
    /// The fee has the same reserve as the assets: nothing is sent.
    NoMessage,
    /// The fee has another reserve: `fee_to_reserve` goes to the fee's reserve,
    /// recipient `recipient_override`, and the assets go through `reserve` with
    /// `fee_to_dest` in place of the fee.
    ViaReserve {
        reserve: Location,
        fee_to_dest: Asset,
        fee_to_reserve: Asset,
        recipient_override: Location,
    },
}

/// A non-zero amount of a fungible asset.
pub open spec fn is_nonzero_fungible(a: Asset) -> bool {
    a.fun matches Fungibility::Fungible(x) && x != 0
}

/// Going through the assets from index `i` with `reserve` the reserve found so far:
/// every asset must be a non-zero fungible amount, the reserve is taken from the
/// first asset that is not the fee (or from the only asset), and every later asset
/// must have that same reserve.
pub open spec fn scan_reserves<C: Config>(
    config: &C,
    assets: Seq<Asset>,
    fee: Asset,
    i: int,
    reserve: Option<Location>,
) -> Result<Option<Location>, Error>
    decreases assets.len() - i,
{
    if i < 0 || i >= assets.len() {
        Ok(reserve)
    } else {
        let a = assets[i];
        if !is_nonzero_fungible(a) {
            Err(Error::InvalidAsset)
        } else {
            let r = if (fee != a && reserve is None) || assets.len() == 1 {
                config.spec_reserve(a)
            } else {
                reserve
            };
            if r is Some && r != config.spec_reserve(a) {
                Err(Error::DistinctReserveForAssetAndFee)
            } else {
                scan_reserves(config, assets, fee, i + 1, r)
            }
        }
    }
}

/// The checks every transfer passes, and the reserve of its assets.
pub open spec fn spec_transfer_checks<C: Config>(
    config: &C,
    assets: Seq<Asset>,
    fee: Asset,
    dest: Location,
) -> Result<Option<Location>, Error> {
    if assets.len() > config.spec_max_assets_for_transfer() {
        Err(Error::TooManyAssetsBeingSent)
    } else if !config.spec_supports_destination(dest) {
        Err(Error::NotSupportedMultiLocation)
    } else {
        scan_reserves(config, assets, fee, 0, None)
    }
}

/// How the fee of a transfer is paid, or why the transfer is refused before any
/// message is built.
pub open spec fn spec_transfer_route<C: Config>(
    config: &C,
    assets: Seq<Asset>,
    fee: Asset,
    dest: Location,
) -> Result<Route, Error> {
    match spec_transfer_checks(config, assets, fee, dest) {
        Err(e) => Err(e),
        Ok(reserve) => if config.spec_reserve(fee) == reserve {
            Ok(Route::NoMessage)
        } else if reserve != spec_chain_part(dest) {
            Err(Error::InvalidAsset)
        } else {
            match reserve {
                None => Err(Error::AssetHasNoReserve),
                Some(r) => match config.spec_min_xcm_fee(r) {
                    None => Err(Error::MinXcmFeeNotDefined),
                    Some(min) => {
                        let fee_to_dest = Asset { id: fee.id, fun: Fungibility::Fungible(min) };
                        if !asset_lt(fee_to_dest, fee) {
                            Err(Error::FeeNotEnough)
                        } else {
                            let here_as_seen = config.spec_self_location();
                            let recipient_override = if here_as_seen == Location::spec_here() {
                                match spec_reanchored(
                                    here_as_seen,
                                    spec_chain_part(dest).unwrap(),
                                    config.spec_universal_location(),
                                ) {
                                    Some(l) => l,
                                    None => here_as_seen,
                                }
                            } else {
                                here_as_seen
                            };
                            Ok(
                                Route::ViaReserve {
                                    reserve: r,
                                    fee_to_dest,
                                    fee_to_reserve: spec_subtract_fee(fee, min),
                                    recipient_override,
                                },
                            )
                        }
                    },
                },
            }
        },
    }
}

/// Where the fee goes through another reserve, the fee covers the reserve's least
/// fee (a non-fungible fee only covers a least fee of zero).
pub open spec fn fee_covers_min<C: Config>(
    config: &C,
    assets: Seq<Asset>,
    fee: Asset,
    dest: Location,
) -> bool {
    match spec_transfer_checks(config, assets, fee, dest) {
        Ok(Some(r)) => match config.spec_min_xcm_fee(r) {
            Some(min) => (config.spec_reserve(fee) != Some(r) && Some(r) == spec_chain_part(dest)
                && asset_lt(Asset { id: fee.id, fun: Fungibility::Fungible(min) }, fee))
                ==> spec_fungible_amount(fee) >= min,
            None => true,
        },
        _ => true,
    }
}

/// The first `n` assets pushed in turn onto an empty list, `fee_to_dest` in place of
/// `fee`.
pub open spec fn dest_assets(assets: Seq<Asset>, fee: Asset, fee_to_dest: Asset, n: int) -> Seq<
    Asset,
>
    decreases n,
{
    if n <= 0 {
        seq![]
    } else {
        let a = assets[n - 1];
        pushed(
            dest_assets(assets, fee, fee_to_dest, n - 1),
            if a != fee {
                a
            } else {
                fee_to_dest
            },
        )
    }
}

/// `outcome` reports the transfer of `assets` by `who` to `dest` paying `fee`.
pub open spec fn is_transferred<A>(
    outcome: Result<Transferred<A>, Error>,
    who: A,
    assets: Seq<Asset>,
    fee: Asset,
    dest: Location,
) -> bool {
    outcome matches Ok(t) && t.sender == who && t.assets@ == assets && t.fee == fee && t.dest
        == dest
}

fn option_location_eq(a: &Option<Location>, b: &Option<Location>) -> (r: bool)
    ensures
        r == (*a == *b),
{
    match (a, b) {
        (Some(x), Some(y)) => *x == *y,
        (None, None) => true,
        _ => false,
    }
}

fn refused<A>(e: Error) -> (plan: TransferPlan<A>)
    ensures
        plan.executions@.len() == 0,
        plan.outcome == Err::<Transferred<A>, Error>(e),
{
    TransferPlan { executions: Vec::new(), outcome: Err(e) }
}

proof fn lemma_pushed_onto_empty(a: Asset)
    ensures
        pushed(Seq::<Asset>::empty(), a) == seq![a],
{
    reveal_with_fuel(crate::asset::sorted_assets, 2);
    let e = Seq::<Asset>::empty();
    assert(e.push(a).drop_last() =~= e);
    assert(crate::asset::sorted_assets(e) =~= e);
    assert(e.insert(0, a) =~= seq![a]);
}

/// Transfers `assets` from `who` to `dest`, paying `fee`: checks the assets, their
/// reserve and the destination; where the fee's reserve differs from the assets',
/// sends the reserve's least fee to the fee's reserve and the assets through their
/// reserve.
#[verifier::rlimit(60)]
#[verifier::spinoff_prover]
pub fn do_transfer_multiassets<C: Config>(
    config: &C,
    who: C::AccountId,
    assets: Assets,
    fee: Asset,
    dest: Location,
    dest_weight_limit: WeightLimit,
) -> (plan: TransferPlan<C::AccountId>)
    requires
        fee_covers_min(config, assets@, fee, dest),
    ensures
        match spec_transfer_route(config, assets@, fee, dest) {
            Err(e) => plan.executions@.len() == 0 && plan.outcome == Err::<
                Transferred<C::AccountId>,
                Error,
            >(e),
            Ok(Route::NoMessage) => plan.executions@.len() == 0 && is_transferred(
                plan.outcome,
                who,
                assets@,
                fee,
                dest,
            ),
            Ok(Route::ViaReserve { reserve, fee_to_dest, fee_to_reserve, recipient_override }) => {
                let origin = config.spec_account_location(who);
                let fee_reserve = config.spec_reserve(fee);
                match spec_reserve_kind_error(config, fee_to_reserve, fee_reserve, dest) {
                    Some(e) => plan.executions@.len() == 0 && plan.outcome == Err::<
                        Transferred<C::AccountId>,
                        Error,
                    >(e),
                    None => plan.executions@.len() >= 1 && is_prepared(
                        config,
                        plan.executions@[0],
                        origin,
                        seq![fee_to_reserve],
                        fee_to_reserve,
                        fee_reserve,
                        dest,
                        Some(recipient_override),
                        dest_weight_limit,
                        true,
                    ) && match spec_reserve_kind_error(config, fee_to_dest, Some(reserve), dest) {
                        Some(e) => plan.executions@.len() == 1 && plan.outcome == Err::<
                            Transferred<C::AccountId>,
                            Error,
                        >(e),
                        None => plan.executions@.len() == 2 && is_prepared(
                            config,
                            plan.executions@[1],
                            origin,
                            dest_assets(assets@, fee, fee_to_dest, assets@.len() as int),
                            fee_to_dest,
                            Some(reserve),
                            dest,
                            None,
                            dest_weight_limit,
                            false,
                        ) && is_transferred(plan.outcome, who, assets@, fee, dest),
                    },
                }
            },
        },
{
    if assets.len() > config.max_assets_for_transfer() {
        return refused(Error::TooManyAssetsBeingSent);
    }
    if !config.supports_destination(&dest) {
        return refused(Error::NotSupportedMultiLocation);
    }
    let origin_location = config.account_location(&who);
    let mut non_fee_reserve: Option<Location> = None;
    let asset_len = assets.len();
    let mut i: usize = 0;
    while i < asset_len
        invariant
            asset_len == assets@.len(),
            i <= asset_len,
            assets@.len() <= config.spec_max_assets_for_transfer(),
            config.spec_supports_destination(dest),
            scan_reserves(config, assets@, fee, 0, None) == scan_reserves(
                config,
                assets@,
                fee,
                i as int,
                non_fee_reserve,
            ),
        decreases asset_len - i,
    {
        let asset = match assets.get(i) {
            Some(a) => a,
            None => return refused(Error::AssetIndexNonExistent),
        };
        let nonzero = match asset.fun {
            Fungibility::Fungible(x) => x != 0,
            _ => false,
        };
        assert(asset == assets@[i as int]);
        assert(nonzero == is_nonzero_fungible(asset));
        if !nonzero {
            assert(scan_reserves(config, assets@, fee, i as int, non_fee_reserve) == Err::<
                Option<Location>,
                Error,
            >(Error::InvalidAsset));
            return refused(Error::InvalidAsset);
        }
        let ghost before = non_fee_reserve;
        if (fee != asset && non_fee_reserve.is_none()) || asset_len == 1 {
            non_fee_reserve = config.reserve(&asset);
        }
        if non_fee_reserve.is_some() {
            let again = config.reserve(&asset);
            if !option_location_eq(&non_fee_reserve, &again) {
                assert(scan_reserves(config, assets@, fee, i as int, before) == Err::<
                    Option<Location>,
                    Error,
                >(Error::DistinctReserveForAssetAndFee));
                return refused(Error::DistinctReserveForAssetAndFee);
            }
        }
        i = i + 1;
    }
    let fee_reserve = config.reserve(&fee);
    if option_location_eq(&fee_reserve, &non_fee_reserve) {
        return TransferPlan {
            executions: Vec::new(),
            outcome: Ok(Transferred { sender: who, assets, fee, dest }),
        };
    }
    let dest_chain = chain_part(&dest);
    if !option_location_eq(&non_fee_reserve, &dest_chain) {
        return refused(Error::InvalidAsset);
    }
    let reserve_location = match non_fee_reserve {
        Some(l) => l,
        None => return refused(Error::AssetHasNoReserve),
    };
    let min_xcm_fee = match config.min_xcm_fee(&reserve_location) {
        Some(m) => m,
        None => return refused(Error::MinXcmFeeNotDefined),
    };
    let fee_to_dest = Asset { id: fee.id, fun: Fungibility::Fungible(min_xcm_fee) };
    if !asset_less(&fee_to_dest, &fee) {
        return refused(Error::FeeNotEnough);
    }
    let mut assets_to_dest = Assets::new();
    let mut k: usize = 0;
    while k < asset_len
        invariant
            asset_len == assets@.len(),
            k <= asset_len,
            assets_to_dest@ == dest_assets(assets@, fee, fee_to_dest, k as int),
        decreases asset_len - k,
    {
        let asset = match assets.get(k) {
            Some(a) => a,
            None => return refused(Error::AssetIndexNonExistent),
        };
        if fee != asset {
            assets_to_dest.push(asset);
        } else {
            assets_to_dest.push(fee_to_dest);
        }
        k = k + 1;
    }
    let mut assets_to_fee_reserve = Assets::new();
    let asset_to_fee_reserve = subtract_fee(&fee, min_xcm_fee);
    assets_to_fee_reserve.push(asset_to_fee_reserve);
    proof {
        lemma_pushed_onto_empty(asset_to_fee_reserve);
    }
    let mut override_recipient = config.self_location();
    if override_recipient == Location::here() {
        let dest_chain_part = match chain_part(&dest) {
            Some(c) => c,
            None => return refused(Error::InvalidDest),
        };
        let ancestry = config.universal_location();
        match reanchored(&override_recipient, &dest_chain_part, &ancestry) {
            Some(l) => {
                override_recipient = l;
            },
            None => {},
        }
    }
    let first = match prepare_reserve_kind_xcm(
        config,
        origin_location,
        assets_to_fee_reserve,
        asset_to_fee_reserve,
        fee_reserve,
        &dest,
        Some(override_recipient),
        dest_weight_limit,
        true,
    ) {
        Ok(p) => p,
        Err(e) => return refused(e),
    };
    let mut executions: Vec<PendingExecution> = Vec::new();
    executions.push(first);
    let second = match prepare_reserve_kind_xcm(
        config,
        origin_location,
        assets_to_dest,
        fee_to_dest,
        non_fee_reserve,
        &dest,
        None,
        dest_weight_limit,
        false,
    ) {
        Ok(p) => p,
        Err(e) => return TransferPlan { executions, outcome: Err(e) },
    };
    executions.push(second);
    TransferPlan { executions, outcome: Ok(Transferred { sender: who, assets, fee, dest }) }
}

} // verus!
