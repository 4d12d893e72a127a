//! What the transfer rules decide and what their messages do, stated over the
//! inputs: which kind of transfer a reserve calls for, where each message sends the
//! assets, and who receives the fee sent to the fee's reserve.

use crate::asset::{Asset, AssetFilter, WildAsset};
use crate::config::Config;
use crate::location::{spec_chain_part, spec_non_chain_part, Junction, Junctions, Location};
use crate::message::{Instruction, Xcm};
use crate::transfer::{
    is_non_reserve_message, is_reserve_kind_message, spec_asset_reanchored, spec_half,
    spec_reanchored,
    spec_transfer_kind, spec_transfer_route, Error, Route, TransferKind,
};
use crate::weights::WeightLimit;
use vstd::prelude::*;

verus! {

/// The relay chain, as a parachain sees it.
pub open spec fn relay_chain() -> Location {
    Location { parents: 1, interior: Junctions::Here }
}

/// Whether `l` is a sibling parachain, `(1, X1(Parachain(_)))`.
pub open spec fn is_sibling_parachain(l: Location) -> bool {
    l.parents == 1 && l.interior matches Junctions::X1(Junction::Parachain(_))
}

/// The location that the last instruction of `x` deposits the assets into, if it is
/// a deposit.
pub open spec fn deposits_into(x: Xcm) -> Option<Location> {
    if x.0@.len() > 0 {
        match x.0@.last() {
            Instruction::DepositAsset { beneficiary, .. } => Some(beneficiary),
            _ => None,
        }
    } else {
        None
    }
}

/// The location that the last instruction of `x` sends the assets on to, if it
/// sends them on (a reserve deposit or a teleport).
pub open spec fn forwards_to(x: Xcm) -> Option<Location> {
    if x.0@.len() > 0 {
        match x.0@.last() {
            Instruction::DepositReserveAsset { dest, .. } => Some(dest),
            Instruction::InitiateTeleport { dest, .. } => Some(dest),
            _ => None,
        }
    } else {
        None
    }
}

/// The fees that the first instruction of `x` buys execution with, if it buys
/// execution.
pub open spec fn buys_with(x: Xcm) -> Option<Asset> {
    if x.0@.len() > 0 {
        match x.0@[0] {
            Instruction::BuyExecution { fees, .. } => Some(fees),
            _ => None,
        }
    } else {
        None
    }
}

/// How many assets the last instruction of `x` deposits, if it is a deposit of a
/// counted number of the assets held.
pub open spec fn deposit_count(x: Xcm) -> Option<u32> {
    if x.0@.len() > 0 {
        match x.0@.last() {
            Instruction::DepositAsset {
                assets: AssetFilter::Wild(WildAsset::AllCounted(n)),
                ..
            } => Some(n),
            _ => None,
        }
    } else {
        None
    }
}

/// The kind of a transfer: refused where the destination names no chain or no
/// recipient (`InvalidDest`), where its chain is this chain (`NotCrossChainTransfer`),
/// or where the assets have no reserve (`AssetHasNoReserve`); otherwise the reserve
/// is here (`SelfReserveAsset`), is the destination's chain (`ToReserve`), or is a
/// third chain (`ToNonReserve`), and the destination's chain, the reserve and the
/// recipient inside the destination come with the kind.
pub proof fn law_transfer_kind<C: Config>(config: &C, reserve: Option<Location>, dest: Location)
    ensures
        ({
            let here = config.spec_self_location();
            let r = spec_transfer_kind(config, reserve, dest);
            if spec_chain_part(dest) is None || spec_non_chain_part(dest) is None {
                r == Err::<(TransferKind, Location, Location, Location), Error>(Error::InvalidDest)
            } else if spec_chain_part(dest).unwrap() == here {
                r == Err::<(TransferKind, Location, Location, Location), Error>(
                    Error::NotCrossChainTransfer,
                )
            } else if reserve is None {
                r == Err::<(TransferKind, Location, Location, Location), Error>(
                    Error::AssetHasNoReserve,
                )
            } else {
                &&& r matches Ok((kind, chain, res, recipient))
                &&& chain == spec_chain_part(dest).unwrap()
                &&& res == reserve.unwrap()
                &&& recipient == spec_non_chain_part(dest).unwrap()
                &&& (kind == TransferKind::SelfReserveAsset) == (res == here)
                &&& (kind == TransferKind::ToReserve) == (res != here && res == chain)
                &&& (kind == TransferKind::ToNonReserve) == (res != here && res != chain)
            }
        }),
{
}

/// The onward step of a transfer through a third-chain reserve: the reserve sends
/// the assets on to the destination as given, except that a relay-chain reserve
/// addresses a sibling parachain `(1, X1(Parachain(id)))` as its child
/// `(0, X1(Parachain(id)))`.
pub proof fn law_non_reserve_forwarding(
    x: Xcm,
    assets: Seq<Asset>,
    reserve: Location,
    dest: Location,
    reserve_fees: Asset,
    dest_fees: Asset,
    limit: WeightLimit,
    recipient: Location,
    use_teleport: bool,
)
    requires
        is_non_reserve_message(
            x,
            assets,
            reserve,
            dest,
            reserve_fees,
            dest_fees,
            limit,
            recipient,
            use_teleport,
        ),
    ensures
        x.0@.len() == 2,
        x.0@[1] matches Instruction::InitiateReserveWithdraw { reserve: r, xcm, .. } && r == reserve
            && forwards_to(xcm) == Some(
            if reserve == relay_chain() && is_sibling_parachain(dest) {
                Location { parents: 0, interior: dest.interior }
            } else {
                dest
            },
        ),
{
}

/// The message of a reserve transfer, by where the reserve lies. It exists only for a
/// destination that names a chain other than this one and a recipient, and assets with
/// a reserve. Reserve here: one instruction, the assets moved to the destination's
/// chain, which deposits them into the recipient. Reserve elsewhere: the assets are
/// withdrawn here and the reserve is told to release them; where the reserve is the
/// destination's chain it deposits them into the recipient, else it sends them on to
/// the destination's chain (addressed as its child where the reserve is the relay
/// chain and the destination a sibling parachain). The recipient is the override
/// where one is given, else the recipient inside the destination. The chain that
/// executes on arrival first buys execution with the fee as it sees the fee (half the
/// fee at a third-chain reserve), and the deposit counts as many assets as are sent.
pub proof fn law_reserve_kind_message<C: Config>(
    config: &C,
    x: Xcm,
    assets: Seq<Asset>,
    fee: Asset,
    reserve: Option<Location>,
    dest: Location,
    maybe_recipient_override: Option<Location>,
    limit: WeightLimit,
    use_teleport: bool,
)
    requires
        is_reserve_kind_message(
            config,
            x,
            assets,
            fee,
            reserve,
            dest,
            maybe_recipient_override,
            limit,
            use_teleport,
        ),
    ensures
        spec_chain_part(dest) is Some,
        spec_non_chain_part(dest) is Some,
        spec_chain_part(dest).unwrap() != config.spec_self_location(),
        reserve is Some,
        ({
            let here = config.spec_self_location();
            let chain = spec_chain_part(dest).unwrap();
            let res = reserve.unwrap();
            let recipient = match maybe_recipient_override {
                Some(o) => o,
                None => spec_non_chain_part(dest).unwrap(),
            };
            let ctx = config.spec_universal_location();
            &&& res == here ==> {
                &&& x.0@.len() == 1
                &&& x.0@[0] matches Instruction::TransferReserveAsset { assets: a, dest: d, xcm }
                    && a@ == assets && d == chain && deposits_into(xcm) == Some(recipient)
                    && (spec_asset_reanchored(fee, chain, ctx) is Some ==> buys_with(xcm)
                    == spec_asset_reanchored(fee, chain, ctx)) && deposit_count(xcm) == Some(
                    assets.len() as u32,
                )
            }
            &&& res != here ==> {
                &&& x.0@.len() == 2
                &&& x.0@[0] matches Instruction::WithdrawAsset(a) && a@ == assets
                &&& x.0@[1] matches Instruction::InitiateReserveWithdraw { reserve: r, xcm, .. }
                    && r == res && if res == chain {
                    &&& deposits_into(xcm) == Some(recipient)
                    &&& spec_asset_reanchored(fee, chain, ctx) is Some ==> buys_with(xcm)
                        == spec_asset_reanchored(fee, chain, ctx)
                    &&& deposit_count(xcm) == Some(assets.len() as u32)
                } else {
                    &&& spec_asset_reanchored(spec_half(fee), res, ctx) is Some ==> buys_with(xcm)
                        == spec_asset_reanchored(spec_half(fee), res, ctx)
                    &&& forwards_to(xcm) == Some(
                        if res == relay_chain() && is_sibling_parachain(chain) {
                            Location { parents: 0, interior: chain.interior }
                        } else {
                            chain
                        },
                    )
                }
            }
        }),
{
    law_transfer_kind(config, reserve, dest);
}

/// Who receives the fee sent to the fee's reserve: this chain's configured location,
/// except that where it is configured as `(0, Here)` the recipient is here as the
/// destination's chain sees it (here reanchored to that chain), as long as XCM can
/// reanchor it. That chain is the one the assets' reserve must be.
pub proof fn law_recipient_override<C: Config>(
    config: &C,
    assets: Seq<Asset>,
    fee: Asset,
    dest: Location,
)
    ensures
        spec_transfer_route(config, assets, fee, dest) matches Ok(
            Route::ViaReserve { reserve, recipient_override, .. },
        ) ==> {
            let here_as_seen = config.spec_self_location();
            let here = Location { parents: 0, interior: Junctions::Here };
            &&& spec_chain_part(dest) == Some(reserve)
            &&& here_as_seen != here ==> recipient_override == here_as_seen
            &&& here_as_seen == here ==> recipient_override == match spec_reanchored(
                here,
                reserve,
                config.spec_universal_location(),
            ) {
                Some(l) => l,
                None => here,
            }
        },
{
}

} // verus!
