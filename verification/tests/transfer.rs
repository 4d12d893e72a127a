// The transfer rules, the pallet's calls and the weights, on concrete values.

use parity_scale_codec::{Decode, Encode};
use staging_xcm::v3 as x;
use xnft::asset::{Asset, AssetFilter, AssetId, AssetInstance, Assets, Fungibility, WildAsset};
use xnft::bytes::Bytes32;
use xnft::codec::{location_bytes, xcm_bytes};
use xnft::config::StaticConfig;
use xnft::location::{chain_part, non_chain_part, Junction, Junctions, Location, NetworkId};
use xnft::message::{Instruction, Xcm};
use xnft::pallet::{Event, Pallet};
use xnft::transfer::{
    buy_execution, deposit_asset, do_transfer_multiassets, ensure_valid_dest, fungible_amount, half,
    subtract_fee, transfer_kind, execution_outcome, DispatchError, Error, ExecutionReport, TransferKind,
    TransferPlan,
};
use xnft::weights::{Weight, WeightInfo, WeightLimit};

fn para(id: u32) -> Junction {
    Junction::Parachain(id)
}

fn account(n: u128) -> Bytes32 {
    Bytes32 { hi: 0, lo: n }
}

fn sibling(id: u32) -> Location {
    Location { parents: 1, interior: Junctions::X1(para(id)) }
}

fn sibling_account(id: u32, who: u128) -> Location {
    Location {
        parents: 1,
        interior: Junctions::X2(para(id), Junction::AccountId32 { network: None, id: account(who) }),
    }
}

fn fungible(l: Location, n: u128) -> Asset {
    Asset { id: AssetId::Concrete(l), fun: Fungibility::Fungible(n) }
}

/// Here is parachain 2000 of Polkadot. Collection 7 lives on parachain 3000, and
/// the relay chain's token is reserved on the relay chain.
fn config() -> StaticConfig {
    let nft_class = Location { parents: 1, interior: Junctions::X2(para(3000), Junction::GeneralIndex(7)) };
    StaticConfig {
        collections: vec![(7, nft_class)],
        destinations: vec![sibling_account(3000, 9), sibling_account(2000, 9), sibling_account(4000, 9)],
        max_assets: 5,
        reserves: vec![
            (AssetId::Concrete(nft_class), sibling(3000)),
            (AssetId::Concrete(Location::parent()), Location::parent()),
            (AssetId::Concrete(Location { parents: 1, interior: Junctions::X2(para(2000), Junction::GeneralIndex(1)) }), sibling(2000)),
        ],
        min_fees: vec![(sibling(3000), 40)],
        universal_location: Junctions::X2(Junction::GlobalConsensus(NetworkId::Polkadot), para(2000)),
        self_location: sibling(2000),
    }
}

fn nft_asset(n: u128) -> Asset {
    fungible(Location { parents: 1, interior: Junctions::X2(para(3000), Junction::GeneralIndex(7)) }, n)
}

fn outcome_error<A>(plan: &TransferPlan<A>) -> Option<Error> {
    match &plan.outcome {
        Ok(_) => None,
        Err(e) => Some(*e),
    }
}

#[test]
fn amounts() {
    let a = fungible(Location::parent(), 101);
    assert_eq!(fungible_amount(&a), 101);
    assert_eq!(half(&a), fungible(Location::parent(), 50));
    assert_eq!(subtract_fee(&a, 40), fungible(Location::parent(), 61));
    assert_eq!(subtract_fee(&a, 101), fungible(Location::parent(), 0));
    let nft = Asset { id: a.id, fun: Fungibility::NonFungible(AssetInstance::Index(4)) };
    assert_eq!(fungible_amount(&nft), 0);
    assert_eq!(half(&nft), fungible(Location::parent(), 0));
    assert_eq!(subtract_fee(&nft, 0), fungible(Location::parent(), 0));
}

#[test]
fn chain_and_non_chain_parts() {
    let d = sibling_account(3000, 9);
    assert_eq!(chain_part(&d), Some(sibling(3000)));
    assert_eq!(non_chain_part(&d), Some(Location { parents: 0, interior: Junctions::X1(Junction::AccountId32 { network: None, id: account(9) }) }));
    let relay_account = Location { parents: 1, interior: Junctions::X1(Junction::AccountId32 { network: None, id: account(9) }) };
    assert_eq!(chain_part(&relay_account), Some(Location::parent()));
    let child = Location { parents: 0, interior: Junctions::X3(para(5), para(6), Junction::PalletInstance(1)) };
    assert_eq!(chain_part(&child), Some(Location { parents: 0, interior: Junctions::X1(para(5)) }));
    assert_eq!(non_chain_part(&child), Some(Location { parents: 0, interior: Junctions::X1(Junction::PalletInstance(1)) }));
    assert_eq!(chain_part(&Location::here()), None);
    assert_eq!(chain_part(&Location { parents: 2, interior: Junctions::Here }), None);
    assert_eq!(non_chain_part(&sibling(3000)), None);
    assert_eq!(ensure_valid_dest(&sibling(3000)), Err(Error::InvalidDest));
    assert_eq!(ensure_valid_dest(&Location::here()), Err(Error::InvalidDest));
    assert_eq!(
        ensure_valid_dest(&d),
        Ok((sibling(3000), Location { parents: 0, interior: Junctions::X1(Junction::AccountId32 { network: None, id: account(9) }) }))
    );
}

#[test]
fn transfer_kinds() {
    let c = config();
    let d = sibling_account(3000, 9);
    let recipient = non_chain_part(&d).unwrap();
    assert_eq!(transfer_kind(&c, Some(sibling(2000)), &d), Ok((TransferKind::SelfReserveAsset, sibling(3000), sibling(2000), recipient)));
    assert_eq!(transfer_kind(&c, Some(sibling(3000)), &d), Ok((TransferKind::ToReserve, sibling(3000), sibling(3000), recipient)));
    assert_eq!(transfer_kind(&c, Some(Location::parent()), &d), Ok((TransferKind::ToNonReserve, sibling(3000), Location::parent(), recipient)));
    assert_eq!(transfer_kind(&c, None, &d), Err(Error::AssetHasNoReserve));
    assert_eq!(transfer_kind(&c, Some(sibling(3000)), &sibling_account(2000, 1)), Err(Error::NotCrossChainTransfer));
    assert_eq!(transfer_kind(&c, Some(sibling(3000)), &sibling(3000)), Err(Error::InvalidDest));
}

#[test]
fn instructions() {
    let c = config();
    match deposit_asset(Location::parent(), 3) {
        Instruction::DepositAsset { assets: AssetFilter::Wild(WildAsset::AllCounted(3)), beneficiary } => {
            assert_eq!(beneficiary, Location::parent())
        }
        _ => panic!("not a deposit"),
    }
    // The relay chain's token, seen from parachain 3000, is the parent's token.
    match buy_execution(&c, fungible(Location::parent(), 5), &sibling(3000), WeightLimit::Unlimited) {
        Ok(Instruction::BuyExecution { fees, weight_limit: WeightLimit::Unlimited }) => {
            assert_eq!(fees, fungible(Location::parent(), 5))
        }
        _ => panic!("not a purchase"),
    }
    // Our own asset, seen from the relay chain, lies under parachain 2000.
    let ours = fungible(Location { parents: 0, interior: Junctions::X1(Junction::GeneralIndex(1)) }, 5);
    match buy_execution(&c, ours, &Location::parent(), WeightLimit::Unlimited) {
        Ok(Instruction::BuyExecution { fees, .. }) => assert_eq!(
            fees,
            fungible(Location { parents: 0, interior: Junctions::X2(para(2000), Junction::GeneralIndex(1)) }, 5)
        ),
        _ => panic!("not a purchase"),
    }
    // Seen from the relay chain, a path of eight junctions here would need nine.
    let g = Junction::GeneralIndex(1);
    let deep = Location { parents: 0, interior: Junctions::X8(g, g, g, g, g, g, g, g) };
    assert!(xl(&deep).reanchored(&xl(&Location::parent()), x::Junctions::X2(x::Junction::GlobalConsensus(x::NetworkId::Polkadot), x::Junction::Parachain(2000))).is_err());
    assert!(matches!(buy_execution(&c, fungible(deep, 5), &Location::parent(), WeightLimit::Unlimited), Err(Error::CannotReanchor)));
}

#[test]
fn refusals() {
    let c = config();
    let d = sibling_account(3000, 9);
    let who = account(1);
    let nft = nft_asset(1);

    let mut small = config();
    small.max_assets = 0;
    let plan = do_transfer_multiassets(&small, who, Assets::single(nft), nft, d, WeightLimit::Unlimited);
    assert_eq!(outcome_error(&plan), Some(Error::TooManyAssetsBeingSent));
    assert!(plan.executions.is_empty());

    let plan = do_transfer_multiassets(&c, who, Assets::single(nft), nft, sibling_account(5000, 1), WeightLimit::Unlimited);
    assert_eq!(outcome_error(&plan), Some(Error::NotSupportedMultiLocation));

    let zero = nft_asset(0);
    let plan = do_transfer_multiassets(&c, who, Assets::single(zero), zero, d, WeightLimit::Unlimited);
    assert_eq!(outcome_error(&plan), Some(Error::InvalidAsset));

    let relay_token = fungible(Location::parent(), 100);
    let mut two = Assets::single(nft);
    two.push(fungible(Location { parents: 1, interior: Junctions::X2(para(2000), Junction::GeneralIndex(1)) }, 3));
    two.push(relay_token);
    let plan = do_transfer_multiassets(&c, who, two, relay_token, d, WeightLimit::Unlimited);
    assert_eq!(outcome_error(&plan), Some(Error::DistinctReserveForAssetAndFee));
    assert!(plan.executions.is_empty());

    // Assets reserved on 3000 cannot go through it to 4000.
    let mut pair = Assets::single(nft);
    pair.push(relay_token);
    let plan = do_transfer_multiassets(&c, who, pair, relay_token, sibling_account(4000, 9), WeightLimit::Unlimited);
    assert_eq!(outcome_error(&plan), Some(Error::InvalidAsset));

    let mut no_min = config();
    no_min.min_fees = vec![];
    let mut pair = Assets::single(nft);
    pair.push(relay_token);
    let plan = do_transfer_multiassets(&no_min, who, pair, relay_token, d, WeightLimit::Unlimited);
    assert_eq!(outcome_error(&plan), Some(Error::MinXcmFeeNotDefined));

    let low_fee = fungible(Location::parent(), 40);
    let mut pair = Assets::single(nft);
    pair.push(low_fee);
    let plan = do_transfer_multiassets(&c, who, pair, low_fee, d, WeightLimit::Unlimited);
    assert_eq!(outcome_error(&plan), Some(Error::FeeNotEnough));

    // Parachain 2000 is here: a transfer there is refused when its message is built.
    let mut home = config();
    home.reserves.push((nft.id, sibling(2000)));
    home.reserves.swap(0, 3);
    home.min_fees.push((sibling(2000), 1));
    let mut pair = Assets::single(nft);
    pair.push(relay_token);
    let plan = do_transfer_multiassets(&home, who, pair, relay_token, sibling_account(2000, 9), WeightLimit::Unlimited);
    assert_eq!(outcome_error(&plan), Some(Error::NotCrossChainTransfer));
    assert!(plan.executions.is_empty());
}

#[test]
fn single_asset_pays_its_own_fee_and_sends_nothing() {
    let c = config();
    let d = sibling_account(3000, 9);
    let nft = nft_asset(1);
    let plan = do_transfer_multiassets(&c, account(1), Assets::single(nft), nft, d, WeightLimit::Unlimited);
    assert!(plan.executions.is_empty());
    let t = plan.outcome.unwrap();
    assert_eq!(t.sender, account(1));
    assert_eq!(t.assets.to_vec(), vec![nft]);
    assert_eq!(t.fee, nft);
    assert_eq!(t.dest, d);
}

fn xl(l: &Location) -> x::MultiLocation {
    x::MultiLocation::decode(&mut &location_bytes(l)[..]).unwrap()
}

fn xa(a: &Asset) -> x::MultiAsset {
    let amount = match a.fun {
        Fungibility::Fungible(n) => n,
        _ => panic!("fungible assets only"),
    };
    match a.id {
        AssetId::Concrete(l) => (xl(&l), amount).into(),
        AssetId::Abstract(_) => panic!("concrete assets only"),
    }
}

/// The fee is the relay chain's token, reserved on the relay chain; the NFT is
/// reserved on parachain 3000, the destination. The fee is split: the reserve's least
/// fee (40) goes with the NFT, the rest (60) goes to the relay chain.
#[test]
fn fee_with_another_reserve_sends_two_messages() {
    let c = config();
    let d = sibling_account(3000, 9);
    let nft = nft_asset(1);
    let relay_token = fungible(Location::parent(), 100);
    let mut pair = Assets::single(nft);
    pair.push(relay_token);
    let limit = WeightLimit::Limited(Weight { ref_time: 5_000_000_000, proof_size: 65_536 });
    let plan = do_transfer_multiassets(&c, account(1), pair, relay_token, d, limit);
    assert_eq!(plan.executions.len(), 2);
    let t = plan.outcome.as_ref().unwrap();
    assert_eq!(t.fee, relay_token);
    assert_eq!(t.assets.to_vec(), vec![relay_token, nft]);

    let origin = Location { parents: 0, interior: Junctions::X1(Junction::AccountId32 { network: None, id: account(1) }) };
    let xlimit = x::WeightLimit::Limited(x::Weight::from_parts(5_000_000_000, 65_536));
    let here_on_relay = x::MultiLocation { parents: 1, interior: x::Junctions::X1(x::Junction::Parachain(2000)) };
    let recipient_on_3000 = x::MultiLocation {
        parents: 0,
        interior: x::Junctions::X1(x::Junction::AccountId32 { network: None, id: { let mut a = [0u8; 32]; a[31] = 9; a } }),
    };

    // To the relay chain, teleporting on to 3000: 30 pays at the relay, 30 at 3000.
    let relay_here: x::MultiAsset = (x::MultiLocation { parents: 0, interior: x::Junctions::Here }, 30u128).into();
    let relay_on_3000: x::MultiAsset = (x::MultiLocation { parents: 1, interior: x::Junctions::Here }, 30u128).into();
    let first: x::Xcm<()> = x::Xcm(vec![
        x::Instruction::WithdrawAsset(vec![xa(&fungible(Location::parent(), 60))].into()),
        x::Instruction::InitiateReserveWithdraw {
            assets: x::MultiAssetFilter::Wild(x::WildMultiAsset::All),
            reserve: xl(&Location::parent()),
            xcm: x::Xcm(vec![
                x::Instruction::BuyExecution { fees: relay_here, weight_limit: xlimit.clone() },
                x::Instruction::InitiateTeleport {
                    assets: x::MultiAssetFilter::Wild(x::WildMultiAsset::All),
                    dest: x::MultiLocation { parents: 0, interior: x::Junctions::X1(x::Junction::Parachain(3000)) },
                    xcm: x::Xcm(vec![
                        x::Instruction::BuyExecution { fees: relay_on_3000, weight_limit: xlimit.clone() },
                        x::Instruction::DepositAsset {
                            assets: x::MultiAssetFilter::Wild(x::WildMultiAsset::AllCounted(1)),
                            beneficiary: here_on_relay,
                        },
                    ]),
                },
            ]),
        },
    ]);
    let p1 = &plan.executions[0];
    assert_eq!(p1.origin, origin);
    assert_eq!(xcm_bytes(&p1.message), first.encode());
    assert_eq!(p1.hash, sp_io::hashing::blake2_256(&first.encode()));

    // To parachain 3000, the reserve: the NFT and 40 of the fee, paying 40 there.
    let nft_on_3000: x::MultiAsset = (x::MultiLocation { parents: 0, interior: x::Junctions::X1(x::Junction::GeneralIndex(7)) }, 1u128).into();
    let _ = nft_on_3000;
    let second: x::Xcm<()> = x::Xcm(vec![
        x::Instruction::WithdrawAsset(vec![xa(&fungible(Location::parent(), 40)), xa(&nft)].into()),
        x::Instruction::InitiateReserveWithdraw {
            assets: x::MultiAssetFilter::Wild(x::WildMultiAsset::All),
            reserve: xl(&sibling(3000)),
            xcm: x::Xcm(vec![
                x::Instruction::BuyExecution {
                    fees: (x::MultiLocation { parents: 1, interior: x::Junctions::Here }, 40u128).into(),
                    weight_limit: xlimit.clone(),
                },
                x::Instruction::DepositAsset {
                    assets: x::MultiAssetFilter::Wild(x::WildMultiAsset::AllCounted(2)),
                    beneficiary: recipient_on_3000,
                },
            ]),
        },
    ]);
    let p2 = &plan.executions[1];
    assert_eq!(p2.origin, origin);
    assert_eq!(xcm_bytes(&p2.message), second.encode());
    assert_eq!(p2.hash, sp_io::hashing::blake2_256(&second.encode()));
    assert_ne!(p1.hash, p2.hash);
}

fn message_len(m: &Xcm) -> usize {
    m.0.len()
}

#[test]
fn pallet_transfer() {
    let p = Pallet::new(config());
    let d = sibling_account(3000, 9);
    assert!(matches!(p.transfer(None, 7, Some(d), WeightLimit::Unlimited), Err(DispatchError::BadOrigin)));
    assert!(matches!(p.transfer(Some(account(1)), 7, None, WeightLimit::Unlimited), Err(DispatchError::Module(Error::BadVersion))));
    let plan = p.transfer(Some(account(1)), 8, Some(d), WeightLimit::Unlimited).unwrap();
    assert_eq!(outcome_error(&plan), Some(Error::NotCrossChainTransferableCurrency));
    let plan = p.transfer(Some(account(1)), 7, Some(sibling_account(6000, 1)), WeightLimit::Unlimited).unwrap();
    assert_eq!(outcome_error(&plan), Some(Error::NotSupportedMultiLocation));
    let plan = p.transfer(Some(account(1)), 7, Some(d), WeightLimit::Unlimited).unwrap();
    assert!(plan.executions.is_empty());
    let t = plan.outcome.unwrap();
    assert_eq!(t.assets.to_vec(), vec![nft_asset(1)]);
    assert_eq!(t.fee, nft_asset(1));
    assert_eq!(t.dest, d);
    assert_eq!(message_len(&Xcm(vec![])), 0);
}

#[test]
fn register_then_read_back() {
    let mut p = Pallet::new(config());
    let home = Location { parents: 1, interior: Junctions::X2(para(3000), Junction::GeneralIndex(7)) };
    assert_eq!(p.locations(7), None);
    assert_eq!(p.location_assets(&home), None);
    let ev = p.register(None, 7, Some(home)).unwrap();
    assert!(matches!(ev, Some(Event::LocationSet { collection_id: 7, location }) if location == home));
    assert_eq!(p.locations(7), Some(home));
    assert_eq!(p.location_assets(&home), Some(7));
    let other = sibling(4000);
    p.register(Some(account(2)), 7, Some(other)).unwrap();
    assert_eq!(p.locations(7), Some(other));
    assert_eq!(p.location_assets(&other), Some(7));
    assert_eq!(p.location_assets(&home), Some(7));
    let ev = p.register(None, 9, None).unwrap();
    assert!(ev.is_none());
    assert_eq!(p.locations(9), None);
    assert_eq!(p.locations(7), Some(other));
}

#[test]
fn baseline_weights() {
    type W = WeightInfo<()>;
    assert_eq!(W::addition(5), Weight { ref_time: 207_289, proof_size: 0 });
    assert_eq!(W::subtraction(1_000_000), Weight { ref_time: 202_031, proof_size: 0 });
    assert_eq!(W::multiplication(0), Weight { ref_time: 198_075, proof_size: 0 });
    assert_eq!(W::division(7), Weight { ref_time: 204_599, proof_size: 0 });
    assert_eq!(W::hashing(), Weight { ref_time: 19_769_646_000, proof_size: 0 });
    assert_eq!(W::sr25519_verification(0), Weight { ref_time: 242_000, proof_size: 0 });
    assert_eq!(W::sr25519_verification(100), Weight { ref_time: 242_000 + 4_699_035_300, proof_size: 0 });
    assert_eq!(W::sr25519_verification(u32::MAX), Weight { ref_time: 242_000 + 46_990_353 * u32::MAX as u64, proof_size: 0 });
    let big = Weight::from_parts(u64::MAX - 1, 3);
    assert_eq!(big.saturating_add(Weight::from_parts(5, 4)), Weight { ref_time: u64::MAX, proof_size: 7 });
    assert_eq!(big.saturating_mul(2), Weight { ref_time: u64::MAX, proof_size: 6 });
}

#[test]
fn execution_reports() {
    assert_eq!(execution_outcome(ExecutionReport::Unweighable), Err(Error::UnweighableMessage));
    assert_eq!(execution_outcome(ExecutionReport::Incomplete), Err(Error::XcmExecutionFailed));
    assert_eq!(execution_outcome(ExecutionReport::Complete), Ok(()));
}
