// The library's locations, assets and messages against XCM's own: the same bytes on
// the wire, the same order, the same merging, the same reanchoring.

use parity_scale_codec::Encode;
use staging_xcm::v3 as x;
use xnft::asset::{asset_less, Asset, AssetFilter, AssetId, AssetInstance, Assets, Fungibility, WildAsset, WildFungibility};
use xnft::bytes::{Bytes16, Bytes20, Bytes32, Bytes4, Bytes8};
use xnft::codec::{decode_location, junctions_bytes, location_bytes, xcm_bytes};
use xnft::location::{BodyId, BodyPart, Junction, Junctions, Location, NetworkId};
use xnft::message::{Instruction, Xcm};
use xnft::transfer::reanchored;
use xnft::weights::{Weight, WeightLimit};

fn arr32(b: &Bytes32) -> [u8; 32] {
    let mut a = [0u8; 32];
    a[..16].copy_from_slice(&b.hi.to_be_bytes());
    a[16..].copy_from_slice(&b.lo.to_be_bytes());
    a
}

fn arr20(b: &Bytes20) -> [u8; 20] {
    let mut a = [0u8; 20];
    a[..4].copy_from_slice(&b.hi.to_be_bytes());
    a[4..].copy_from_slice(&b.lo.to_be_bytes());
    a
}

fn net(n: &NetworkId) -> x::NetworkId {
    match n {
        NetworkId::ByGenesis(h) => x::NetworkId::ByGenesis(arr32(h)),
        NetworkId::ByFork { block_number, block_hash } => {
            x::NetworkId::ByFork { block_number: *block_number, block_hash: arr32(block_hash) }
        }
        NetworkId::Polkadot => x::NetworkId::Polkadot,
        NetworkId::Kusama => x::NetworkId::Kusama,
        NetworkId::Westend => x::NetworkId::Westend,
        NetworkId::Rococo => x::NetworkId::Rococo,
        NetworkId::Wococo => x::NetworkId::Wococo,
        NetworkId::Ethereum { chain_id } => x::NetworkId::Ethereum { chain_id: *chain_id },
        NetworkId::BitcoinCore => x::NetworkId::BitcoinCore,
        NetworkId::BitcoinCash => x::NetworkId::BitcoinCash,
        NetworkId::PolkadotBulletin => x::NetworkId::PolkadotBulletin,
    }
}

fn body_id(b: &BodyId) -> x::BodyId {
    match b {
        BodyId::Unit => x::BodyId::Unit,
        BodyId::Moniker(m) => x::BodyId::Moniker(m.0.to_be_bytes()),
        BodyId::Index(i) => x::BodyId::Index(*i),
        BodyId::Executive => x::BodyId::Executive,
        BodyId::Technical => x::BodyId::Technical,
        BodyId::Legislative => x::BodyId::Legislative,
        BodyId::Judicial => x::BodyId::Judicial,
        BodyId::Defense => x::BodyId::Defense,
        BodyId::Administration => x::BodyId::Administration,
        BodyId::Treasury => x::BodyId::Treasury,
    }
}

fn body_part(p: &BodyPart) -> x::BodyPart {
    match p {
        BodyPart::Voice => x::BodyPart::Voice,
        BodyPart::Members { count } => x::BodyPart::Members { count: *count },
        BodyPart::Fraction { nom, denom } => x::BodyPart::Fraction { nom: *nom, denom: *denom },
        BodyPart::AtLeastProportion { nom, denom } => {
            x::BodyPart::AtLeastProportion { nom: *nom, denom: *denom }
        }
        BodyPart::MoreThanProportion { nom, denom } => {
            x::BodyPart::MoreThanProportion { nom: *nom, denom: *denom }
        }
    }
}

fn junction(j: &Junction) -> x::Junction {
    match j {
        Junction::Parachain(id) => x::Junction::Parachain(*id),
        Junction::AccountId32 { network, id } => {
            x::Junction::AccountId32 { network: network.as_ref().map(net), id: arr32(id) }
        }
        Junction::AccountIndex64 { network, index } => {
            x::Junction::AccountIndex64 { network: network.as_ref().map(net), index: *index }
        }
        Junction::AccountKey20 { network, key } => {
            x::Junction::AccountKey20 { network: network.as_ref().map(net), key: arr20(key) }
        }
        Junction::PalletInstance(i) => x::Junction::PalletInstance(*i),
        Junction::GeneralIndex(i) => x::Junction::GeneralIndex(*i),
        Junction::GeneralKey { length, data } => {
            x::Junction::GeneralKey { length: *length, data: arr32(data) }
        }
        Junction::OnlyChild => x::Junction::OnlyChild,
        Junction::Plurality { id, part } => {
            x::Junction::Plurality { id: body_id(id), part: body_part(part) }
        }
        Junction::GlobalConsensus(n) => x::Junction::GlobalConsensus(net(n)),
    }
}

fn junctions(js: &Junctions) -> x::Junctions {
    let v: Vec<x::Junction> = js.to_vec().iter().map(junction).collect();
    match v.len() {
        0 => x::Junctions::Here,
        1 => x::Junctions::X1(v[0]),
        2 => x::Junctions::X2(v[0], v[1]),
        3 => x::Junctions::X3(v[0], v[1], v[2]),
        4 => x::Junctions::X4(v[0], v[1], v[2], v[3]),
        5 => x::Junctions::X5(v[0], v[1], v[2], v[3], v[4]),
        6 => x::Junctions::X6(v[0], v[1], v[2], v[3], v[4], v[5]),
        7 => x::Junctions::X7(v[0], v[1], v[2], v[3], v[4], v[5], v[6]),
        _ => x::Junctions::X8(v[0], v[1], v[2], v[3], v[4], v[5], v[6], v[7]),
    }
}

fn loc(l: &Location) -> x::MultiLocation {
    x::MultiLocation { parents: l.parents, interior: junctions(&l.interior) }
}

fn asset_id(id: &AssetId) -> x::AssetId {
    match id {
        AssetId::Concrete(l) => x::AssetId::Concrete(loc(l)),
        AssetId::Abstract(b) => x::AssetId::Abstract(arr32(b)),
    }
}

fn asset(a: &Asset) -> x::MultiAsset {
    let fun = match a.fun {
        Fungibility::Fungible(n) => x::Fungibility::Fungible(n),
        Fungibility::NonFungible(i) => x::Fungibility::NonFungible(match i {
            AssetInstance::Undefined => x::AssetInstance::Undefined,
            AssetInstance::Index(n) => x::AssetInstance::Index(n),
            AssetInstance::Array4(b) => x::AssetInstance::Array4(b.0.to_be_bytes()),
            AssetInstance::Array8(b) => x::AssetInstance::Array8(b.0.to_be_bytes()),
            AssetInstance::Array16(b) => x::AssetInstance::Array16(b.0.to_be_bytes()),
            AssetInstance::Array32(b) => x::AssetInstance::Array32(arr32(&b)),
        }),
    };
    x::MultiAsset { id: asset_id(&a.id), fun }
}

fn asset_vec(a: &Assets) -> Vec<x::MultiAsset> {
    a.to_vec().iter().map(asset).collect()
}

fn wild_fun(f: &WildFungibility) -> x::WildFungibility {
    match f {
        WildFungibility::Fungible => x::WildFungibility::Fungible,
        WildFungibility::NonFungible => x::WildFungibility::NonFungible,
    }
}

fn filter(f: &AssetFilter) -> x::MultiAssetFilter {
    match f {
        AssetFilter::Definite(a) => {
            x::MultiAssetFilter::Definite(x::MultiAssets::from_sorted_and_deduplicated(asset_vec(a)).unwrap())
        }
        AssetFilter::Wild(w) => x::MultiAssetFilter::Wild(match w {
            WildAsset::All => x::WildMultiAsset::All,
            WildAsset::AllOf { id, fun } => x::WildMultiAsset::AllOf { id: asset_id(id), fun: wild_fun(fun) },
            WildAsset::AllCounted(n) => x::WildMultiAsset::AllCounted(*n),
            WildAsset::AllOfCounted { id, fun, count } => {
                x::WildMultiAsset::AllOfCounted { id: asset_id(id), fun: wild_fun(fun), count: *count }
            }
        }),
    }
}

fn limit(w: &WeightLimit) -> x::WeightLimit {
    match w {
        WeightLimit::Unlimited => x::WeightLimit::Unlimited,
        WeightLimit::Limited(w) => x::WeightLimit::Limited(x::Weight::from_parts(w.ref_time, w.proof_size)),
    }
}

fn instruction(i: &Instruction) -> x::Instruction<()> {
    match i {
        Instruction::WithdrawAsset(a) => {
            x::Instruction::WithdrawAsset(x::MultiAssets::from_sorted_and_deduplicated(asset_vec(a)).unwrap())
        }
        Instruction::TransferReserveAsset { assets, dest, xcm } => x::Instruction::TransferReserveAsset {
            assets: x::MultiAssets::from_sorted_and_deduplicated(asset_vec(assets)).unwrap(),
            dest: loc(dest),
            xcm: message(xcm),
        },
        Instruction::DepositAsset { assets, beneficiary } => {
            x::Instruction::DepositAsset { assets: filter(assets), beneficiary: loc(beneficiary) }
        }
        Instruction::DepositReserveAsset { assets, dest, xcm } => x::Instruction::DepositReserveAsset {
            assets: filter(assets),
            dest: loc(dest),
            xcm: message(xcm),
        },
        Instruction::InitiateReserveWithdraw { assets, reserve, xcm } => {
            x::Instruction::InitiateReserveWithdraw { assets: filter(assets), reserve: loc(reserve), xcm: message(xcm) }
        }
        Instruction::InitiateTeleport { assets, dest, xcm } => {
            x::Instruction::InitiateTeleport { assets: filter(assets), dest: loc(dest), xcm: message(xcm) }
        }
        Instruction::BuyExecution { fees, weight_limit } => {
            x::Instruction::BuyExecution { fees: asset(fees), weight_limit: limit(weight_limit) }
        }
    }
}

fn message(m: &Xcm) -> x::Xcm<()> {
    x::Xcm(m.0.iter().map(instruction).collect())
}

fn b32(hi: u128, lo: u128) -> Bytes32 {
    Bytes32 { hi, lo }
}

fn para(id: u32) -> Junction {
    Junction::Parachain(id)
}

fn j1(a: Junction) -> Junctions {
    Junctions::X1(a)
}

fn sample_junctions() -> Vec<Junction> {
    vec![
        Junction::Parachain(0),
        Junction::Parachain(63),
        Junction::Parachain(64),
        Junction::Parachain(16_383),
        Junction::Parachain(16_384),
        Junction::Parachain(u32::MAX),
        Junction::AccountId32 { network: None, id: b32(0x0102_0304_0506_0708_090a_0b0c_0d0e_0f10, 7) },
        Junction::AccountId32 { network: Some(NetworkId::Kusama), id: b32(u128::MAX, 0) },
        Junction::AccountIndex64 { network: Some(NetworkId::Ethereum { chain_id: 1 }), index: 23 },
        Junction::AccountIndex64 { network: None, index: u64::MAX },
        Junction::AccountKey20 { network: Some(NetworkId::BitcoinCash), key: Bytes20 { hi: 0xdead_beef, lo: 42 } },
        Junction::PalletInstance(50),
        Junction::GeneralIndex((1u128 << 30) - 1),
        Junction::GeneralIndex(1u128 << 30),
        Junction::GeneralIndex(1u128 << 32),
        Junction::GeneralIndex(u128::MAX),
        Junction::GeneralKey { length: 3, data: b32(1, 2) },
        Junction::OnlyChild,
        Junction::Plurality { id: BodyId::Moniker(Bytes4(0x6162_6364)), part: BodyPart::Fraction { nom: 1, denom: 1 << 20 } },
        Junction::Plurality { id: BodyId::Index(5), part: BodyPart::Members { count: 300 } },
        Junction::Plurality { id: BodyId::Treasury, part: BodyPart::Voice },
        Junction::GlobalConsensus(NetworkId::ByGenesis(b32(9, 9))),
        Junction::GlobalConsensus(NetworkId::ByFork { block_number: 1 << 40, block_hash: b32(3, 4) }),
        Junction::GlobalConsensus(NetworkId::PolkadotBulletin),
    ]
}

#[test]
fn location_encoding_matches_xcm() {
    for j in sample_junctions() {
        for parents in [0u8, 1, 255] {
            let l = Location { parents, interior: j1(j) };
            assert_eq!(location_bytes(&l), loc(&l).encode());
        }
    }
    let js = sample_junctions();
    let long = Location {
        parents: 2,
        interior: Junctions::X8(js[0], js[6], js[8], js[10], js[16], js[18], js[21], js[22]),
    };
    assert_eq!(location_bytes(&long), loc(&long).encode());
    assert_eq!(junctions_bytes(&long.interior), junctions(&long.interior).encode());
    let known = Location {
        parents: 1,
        interior: Junctions::X2(para(42), Junction::AccountIndex64 { network: None, index: 23 }),
    };
    assert_eq!(location_bytes(&known), vec![1, 2, 0, 168, 2, 0, 92]);
}

#[test]
fn location_decoding_round_trips() {
    for j in sample_junctions() {
        let l = Location { parents: 3, interior: Junctions::X2(j, para(7)) };
        let bytes = location_bytes(&l);
        assert_eq!(decode_location(&bytes), Some(l));
        let mut longer = bytes.clone();
        longer.push(0);
        assert_eq!(decode_location(&longer), None);
        assert_eq!(decode_location(&bytes[..bytes.len() - 1]), None);
    }
    assert_eq!(decode_location(&[]), None);
    assert_eq!(decode_location(&[0, 9]), None);
    assert_eq!(decode_location(&[0, 0]), Some(Location::here()));
}

fn fungible(l: Location, n: u128) -> Asset {
    Asset { id: AssetId::Concrete(l), fun: Fungibility::Fungible(n) }
}

fn sample_assets() -> Vec<Asset> {
    let relay = Location::parent();
    let sibling = Location { parents: 1, interior: j1(para(1000)) };
    vec![
        fungible(relay, 1),
        fungible(relay, 1000),
        fungible(sibling, 5),
        fungible(Location::here(), 0),
        Asset { id: AssetId::Abstract(b32(1, 1)), fun: Fungibility::Fungible(7) },
        Asset { id: AssetId::Concrete(sibling), fun: Fungibility::NonFungible(AssetInstance::Index(3)) },
        Asset { id: AssetId::Concrete(sibling), fun: Fungibility::NonFungible(AssetInstance::Array4(Bytes4(9))) },
        Asset { id: AssetId::Concrete(relay), fun: Fungibility::NonFungible(AssetInstance::Undefined) },
        Asset { id: AssetId::Abstract(b32(0, 0)), fun: Fungibility::NonFungible(AssetInstance::Array8(Bytes8(1))) },
        Asset { id: AssetId::Abstract(b32(0, 0)), fun: Fungibility::NonFungible(AssetInstance::Array16(Bytes16(2))) },
        Asset { id: AssetId::Abstract(b32(0, 0)), fun: Fungibility::NonFungible(AssetInstance::Array32(b32(5, 6))) },
    ]
}

#[test]
fn asset_order_matches_xcm() {
    let all = sample_assets();
    for a in &all {
        for b in &all {
            assert_eq!(asset_less(a, b), asset(a) < asset(b), "{:?} < {:?}", a, b);
        }
    }
}

#[test]
fn asset_push_matches_xcm() {
    let all = sample_assets();
    let mut mine = Assets::new();
    let mut theirs = x::MultiAssets::new();
    for a in all.iter().rev().chain(all.iter()) {
        mine.push(*a);
        theirs.push(asset(a));
        assert_eq!(asset_vec(&mine), theirs.inner().clone());
    }
    let relay = Location::parent();
    let mut full = Assets::single(fungible(relay, u128::MAX - 1));
    full.push(fungible(relay, 5));
    assert_eq!(full.to_vec(), vec![fungible(relay, u128::MAX)]);
}

#[test]
fn reanchoring_matches_xcm() {
    // The example of XCM's own documentation.
    let id = Location { parents: 1, interior: Junctions::X2(para(1000), Junction::GeneralIndex(42)) };
    let context = j1(para(2000));
    let target = Location { parents: 1, interior: j1(para(1000)) };
    let expected = Location { parents: 0, interior: j1(Junction::GeneralIndex(42)) };
    assert_eq!(reanchored(&id, &target, &context), Some(expected));
    let cases = [
        (Location::here(), Location::parent(), j1(para(7))),
        (Location::parent(), Location { parents: 1, interior: j1(para(2)) }, j1(para(7))),
        (Location { parents: 0, interior: j1(Junction::PalletInstance(5)) }, Location::parent(), Junctions::X2(Junction::GlobalConsensus(NetworkId::Polkadot), para(1000))),
        (Location { parents: 1, interior: Junctions::Here }, Location { parents: 3, interior: Junctions::Here }, j1(para(9))),
    ];
    for (l, t, c) in cases {
        let theirs = loc(&l).reanchored(&loc(&t), junctions(&c)).ok();
        let mine = reanchored(&l, &t, &c).map(|m| loc(&m));
        assert_eq!(mine, theirs);
        assert!(mine != Some(loc(&l)) || theirs == Some(loc(&l)));
    }
}

#[test]
fn message_encoding_matches_xcm() {
    let relay = Location::parent();
    let dest = Location { parents: 1, interior: Junctions::X2(para(2000), Junction::AccountId32 { network: None, id: b32(1, 2) }) };
    let fees = fungible(relay, 300);
    let inner = Xcm(vec![
        Instruction::BuyExecution { fees, weight_limit: WeightLimit::Limited(Weight { ref_time: 1 << 40, proof_size: 65 }) },
        Instruction::DepositAsset { assets: AssetFilter::Wild(WildAsset::AllCounted(1)), beneficiary: dest },
    ]);
    let msg = Xcm(vec![
        Instruction::WithdrawAsset(Assets::single(fees)),
        Instruction::InitiateReserveWithdraw {
            assets: AssetFilter::Wild(WildAsset::All),
            reserve: relay,
            xcm: Xcm(vec![
                Instruction::BuyExecution { fees, weight_limit: WeightLimit::Unlimited },
                Instruction::DepositReserveAsset { assets: AssetFilter::Wild(WildAsset::AllCounted(2)), dest, xcm: inner },
            ]),
        },
        Instruction::TransferReserveAsset { assets: Assets::single(fees), dest, xcm: Xcm(vec![]) },
        Instruction::InitiateTeleport {
            assets: AssetFilter::Definite(Assets::single(fees)),
            dest,
            xcm: Xcm(vec![Instruction::DepositAsset {
                assets: AssetFilter::Wild(WildAsset::AllOfCounted { id: fees.id, fun: WildFungibility::NonFungible, count: 70 }),
                beneficiary: relay,
            }]),
        },
        Instruction::DepositAsset { assets: AssetFilter::Wild(WildAsset::AllOf { id: fees.id, fun: WildFungibility::Fungible }), beneficiary: relay },
    ]);
    assert_eq!(xcm_bytes(&msg), message(&msg).encode());
}

#[test]
fn bytes32_from_array_is_big_endian() {
    let mut a = [0u8; 32];
    for (i, b) in a.iter_mut().enumerate() {
        *b = i as u8;
    }
    let b = Bytes32::from_array(a);
    assert_eq!(arr32(&b), a);
    assert_eq!(b.hi >> 120, 0);
    assert_eq!(b.lo & 0xff, 31);
}
