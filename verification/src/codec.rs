//! The SCALE wire format of locations, assets and messages, as XCM version 3 writes
//! them: the encoding of everything a transfer sends, and the decoding of locations.

use crate::asset::{Asset, AssetFilter, AssetId, AssetInstance, Assets, Fungibility, WildAsset, WildFungibility};
use crate::bytes::{be_bytes, from_be, from_le, le_bytes, pow256, push_be, push_le, read_be, Bytes20, Bytes32, Bytes4, Bytes8, Bytes16};
use crate::location::{BodyId, BodyPart, Junction, Junctions, Location, NetworkId};
use crate::message::{Instruction, Xcm};
use crate::weights::{Weight, WeightLimit};
use vstd::prelude::*;

verus! {

/// The number of bytes needed to write `n`.
pub open spec fn byte_len(n: nat) -> nat
    decreases n,
{
    if n == 0 {
        0
    } else {
        1 + byte_len(n / 256)
    }
}

/// The compact encoding of a number: one, two or four little-endian bytes holding the
/// number shifted left by two with the mode in the low bits, or a length byte
/// followed by the number's significant bytes.
pub open spec fn enc_compact(n: nat) -> Seq<u8> {
    if n < 0x40 {
        seq![(n * 4) as u8]
    } else if n < 0x4000 {
        le_bytes(n * 4 + 1, 2)
    } else if n < 0x4000_0000 {
        le_bytes(n * 4 + 2, 4)
    } else {
        seq![((byte_len(n) - 4) * 4 + 3) as u8] + le_bytes(n, byte_len(n))
    }
}

pub open spec fn enc_network(n: NetworkId) -> Seq<u8> {
    match n {
        NetworkId::ByGenesis(h) => seq![0u8] + h.bytes(),
        NetworkId::ByFork { block_number, block_hash } => seq![1u8] + le_bytes(
            block_number as nat,
            8,
        ) + block_hash.bytes(),
        NetworkId::Polkadot => seq![2u8],
        NetworkId::Kusama => seq![3u8],
        NetworkId::Westend => seq![4u8],
        NetworkId::Rococo => seq![5u8],
        NetworkId::Wococo => seq![6u8],
        NetworkId::Ethereum { chain_id } => seq![7u8] + enc_compact(chain_id as nat),
        NetworkId::BitcoinCore => seq![8u8],
        NetworkId::BitcoinCash => seq![9u8],
        NetworkId::PolkadotBulletin => seq![10u8],
    }
}

pub open spec fn enc_option_network(n: Option<NetworkId>) -> Seq<u8> {
    match n {
        None => seq![0u8],
        Some(n) => seq![1u8] + enc_network(n),
    }
}

pub open spec fn enc_body_id(b: BodyId) -> Seq<u8> {
    match b {
        BodyId::Unit => seq![0u8],
        BodyId::Moniker(m) => seq![1u8] + m.bytes(),
        BodyId::Index(i) => seq![2u8] + enc_compact(i as nat),
        BodyId::Executive => seq![3u8],
        BodyId::Technical => seq![4u8],
        BodyId::Legislative => seq![5u8],
        BodyId::Judicial => seq![6u8],
        BodyId::Defense => seq![7u8],
        BodyId::Administration => seq![8u8],
        BodyId::Treasury => seq![9u8],
    }
}

pub open spec fn enc_body_part(p: BodyPart) -> Seq<u8> {
    match p {
        BodyPart::Voice => seq![0u8],
        BodyPart::Members { count } => seq![1u8] + enc_compact(count as nat),
        BodyPart::Fraction { nom, denom } => seq![2u8] + enc_compact(nom as nat) + enc_compact(
            denom as nat,
        ),
        BodyPart::AtLeastProportion { nom, denom } => seq![3u8] + enc_compact(nom as nat)
            + enc_compact(denom as nat),
        BodyPart::MoreThanProportion { nom, denom } => seq![4u8] + enc_compact(nom as nat)
            + enc_compact(denom as nat),
    }
}

pub open spec fn enc_junction(j: Junction) -> Seq<u8> {
    match j {
        Junction::Parachain(id) => seq![0u8] + enc_compact(id as nat),
        Junction::AccountId32 { network, id } => seq![1u8] + enc_option_network(network)
            + id.bytes(),
        Junction::AccountIndex64 { network, index } => seq![2u8] + enc_option_network(network)
            + enc_compact(index as nat),
        Junction::AccountKey20 { network, key } => seq![3u8] + enc_option_network(network)
            + key.bytes(),
        Junction::PalletInstance(i) => seq![4u8, i],
        Junction::GeneralIndex(i) => seq![5u8] + enc_compact(i as nat),
        Junction::GeneralKey { length, data } => seq![6u8, length] + data.bytes(),
        Junction::OnlyChild => seq![7u8],
        Junction::Plurality { id, part } => seq![8u8] + enc_body_id(id) + enc_body_part(part),
        Junction::GlobalConsensus(n) => seq![9u8] + enc_network(n),
    }
}

/// The encodings of a list of junctions, one after the other.
pub open spec fn enc_junction_list(s: Seq<Junction>) -> Seq<u8>
    decreases s.len(),
{
    if s.len() == 0 {
        seq![]
    } else {
        enc_junction_list(s.drop_last()) + enc_junction(s.last())
    }
}

/// A path: the number of junctions, then the junctions.
pub open spec fn enc_junctions(j: Junctions) -> Seq<u8> {
    seq![j@.len() as u8] + enc_junction_list(j@)
}

/// A location: the number of parents, then the interior path.
pub open spec fn enc_location(l: Location) -> Seq<u8> {
    seq![l.parents] + enc_junctions(l.interior)
}

pub open spec fn enc_asset_id(id: AssetId) -> Seq<u8> {
    match id {
        AssetId::Concrete(l) => seq![0u8] + enc_location(l),
        AssetId::Abstract(b) => seq![1u8] + b.bytes(),
    }
}

pub open spec fn enc_instance(i: AssetInstance) -> Seq<u8> {
    match i {
        AssetInstance::Undefined => seq![0u8],
        AssetInstance::Index(n) => seq![1u8] + enc_compact(n as nat),
        AssetInstance::Array4(b) => seq![2u8] + b.bytes(),
        AssetInstance::Array8(b) => seq![3u8] + b.bytes(),
        AssetInstance::Array16(b) => seq![4u8] + b.bytes(),
        AssetInstance::Array32(b) => seq![5u8] + b.bytes(),
    }
}

pub open spec fn enc_fungibility(f: Fungibility) -> Seq<u8> {
    match f {
        Fungibility::Fungible(a) => seq![0u8] + enc_compact(a as nat),
        Fungibility::NonFungible(i) => seq![1u8] + enc_instance(i),
    }
}

/// An asset: its class, then its fungibility.
pub open spec fn enc_asset(a: Asset) -> Seq<u8> {
    enc_asset_id(a.id) + enc_fungibility(a.fun)
}

pub open spec fn enc_asset_list(s: Seq<Asset>) -> Seq<u8>
    decreases s.len(),
{
    if s.len() == 0 {
        seq![]
    } else {
        enc_asset_list(s.drop_last()) + enc_asset(s.last())
    }
}

/// A list of assets: the compact length, then the assets.
pub open spec fn enc_assets(s: Seq<Asset>) -> Seq<u8> {
    enc_compact(s.len()) + enc_asset_list(s)
}

pub open spec fn enc_wild_fungibility(f: WildFungibility) -> Seq<u8> {
    match f {
        WildFungibility::Fungible => seq![0u8],
        WildFungibility::NonFungible => seq![1u8],
    }
}

pub open spec fn enc_wild(w: WildAsset) -> Seq<u8> {
    match w {
        WildAsset::All => seq![0u8],
        WildAsset::AllOf { id, fun } => seq![1u8] + enc_asset_id(id) + enc_wild_fungibility(fun),
        WildAsset::AllCounted(n) => seq![2u8] + enc_compact(n as nat),
        WildAsset::AllOfCounted { id, fun, count } => seq![3u8] + enc_asset_id(id)
            + enc_wild_fungibility(fun) + enc_compact(count as nat),
    }
}

pub open spec fn enc_filter(f: AssetFilter) -> Seq<u8> {
    match f {
        AssetFilter::Definite(a) => seq![0u8] + enc_assets(a@),
        AssetFilter::Wild(w) => seq![1u8] + enc_wild(w),
    }
}

pub open spec fn enc_weight_limit(w: WeightLimit) -> Seq<u8> {
    match w {
        WeightLimit::Unlimited => seq![0u8],
        WeightLimit::Limited(w) => seq![1u8] + enc_compact(w.ref_time as nat) + enc_compact(
            w.proof_size as nat,
        ),
    }
}

/// An instruction: its index among the XCM version 3 instructions, then its fields.
pub open spec fn enc_instruction(i: Instruction) -> Seq<u8>
    decreases i,
{
    match i {
        Instruction::WithdrawAsset(a) => seq![0u8] + enc_assets(a@),
        Instruction::TransferReserveAsset { assets, dest, xcm } => seq![5u8] + enc_assets(assets@)
            + enc_location(dest) + enc_compact(xcm.0@.len()) + enc_instruction_list(xcm.0@),
        Instruction::DepositAsset { assets, beneficiary } => seq![13u8] + enc_filter(assets)
            + enc_location(beneficiary),
        Instruction::DepositReserveAsset { assets, dest, xcm } => seq![14u8] + enc_filter(assets)
            + enc_location(dest) + enc_compact(xcm.0@.len()) + enc_instruction_list(xcm.0@),
        Instruction::InitiateReserveWithdraw { assets, reserve, xcm } => seq![16u8] + enc_filter(
            assets,
        ) + enc_location(reserve) + enc_compact(xcm.0@.len()) + enc_instruction_list(xcm.0@),
        Instruction::InitiateTeleport { assets, dest, xcm } => seq![17u8] + enc_filter(assets)
            + enc_location(dest) + enc_compact(xcm.0@.len()) + enc_instruction_list(xcm.0@),
        Instruction::BuyExecution { fees, weight_limit } => seq![19u8] + enc_asset(fees)
            + enc_weight_limit(weight_limit),
    }
}

pub open spec fn enc_instruction_list(s: Seq<Instruction>) -> Seq<u8>
    decreases s,
{
    if s.len() == 0 {
        seq![]
    } else {
        enc_instruction_list(s.drop_last()) + enc_instruction(s.last())
    }
}

/// A message: the compact number of instructions, then the instructions.
pub open spec fn enc_xcm(x: Xcm) -> Seq<u8> {
    enc_compact(x.0@.len()) + enc_instruction_list(x.0@)
}

// ----- encoding -----

pub proof fn lemma_byte_len_bound(n: nat, k: nat)
    ensures
        n < pow256(k) ==> byte_len(n) <= k,
        n >= pow256(k) ==> byte_len(n) > k,
    decreases k,
{
    if k > 0 {
        lemma_byte_len_bound(n / 256, (k - 1) as nat);
    }
}

/// The number of bytes needed to write `n`.
fn byte_count(n: u128) -> (k: usize)
    ensures
        k == byte_len(n as nat),
        k <= 16,
{
    proof {
        crate::bytes::lemma_pow256_values();
        lemma_byte_len_bound(n as nat, 16);
    }
    let mut x = n;
    let mut k: usize = 0;
    while x > 0
        invariant
            byte_len(n as nat) == k + byte_len(x as nat),
            byte_len(n as nat) <= 16,
        decreases x,
    {
        x = x / 256;
        k = k + 1;
    }
    k
}

/// Appends the compact encoding of `n`.
pub fn encode_compact(n: u128, out: &mut Vec<u8>)
    ensures
        final(out)@ == old(out)@ + enc_compact(n as nat),
{
    if n < 0x40 {
        out.push((n * 4) as u8);
        assert(final(out)@ =~= old(out)@ + enc_compact(n as nat));
    } else if n < 0x4000 {
        push_le(n * 4 + 1, 2, out);
    } else if n < 0x4000_0000 {
        push_le(n * 4 + 2, 4, out);
    } else {
        let k = byte_count(n);
        proof {
            crate::bytes::lemma_pow256_values();
            reveal_with_fuel(pow256, 4);
            lemma_byte_len_bound(n as nat, 3);
        }
        out.push(((k - 4) * 4 + 3) as u8);
        push_le(n, k, out);
        assert(final(out)@ =~= old(out)@ + enc_compact(n as nat));
    }
}

fn encode_bytes32(b: &Bytes32, out: &mut Vec<u8>)
    ensures
        final(out)@ == old(out)@ + b.bytes(),
{
    push_be(b.hi, 16, out);
    push_be(b.lo, 16, out);
    assert(final(out)@ =~= old(out)@ + b.bytes());
}

fn encode_network(n: &NetworkId, out: &mut Vec<u8>)
    ensures
        final(out)@ == old(out)@ + enc_network(*n),
{
    let ghost start = out@;
    match n {
        NetworkId::ByGenesis(h) => {
            out.push(0);
            encode_bytes32(h, out);
        },
        NetworkId::ByFork { block_number, block_hash } => {
            out.push(1);
            push_le(*block_number as u128, 8, out);
            encode_bytes32(block_hash, out);
        },
        NetworkId::Polkadot => out.push(2),
        NetworkId::Kusama => out.push(3),
        NetworkId::Westend => out.push(4),
        NetworkId::Rococo => out.push(5),
        NetworkId::Wococo => out.push(6),
        NetworkId::Ethereum { chain_id } => {
            out.push(7);
            encode_compact(*chain_id as u128, out);
        },
        NetworkId::BitcoinCore => out.push(8),
        NetworkId::BitcoinCash => out.push(9),
        NetworkId::PolkadotBulletin => out.push(10),
    }
    assert(out@ =~= start + enc_network(*n));
}

fn encode_option_network(n: &Option<NetworkId>, out: &mut Vec<u8>)
    ensures
        final(out)@ == old(out)@ + enc_option_network(*n),
{
    let ghost start = out@;
    match n {
        None => out.push(0),
        Some(n) => {
            out.push(1);
            encode_network(n, out);
        },
    }
    assert(out@ =~= start + enc_option_network(*n));
}

fn encode_body_id(b: &BodyId, out: &mut Vec<u8>)
    ensures
        final(out)@ == old(out)@ + enc_body_id(*b),
{
    let ghost start = out@;
    match b {
        BodyId::Unit => out.push(0),
        BodyId::Moniker(m) => {
            out.push(1);
            push_be(m.0 as u128, 4, out);
        },
        BodyId::Index(i) => {
            out.push(2);
            encode_compact(*i as u128, out);
        },
        BodyId::Executive => out.push(3),
        BodyId::Technical => out.push(4),
        BodyId::Legislative => out.push(5),
        BodyId::Judicial => out.push(6),
        BodyId::Defense => out.push(7),
        BodyId::Administration => out.push(8),
        BodyId::Treasury => out.push(9),
    }
    assert(out@ =~= start + enc_body_id(*b));
}

fn encode_body_part(p: &BodyPart, out: &mut Vec<u8>)
    ensures
        final(out)@ == old(out)@ + enc_body_part(*p),
{
    let ghost start = out@;
    match p {
        BodyPart::Voice => out.push(0),
        BodyPart::Members { count } => {
            out.push(1);
            encode_compact(*count as u128, out);
        },
        BodyPart::Fraction { nom, denom } => {
            out.push(2);
            encode_compact(*nom as u128, out);
            encode_compact(*denom as u128, out);
        },
        BodyPart::AtLeastProportion { nom, denom } => {
            out.push(3);
            encode_compact(*nom as u128, out);
            encode_compact(*denom as u128, out);
        },
        BodyPart::MoreThanProportion { nom, denom } => {
            out.push(4);
            encode_compact(*nom as u128, out);
            encode_compact(*denom as u128, out);
        },
    }
    assert(out@ =~= start + enc_body_part(*p));
}

fn encode_junction(j: &Junction, out: &mut Vec<u8>)
    ensures
        final(out)@ == old(out)@ + enc_junction(*j),
{
    let ghost start = out@;
    match j {
        Junction::Parachain(id) => {
            out.push(0);
            encode_compact(*id as u128, out);
        },
        Junction::AccountId32 { network, id } => {
            out.push(1);
            encode_option_network(network, out);
            encode_bytes32(id, out);
        },
        Junction::AccountIndex64 { network, index } => {
            out.push(2);
            encode_option_network(network, out);
            encode_compact(*index as u128, out);
        },
        Junction::AccountKey20 { network, key } => {
            out.push(3);
            encode_option_network(network, out);
            push_be(key.hi as u128, 4, out);
            push_be(key.lo, 16, out);
        },
        Junction::PalletInstance(i) => {
            out.push(4);
            out.push(*i);
        },
        Junction::GeneralIndex(i) => {
            out.push(5);
            encode_compact(*i, out);
        },
        Junction::GeneralKey { length, data } => {
            out.push(6);
            out.push(*length);
            encode_bytes32(data, out);
        },
        Junction::OnlyChild => out.push(7),
        Junction::Plurality { id, part } => {
            out.push(8);
            encode_body_id(id, out);
            encode_body_part(part, out);
        },
        Junction::GlobalConsensus(n) => {
            out.push(9);
            encode_network(n, out);
        },
    }
    assert(out@ =~= start + enc_junction(*j));
}

/// Appends the encoding of `l`.
pub fn encode_location(l: &Location, out: &mut Vec<u8>)
    ensures
        final(out)@ == old(out)@ + enc_location(*l),
{
    let ghost start = out@;
    out.push(l.parents);
    let js = l.interior.to_vec();
    let n = js.len();
    out.push(n as u8);
    let mut i: usize = 0;
    while i < n
        invariant
            n == js@.len(),
            n <= 8,
            js@ == l.interior@,
            i <= n,
            out@ == start + seq![l.parents, n as u8] + enc_junction_list(js@.take(i as int)),
        decreases n - i,
    {
        proof {
            assert(js@.take(i + 1).drop_last() =~= js@.take(i as int));
        }
        encode_junction(&js[i], out);
        i = i + 1;
        assert(out@ =~= start + seq![l.parents, n as u8] + enc_junction_list(js@.take(i as int)));
    }
    assert(js@.take(n as int) =~= js@);
    assert(out@ =~= start + enc_location(*l));
}

/// The encoding of `l`.
pub fn location_bytes(l: &Location) -> (r: Vec<u8>)
    ensures
        r@ == enc_location(*l),
{
    let mut r: Vec<u8> = Vec::new();
    encode_location(l, &mut r);
    assert(r@ =~= enc_location(*l));
    r
}

/// The encoding of the path `j`.
pub fn junctions_bytes(j: &Junctions) -> (r: Vec<u8>)
    ensures
        r@ == enc_junctions(*j),
{
    let l = Location { parents: 0, interior: *j };
    let mut r: Vec<u8> = Vec::new();
    encode_location(&l, &mut r);
    let mut t: Vec<u8> = Vec::new();
    let n = r.len();
    let mut i: usize = 1;
    while i < n
        invariant
            n == r@.len(),
            1 <= i <= n,
            r@ == enc_location(l),
            t@ == r@.subrange(1, i as int),
        decreases n - i,
    {
        t.push(r[i]);
        i = i + 1;
        assert(t@ =~= r@.subrange(1, i as int));
    }
    assert(r@.subrange(1, n as int) =~= enc_junctions(*j));
    t
}

fn encode_asset_id(id: &AssetId, out: &mut Vec<u8>)
    ensures
        final(out)@ == old(out)@ + enc_asset_id(*id),
{
    let ghost start = out@;
    match id {
        AssetId::Concrete(l) => {
            out.push(0);
            encode_location(l, out);
        },
        AssetId::Abstract(b) => {
            out.push(1);
            encode_bytes32(b, out);
        },
    }
    assert(out@ =~= start + enc_asset_id(*id));
}

fn encode_fungibility(f: &Fungibility, out: &mut Vec<u8>)
    ensures
        final(out)@ == old(out)@ + enc_fungibility(*f),
{
    let ghost start = out@;
    match f {
        Fungibility::Fungible(a) => {
            out.push(0);
            encode_compact(*a, out);
        },
        Fungibility::NonFungible(i) => {
            out.push(1);
            match i {
                AssetInstance::Undefined => out.push(0),
                AssetInstance::Index(n) => {
                    out.push(1);
                    encode_compact(*n, out);
                },
                AssetInstance::Array4(b) => {
                    out.push(2);
                    push_be(b.0 as u128, 4, out);
                },
                AssetInstance::Array8(b) => {
                    out.push(3);
                    push_be(b.0 as u128, 8, out);
                },
                AssetInstance::Array16(b) => {
                    out.push(4);
                    push_be(b.0, 16, out);
                },
                AssetInstance::Array32(b) => {
                    out.push(5);
                    encode_bytes32(b, out);
                },
            }
        },
    }
    assert(out@ =~= start + enc_fungibility(*f));
}

fn encode_asset(a: &Asset, out: &mut Vec<u8>)
    ensures
        final(out)@ == old(out)@ + enc_asset(*a),
{
    let ghost start = out@;
    encode_asset_id(&a.id, out);
    encode_fungibility(&a.fun, out);
    assert(out@ =~= start + enc_asset(*a));
}

fn encode_assets(a: &Assets, out: &mut Vec<u8>)
    ensures
        final(out)@ == old(out)@ + enc_assets(a@),
{
    let ghost start = out@;
    let items = a.to_vec();
    let n = items.len();
    encode_compact(n as u128, out);
    let ghost mid = out@;
    let mut i: usize = 0;
    while i < n
        invariant
            n == items@.len(),
            items@ == a@,
            i <= n,
            mid == start + enc_compact(n as nat),
            out@ == mid + enc_asset_list(items@.take(i as int)),
        decreases n - i,
    {
        proof {
            assert(items@.take(i + 1).drop_last() =~= items@.take(i as int));
        }
        encode_asset(&items[i], out);
        i = i + 1;
        assert(out@ =~= mid + enc_asset_list(items@.take(i as int)));
    }
    assert(items@.take(n as int) =~= items@);
    assert(out@ =~= start + enc_assets(a@));
}

fn encode_wild_fungibility(f: &WildFungibility, out: &mut Vec<u8>)
    ensures
        final(out)@ == old(out)@ + enc_wild_fungibility(*f),
{
    match f {
        WildFungibility::Fungible => out.push(0),
        WildFungibility::NonFungible => out.push(1),
    }
    assert(final(out)@ =~= old(out)@ + enc_wild_fungibility(*f));
}

fn encode_filter(f: &AssetFilter, out: &mut Vec<u8>)
    ensures
        final(out)@ == old(out)@ + enc_filter(*f),
{
    let ghost start = out@;
    match f {
        AssetFilter::Definite(a) => {
            out.push(0);
            encode_assets(a, out);
        },
        AssetFilter::Wild(w) => {
            out.push(1);
            match w {
                WildAsset::All => out.push(0),
                WildAsset::AllOf { id, fun } => {
                    out.push(1);
                    encode_asset_id(id, out);
                    encode_wild_fungibility(fun, out);
                },
                WildAsset::AllCounted(n) => {
                    out.push(2);
                    encode_compact(*n as u128, out);
                },
                WildAsset::AllOfCounted { id, fun, count } => {
                    out.push(3);
                    encode_asset_id(id, out);
                    encode_wild_fungibility(fun, out);
                    encode_compact(*count as u128, out);
                },
            }
        },
    }
    assert(out@ =~= start + enc_filter(*f));
}

fn encode_weight_limit(w: &WeightLimit, out: &mut Vec<u8>)
    ensures
        final(out)@ == old(out)@ + enc_weight_limit(*w),
{
    let ghost start = out@;
    match w {
        WeightLimit::Unlimited => out.push(0),
        WeightLimit::Limited(w) => {
            out.push(1);
            encode_compact(w.ref_time as u128, out);
            encode_compact(w.proof_size as u128, out);
        },
    }
    assert(out@ =~= start + enc_weight_limit(*w));
}

fn encode_instruction(i: &Instruction, out: &mut Vec<u8>)
    ensures
        final(out)@ == old(out)@ + enc_instruction(*i),
    decreases i,
{
    let ghost start = out@;
    match i {
        Instruction::WithdrawAsset(a) => {
            out.push(0);
            encode_assets(a, out);
        },
        Instruction::TransferReserveAsset { assets, dest, xcm } => {
            out.push(5);
            encode_assets(assets, out);
            encode_location(dest, out);
            encode_instructions(xcm, out);
        },
        Instruction::DepositAsset { assets, beneficiary } => {
            out.push(13);
            encode_filter(assets, out);
            encode_location(beneficiary, out);
        },
        Instruction::DepositReserveAsset { assets, dest, xcm } => {
            out.push(14);
            encode_filter(assets, out);
            encode_location(dest, out);
            encode_instructions(xcm, out);
        },
        Instruction::InitiateReserveWithdraw { assets, reserve, xcm } => {
            out.push(16);
            encode_filter(assets, out);
            encode_location(reserve, out);
            encode_instructions(xcm, out);
        },
        Instruction::InitiateTeleport { assets, dest, xcm } => {
            out.push(17);
            encode_filter(assets, out);
            encode_location(dest, out);
            encode_instructions(xcm, out);
        },
        Instruction::BuyExecution { fees, weight_limit } => {
            out.push(19);
            encode_asset(fees, out);
            encode_weight_limit(weight_limit, out);
        },
    }
    assert(out@ =~= start + enc_instruction(*i));
}

fn encode_instructions(x: &Xcm, out: &mut Vec<u8>)
    ensures
        final(out)@ == old(out)@ + enc_xcm(*x),
    decreases x,
{
    let ghost start = out@;
    let n = x.0.len();
    encode_compact(n as u128, out);
    let ghost mid = out@;
    let mut i: usize = 0;
    while i < n
        invariant
            n == x.0@.len(),
            i <= n,
            mid == start + enc_compact(n as nat),
            out@ == mid + enc_instruction_list(x.0@.take(i as int)),
        decreases n - i,
    {
        proof {
            assert(x.0@.take(i + 1).drop_last() =~= x.0@.take(i as int));
        }
        encode_instruction(&x.0[i], out);
        i = i + 1;
        assert(out@ =~= mid + enc_instruction_list(x.0@.take(i as int)));
    }
    assert(x.0@.take(n as int) =~= x.0@);
    assert(out@ =~= start + enc_xcm(*x));
}

/// The encoding of the message `x`.
pub fn xcm_bytes(x: &Xcm) -> (r: Vec<u8>)
    ensures
        r@ == enc_xcm(*x),
{
    let mut r: Vec<u8> = Vec::new();
    encode_instructions(x, &mut r);
    assert(r@ =~= enc_xcm(*x));
    r
}

// ----- decoding -----

/// `e` stands in `s` from `pos` on.
pub open spec fn encoded_at(s: Seq<u8>, pos: int, e: Seq<u8>) -> bool {
    0 <= pos && pos + e.len() <= s.len() && s.subrange(pos, pos + e.len()) == e
}

pub proof fn lemma_encoded_split(s: Seq<u8>, pos: int, a: Seq<u8>, b: Seq<u8>)
    requires
        encoded_at(s, pos, a + b),
    ensures
        encoded_at(s, pos, a),
        encoded_at(s, pos + a.len(), b),
{
    let whole = s.subrange(pos, pos + a.len() + b.len());
    assert(whole == a + b);
    assert(s.subrange(pos, pos + a.len()) =~= whole.subrange(0, a.len() as int));
    assert((a + b).subrange(0, a.len() as int) =~= a);
    assert(s.subrange(pos + a.len(), pos + a.len() + b.len()) =~= whole.subrange(
        a.len() as int,
        (a.len() + b.len()) as int,
    ));
    assert((a + b).subrange(a.len() as int, (a.len() + b.len()) as int) =~= b);
}

pub proof fn lemma_encoded_first(s: Seq<u8>, pos: int, t: u8, rest: Seq<u8>)
    requires
        encoded_at(s, pos, seq![t] + rest),
    ensures
        s[pos] == t,
        encoded_at(s, pos + 1, rest),
{
    assert(s[pos] == s.subrange(pos, pos + 1 + rest.len())[0]);
    lemma_encoded_split(s, pos, seq![t], rest);
}

/// A number needs no more bytes than its byte length.
pub proof fn lemma_byte_len_fits(n: nat)
    ensures
        n < pow256(byte_len(n)),
    decreases n,
{
    if n > 0 {
        lemma_byte_len_fits(n / 256);
    }
}

pub proof fn lemma_from_le_bound(s: Seq<u8>)
    ensures
        from_le(s) < pow256(s.len()),
    decreases s.len(),
{
    if s.len() > 0 {
        lemma_from_le_bound(s.drop_first());
    }
}

/// Reads `k` little-endian bytes of `s` from `pos`.
fn read_le(s: &[u8], pos: usize, k: usize) -> (x: u128)
    requires
        k <= 16,
        pos + k <= s@.len(),
    ensures
        x as nat == from_le(s@.subrange(pos as int, pos + k)),
{
    let mut acc: u128 = 0;
    let mut i: usize = 0;
    let n = s.len();
    while i < k
        invariant
            n == s@.len(),
            i <= k,
            k <= 16,
            pos + k <= s@.len(),
            acc as nat == from_le(s@.subrange(pos + k - i, pos + k)),
        decreases k - i,
    {
        let ghost t = s@.subrange(pos + k - i - 1, pos + k);
        assert(t.drop_first() =~= s@.subrange(pos + k - i, pos + k));
        proof {
            lemma_from_le_bound(s@.subrange(pos + k - i, pos + k));
            crate::bytes::lemma_pow256_monotone(i as nat, 15);
            crate::bytes::lemma_pow256_values();
            assert(pow256(16) == 256 * pow256(15));
        }
        acc = acc * 256 + s[pos + k - i - 1] as u128;
        i = i + 1;
    }
    acc
}

/// The encoding of a number below `2^128` in compact form is read back by
/// `parse_compact`.
#[verifier::spinoff_prover]
#[verifier::rlimit(40)]
proof fn lemma_compact_shape(n: nat)
    requires
        n <= u128::MAX,
    ensures
        enc_compact(n).len() >= 1,
        n < 0x40 ==> enc_compact(n)[0] % 4 == 0 && enc_compact(n)[0] / 4 == n && enc_compact(
            n,
        ).len() == 1,
        0x40 <= n < 0x4000 ==> enc_compact(n)[0] % 4 == 1 && enc_compact(n).len() == 2 && from_le(
            enc_compact(n),
        ) / 4 == n,
        0x4000 <= n < 0x4000_0000 ==> enc_compact(n)[0] % 4 == 2 && enc_compact(n).len() == 4
            && from_le(enc_compact(n)) / 4 == n,
        0x4000_0000 <= n ==> enc_compact(n)[0] % 4 == 3 && 4 <= byte_len(n) <= 16
            && enc_compact(n)[0] / 4 + 4 == byte_len(n) && enc_compact(n).len() == 1 + byte_len(
            n,
        ) && from_le(enc_compact(n).drop_first()) == n,
{
    crate::bytes::lemma_pow256_values();
    if n < 0x40 {
    } else if n < 0x4000 {
        crate::bytes::lemma_le_bytes_len(n * 4 + 1, 2);
        crate::bytes::lemma_from_le_bytes(n * 4 + 1, 2);
        reveal_with_fuel(le_bytes, 3);
    } else if n < 0x4000_0000 {
        crate::bytes::lemma_le_bytes_len(n * 4 + 2, 4);
        crate::bytes::lemma_from_le_bytes(n * 4 + 2, 4);
        reveal_with_fuel(le_bytes, 3);
    } else {
        let k = byte_len(n);
        reveal_with_fuel(pow256, 4);
        lemma_byte_len_bound(n, 3);
        lemma_byte_len_bound(n, 16);
        lemma_byte_len_fits(n);
        crate::bytes::lemma_le_bytes_len(n, k);
        crate::bytes::lemma_from_le_bytes(n, k);
        assert(enc_compact(n).drop_first() =~= le_bytes(n, k));
    }
}

/// Reads a compact number from `pos`.
pub fn parse_compact(s: &[u8], pos: usize) -> (r: Option<(u128, usize)>)
    ensures
        r matches Some((_, p)) ==> pos < p <= s@.len(),
        forall|n: u128|
            #[trigger] encoded_at(s@, pos as int, enc_compact(n as nat)) ==> r == Some(
                (n, (pos + enc_compact(n as nat).len()) as usize),
            ),
{
    let len = s.len();
    if pos >= len {
        proof {
            assert forall|n: u128| #[trigger] encoded_at(s@, pos as int, enc_compact(n as nat)) implies false by {
                lemma_compact_shape(n as nat);
            }
        }
        return None;
    }
    let b = s[pos];
    let mode = b % 4;
    if mode == 0 {
        let r = Some(((b / 4) as u128, pos + 1));
        proof {
            assert forall|n: u128| #[trigger] encoded_at(s@, pos as int, enc_compact(n as nat)) implies r
                == Some((n, (pos + enc_compact(n as nat).len()) as usize)) by {
                lemma_compact_shape(n as nat);
                assert(s@[pos as int] == enc_compact(n as nat)[0]);
            }
        }
        r
    } else if mode == 1 {
        if len - pos < 2 {
            proof {
                assert forall|n: u128| #[trigger] encoded_at(s@, pos as int, enc_compact(n as nat)) implies false by {
                    lemma_compact_shape(n as nat);
                    assert(s@[pos as int] == enc_compact(n as nat)[0]);
                }
            }
            return None;
        }
        let v = read_le(s, pos, 2);
        let r = Some((v / 4, pos + 2));
        proof {
            assert forall|n: u128| #[trigger] encoded_at(s@, pos as int, enc_compact(n as nat)) implies r
                == Some((n, (pos + enc_compact(n as nat).len()) as usize)) by {
                lemma_compact_shape(n as nat);
                assert(s@[pos as int] == enc_compact(n as nat)[0]);
                assert(s@.subrange(pos as int, pos + 2) == enc_compact(n as nat));
            }
        }
        r
    } else if mode == 2 {
        if len - pos < 4 {
            proof {
                assert forall|n: u128| #[trigger] encoded_at(s@, pos as int, enc_compact(n as nat)) implies false by {
                    lemma_compact_shape(n as nat);
                    assert(s@[pos as int] == enc_compact(n as nat)[0]);
                }
            }
            return None;
        }
        let v = read_le(s, pos, 4);
        let r = Some((v / 4, pos + 4));
        proof {
            assert forall|n: u128| #[trigger] encoded_at(s@, pos as int, enc_compact(n as nat)) implies r
                == Some((n, (pos + enc_compact(n as nat).len()) as usize)) by {
                lemma_compact_shape(n as nat);
                assert(s@[pos as int] == enc_compact(n as nat)[0]);
                assert(s@.subrange(pos as int, pos + 4) == enc_compact(n as nat));
            }
        }
        r
    } else {
        let k = (b / 4) as usize + 4;
        if k > 16 || len - pos - 1 < k {
            proof {
                assert forall|n: u128| #[trigger] encoded_at(s@, pos as int, enc_compact(n as nat)) implies false by {
                    lemma_compact_shape(n as nat);
                    assert(s@[pos as int] == enc_compact(n as nat)[0]);
                }
            }
            return None;
        }
        let v = read_le(s, pos + 1, k);
        let r = Some((v, pos + 1 + k));
        proof {
            assert forall|n: u128| #[trigger] encoded_at(s@, pos as int, enc_compact(n as nat)) implies r
                == Some((n, (pos + enc_compact(n as nat).len()) as usize)) by {
                lemma_compact_shape(n as nat);
                assert(s@[pos as int] == enc_compact(n as nat)[0]);
                assert(s@.subrange(pos + 1, pos + 1 + k) == enc_compact(n as nat).drop_first());
            }
        }
        r
    }
}

/// Reads a compact number from `pos` that fits in 32 bits.
fn parse_compact_u32(s: &[u8], pos: usize) -> (r: Option<(u32, usize)>)
    ensures
        r matches Some((_, p)) ==> pos < p <= s@.len(),
        forall|n: u32|
            #[trigger] encoded_at(s@, pos as int, enc_compact(n as nat)) ==> r == Some(
                (n, (pos + enc_compact(n as nat).len()) as usize),
            ),
{
    let r = match parse_compact(s, pos) {
        Some((v, p)) => if v <= 0xffff_ffff {
            Some((v as u32, p))
        } else {
            None
        },
        None => None,
    };
    proof {
        assert forall|n: u32| #[trigger] encoded_at(s@, pos as int, enc_compact(n as nat)) implies r
            == Some((n, (pos + enc_compact(n as nat).len()) as usize)) by {
            assert(encoded_at(s@, pos as int, enc_compact((n as u128) as nat)));
        }
    }
    r
}

/// Reads a compact number from `pos` that fits in 64 bits.
fn parse_compact_u64(s: &[u8], pos: usize) -> (r: Option<(u64, usize)>)
    ensures
        r matches Some((_, p)) ==> pos < p <= s@.len(),
        forall|n: u64|
            #[trigger] encoded_at(s@, pos as int, enc_compact(n as nat)) ==> r == Some(
                (n, (pos + enc_compact(n as nat).len()) as usize),
            ),
{
    let r = match parse_compact(s, pos) {
        Some((v, p)) => if v <= 0xffff_ffff_ffff_ffff {
            Some((v as u64, p))
        } else {
            None
        },
        None => None,
    };
    proof {
        assert forall|n: u64| #[trigger] encoded_at(s@, pos as int, enc_compact(n as nat)) implies r
            == Some((n, (pos + enc_compact(n as nat).len()) as usize)) by {
            assert(encoded_at(s@, pos as int, enc_compact((n as u128) as nat)));
        }
    }
    r
}

/// Reads `k` big-endian bytes from `pos`.
fn parse_be(s: &[u8], pos: usize, k: usize) -> (r: Option<(u128, usize)>)
    requires
        1 <= k <= 16,
    ensures
        r matches Some((_, p)) ==> pos < p <= s@.len(),
        forall|x: nat|
            x < pow256(k as nat) && #[trigger] encoded_at(s@, pos as int, be_bytes(x, k as nat))
                ==> r == Some((x as u128, (pos + k) as usize)),
{
    let len = s.len();
    if pos > len || len - pos < k {
        proof {
            assert forall|x: nat|
                x < pow256(k as nat) && #[trigger] encoded_at(
                    s@,
                    pos as int,
                    be_bytes(x, k as nat),
                ) implies false by {
                crate::bytes::lemma_be_bytes_len(x, k as nat);
            }
        }
        return None;
    }
    let v = read_be(s, pos, k);
    proof {
        assert forall|x: nat|
            x < pow256(k as nat) && #[trigger] encoded_at(
                s@,
                pos as int,
                be_bytes(x, k as nat),
            ) implies v == x as u128 by {
            crate::bytes::lemma_be_bytes_len(x, k as nat);
            crate::bytes::lemma_from_be_bytes(x, k as nat);
        }
    }
    Some((v, pos + k))
}

fn parse_bytes32(s: &[u8], pos: usize) -> (r: Option<(Bytes32, usize)>)
    ensures
        r matches Some((_, p)) ==> pos < p <= s@.len(),
        forall|b: Bytes32|
            #[trigger] encoded_at(s@, pos as int, b.bytes()) ==> r == Some(
                (b, (pos + 32) as usize),
            ),
{
    let _len = s.len();
    let r = match parse_be(s, pos, 16) {
        Some((hi, p)) => match parse_be(s, p, 16) {
            Some((lo, q)) => Some((Bytes32 { hi, lo }, q)),
            None => None,
        },
        None => None,
    };
    proof {
        assert forall|b: Bytes32| #[trigger] encoded_at(s@, pos as int, b.bytes()) implies r == Some(
            (b, (pos + 32) as usize),
        ) by {
            crate::bytes::lemma_pow256_values();
            crate::bytes::lemma_be_bytes_len(b.hi as nat, 16);
            crate::bytes::lemma_be_bytes_len(b.lo as nat, 16);
            lemma_encoded_split(s@, pos as int, be_bytes(b.hi as nat, 16), be_bytes(b.lo as nat, 16));
            assert(encoded_at(s@, pos as int, be_bytes(b.hi as nat, 16 as nat)));
            assert(encoded_at(s@, pos + 16, be_bytes(b.lo as nat, 16 as nat)));
        }
    }
    r
}

proof fn lemma_network_tag(n: NetworkId)
    ensures
        enc_network(n).len() >= 1,
        enc_network(n)[0] == match n {
            NetworkId::ByGenesis(_) => 0u8,
            NetworkId::ByFork { .. } => 1u8,
            NetworkId::Polkadot => 2u8,
            NetworkId::Kusama => 3u8,
            NetworkId::Westend => 4u8,
            NetworkId::Rococo => 5u8,
            NetworkId::Wococo => 6u8,
            NetworkId::Ethereum { .. } => 7u8,
            NetworkId::BitcoinCore => 8u8,
            NetworkId::BitcoinCash => 9u8,
            NetworkId::PolkadotBulletin => 10u8,
        },
{
}

fn parse_network(s: &[u8], pos: usize) -> (r: Option<(NetworkId, usize)>)
    ensures
        r matches Some((_, p)) ==> pos < p <= s@.len(),
        forall|n: NetworkId|
            #[trigger] encoded_at(s@, pos as int, enc_network(n)) ==> r == Some(
                (n, (pos + enc_network(n).len()) as usize),
            ),
{
    if pos >= s.len() {
        proof {
            assert forall|n: NetworkId| #[trigger] encoded_at(s@, pos as int, enc_network(n)) implies false by {
                lemma_network_tag(n);
            }
        }
        return None;
    }
    let tag = s[pos];
    let r = if tag == 0 {
        match parse_bytes32(s, pos + 1) {
            Some((h, p)) => Some((NetworkId::ByGenesis(h), p)),
            None => None,
        }
    } else if tag == 1 {
        if s.len() - pos - 1 < 8 {
            None
        } else {
            let bn = read_le(s, pos + 1, 8);
            match parse_bytes32(s, pos + 9) {
                Some((h, p)) => Some((NetworkId::ByFork { block_number: bn as u64, block_hash: h }, p)),
                None => None,
            }
        }
    } else if tag == 2 {
        Some((NetworkId::Polkadot, pos + 1))
    } else if tag == 3 {
        Some((NetworkId::Kusama, pos + 1))
    } else if tag == 4 {
        Some((NetworkId::Westend, pos + 1))
    } else if tag == 5 {
        Some((NetworkId::Rococo, pos + 1))
    } else if tag == 6 {
        Some((NetworkId::Wococo, pos + 1))
    } else if tag == 7 {
        match parse_compact_u64(s, pos + 1) {
            Some((c, p)) => Some((NetworkId::Ethereum { chain_id: c }, p)),
            None => None,
        }
    } else if tag == 8 {
        Some((NetworkId::BitcoinCore, pos + 1))
    } else if tag == 9 {
        Some((NetworkId::BitcoinCash, pos + 1))
    } else if tag == 10 {
        Some((NetworkId::PolkadotBulletin, pos + 1))
    } else {
        None
    };
    proof {
        assert forall|n: NetworkId| #[trigger] encoded_at(s@, pos as int, enc_network(n)) implies r == Some(
            (n, (pos + enc_network(n).len()) as usize),
        ) by {
            lemma_network_tag(n);
            assert(s@[pos as int] == enc_network(n)[0]) by {
                assert(s@.subrange(pos as int, pos + enc_network(n).len())[0] == s@[pos as int]);
            }
            match n {
                NetworkId::ByGenesis(h) => {
                    lemma_encoded_first(s@, pos as int, 0u8, h.bytes());
                    crate::bytes::lemma_be_bytes_len(h.hi as nat, 16);
                    crate::bytes::lemma_be_bytes_len(h.lo as nat, 16);
                },
                NetworkId::ByFork { block_number, block_hash } => {
                    let le = le_bytes(block_number as nat, 8);
                    assert(enc_network(n) == seq![1u8] + (le + block_hash.bytes()));
                    lemma_encoded_first(s@, pos as int, 1u8, le + block_hash.bytes());
                    lemma_encoded_split(s@, pos + 1, le, block_hash.bytes());
                    crate::bytes::lemma_le_bytes_len(block_number as nat, 8);
                    crate::bytes::lemma_be_bytes_len(block_hash.hi as nat, 16);
                    crate::bytes::lemma_be_bytes_len(block_hash.lo as nat, 16);
                    crate::bytes::lemma_pow256_values();
                    crate::bytes::lemma_from_le_bytes(block_number as nat, 8);
                },
                NetworkId::Ethereum { chain_id } => {
                    lemma_encoded_first(s@, pos as int, 7u8, enc_compact(chain_id as nat));
                },
                _ => {},
            }
        }
    }
    r
}

proof fn lemma_option_network_tag(n: Option<NetworkId>)
    ensures
        enc_option_network(n).len() >= 1,
        enc_option_network(n)[0] == if n is Some { 1u8 } else { 0u8 },
{
}

fn parse_option_network(s: &[u8], pos: usize) -> (r: Option<(Option<NetworkId>, usize)>)
    ensures
        r matches Some((_, p)) ==> pos < p <= s@.len(),
        forall|n: Option<NetworkId>|
            #[trigger] encoded_at(s@, pos as int, enc_option_network(n)) ==> r == Some(
                (n, (pos + enc_option_network(n).len()) as usize),
            ),
{
    if pos >= s.len() {
        proof {
            assert forall|n: Option<NetworkId>| #[trigger] encoded_at(s@, pos as int, enc_option_network(n)) implies false by {
                lemma_option_network_tag(n);
            }
        }
        return None;
    }
    let tag = s[pos];
    let r = if tag == 0 {
        Some((None, pos + 1))
    } else if tag == 1 {
        match parse_network(s, pos + 1) {
            Some((n, p)) => Some((Some(n), p)),
            None => None,
        }
    } else {
        None
    };
    proof {
        assert forall|n: Option<NetworkId>| #[trigger] encoded_at(s@, pos as int, enc_option_network(n)) implies r == Some(
            (n, (pos + enc_option_network(n).len()) as usize),
        ) by {
            lemma_option_network_tag(n);
            assert(s@.subrange(pos as int, pos + enc_option_network(n).len())[0] == s@[pos as int]);
            match n {
                Some(m) => {
                    lemma_encoded_first(s@, pos as int, 1u8, enc_network(m));
                },
                None => {},
            }
        }
    }
    r
}

proof fn lemma_body_id_tag(b: BodyId)
    ensures
        enc_body_id(b).len() >= 1,
        enc_body_id(b)[0] == match b {
            BodyId::Unit => 0u8,
            BodyId::Moniker(_) => 1u8,
            BodyId::Index(_) => 2u8,
            BodyId::Executive => 3u8,
            BodyId::Technical => 4u8,
            BodyId::Legislative => 5u8,
            BodyId::Judicial => 6u8,
            BodyId::Defense => 7u8,
            BodyId::Administration => 8u8,
            BodyId::Treasury => 9u8,
        },
{
}

fn parse_body_id(s: &[u8], pos: usize) -> (r: Option<(BodyId, usize)>)
    ensures
        r matches Some((_, p)) ==> pos < p <= s@.len(),
        forall|b: BodyId|
            #[trigger] encoded_at(s@, pos as int, enc_body_id(b)) ==> r == Some(
                (b, (pos + enc_body_id(b).len()) as usize),
            ),
{
    if pos >= s.len() {
        proof {
            assert forall|b: BodyId| #[trigger] encoded_at(s@, pos as int, enc_body_id(b)) implies false by {
                lemma_body_id_tag(b);
            }
        }
        return None;
    }
    let tag = s[pos];
    let r = if tag == 0 {
        Some((BodyId::Unit, pos + 1))
    } else if tag == 1 {
        match parse_be(s, pos + 1, 4) {
            Some((m, p)) => Some((BodyId::Moniker(Bytes4(m as u32)), p)),
            None => None,
        }
    } else if tag == 2 {
        match parse_compact_u32(s, pos + 1) {
            Some((i, p)) => Some((BodyId::Index(i), p)),
            None => None,
        }
    } else if tag == 3 {
        Some((BodyId::Executive, pos + 1))
    } else if tag == 4 {
        Some((BodyId::Technical, pos + 1))
    } else if tag == 5 {
        Some((BodyId::Legislative, pos + 1))
    } else if tag == 6 {
        Some((BodyId::Judicial, pos + 1))
    } else if tag == 7 {
        Some((BodyId::Defense, pos + 1))
    } else if tag == 8 {
        Some((BodyId::Administration, pos + 1))
    } else if tag == 9 {
        Some((BodyId::Treasury, pos + 1))
    } else {
        None
    };
    proof {
        assert forall|b: BodyId| #[trigger] encoded_at(s@, pos as int, enc_body_id(b)) implies r == Some(
            (b, (pos + enc_body_id(b).len()) as usize),
        ) by {
            lemma_body_id_tag(b);
            assert(s@.subrange(pos as int, pos + enc_body_id(b).len())[0] == s@[pos as int]);
            match b {
                BodyId::Moniker(m) => {
                    lemma_encoded_first(s@, pos as int, 1u8, m.bytes());
                    crate::bytes::lemma_be_bytes_len(m.0 as nat, 4);
                    crate::bytes::lemma_pow256_values();
                    assert(encoded_at(s@, pos + 1, be_bytes(m.0 as nat, 4usize as nat)));
                },
                BodyId::Index(i) => {
                    lemma_encoded_first(s@, pos as int, 2u8, enc_compact(i as nat));
                },
                _ => {},
            }
        }
    }
    r
}

proof fn lemma_body_part_tag(b: BodyPart)
    ensures
        enc_body_part(b).len() >= 1,
        enc_body_part(b)[0] == match b {
            BodyPart::Voice => 0u8,
            BodyPart::Members { .. } => 1u8,
            BodyPart::Fraction { .. } => 2u8,
            BodyPart::AtLeastProportion { .. } => 3u8,
            BodyPart::MoreThanProportion { .. } => 4u8,
        },
{
}

/// Reads two compact 32-bit numbers from `pos`.
fn parse_two_u32(s: &[u8], pos: usize) -> (r: Option<(u32, u32, usize)>)
    ensures
        r matches Some((_, _, p)) ==> pos < p <= s@.len(),
        forall|a: u32, b: u32|
            #[trigger] encoded_at(s@, pos as int, enc_compact(a as nat) + enc_compact(b as nat))
                ==> r == Some(
                (a, b, (pos + enc_compact(a as nat).len() + enc_compact(b as nat).len()) as usize),
            ),
{
    let _len = s.len();
    let r = match parse_compact_u32(s, pos) {
        Some((a, p)) => match parse_compact_u32(s, p) {
            Some((b, q)) => Some((a, b, q)),
            None => None,
        },
        None => None,
    };
    proof {
        assert forall|a: u32, b: u32|
            #[trigger] encoded_at(
                s@,
                pos as int,
                enc_compact(a as nat) + enc_compact(b as nat),
            ) implies r == Some(
            (a, b, (pos + enc_compact(a as nat).len() + enc_compact(b as nat).len()) as usize),
        ) by {
            lemma_encoded_split(s@, pos as int, enc_compact(a as nat), enc_compact(b as nat));
        }
    }
    r
}

fn parse_body_part(s: &[u8], pos: usize) -> (r: Option<(BodyPart, usize)>)
    ensures
        r matches Some((_, p)) ==> pos < p <= s@.len(),
        forall|b: BodyPart|
            #[trigger] encoded_at(s@, pos as int, enc_body_part(b)) ==> r == Some(
                (b, (pos + enc_body_part(b).len()) as usize),
            ),
{
    if pos >= s.len() {
        proof {
            assert forall|b: BodyPart| #[trigger] encoded_at(s@, pos as int, enc_body_part(b)) implies false by {
                lemma_body_part_tag(b);
            }
        }
        return None;
    }
    let tag = s[pos];
    let r = if tag == 0 {
        Some((BodyPart::Voice, pos + 1))
    } else if tag == 1 {
        match parse_compact_u32(s, pos + 1) {
            Some((count, p)) => Some((BodyPart::Members { count }, p)),
            None => None,
        }
    } else if tag == 2 {
        match parse_two_u32(s, pos + 1) {
            Some((nom, denom, p)) => Some((BodyPart::Fraction { nom, denom }, p)),
            None => None,
        }
    } else if tag == 3 {
        match parse_two_u32(s, pos + 1) {
            Some((nom, denom, p)) => Some((BodyPart::AtLeastProportion { nom, denom }, p)),
            None => None,
        }
    } else if tag == 4 {
        match parse_two_u32(s, pos + 1) {
            Some((nom, denom, p)) => Some((BodyPart::MoreThanProportion { nom, denom }, p)),
            None => None,
        }
    } else {
        None
    };
    proof {
        assert forall|b: BodyPart| #[trigger] encoded_at(s@, pos as int, enc_body_part(b)) implies r == Some(
            (b, (pos + enc_body_part(b).len()) as usize),
        ) by {
            lemma_body_part_tag(b);
            assert(s@.subrange(pos as int, pos + enc_body_part(b).len())[0] == s@[pos as int]);
            match b {
                BodyPart::Members { count } => {
                    lemma_encoded_first(s@, pos as int, 1u8, enc_compact(count as nat));
                },
                BodyPart::Fraction { nom, denom } => {
                    assert(enc_body_part(b) == seq![2u8] + (enc_compact(nom as nat) + enc_compact(denom as nat)));
                    lemma_encoded_first(s@, pos as int, 2u8, enc_compact(nom as nat) + enc_compact(denom as nat));
                },
                BodyPart::AtLeastProportion { nom, denom } => {
                    assert(enc_body_part(b) == seq![3u8] + (enc_compact(nom as nat) + enc_compact(denom as nat)));
                    lemma_encoded_first(s@, pos as int, 3u8, enc_compact(nom as nat) + enc_compact(denom as nat));
                },
                BodyPart::MoreThanProportion { nom, denom } => {
                    assert(enc_body_part(b) == seq![4u8] + (enc_compact(nom as nat) + enc_compact(denom as nat)));
                    lemma_encoded_first(s@, pos as int, 4u8, enc_compact(nom as nat) + enc_compact(denom as nat));
                },
                _ => {},
            }
        }
    }
    r
}

proof fn lemma_junction_tag(j: Junction)
    ensures
        enc_junction(j).len() >= 1,
        enc_junction(j)[0] == match j {
            Junction::Parachain(_) => 0u8,
            Junction::AccountId32 { .. } => 1u8,
            Junction::AccountIndex64 { .. } => 2u8,
            Junction::AccountKey20 { .. } => 3u8,
            Junction::PalletInstance(_) => 4u8,
            Junction::GeneralIndex(_) => 5u8,
            Junction::GeneralKey { .. } => 6u8,
            Junction::OnlyChild => 7u8,
            Junction::Plurality { .. } => 8u8,
            Junction::GlobalConsensus(_) => 9u8,
        },
{
}

fn parse_junction(s: &[u8], pos: usize) -> (r: Option<(Junction, usize)>)
    ensures
        r matches Some((_, p)) ==> pos < p <= s@.len(),
        forall|j: Junction|
            #[trigger] encoded_at(s@, pos as int, enc_junction(j)) ==> r == Some(
                (j, (pos + enc_junction(j).len()) as usize),
            ),
{
    let len = s.len();
    if pos >= len {
        proof {
            assert forall|j: Junction| #[trigger] encoded_at(s@, pos as int, enc_junction(j)) implies false by {
                lemma_junction_tag(j);
            }
        }
        return None;
    }
    let tag = s[pos];
    let r = if tag == 0 {
        match parse_compact_u32(s, pos + 1) {
            Some((id, p)) => Some((Junction::Parachain(id), p)),
            None => None,
        }
    } else if tag == 1 {
        match parse_option_network(s, pos + 1) {
            Some((network, p)) => match parse_bytes32(s, p) {
                Some((id, q)) => Some((Junction::AccountId32 { network, id }, q)),
                None => None,
            },
            None => None,
        }
    } else if tag == 2 {
        match parse_option_network(s, pos + 1) {
            Some((network, p)) => match parse_compact_u64(s, p) {
                Some((index, q)) => Some((Junction::AccountIndex64 { network, index }, q)),
                None => None,
            },
            None => None,
        }
    } else if tag == 3 {
        match parse_option_network(s, pos + 1) {
            Some((network, p)) => match parse_be(s, p, 4) {
                Some((hi, q)) => match parse_be(s, q, 16) {
                    Some((lo, t)) => Some(
                        (Junction::AccountKey20 { network, key: Bytes20 { hi: hi as u32, lo } }, t),
                    ),
                    None => None,
                },
                None => None,
            },
            None => None,
        }
    } else if tag == 4 {
        if pos + 1 < len {
            Some((Junction::PalletInstance(s[pos + 1]), pos + 2))
        } else {
            None
        }
    } else if tag == 5 {
        match parse_compact(s, pos + 1) {
            Some((i, p)) => Some((Junction::GeneralIndex(i), p)),
            None => None,
        }
    } else if tag == 6 {
        if pos + 1 < len {
            match parse_bytes32(s, pos + 2) {
                Some((data, p)) => Some((Junction::GeneralKey { length: s[pos + 1], data }, p)),
                None => None,
            }
        } else {
            None
        }
    } else if tag == 7 {
        Some((Junction::OnlyChild, pos + 1))
    } else if tag == 8 {
        match parse_body_id(s, pos + 1) {
            Some((id, p)) => match parse_body_part(s, p) {
                Some((part, q)) => Some((Junction::Plurality { id, part }, q)),
                None => None,
            },
            None => None,
        }
    } else if tag == 9 {
        match parse_network(s, pos + 1) {
            Some((n, p)) => Some((Junction::GlobalConsensus(n), p)),
            None => None,
        }
    } else {
        None
    };
    proof {
        assert forall|j: Junction| #[trigger] encoded_at(s@, pos as int, enc_junction(j)) implies r == Some(
            (j, (pos + enc_junction(j).len()) as usize),
        ) by {
            lemma_junction_tag(j);
            assert(s@.subrange(pos as int, pos + enc_junction(j).len())[0] == s@[pos as int]);
            match j {
                Junction::Parachain(id) => {
                    lemma_encoded_first(s@, pos as int, 0u8, enc_compact(id as nat));
                },
                Junction::AccountId32 { network, id } => {
                    let a = enc_option_network(network);
                    assert(enc_junction(j) == seq![1u8] + (a + id.bytes()));
                    lemma_encoded_first(s@, pos as int, 1u8, a + id.bytes());
                    lemma_encoded_split(s@, pos + 1, a, id.bytes());
                    crate::bytes::lemma_be_bytes_len(id.hi as nat, 16);
                    crate::bytes::lemma_be_bytes_len(id.lo as nat, 16);
                },
                Junction::AccountIndex64 { network, index } => {
                    let a = enc_option_network(network);
                    assert(enc_junction(j) == seq![2u8] + (a + enc_compact(index as nat)));
                    lemma_encoded_first(s@, pos as int, 2u8, a + enc_compact(index as nat));
                    lemma_encoded_split(s@, pos + 1, a, enc_compact(index as nat));
                },
                Junction::AccountKey20 { network, key } => {
                    let a = enc_option_network(network);
                    let h = be_bytes(key.hi as nat, 4);
                    let l = be_bytes(key.lo as nat, 16);
                    assert(enc_junction(j) == seq![3u8] + (a + (h + l)));
                    lemma_encoded_first(s@, pos as int, 3u8, a + (h + l));
                    lemma_encoded_split(s@, pos + 1, a, h + l);
                    lemma_encoded_split(s@, pos + 1 + a.len(), h, l);
                    crate::bytes::lemma_be_bytes_len(key.hi as nat, 4);
                    crate::bytes::lemma_be_bytes_len(key.lo as nat, 16);
                    crate::bytes::lemma_pow256_values();
                    assert(encoded_at(s@, pos + 1 + a.len(), be_bytes(key.hi as nat, 4usize as nat)));
                    assert(encoded_at(s@, pos + 1 + a.len() + 4, be_bytes(key.lo as nat, 16usize as nat)));
                },
                Junction::PalletInstance(i) => {
                    assert(s@.subrange(pos as int, pos + 2)[1] == s@[pos + 1]);
                },
                Junction::GeneralIndex(i) => {
                    lemma_encoded_first(s@, pos as int, 5u8, enc_compact(i as nat));
                    assert(encoded_at(s@, pos + 1, enc_compact((i as u128) as nat)));
                },
                Junction::GeneralKey { length, data } => {
                    assert(enc_junction(j) == seq![6u8] + (seq![length] + data.bytes()));
                    lemma_encoded_first(s@, pos as int, 6u8, seq![length] + data.bytes());
                    lemma_encoded_first(s@, pos + 1, length, data.bytes());
                    crate::bytes::lemma_be_bytes_len(data.hi as nat, 16);
                    crate::bytes::lemma_be_bytes_len(data.lo as nat, 16);
                },
                Junction::Plurality { id, part } => {
                    let a = enc_body_id(id);
                    assert(enc_junction(j) == seq![8u8] + (a + enc_body_part(part)));
                    lemma_encoded_first(s@, pos as int, 8u8, a + enc_body_part(part));
                    lemma_encoded_split(s@, pos + 1, a, enc_body_part(part));
                },
                Junction::GlobalConsensus(n) => {
                    lemma_encoded_first(s@, pos as int, 9u8, enc_network(n));
                },
                Junction::OnlyChild => {},
            }
        }
    }
    r
}

pub proof fn lemma_enc_junction_list_single(j: Junction)
    ensures
        enc_junction_list(seq![j]) == enc_junction(j),
{
    reveal_with_fuel(enc_junction_list, 2);
    assert(seq![j].drop_last() =~= Seq::<Junction>::empty());
    assert(enc_junction_list(seq![j]) =~= enc_junction(j));
}

pub proof fn lemma_enc_junction_list_append(a: Seq<Junction>, b: Seq<Junction>)
    ensures
        enc_junction_list(a + b) == enc_junction_list(a) + enc_junction_list(b),
    decreases b.len(),
{
    if b.len() == 0 {
        assert(a + b =~= a);
    } else {
        lemma_enc_junction_list_append(a, b.drop_last());
        assert((a + b).drop_last() =~= a + b.drop_last());
        assert((a + b).last() == b.last());
    }
}

/// Reads a location from `pos`.
fn parse_location(s: &[u8], pos: usize) -> (r: Option<(Location, usize)>)
    ensures
        r matches Some((_, p)) ==> pos < p <= s@.len(),
        forall|l: Location|
            #[trigger] encoded_at(s@, pos as int, enc_location(l)) ==> r == Some(
                (l, (pos + enc_location(l).len()) as usize),
            ),
{
    let len = s.len();
    if pos >= len || len - pos < 2 {
        proof {
            assert forall|l: Location| #[trigger] encoded_at(s@, pos as int, enc_location(l)) implies false by {
                assert(enc_location(l).len() >= 2);
            }
        }
        return None;
    }
    let parents = s[pos];
    let n = s[pos + 1] as usize;
    if n > 8 {
        proof {
            assert forall|l: Location| #[trigger] encoded_at(s@, pos as int, enc_location(l)) implies false by {
                crate::location::lemma_junctions_of(l.interior, l.interior@);
                assert(s@.subrange(pos as int, pos + enc_location(l).len())[1] == s@[pos + 1]);
            }
        }
        return None;
    }
    let mut js: Vec<Junction> = Vec::new();
    proof {
        assert forall|l: Location| #[trigger] encoded_at(s@, pos as int, enc_location(l)) implies
            l.parents == parents && l.interior@.len() == n && js@ == l.interior@.take(0) && pos + 2
            == pos + 2 + enc_junction_list(l.interior@.take(0)).len() by {
            crate::location::lemma_junctions_of(l.interior, l.interior@);
            lemma_encoded_first(s@, pos as int, l.parents, enc_junctions(l.interior));
            lemma_encoded_first(s@, pos + 1, l.interior@.len() as u8, enc_junction_list(l.interior@));
            assert(l.interior@.take(0) =~= Seq::<Junction>::empty());
        }
    }
    let mut cur: usize = pos + 2;
    let mut i: usize = 0;
    let mut ok = true;
    while i < n && ok
        invariant
            len == s@.len(),
            n <= 8,
            i <= n,
            pos + 2 <= cur <= len,
            ok ==> js@.len() == i,
            parents == s@[pos as int],
            n == s@[pos + 1],
            forall|l: Location|
                #[trigger] encoded_at(s@, pos as int, enc_location(l)) ==> ok && l.parents == parents
                    && l.interior@.len() == n && js@ == l.interior@.take(i as int) && cur == pos + 2
                    + enc_junction_list(l.interior@.take(i as int)).len(),
        decreases n - i,
    {
        match parse_junction(s, cur) {
            Some((j, p)) => {
                proof {
                    assert forall|l: Location| #[trigger] encoded_at(s@, pos as int, enc_location(l)) implies
                        j == l.interior@[i as int] && p == cur + enc_junction(l.interior@[i as int]).len() by {
                        let all = l.interior@;
                        lemma_encoded_first(s@, pos as int, l.parents, enc_junctions(l.interior));
                        lemma_encoded_first(s@, pos + 1, all.len() as u8, enc_junction_list(all));
                        assert(all =~= all.take(i as int) + (seq![all[i as int]] + all.skip(i + 1)));
                        lemma_enc_junction_list_append(all.take(i as int), seq![all[i as int]] + all.skip(i + 1));
                        lemma_enc_junction_list_append(seq![all[i as int]], all.skip(i + 1));
                        lemma_enc_junction_list_single(all[i as int]);
                        lemma_encoded_split(s@, pos + 2, enc_junction_list(all.take(i as int)),
                            enc_junction(all[i as int]) + enc_junction_list(all.skip(i + 1)));
                        lemma_encoded_split(s@, pos + 2 + enc_junction_list(all.take(i as int)).len(),
                            enc_junction(all[i as int]), enc_junction_list(all.skip(i + 1)));
                    }
                }
                js.push(j);
                cur = p;
                assert(js@.len() == i + 1);
                proof {
                    assert forall|l: Location| #[trigger] encoded_at(s@, pos as int, enc_location(l)) implies
                        js@ == l.interior@.take(i + 1) && cur == pos + 2 + enc_junction_list(l.interior@.take(i + 1)).len() by {
                        let all = l.interior@;
                        assert(all.take(i + 1) =~= all.take(i as int) + seq![all[i as int]]);
                        lemma_enc_junction_list_append(all.take(i as int), seq![all[i as int]]);
                        lemma_enc_junction_list_single(all[i as int]);
                    }
                }
            },
            None => {
                proof {
                    assert forall|l: Location| #[trigger] encoded_at(s@, pos as int, enc_location(l)) implies false by {
                        let all = l.interior@;
                        lemma_encoded_first(s@, pos as int, l.parents, enc_junctions(l.interior));
                        lemma_encoded_first(s@, pos + 1, all.len() as u8, enc_junction_list(all));
                        assert(all =~= all.take(i as int) + (seq![all[i as int]] + all.skip(i + 1)));
                        lemma_enc_junction_list_append(all.take(i as int), seq![all[i as int]] + all.skip(i + 1));
                        lemma_enc_junction_list_append(seq![all[i as int]], all.skip(i + 1));
                        lemma_enc_junction_list_single(all[i as int]);
                        lemma_encoded_split(s@, pos + 2, enc_junction_list(all.take(i as int)),
                            enc_junction(all[i as int]) + enc_junction_list(all.skip(i + 1)));
                        lemma_encoded_split(s@, pos + 2 + enc_junction_list(all.take(i as int)).len(),
                            enc_junction(all[i as int]), enc_junction_list(all.skip(i + 1)));
                    }
                }
                ok = false;
                i = n;
            },
        }
        if ok {
            i = i + 1;
        }
    }
    if !ok {
        return None;
    }
    let interior = Junctions::from_slice(js.as_slice());
    let r = Some((Location { parents, interior }, cur));
    proof {
        assert forall|l: Location| #[trigger] encoded_at(s@, pos as int, enc_location(l)) implies r == Some(
            (l, (pos + enc_location(l).len()) as usize),
        ) by {
            assert(l.interior@.take(n as int) =~= l.interior@);
            crate::location::lemma_junctions_view_injective(interior, l.interior);
        }
    }
    r
}

fn bytes_equal(a: &[u8], b: &[u8]) -> (r: bool)
    ensures
        r == (a@ == b@),
{
    let n = a.len();
    if n != b.len() {
        return false;
    }
    let mut i: usize = 0;
    while i < n
        invariant
            n == a@.len(),
            n == b@.len(),
            i <= n,
            a@.take(i as int) == b@.take(i as int),
        decreases n - i,
    {
        if a[i] != b[i] {
            assert(a@[i as int] != b@[i as int]);
            return false;
        }
        assert(a@.take(i + 1) =~= a@.take(i as int).push(a@[i as int]));
        assert(b@.take(i + 1) =~= b@.take(i as int).push(b@[i as int]));
        i = i + 1;
    }
    assert(a@.take(n as int) =~= a@);
    assert(b@.take(n as int) =~= b@);
    true
}

/// The location whose encoding is `b`, if there is one.
pub open spec fn location_decoding(b: Seq<u8>) -> Option<Location> {
    if exists|l: Location| enc_location(l) == b {
        Some(choose|l: Location| enc_location(l) == b)
    } else {
        None
    }
}

/// The location that `bytes` encode, if they encode one: decoding gives back every
/// encoded location, and what it gives encodes to exactly `bytes`.
pub fn decode_location(bytes: &[u8]) -> (r: Option<Location>)
    ensures
        r == location_decoding(bytes@),
        forall|l: Location| enc_location(l) == bytes@ ==> r == Some(l),
        r matches Some(l) ==> enc_location(l) == bytes@,
{
    let r = match parse_location(bytes, 0) {
        Some((l, p)) => {
            if p == bytes.len() {
                let re = location_bytes(&l);
                if bytes_equal(re.as_slice(), bytes) {
                    Some(l)
                } else {
                    None
                }
            } else {
                None
            }
        },
        None => None,
    };
    proof {
        assert forall|l: Location| enc_location(l) == bytes@ implies r == Some(l) by {
            assert(bytes@.subrange(0, enc_location(l).len() as int) =~= bytes@);
            assert(encoded_at(bytes@, 0, enc_location(l)));
        }
        if exists|l: Location| enc_location(l) == bytes@ {
            let c = choose|l: Location| enc_location(l) == bytes@;
            assert(bytes@.subrange(0, enc_location(c).len() as int) =~= bytes@);
            assert(encoded_at(bytes@, 0, enc_location(c)));
        }
    }
    r
}

} // verus!
