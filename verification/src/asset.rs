//! Assets as XCM version 3 writes them, their order, and the sorted asset list
//! that merges what it is given.

use crate::bytes::{Bytes16, Bytes32, Bytes4, Bytes8};
use crate::location::{BodyId, BodyPart, Junction, Junctions, Location, NetworkId};
use vstd::prelude::*;

verus! {

/// The instance of a non-fungible asset.
#[derive(Clone, Copy, PartialEq, Eq, Structural, Debug)]
pub enum AssetInstance {
    Undefined,
    Index(u128),
    Array4(Bytes4),
    Array8(Bytes8),
    Array16(Bytes16),
    Array32(Bytes32),
}

/// An amount of a fungible asset, or one instance of a non-fungible one.
#[derive(Clone, Copy, PartialEq, Eq, Structural, Debug)]
pub enum Fungibility {
    Fungible(u128),
    NonFungible(AssetInstance),
}

/// The identity of an asset class.
#[derive(Clone, Copy, PartialEq, Eq, Structural, Debug)]
pub enum AssetId {
    Concrete(Location),
    Abstract(Bytes32),
}

/// An asset: its class and how much of it, or which instance.
#[derive(Clone, Copy, PartialEq, Eq, Structural, Debug)]
pub struct Asset {
    pub id: AssetId,
    pub fun: Fungibility,
}

/// Whether a wildcard selects fungible or non-fungible assets.
#[derive(Clone, Copy, PartialEq, Eq, Structural, Debug)]
pub enum WildFungibility {
    Fungible,
    NonFungible,
}

/// A wildcard over the assets held.
#[derive(Clone, Copy, PartialEq, Eq, Structural, Debug)]
pub enum WildAsset {
    All,
    AllOf { id: AssetId, fun: WildFungibility },
    AllCounted(u32),
    AllOfCounted { id: AssetId, fun: WildFungibility, count: u32 },
}

// ----- the order of assets -----
//
// Each value is flattened into a sequence of numbers: the index of its variant,
// then its fields in order. Comparing the sequences lexicographically compares the
// values field by field, variant index first.
pub open spec fn key_bytes32(b: Bytes32) -> Seq<u128> {
    seq![b.hi, b.lo]
}

pub open spec fn key_network(n: NetworkId) -> Seq<u128> {
    match n {
        NetworkId::ByGenesis(h) => seq![0u128] + key_bytes32(h),
        NetworkId::ByFork { block_number, block_hash } => seq![1u128, block_number as u128]
            + key_bytes32(block_hash),
        NetworkId::Polkadot => seq![2u128],
        NetworkId::Kusama => seq![3u128],
        NetworkId::Westend => seq![4u128],
        NetworkId::Rococo => seq![5u128],
        NetworkId::Wococo => seq![6u128],
        NetworkId::Ethereum { chain_id } => seq![7u128, chain_id as u128],
        NetworkId::BitcoinCore => seq![8u128],
        NetworkId::BitcoinCash => seq![9u128],
        NetworkId::PolkadotBulletin => seq![10u128],
    }
}

pub open spec fn key_option_network(n: Option<NetworkId>) -> Seq<u128> {
    match n {
        None => seq![0u128],
        Some(n) => seq![1u128] + key_network(n),
    }
}

pub open spec fn key_body_id(b: BodyId) -> Seq<u128> {
    match b {
        BodyId::Unit => seq![0u128],
        BodyId::Moniker(m) => seq![1u128, m.0 as u128],
        BodyId::Index(i) => seq![2u128, i as u128],
        BodyId::Executive => seq![3u128],
        BodyId::Technical => seq![4u128],
        BodyId::Legislative => seq![5u128],
        BodyId::Judicial => seq![6u128],
        BodyId::Defense => seq![7u128],
        BodyId::Administration => seq![8u128],
        BodyId::Treasury => seq![9u128],
    }
}

pub open spec fn key_body_part(p: BodyPart) -> Seq<u128> {
    match p {
        BodyPart::Voice => seq![0u128],
        BodyPart::Members { count } => seq![1u128, count as u128],
        BodyPart::Fraction { nom, denom } => seq![2u128, nom as u128, denom as u128],
        BodyPart::AtLeastProportion { nom, denom } => seq![3u128, nom as u128, denom as u128],
        BodyPart::MoreThanProportion { nom, denom } => seq![4u128, nom as u128, denom as u128],
    }
}

pub open spec fn key_junction(j: Junction) -> Seq<u128> {
    match j {
        Junction::Parachain(id) => seq![0u128, id as u128],
        Junction::AccountId32 { network, id } => seq![1u128] + key_option_network(network)
            + key_bytes32(id),
        Junction::AccountIndex64 { network, index } => seq![2u128] + key_option_network(network)
            + seq![index as u128],
        Junction::AccountKey20 { network, key } => seq![3u128] + key_option_network(network)
            + seq![key.hi as u128, key.lo],
        Junction::PalletInstance(i) => seq![4u128, i as u128],
        Junction::GeneralIndex(i) => seq![5u128, i],
        Junction::GeneralKey { length, data } => seq![6u128, length as u128] + key_bytes32(data),
        Junction::OnlyChild => seq![7u128],
        Junction::Plurality { id, part } => seq![8u128] + key_body_id(id) + key_body_part(part),
        Junction::GlobalConsensus(n) => seq![9u128] + key_network(n),
    }
}

/// The keys of a list of junctions, one after the other.
pub open spec fn key_junction_list(s: Seq<Junction>) -> Seq<u128>
    decreases s.len(),
{
    if s.len() == 0 {
        seq![]
    } else {
        key_junction_list(s.drop_last()) + key_junction(s.last())
    }
}

pub open spec fn key_junctions(j: Junctions) -> Seq<u128> {
    seq![j@.len() as u128] + key_junction_list(j@)
}

pub open spec fn key_location(l: Location) -> Seq<u128> {
    seq![l.parents as u128] + key_junctions(l.interior)
}

pub open spec fn key_asset_id(id: AssetId) -> Seq<u128> {
    match id {
        AssetId::Concrete(l) => seq![0u128] + key_location(l),
        AssetId::Abstract(b) => seq![1u128] + key_bytes32(b),
    }
}

pub open spec fn key_instance(i: AssetInstance) -> Seq<u128> {
    match i {
        AssetInstance::Undefined => seq![0u128],
        AssetInstance::Index(n) => seq![1u128, n],
        AssetInstance::Array4(b) => seq![2u128, b.0 as u128],
        AssetInstance::Array8(b) => seq![3u128, b.0 as u128],
        AssetInstance::Array16(b) => seq![4u128, b.0],
        AssetInstance::Array32(b) => seq![5u128] + key_bytes32(b),
    }
}

pub open spec fn key_fungibility(f: Fungibility) -> Seq<u128> {
    match f {
        Fungibility::Fungible(a) => seq![0u128, a],
        Fungibility::NonFungible(i) => seq![1u128] + key_instance(i),
    }
}

/// Fungible assets come before non-fungible ones; then the class decides, then the
/// amount or instance.
pub open spec fn key_asset(a: Asset) -> Seq<u128> {
    seq![if a.fun is Fungible { 0u128 } else { 1u128 }] + key_asset_id(a.id) + key_fungibility(
        a.fun,
    )
}

/// Lexicographic order on number sequences; a proper prefix comes first.
pub open spec fn lex_lt(a: Seq<u128>, b: Seq<u128>) -> bool
    decreases a.len(),
{
    if b.len() == 0 {
        false
    } else if a.len() == 0 {
        true
    } else if a[0] != b[0] {
        a[0] < b[0]
    } else {
        lex_lt(a.drop_first(), b.drop_first())
    }
}

/// `a` comes strictly before `b` in the order of assets.
pub open spec fn asset_lt(a: Asset, b: Asset) -> bool {
    lex_lt(key_asset(a), key_asset(b))
}

fn push_key_bytes32(b: &Bytes32, out: &mut Vec<u128>)
    ensures
        final(out)@ == old(out)@ + key_bytes32(*b),
{
    out.push(b.hi);
    out.push(b.lo);
    assert(final(out)@ =~= old(out)@ + key_bytes32(*b));
}

fn push_key_network(n: &NetworkId, out: &mut Vec<u128>)
    ensures
        final(out)@ == old(out)@ + key_network(*n),
{
    let ghost start = out@;
    match n {
        NetworkId::ByGenesis(h) => {
            out.push(0);
            push_key_bytes32(h, out);
        },
        NetworkId::ByFork { block_number, block_hash } => {
            out.push(1);
            out.push(*block_number as u128);
            push_key_bytes32(block_hash, out);
        },
        NetworkId::Polkadot => out.push(2),
        NetworkId::Kusama => out.push(3),
        NetworkId::Westend => out.push(4),
        NetworkId::Rococo => out.push(5),
        NetworkId::Wococo => out.push(6),
        NetworkId::Ethereum { chain_id } => {
            out.push(7);
            out.push(*chain_id as u128);
        },
        NetworkId::BitcoinCore => out.push(8),
        NetworkId::BitcoinCash => out.push(9),
        NetworkId::PolkadotBulletin => out.push(10),
    }
    assert(out@ =~= start + key_network(*n));
}

fn push_key_option_network(n: &Option<NetworkId>, out: &mut Vec<u128>)
    ensures
        final(out)@ == old(out)@ + key_option_network(*n),
{
    let ghost start = out@;
    match n {
        None => out.push(0),
        Some(n) => {
            out.push(1);
            push_key_network(n, out);
        },
    }
    assert(out@ =~= start + key_option_network(*n));
}

fn push_key_body_id(b: &BodyId, out: &mut Vec<u128>)
    ensures
        final(out)@ == old(out)@ + key_body_id(*b),
{
    let ghost start = out@;
    match b {
        BodyId::Unit => out.push(0),
        BodyId::Moniker(m) => {
            out.push(1);
            out.push(m.0 as u128);
        },
        BodyId::Index(i) => {
            out.push(2);
            out.push(*i as u128);
        },
        BodyId::Executive => out.push(3),
        BodyId::Technical => out.push(4),
        BodyId::Legislative => out.push(5),
        BodyId::Judicial => out.push(6),
        BodyId::Defense => out.push(7),
        BodyId::Administration => out.push(8),
        BodyId::Treasury => out.push(9),
    }
    assert(out@ =~= start + key_body_id(*b));
}

fn push_key_body_part(p: &BodyPart, out: &mut Vec<u128>)
    ensures
        final(out)@ == old(out)@ + key_body_part(*p),
{
    let ghost start = out@;
    match p {
        BodyPart::Voice => out.push(0),
        BodyPart::Members { count } => {
            out.push(1);
            out.push(*count as u128);
        },
        BodyPart::Fraction { nom, denom } => {
            out.push(2);
            out.push(*nom as u128);
            out.push(*denom as u128);
        },
        BodyPart::AtLeastProportion { nom, denom } => {
            out.push(3);
            out.push(*nom as u128);
            out.push(*denom as u128);
        },
        BodyPart::MoreThanProportion { nom, denom } => {
            out.push(4);
            out.push(*nom as u128);
            out.push(*denom as u128);
        },
    }
    assert(out@ =~= start + key_body_part(*p));
}

fn push_key_junction(j: &Junction, out: &mut Vec<u128>)
    ensures
        final(out)@ == old(out)@ + key_junction(*j),
{
    let ghost start = out@;
    match j {
        Junction::Parachain(id) => {
            out.push(0);
            out.push(*id as u128);
        },
        Junction::AccountId32 { network, id } => {
            out.push(1);
            push_key_option_network(network, out);
            push_key_bytes32(id, out);
        },
        Junction::AccountIndex64 { network, index } => {
            out.push(2);
            push_key_option_network(network, out);
            out.push(*index as u128);
        },
        Junction::AccountKey20 { network, key } => {
            out.push(3);
            push_key_option_network(network, out);
            out.push(key.hi as u128);
            out.push(key.lo);
        },
        Junction::PalletInstance(i) => {
            out.push(4);
            out.push(*i as u128);
        },
        Junction::GeneralIndex(i) => {
            out.push(5);
            out.push(*i);
        },
        Junction::GeneralKey { length, data } => {
            out.push(6);
            out.push(*length as u128);
            push_key_bytes32(data, out);
        },
        Junction::OnlyChild => out.push(7),
        Junction::Plurality { id, part } => {
            out.push(8);
            push_key_body_id(id, out);
            push_key_body_part(part, out);
        },
        Junction::GlobalConsensus(n) => {
            out.push(9);
            push_key_network(n, out);
        },
    }
    assert(out@ =~= start + key_junction(*j));
}

fn push_key_location(l: &Location, out: &mut Vec<u128>)
    ensures
        final(out)@ == old(out)@ + key_location(*l),
{
    let ghost start = out@;
    out.push(l.parents as u128);
    let js = l.interior.to_vec();
    let n = js.len();
    out.push(n as u128);
    let mut i: usize = 0;
    while i < n
        invariant
            n == js@.len(),
            js@ == l.interior@,
            i <= n,
            out@ == start + seq![l.parents as u128, n as u128] + key_junction_list(
                js@.take(i as int),
            ),
        decreases n - i,
    {
        proof {
            assert(js@.take(i + 1).drop_last() =~= js@.take(i as int));
        }
        push_key_junction(&js[i], out);
        i = i + 1;
        assert(out@ =~= start + seq![l.parents as u128, n as u128] + key_junction_list(
            js@.take(i as int),
        ));
    }
    assert(js@.take(n as int) =~= js@);
    assert(out@ =~= start + key_location(*l));
}

fn push_key_asset_id(id: &AssetId, out: &mut Vec<u128>)
    ensures
        final(out)@ == old(out)@ + key_asset_id(*id),
{
    let ghost start = out@;
    match id {
        AssetId::Concrete(l) => {
            out.push(0);
            push_key_location(l, out);
        },
        AssetId::Abstract(b) => {
            out.push(1);
            push_key_bytes32(b, out);
        },
    }
    assert(out@ =~= start + key_asset_id(*id));
}

fn push_key_fungibility(f: &Fungibility, out: &mut Vec<u128>)
    ensures
        final(out)@ == old(out)@ + key_fungibility(*f),
{
    let ghost start = out@;
    match f {
        Fungibility::Fungible(a) => {
            out.push(0);
            out.push(*a);
        },
        Fungibility::NonFungible(i) => {
            out.push(1);
            match i {
                AssetInstance::Undefined => out.push(0),
                AssetInstance::Index(n) => {
                    out.push(1);
                    out.push(*n);
                },
                AssetInstance::Array4(b) => {
                    out.push(2);
                    out.push(b.0 as u128);
                },
                AssetInstance::Array8(b) => {
                    out.push(3);
                    out.push(b.0 as u128);
                },
                AssetInstance::Array16(b) => {
                    out.push(4);
                    out.push(b.0);
                },
                AssetInstance::Array32(b) => {
                    out.push(5);
                    push_key_bytes32(b, out);
                },
            }
        },
    }
    assert(out@ =~= start + key_fungibility(*f));
}

/// The key by which assets are ordered.
fn asset_key(a: &Asset) -> (k: Vec<u128>)
    ensures
        k@ == key_asset(*a),
{
    let mut k: Vec<u128> = Vec::new();
    match a.fun {
        Fungibility::Fungible(_) => k.push(0),
        Fungibility::NonFungible(_) => k.push(1),
    }
    push_key_asset_id(&a.id, &mut k);
    push_key_fungibility(&a.fun, &mut k);
    assert(k@ =~= key_asset(*a));
    k
}

fn lex_less(a: &Vec<u128>, b: &Vec<u128>) -> (r: bool)
    ensures
        r == lex_lt(a@, b@),
{
    let mut i: usize = 0;
    let na = a.len();
    let nb = b.len();
    assert(a@.skip(0) =~= a@);
    assert(b@.skip(0) =~= b@);
    while i < na && i < nb && a[i] == b[i]
        invariant
            na == a@.len(),
            nb == b@.len(),
            i <= na,
            i <= nb,
            lex_lt(a@, b@) == lex_lt(a@.skip(i as int), b@.skip(i as int)),
        decreases na - i,
    {
        assert(a@.skip(i as int).drop_first() =~= a@.skip(i + 1));
        assert(b@.skip(i as int).drop_first() =~= b@.skip(i + 1));
        i = i + 1;
    }
    if i == nb {
        false
    } else if i == na {
        true
    } else {
        a[i] < b[i]
    }
}

/// Whether `a` comes strictly before `b` in the order of assets.
pub fn asset_less(a: &Asset, b: &Asset) -> (r: bool)
    ensures
        r == asset_lt(*a, *b),
{
    let ka = asset_key(a);
    let kb = asset_key(b);
    lex_less(&ka, &kb)
}

// ----- lists of assets -----

/// Whether pushing `a` onto a list merges it into the item `x`: the same class, and
/// both fungible (the amounts add up) or the same non-fungible instance.
pub open spec fn merges_into(x: Asset, a: Asset) -> bool {
    x.id == a.id && match (a.fun, x.fun) {
        (Fungibility::Fungible(_), Fungibility::Fungible(_)) => true,
        (Fungibility::NonFungible(i), Fungibility::NonFungible(j)) => i == j,
        _ => false,
    }
}

/// The first index from `i` on whose item `a` merges into, if any.
pub open spec fn merge_index(s: Seq<Asset>, a: Asset, i: int) -> Option<int>
    decreases s.len() - i,
{
    if i < 0 || i >= s.len() {
        None
    } else if merges_into(s[i], a) {
        Some(i)
    } else {
        merge_index(s, a, i + 1)
    }
}

/// The first index from `i` on whose item comes strictly after `a`, or the length.
pub open spec fn insert_index(s: Seq<Asset>, a: Asset, i: int) -> int
    decreases s.len() - i,
{
    if i < 0 || i >= s.len() {
        s.len() as int
    } else if asset_lt(a, s[i]) {
        i
    } else {
        insert_index(s, a, i + 1)
    }
}

/// `a` inserted after every item that does not come after it.
pub open spec fn insert_sorted(s: Seq<Asset>, a: Asset) -> Seq<Asset> {
    s.insert(insert_index(s, a, 0), a)
}

/// The stable sort of `s`: each item in turn inserted after the items before it
/// that it does not come before.
pub open spec fn sorted_assets(s: Seq<Asset>) -> Seq<Asset>
    decreases s.len(),
{
    if s.len() == 0 {
        seq![]
    } else {
        insert_sorted(sorted_assets(s.drop_last()), s.last())
    }
}

/// `u128` addition that stops at the largest value.
pub open spec fn saturating_add_u128(a: u128, b: u128) -> u128 {
    if a + b > u128::MAX {
        u128::MAX
    } else {
        (a + b) as u128
    }
}

/// What pushing `a` onto the list `s` gives: a fungible amount adds (saturating) to
/// the first fungible item of its class, a non-fungible instance already there is
/// not added twice, and anything else is added and the list sorted.
pub open spec fn pushed(s: Seq<Asset>, a: Asset) -> Seq<Asset> {
    match merge_index(s, a, 0) {
        Some(m) => match (a.fun, s[m].fun) {
            (Fungibility::Fungible(amount), Fungibility::Fungible(balance)) => s.update(
                m,
                Asset { id: s[m].id, fun: Fungibility::Fungible(saturating_add_u128(balance, amount)) },
            ),
            _ => s,
        },
        None => sorted_assets(s.push(a)),
    }
}

/// A list of assets, kept as XCM keeps it: pushing merges what belongs together and
/// keeps the items in order.
#[derive(Debug)]
pub struct Assets {
    items: Vec<Asset>,
}

impl View for Assets {
    type V = Seq<Asset>;

    closed spec fn view(&self) -> Seq<Asset> {
        self.items@
    }
}

impl Assets {
    /// The empty list.
    pub fn new() -> (r: Assets)
        ensures
            r@ == Seq::<Asset>::empty(),
    {
        Assets { items: Vec::new() }
    }

    /// The list of the one asset `a`.
    pub fn single(a: Asset) -> (r: Assets)
        ensures
            r@ == seq![a],
    {
        let mut items = Vec::new();
        items.push(a);
        proof {
            assert(items@ =~= seq![a]);
        }
        Assets { items }
    }

    /// The number of items.
    pub fn len(&self) -> (n: usize)
        ensures
            n == self@.len(),
    {
        self.items.len()
    }

    /// The item at `index`, if there is one.
    pub fn get(&self, index: usize) -> (r: Option<Asset>)
        ensures
            r == (if index < self@.len() { Some(self@[index as int]) } else { None::<Asset> }),
    {
        if index < self.items.len() {
            Some(self.items[index])
        } else {
            None
        }
    }

    /// The items, in order.
    pub fn to_vec(&self) -> (v: Vec<Asset>)
        ensures
            v@ == self@,
    {
        self.items.clone()
    }

    /// A copy of the list.
    pub fn copy(&self) -> (r: Assets)
        ensures
            r@ == self@,
    {
        Assets { items: self.items.clone() }
    }

    /// Adds `a` as XCM does: see `pushed`.
    pub fn push(&mut self, a: Asset)
        ensures
            final(self)@ == pushed(old(self)@, a),
    {
        let n = self.items.len();
        let mut i: usize = 0;
        while i < n
            invariant
                n == self.items@.len(),
                self.items@ == old(self)@,
                i <= n,
                merge_index(self.items@, a, 0) == merge_index(self.items@, a, i as int),
            decreases n - i,
        {
            let x = self.items[i];
            if x.id == a.id {
                match (a.fun, x.fun) {
                    (Fungibility::Fungible(amount), Fungibility::Fungible(balance)) => {
                        let sum = balance.saturating_add(amount);
                        self.items.set(i, Asset { id: x.id, fun: Fungibility::Fungible(sum) });
                        return ;
                    },
                    (Fungibility::NonFungible(inst1), Fungibility::NonFungible(inst2)) => {
                        if inst1 == inst2 {
                            return ;
                        }
                    },
                    _ => {},
                }
            }
            i = i + 1;
        }
        let mut all = self.items.clone();
        all.push(a);
        self.items = sort_assets(&all);
    }
}

/// Inserts `a` after every item of `v` that does not come after it.
fn insert_in_order(v: &mut Vec<Asset>, a: Asset)
    ensures
        final(v)@ == insert_sorted(old(v)@, a),
{
    let n = v.len();
    let mut i: usize = 0;
    while i < n && !asset_less(&a, &v[i])
        invariant
            n == v@.len(),
            v@ == old(v)@,
            i <= n,
            insert_index(v@, a, 0) == insert_index(v@, a, i as int),
        decreases n - i,
    {
        i = i + 1;
    }
    v.insert(i, a);
}

/// The stable sort of `s` by the order of assets.
fn sort_assets(s: &Vec<Asset>) -> (r: Vec<Asset>)
    ensures
        r@ == sorted_assets(s@),
{
    let mut r: Vec<Asset> = Vec::new();
    let n = s.len();
    let mut i: usize = 0;
    while i < n
        invariant
            n == s@.len(),
            i <= n,
            r@ == sorted_assets(s@.take(i as int)),
        decreases n - i,
    {
        proof {
            assert(s@.take(i + 1).drop_last() =~= s@.take(i as int));
        }
        insert_in_order(&mut r, s[i]);
        i = i + 1;
    }
    assert(s@.take(n as int) =~= s@);
    r
}

/// A filter on the assets held: these assets, or a wildcard.
#[derive(Debug)]
pub enum AssetFilter {
    Definite(Assets),
    Wild(WildAsset),
}

} // verus!
