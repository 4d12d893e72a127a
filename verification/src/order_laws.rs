//! The order of assets is total: every field of an asset takes part in it, so two
//! different assets never stand level.

use crate::asset::{
    asset_lt, key_asset, key_asset_id, key_body_id, key_body_part, key_bytes32, key_fungibility,
    key_instance, key_junction, key_junction_list, key_location, key_network, key_option_network,
    lex_lt, merge_index, merges_into, pushed, saturating_add_u128, Asset, AssetId,
    AssetInstance, Fungibility,
};
use crate::laws::{is_sorted, law_sorted_assets_sorted};
use crate::location::{lemma_junctions_view_injective, BodyId, BodyPart, Junction, Location, NetworkId};
use vstd::prelude::*;

verus! {

/// Two concatenations with first parts of one length have equal parts.
proof fn lemma_split(p1: Seq<u128>, r1: Seq<u128>, p2: Seq<u128>, r2: Seq<u128>)
    requires
        p1 + r1 == p2 + r2,
        p1.len() == p2.len(),
    ensures
        p1 == p2,
        r1 == r2,
{
    assert(p1 =~= (p1 + r1).take(p1.len() as int));
    assert(p2 =~= (p2 + r2).take(p2.len() as int));
    assert(r1 =~= (p1 + r1).skip(p1.len() as int));
    assert(r2 =~= (p2 + r2).skip(p2.len() as int));
}

/// Two concatenations that agree on their first element.
proof fn lemma_head(p1: Seq<u128>, r1: Seq<u128>, p2: Seq<u128>, r2: Seq<u128>)
    requires
        p1 + r1 == p2 + r2,
        p1.len() > 0,
        p2.len() > 0,
    ensures
        p1[0] == p2[0],
{
    assert((p1 + r1)[0] == p1[0]);
    assert((p2 + r2)[0] == p2[0]);
}

proof fn lemma_bytes32_unique(a: crate::bytes::Bytes32, b: crate::bytes::Bytes32, r1: Seq<u128>, r2: Seq<u128>)
    requires
        key_bytes32(a) + r1 == key_bytes32(b) + r2,
    ensures
        a == b,
        r1 == r2,
{
    lemma_split(key_bytes32(a), r1, key_bytes32(b), r2);
    assert(key_bytes32(a)[0] == key_bytes32(b)[0]);
    assert(key_bytes32(a)[1] == key_bytes32(b)[1]);
}

proof fn lemma_network_unique(a: NetworkId, b: NetworkId, r1: Seq<u128>, r2: Seq<u128>)
    requires
        key_network(a) + r1 == key_network(b) + r2,
    ensures
        a == b,
        r1 == r2,
{
    let ka = key_network(a);
    let kb = key_network(b);
    lemma_head(ka, r1, kb, r2);
    assert(ka.len() == kb.len());
    lemma_split(ka, r1, kb, r2);
    match (a, b) {
        (NetworkId::ByGenesis(h1), NetworkId::ByGenesis(h2)) => {
            assert(ka[1] == kb[1] && ka[2] == kb[2]);
        },
        (NetworkId::ByFork { block_number: n1, block_hash: h1 }, NetworkId::ByFork { block_number: n2, block_hash: h2 }) => {
            assert(ka[1] == kb[1] && ka[2] == kb[2] && ka[3] == kb[3]);
        },
        (NetworkId::Ethereum { chain_id: c1 }, NetworkId::Ethereum { chain_id: c2 }) => {
            assert(ka[1] == kb[1]);
        },
        _ => {},
    }
}

proof fn lemma_option_network_unique(
    a: Option<NetworkId>,
    b: Option<NetworkId>,
    r1: Seq<u128>,
    r2: Seq<u128>,
)
    requires
        key_option_network(a) + r1 == key_option_network(b) + r2,
    ensures
        a == b,
        r1 == r2,
{
    let ka = key_option_network(a);
    let kb = key_option_network(b);
    lemma_head(ka, r1, kb, r2);
    match (a, b) {
        (Some(n1), Some(n2)) => {
            assert(ka + r1 =~= seq![1u128] + (key_network(n1) + r1));
            assert(kb + r2 =~= seq![1u128] + (key_network(n2) + r2));
            lemma_split(seq![1u128], key_network(n1) + r1, seq![1u128], key_network(n2) + r2);
            lemma_network_unique(n1, n2, r1, r2);
        },
        (None, None) => {
            lemma_split(ka, r1, kb, r2);
        },
        _ => {},
    }
}

proof fn lemma_body_id_unique(a: BodyId, b: BodyId, r1: Seq<u128>, r2: Seq<u128>)
    requires
        key_body_id(a) + r1 == key_body_id(b) + r2,
    ensures
        a == b,
        r1 == r2,
{
    let ka = key_body_id(a);
    let kb = key_body_id(b);
    lemma_head(ka, r1, kb, r2);
    assert(ka.len() == kb.len());
    lemma_split(ka, r1, kb, r2);
    match (a, b) {
        (BodyId::Moniker(m1), BodyId::Moniker(m2)) => {
            assert(ka[1] == kb[1]);
        },
        (BodyId::Index(i1), BodyId::Index(i2)) => {
            assert(ka[1] == kb[1]);
        },
        _ => {},
    }
}

proof fn lemma_body_part_unique(a: BodyPart, b: BodyPart, r1: Seq<u128>, r2: Seq<u128>)
    requires
        key_body_part(a) + r1 == key_body_part(b) + r2,
    ensures
        a == b,
        r1 == r2,
{
    let ka = key_body_part(a);
    let kb = key_body_part(b);
    lemma_head(ka, r1, kb, r2);
    assert(ka.len() == kb.len());
    lemma_split(ka, r1, kb, r2);
    if ka.len() >= 2 {
        assert(ka[1] == kb[1]);
    }
    if ka.len() >= 3 {
        assert(ka[2] == kb[2]);
    }
}
proof fn lemma_junction_unique(a: Junction, b: Junction, r1: Seq<u128>, r2: Seq<u128>)
    requires
        key_junction(a) + r1 == key_junction(b) + r2,
    ensures
        a == b,
        r1 == r2,
{
    let ka = key_junction(a);
    let kb = key_junction(b);
    lemma_head(ka, r1, kb, r2);
    match (a, b) {
        (Junction::AccountId32 { network: n1, id: i1 }, Junction::AccountId32 { network: n2, id: i2 }) => {
            assert(ka + r1 =~= seq![1u128] + (key_option_network(n1) + (key_bytes32(i1) + r1)));
            assert(kb + r2 =~= seq![1u128] + (key_option_network(n2) + (key_bytes32(i2) + r2)));
            lemma_split(seq![1u128], key_option_network(n1) + (key_bytes32(i1) + r1), seq![1u128],
                key_option_network(n2) + (key_bytes32(i2) + r2));
            lemma_option_network_unique(n1, n2, key_bytes32(i1) + r1, key_bytes32(i2) + r2);
            lemma_bytes32_unique(i1, i2, r1, r2);
        },
        (Junction::AccountIndex64 { network: n1, index: x1 }, Junction::AccountIndex64 { network: n2, index: x2 }) => {
            assert(ka + r1 =~= seq![2u128] + (key_option_network(n1) + (seq![x1 as u128] + r1)));
            assert(kb + r2 =~= seq![2u128] + (key_option_network(n2) + (seq![x2 as u128] + r2)));
            lemma_split(seq![2u128], key_option_network(n1) + (seq![x1 as u128] + r1), seq![2u128],
                key_option_network(n2) + (seq![x2 as u128] + r2));
            lemma_option_network_unique(n1, n2, seq![x1 as u128] + r1, seq![x2 as u128] + r2);
            lemma_split(seq![x1 as u128], r1, seq![x2 as u128], r2);
            assert(seq![x1 as u128][0] == seq![x2 as u128][0]);
        },
        (Junction::AccountKey20 { network: n1, key: k1 }, Junction::AccountKey20 { network: n2, key: k2 }) => {
            let t1 = seq![k1.hi as u128, k1.lo];
            let t2 = seq![k2.hi as u128, k2.lo];
            assert(ka + r1 =~= seq![3u128] + (key_option_network(n1) + (t1 + r1)));
            assert(kb + r2 =~= seq![3u128] + (key_option_network(n2) + (t2 + r2)));
            lemma_split(seq![3u128], key_option_network(n1) + (t1 + r1), seq![3u128],
                key_option_network(n2) + (t2 + r2));
            lemma_option_network_unique(n1, n2, t1 + r1, t2 + r2);
            lemma_split(t1, r1, t2, r2);
            assert(t1[0] == t2[0] && t1[1] == t2[1]);
        },
        (Junction::GeneralKey { length: l1, data: d1 }, Junction::GeneralKey { length: l2, data: d2 }) => {
            lemma_split(ka, r1, kb, r2);
            assert(ka[1] == kb[1] && ka[2] == kb[2] && ka[3] == kb[3]);
        },
        (Junction::Plurality { id: i1, part: p1 }, Junction::Plurality { id: i2, part: p2 }) => {
            assert(ka + r1 =~= seq![8u128] + (key_body_id(i1) + (key_body_part(p1) + r1)));
            assert(kb + r2 =~= seq![8u128] + (key_body_id(i2) + (key_body_part(p2) + r2)));
            lemma_split(seq![8u128], key_body_id(i1) + (key_body_part(p1) + r1), seq![8u128],
                key_body_id(i2) + (key_body_part(p2) + r2));
            lemma_body_id_unique(i1, i2, key_body_part(p1) + r1, key_body_part(p2) + r2);
            lemma_body_part_unique(p1, p2, r1, r2);
        },
        (Junction::GlobalConsensus(n1), Junction::GlobalConsensus(n2)) => {
            assert(ka + r1 =~= seq![9u128] + (key_network(n1) + r1));
            assert(kb + r2 =~= seq![9u128] + (key_network(n2) + r2));
            lemma_split(seq![9u128], key_network(n1) + r1, seq![9u128], key_network(n2) + r2);
            lemma_network_unique(n1, n2, r1, r2);
        },
        (Junction::Parachain(_), Junction::Parachain(_)) | (Junction::PalletInstance(_), Junction::PalletInstance(_))
        | (Junction::GeneralIndex(_), Junction::GeneralIndex(_)) => {
            lemma_split(ka, r1, kb, r2);
            assert(ka[1] == kb[1]);
        },
        (Junction::OnlyChild, Junction::OnlyChild) => {
            lemma_split(ka, r1, kb, r2);
        },
        _ => {},
    }
}

/// The keys of a list of junctions, read from the front.
proof fn lemma_junction_list_front(s: Seq<Junction>)
    requires
        s.len() > 0,
    ensures
        key_junction_list(s) == key_junction(s[0]) + key_junction_list(s.drop_first()),
    decreases s.len(),
{
    if s.len() == 1 {
        assert(s.drop_last() =~= Seq::<Junction>::empty());
        assert(s.drop_first() =~= Seq::<Junction>::empty());
        assert(key_junction_list(s) =~= key_junction(s[0]) + key_junction_list(s.drop_first()));
    } else {
        lemma_junction_list_front(s.drop_last());
        assert(s.drop_last().drop_first() =~= s.drop_first().drop_last());
        assert(s.drop_first().last() == s.last());
        assert(s.drop_last()[0] == s[0]);
        assert(key_junction_list(s) =~= key_junction(s[0]) + key_junction_list(s.drop_first()));
    }
}

proof fn lemma_junction_list_unique(a: Seq<Junction>, b: Seq<Junction>, r1: Seq<u128>, r2: Seq<u128>)
    requires
        a.len() == b.len(),
        key_junction_list(a) + r1 == key_junction_list(b) + r2,
    ensures
        a == b,
        r1 == r2,
    decreases a.len(),
{
    if a.len() == 0 {
        assert(key_junction_list(a) + r1 =~= r1);
        assert(key_junction_list(b) + r2 =~= r2);
        assert(a =~= b);
    } else {
        lemma_junction_list_front(a);
        lemma_junction_list_front(b);
        let ta = key_junction_list(a.drop_first()) + r1;
        let tb = key_junction_list(b.drop_first()) + r2;
        assert(key_junction_list(a) + r1 =~= key_junction(a[0]) + ta);
        assert(key_junction_list(b) + r2 =~= key_junction(b[0]) + tb);
        lemma_junction_unique(a[0], b[0], ta, tb);
        lemma_junction_list_unique(a.drop_first(), b.drop_first(), r1, r2);
        assert(a =~= b) by {
            assert forall|i: int| 0 <= i < a.len() implies a[i] == b[i] by {
                if i > 0 {
                    assert(a[i] == a.drop_first()[i - 1]);
                    assert(b[i] == b.drop_first()[i - 1]);
                }
            }
        }
    }
}

proof fn lemma_location_unique(a: Location, b: Location, r1: Seq<u128>, r2: Seq<u128>)
    requires
        key_location(a) + r1 == key_location(b) + r2,
    ensures
        a == b,
        r1 == r2,
{
    let sa = a.interior@;
    let sb = b.interior@;
    let ha = seq![a.parents as u128, sa.len() as u128];
    let hb = seq![b.parents as u128, sb.len() as u128];
    assert(key_location(a) + r1 =~= ha + (key_junction_list(sa) + r1));
    assert(key_location(b) + r2 =~= hb + (key_junction_list(sb) + r2));
    lemma_split(ha, key_junction_list(sa) + r1, hb, key_junction_list(sb) + r2);
    assert(ha[0] == hb[0] && ha[1] == hb[1]);
    lemma_junction_list_unique(sa, sb, r1, r2);
    lemma_junctions_view_injective(a.interior, b.interior);
}

proof fn lemma_asset_id_unique(a: AssetId, b: AssetId, r1: Seq<u128>, r2: Seq<u128>)
    requires
        key_asset_id(a) + r1 == key_asset_id(b) + r2,
    ensures
        a == b,
        r1 == r2,
{
    let ka = key_asset_id(a);
    let kb = key_asset_id(b);
    lemma_head(ka, r1, kb, r2);
    match (a, b) {
        (AssetId::Concrete(l1), AssetId::Concrete(l2)) => {
            assert(ka + r1 =~= seq![0u128] + (key_location(l1) + r1));
            assert(kb + r2 =~= seq![0u128] + (key_location(l2) + r2));
            lemma_split(seq![0u128], key_location(l1) + r1, seq![0u128], key_location(l2) + r2);
            lemma_location_unique(l1, l2, r1, r2);
        },
        (AssetId::Abstract(x1), AssetId::Abstract(x2)) => {
            assert(ka + r1 =~= seq![1u128] + (key_bytes32(x1) + r1));
            assert(kb + r2 =~= seq![1u128] + (key_bytes32(x2) + r2));
            lemma_split(seq![1u128], key_bytes32(x1) + r1, seq![1u128], key_bytes32(x2) + r2);
            lemma_bytes32_unique(x1, x2, r1, r2);
        },
        _ => {},
    }
}

proof fn lemma_fungibility_unique(a: Fungibility, b: Fungibility, r1: Seq<u128>, r2: Seq<u128>)
    requires
        key_fungibility(a) + r1 == key_fungibility(b) + r2,
    ensures
        a == b,
        r1 == r2,
{
    let ka = key_fungibility(a);
    let kb = key_fungibility(b);
    lemma_head(ka, r1, kb, r2);
    match (a, b) {
        (Fungibility::Fungible(_), Fungibility::Fungible(_)) => {
            lemma_split(ka, r1, kb, r2);
            assert(ka[1] == kb[1]);
        },
        (Fungibility::NonFungible(i1), Fungibility::NonFungible(i2)) => {
            let k1 = key_instance(i1);
            let k2 = key_instance(i2);
            assert(ka + r1 =~= seq![1u128] + (k1 + r1));
            assert(kb + r2 =~= seq![1u128] + (k2 + r2));
            lemma_split(seq![1u128], k1 + r1, seq![1u128], k2 + r2);
            lemma_head(k1, r1, k2, r2);
            assert(k1.len() == k2.len());
            lemma_split(k1, r1, k2, r2);
            match (i1, i2) {
                (AssetInstance::Array32(b1), AssetInstance::Array32(b2)) => {
                    assert(k1[1] == k2[1] && k1[2] == k2[2]);
                },
                (AssetInstance::Undefined, AssetInstance::Undefined) => {},
                _ => {
                    assert(k1[1] == k2[1]);
                },
            }
        },
        _ => {},
    }
}

/// Different assets have different keys.
proof fn lemma_key_asset_injective(a: Asset, b: Asset)
    requires
        key_asset(a) == key_asset(b),
    ensures
        a == b,
{
    let e = Seq::<u128>::empty();
    let ta: u128 = if a.fun is Fungible { 0u128 } else { 1u128 };
    let tb: u128 = if b.fun is Fungible { 0u128 } else { 1u128 };
    assert(key_asset(a) + e =~= seq![ta] + (key_asset_id(a.id) + (key_fungibility(a.fun) + e)));
    assert(key_asset(b) + e =~= seq![tb] + (key_asset_id(b.id) + (key_fungibility(b.fun) + e)));
    lemma_split(seq![ta], key_asset_id(a.id) + (key_fungibility(a.fun) + e), seq![tb],
        key_asset_id(b.id) + (key_fungibility(b.fun) + e));
    lemma_asset_id_unique(a.id, b.id, key_fungibility(a.fun) + e, key_fungibility(b.fun) + e);
    lemma_fungibility_unique(a.fun, b.fun, e, e);
}

/// Of two different number sequences, one comes first.
proof fn lemma_lex_lt_total(a: Seq<u128>, b: Seq<u128>)
    requires
        a != b,
    ensures
        lex_lt(a, b) || lex_lt(b, a),
    decreases a.len(),
{
    if a.len() > 0 && b.len() > 0 && a[0] == b[0] {
        if a.drop_first() == b.drop_first() {
            assert(a.drop_first().len() == a.len() - 1);
            assert(b.drop_first().len() == b.len() - 1);
            assert(a.len() == b.len());
            assert(a =~= b) by {
                assert forall|i: int| 0 <= i < a.len() implies a[i] == b[i] by {
                    if i > 0 {
                        assert(a[i] == a.drop_first()[i - 1]);
                        assert(b[i] == b.drop_first()[i - 1]);
                    }
                }
            }
        }
        lemma_lex_lt_total(a.drop_first(), b.drop_first());
    } else if a.len() == 0 && b.len() == 0 {
        assert(a =~= b);
    }
}

/// The order of assets is total: of two different assets, one comes strictly before
/// the other, so every field of an asset (its class's location junction by junction,
/// its amount or instance) takes part in the order.
pub proof fn law_asset_order_total(a: Asset, b: Asset)
    ensures
        a != b ==> asset_lt(a, b) || asset_lt(b, a),
{
    if a != b {
        if key_asset(a) == key_asset(b) {
            lemma_key_asset_injective(a, b);
        }
        lemma_lex_lt_total(key_asset(a), key_asset(b));
    }
}

/// Two sequences that agree on a prefix compare as what follows it.
proof fn lemma_lex_common_prefix(p: Seq<u128>, a: Seq<u128>, b: Seq<u128>)
    ensures
        lex_lt(p + a, p + b) == lex_lt(a, b),
    decreases p.len(),
{
    if p.len() > 0 {
        assert((p + a).drop_first() =~= p.drop_first() + a);
        assert((p + b).drop_first() =~= p.drop_first() + b);
        lemma_lex_common_prefix(p.drop_first(), a, b);
    } else {
        assert(p + a =~= a);
        assert(p + b =~= b);
    }
}

/// Where two sequences differ at a position within both, there is a first such
/// position.
proof fn lemma_first_difference(a: Seq<u128>, b: Seq<u128>, i0: int)
    requires
        0 <= i0 < a.len(),
        i0 < b.len(),
        a[i0] != b[i0],
    ensures
        exists|i: int|
            0 <= i < a.len() && i < b.len() && a[i] != b[i] && forall|k: int|
                0 <= k < i ==> a[k] == b[k],
    decreases i0,
{
    if exists|k: int| 0 <= k < i0 && a[k] != b[k] {
        let k = choose|k: int| 0 <= k < i0 && a[k] != b[k];
        lemma_first_difference(a, b, k);
    } else {
        assert(forall|k: int| 0 <= k < i0 ==> a[k] == b[k]);
    }
}

/// The keys of two different classes differ at a position within both, and agree
/// before it.
proof fn lemma_asset_id_keys_differ(x: AssetId, y: AssetId)
    requires
        x != y,
    ensures
        exists|i: int|
            0 <= i < key_asset_id(x).len() && i < key_asset_id(y).len() && key_asset_id(x)[i]
                != key_asset_id(y)[i] && forall|k: int|
                0 <= k < i ==> key_asset_id(x)[k] == key_asset_id(y)[k],
{
    let kx = key_asset_id(x);
    let ky = key_asset_id(y);
    if !(exists|i: int| 0 <= i < kx.len() && i < ky.len() && kx[i] != ky[i]) {
        if kx.len() <= ky.len() {
            let rest = ky.skip(kx.len() as int);
            assert(ky =~= kx + rest);
            assert(ky + Seq::<u128>::empty() =~= ky);
            lemma_asset_id_unique(x, y, rest, Seq::<u128>::empty());
        } else {
            let rest = kx.skip(ky.len() as int);
            assert(kx =~= ky + rest);
            assert(kx + Seq::<u128>::empty() =~= kx);
            lemma_asset_id_unique(y, x, rest, Seq::<u128>::empty());
        }
    } else {
        let i0 = choose|i: int| 0 <= i < kx.len() && i < ky.len() && kx[i] != ky[i];
        lemma_first_difference(kx, ky, i0);
    }
}

/// A fungible amount of a class stands, against any asset that is not a fungible
/// amount of the same class, where any other amount of that class stands.
proof fn lemma_amount_irrelevant(id: AssetId, b1: u128, b2: u128, x: Asset)
    requires
        !(x.fun is Fungible && x.id == id),
    ensures
        asset_lt(Asset { id, fun: Fungibility::Fungible(b1) }, x) == asset_lt(
            Asset { id, fun: Fungibility::Fungible(b2) },
            x,
        ),
        asset_lt(x, Asset { id, fun: Fungibility::Fungible(b1) }) == asset_lt(
            x,
            Asset { id, fun: Fungibility::Fungible(b2) },
        ),
{
    let y1 = Asset { id, fun: Fungibility::Fungible(b1) };
    let y2 = Asset { id, fun: Fungibility::Fungible(b2) };
    let k1 = key_asset(y1);
    let k2 = key_asset(y2);
    let kx = key_asset(x);
    if x.fun is Fungible {
        lemma_asset_id_keys_differ(id, x.id);
        let ki = key_asset_id(id);
        let kj = key_asset_id(x.id);
        let i = choose|i: int|
            0 <= i < ki.len() && i < kj.len() && ki[i] != kj[i] && forall|k: int|
                0 <= k < i ==> ki[k] == kj[k];
        let c = seq![0u128] + ki.take(i);
        assert(ki.take(i) =~= kj.take(i));
        let t1 = ki.skip(i) + key_fungibility(y1.fun);
        let t2 = ki.skip(i) + key_fungibility(y2.fun);
        let tx = kj.skip(i) + key_fungibility(x.fun);
        assert(k1 =~= c + t1);
        assert(k2 =~= c + t2);
        assert(kx =~= c + tx);
        lemma_lex_common_prefix(c, t1, tx);
        lemma_lex_common_prefix(c, t2, tx);
        lemma_lex_common_prefix(c, tx, t1);
        lemma_lex_common_prefix(c, tx, t2);
        assert(t1[0] == ki[i] && t2[0] == ki[i] && tx[0] == kj[i]);
    } else {
        assert(k1[0] == 0 && k2[0] == 0 && kx[0] == 1);
    }
}

proof fn lemma_merge_index(s: Seq<Asset>, a: Asset, i: int)
    ensures
        merge_index(s, a, i) matches Some(m) ==> 0 <= m < s.len() && merges_into(s[m], a),
    decreases s.len() - i,
{
    if 0 <= i < s.len() && !merges_into(s[i], a) {
        lemma_merge_index(s, a, i + 1);
    }
}

/// Pushing an asset onto a sorted list in which no two fungible items share a
/// class (as XCM keeps its asset lists) gives a sorted list.
pub proof fn law_push_keeps_sorted(s: Seq<Asset>, a: Asset)
    requires
        is_sorted(s),
        forall|i: int, j: int|
            0 <= i < j < s.len() && s[i].fun is Fungible && s[j].fun is Fungible ==> #[trigger] s[i].id
                != #[trigger] s[j].id,
    ensures
        is_sorted(pushed(s, a)),
{
    lemma_merge_index(s, a, 0);
    match merge_index(s, a, 0) {
        Some(m) => {
            if let (Fungibility::Fungible(amount), Fungibility::Fungible(balance)) = (a.fun, s[m].fun) {
                let n = Asset {
                    id: s[m].id,
                    fun: Fungibility::Fungible(saturating_add_u128(balance, amount)),
                };
                let t = s.update(m, n);
                assert(s[m] == Asset { id: s[m].id, fun: Fungibility::Fungible(balance) });
                assert forall|i: int, j: int| 0 <= i < j < t.len() implies !asset_lt(
                    #[trigger] t[j],
                    #[trigger] t[i],
                ) by {
                    assert(!asset_lt(s[j], s[i]));
                    if i == m {
                        assert(s[j].id != s[m].id || !(s[j].fun is Fungible));
                        lemma_amount_irrelevant(s[m].id, balance, saturating_add_u128(balance, amount), s[j]);
                    } else if j == m {
                        assert(s[i].id != s[m].id || !(s[i].fun is Fungible));
                        lemma_amount_irrelevant(s[m].id, balance, saturating_add_u128(balance, amount), s[i]);
                    }
                }
                assert(pushed(s, a) == t);
            }
        },
        None => {
            law_sorted_assets_sorted(s.push(a));
        },
    }
}

} // verus!
