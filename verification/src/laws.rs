//! Properties that hold across the transfer rules and the asset list.

use crate::asset::{
    asset_lt, insert_index, insert_sorted, key_asset, key_fungibility, key_junction_list, lex_lt,
    sorted_assets, Asset, AssetId, Fungibility,
};
use crate::config::Config;
use crate::location::{junctions_of, lemma_junctions_of, Junction, Location};
use crate::transfer::{
    fee_covers_min, is_nonzero_fungible, scan_reserves, spec_fungible_amount, spec_half,
    spec_transfer_checks, spec_transfer_route, Route,
};
use vstd::prelude::*;

verus! {

/// No item of `s` comes strictly before an item before it.
pub open spec fn is_sorted(s: Seq<Asset>) -> bool {
    forall|i: int, j: int| 0 <= i < j < s.len() ==> !asset_lt(#[trigger] s[j], #[trigger] s[i])
}

proof fn lemma_lex_lt_irreflexive(a: Seq<u128>)
    ensures
        !lex_lt(a, a),
    decreases a.len(),
{
    if a.len() > 0 {
        lemma_lex_lt_irreflexive(a.drop_first());
    }
}

proof fn lemma_lex_lt_transitive(a: Seq<u128>, b: Seq<u128>, c: Seq<u128>)
    requires
        lex_lt(a, b),
        lex_lt(b, c),
    ensures
        lex_lt(a, c),
    decreases a.len(),
{
    if a.len() > 0 && b.len() > 0 && c.len() > 0 && a[0] == b[0] && b[0] == c[0] {
        lemma_lex_lt_transitive(a.drop_first(), b.drop_first(), c.drop_first());
    }
}

/// Two lists that agree on a prefix compare as what follows it.
proof fn lemma_lex_lt_common_prefix(p: Seq<u128>, a: Seq<u128>, b: Seq<u128>)
    ensures
        lex_lt(p + a, p + b) == lex_lt(a, b),
    decreases p.len(),
{
    if p.len() > 0 {
        assert((p + a).drop_first() =~= p.drop_first() + a);
        assert((p + b).drop_first() =~= p.drop_first() + b);
        lemma_lex_lt_common_prefix(p.drop_first(), a, b);
    } else {
        assert(p + a =~= a);
        assert(p + b =~= b);
    }
}

/// The order of assets is a strict order: no asset comes before itself, and it is
/// transitive.
pub proof fn law_asset_order_strict(a: Asset, b: Asset, c: Asset)
    ensures
        !asset_lt(a, a),
        asset_lt(a, b) && asset_lt(b, c) ==> asset_lt(a, c),
{
    lemma_lex_lt_irreflexive(key_asset(a));
    if asset_lt(a, b) && asset_lt(b, c) {
        lemma_lex_lt_transitive(key_asset(a), key_asset(b), key_asset(c));
    }
}

/// Of two fungible amounts of one class, the smaller comes first.
pub proof fn law_fungible_order(a: Asset, x: u128, y: u128)
    ensures
        asset_lt(
            Asset { id: a.id, fun: Fungibility::Fungible(x) },
            Asset { id: a.id, fun: Fungibility::Fungible(y) },
        ) <==> x < y,
{
    let p = seq![0u128] + crate::asset::key_asset_id(a.id);
    let ka = key_asset(Asset { id: a.id, fun: Fungibility::Fungible(x) });
    let kb = key_asset(Asset { id: a.id, fun: Fungibility::Fungible(y) });
    assert(ka =~= p + seq![0u128, x]);
    assert(kb =~= p + seq![0u128, y]);
    lemma_lex_lt_common_prefix(p, seq![0u128, x], seq![0u128, y]);
    assert(seq![0u128, x].drop_first() =~= seq![x]);
    assert(seq![0u128, y].drop_first() =~= seq![y]);
    assert(seq![x].drop_first() =~= Seq::<u128>::empty());
    assert(seq![y].drop_first() =~= Seq::<u128>::empty());
    reveal_with_fuel(lex_lt, 3);
}

proof fn lemma_insert_index<>(s: Seq<Asset>, a: Asset, i: int)
    requires
        0 <= i <= s.len(),
        forall|j: int| 0 <= j < i ==> !asset_lt(a, #[trigger] s[j]),
    ensures
        i <= insert_index(s, a, i) <= s.len(),
        forall|j: int| 0 <= j < insert_index(s, a, i) ==> !asset_lt(a, #[trigger] s[j]),
        insert_index(s, a, i) < s.len() ==> asset_lt(a, s[insert_index(s, a, i)]),
    decreases s.len() - i,
{
    if i < s.len() && !asset_lt(a, s[i]) {
        lemma_insert_index(s, a, i + 1);
    }
}

/// Two classes of one chain told apart by a final `GeneralIndex` (such as two NFT
/// collections of one parachain) are ordered by that index: an asset of the class
/// with the smaller index comes first, for the same amount or instance.
pub proof fn law_general_index_order(
    parents: u8,
    prefix: Seq<Junction>,
    a: u128,
    b: u128,
    fun: Fungibility,
)
    requires
        prefix.len() < 8,
    ensures
        ({
            let la = Location {
                parents,
                interior: junctions_of(prefix.push(Junction::GeneralIndex(a))),
            };
            let lb = Location {
                parents,
                interior: junctions_of(prefix.push(Junction::GeneralIndex(b))),
            };
            asset_lt(
                Asset { id: AssetId::Concrete(la), fun },
                Asset { id: AssetId::Concrete(lb), fun },
            ) <==> a < b
        }),
{
    let sa = prefix.push(Junction::GeneralIndex(a));
    let sb = prefix.push(Junction::GeneralIndex(b));
    let la = Location { parents, interior: junctions_of(sa) };
    let lb = Location { parents, interior: junctions_of(sb) };
    let ja = junctions_of(sa);
    let jb = junctions_of(sb);
    lemma_junctions_of(ja, sa);
    lemma_junctions_of(jb, sb);
    assert(sa.drop_last() =~= prefix);
    assert(sb.drop_last() =~= prefix);
    let tag: u128 = if fun is Fungible { 0u128 } else { 1u128 };
    let p = seq![tag, 0u128, parents as u128, sa.len() as u128] + key_junction_list(prefix)
        + seq![5u128];
    let f = key_fungibility(fun);
    let ka = key_asset(Asset { id: AssetId::Concrete(la), fun });
    let kb = key_asset(Asset { id: AssetId::Concrete(lb), fun });
    assert(key_junction_list(sa) == key_junction_list(prefix) + seq![5u128, a]);
    assert(key_junction_list(sb) == key_junction_list(prefix) + seq![5u128, b]);
    assert(ka =~= p + (seq![a] + f));
    assert(kb =~= p + (seq![b] + f));
    lemma_lex_lt_common_prefix(p, seq![a] + f, seq![b] + f);
    assert((seq![a] + f).drop_first() =~= f);
    assert((seq![b] + f).drop_first() =~= f);
    if a == b {
        lemma_lex_lt_irreflexive(seq![a] + f);
    }
}

/// Inserting into a sorted list keeps it sorted.
pub proof fn law_insert_sorted(s: Seq<Asset>, a: Asset)
    requires
        is_sorted(s),
    ensures
        is_sorted(insert_sorted(s, a)),
{
    lemma_insert_index(s, a, 0);
    let p = insert_index(s, a, 0);
    let r = insert_sorted(s, a);
    assert forall|i: int, j: int| 0 <= i < j < r.len() implies !asset_lt(
        #[trigger] r[j],
        #[trigger] r[i],
    ) by {
        if i < p && j < p {
            assert(r[i] == s[i] && r[j] == s[j]);
        } else if i < p && j == p {
            assert(r[i] == s[i] && r[j] == a);
        } else if i < p && j > p {
            assert(r[i] == s[i] && r[j] == s[j - 1]);
        } else if i == p {
            assert(r[i] == a && r[j] == s[j - 1]);
            if asset_lt(s[j - 1], a) {
                law_asset_order_strict(s[j - 1], a, s[p]);
                if j - 1 == p {
                    law_asset_order_strict(s[p], s[p], s[p]);
                }
            }
        } else {
            assert(r[i] == s[i - 1] && r[j] == s[j - 1]);
        }
    }
}

/// The sort of a list of assets is sorted.
pub proof fn law_sorted_assets_sorted(s: Seq<Asset>)
    ensures
        is_sorted(sorted_assets(s)),
    decreases s.len(),
{
    if s.len() > 0 {
        law_sorted_assets_sorted(s.drop_last());
        law_insert_sorted(sorted_assets(s.drop_last()), s.last());
    }
}

/// Half of a fee is a fungible amount of the fee's class, rounded down: two halves
/// never exceed the fee and fall short of it by at most one (a non-fungible fee counts
/// as zero).
pub proof fn law_halves_within_fee(fee: Asset)
    ensures
        spec_fungible_amount(spec_half(fee)) * 2 <= spec_fungible_amount(fee),
        spec_fungible_amount(fee) <= spec_fungible_amount(spec_half(fee)) * 2 + 1,
        spec_half(fee).fun is Fungible,
        spec_half(fee).id == fee.id,
        fee.fun is NonFungible ==> spec_fungible_amount(spec_half(fee)) == 0,
{
}

proof fn lemma_scan_reserves<C: Config>(
    config: &C,
    s: Seq<Asset>,
    fee: Asset,
    i: int,
    r: Option<Location>,
)
    requires
        0 <= i <= s.len(),
        r is Some ==> forall|j: int|
            0 <= j < i && s[j] != fee && config.spec_reserve(#[trigger] s[j]) is Some
                ==> config.spec_reserve(s[j]) == r,
        r is None ==> forall|j: int|
            0 <= j < i && s[j] != fee ==> config.spec_reserve(#[trigger] s[j]) is None,
        forall|j: int| 0 <= j < i ==> is_nonzero_fungible(#[trigger] s[j]),
        s.len() == 1 && i == 1 ==> r == config.spec_reserve(s[0]),
    ensures
        scan_reserves(config, s, fee, i, r) matches Ok(found) ==> {
            &&& forall|j: int| 0 <= j < s.len() ==> is_nonzero_fungible(#[trigger] s[j])
            &&& forall|j: int|
                0 <= j < s.len() && s[j] != fee && config.spec_reserve(#[trigger] s[j]) is Some
                    ==> config.spec_reserve(s[j]) == found
            &&& found is None ==> forall|j: int|
                0 <= j < s.len() && s[j] != fee ==> config.spec_reserve(#[trigger] s[j]) is None
            &&& s.len() == 1 ==> found == config.spec_reserve(s[0])
        },
    decreases s.len() - i,
{
    if i < s.len() {
        let a = s[i];
        if is_nonzero_fungible(a) {
            let r2 = if (fee != a && r is None) || s.len() == 1 {
                config.spec_reserve(a)
            } else {
                r
            };
            if !(r2 is Some && r2 != config.spec_reserve(a)) {
                lemma_scan_reserves(config, s, fee, i + 1, r2);
            }
        }
    }
}

/// The assets of a transfer that passes its checks are all non-zero fungible
/// amounts, and the assets other than the fee that have a known reserve all have the
/// reserve the transfer goes through. (An asset other than the fee with no known
/// reserve is let through, wherever it stands.)
pub proof fn law_assets_share_reserve<C: Config>(
    config: &C,
    assets: Seq<Asset>,
    fee: Asset,
    dest: Location,
)
    ensures
        spec_transfer_checks(config, assets, fee, dest) matches Ok(found) ==> {
            &&& forall|j: int| 0 <= j < assets.len() ==> is_nonzero_fungible(#[trigger] assets[j])
            &&& forall|j: int|
                0 <= j < assets.len() && assets[j] != fee && config.spec_reserve(
                    #[trigger] assets[j],
                ) is Some ==> config.spec_reserve(assets[j]) == found
        },
{
    lemma_scan_reserves(config, assets, fee, 0, None);
}

/// Where the fee has another reserve than the assets, it is split: the reserve's least
/// fee goes to the destination and the rest to the fee's reserve; both keep the fee's
/// class, the least fee is below a fungible fee, and nothing is lost or made.
pub proof fn law_fee_split<C: Config>(config: &C, assets: Seq<Asset>, fee: Asset, dest: Location)
    requires
        fee_covers_min(config, assets, fee, dest),
    ensures
        spec_transfer_route(config, assets, fee, dest) matches Ok(
            Route::ViaReserve { fee_to_dest, fee_to_reserve, .. },
        ) ==> {
            &&& fee_to_dest.id == fee.id && fee_to_reserve.id == fee.id
            &&& fee_to_dest.fun is Fungible && fee_to_reserve.fun is Fungible
            &&& asset_lt(fee_to_dest, fee)
            &&& fee.fun is Fungible ==> spec_fungible_amount(fee_to_dest) < spec_fungible_amount(
                fee,
            )
            &&& spec_fungible_amount(fee_to_dest) + spec_fungible_amount(fee_to_reserve)
                == spec_fungible_amount(fee)
        },
{
    if let Ok(Route::ViaReserve { fee_to_dest, fee_to_reserve, .. }) = spec_transfer_route(
        config,
        assets,
        fee,
        dest,
    ) {
        if let Fungibility::Fungible(x) = fee.fun {
            if let Fungibility::Fungible(m) = fee_to_dest.fun {
                law_fungible_order(fee, m, x);
                assert(fee == Asset { id: fee.id, fun: Fungibility::Fungible(x) });
            }
        }
    }
}

} // verus!
