//! What a runtime supplies to the transfer logic.

use crate::asset::{Asset, AssetId};
use crate::bytes::Bytes32;
use crate::location::{Junction, Junctions, Location};
use vstd::prelude::*;

verus! {

/// The runtime's configuration of the pallet. Each query is a function of its
/// arguments: an implementation answers every call as its `spec_` counterpart says.
pub trait Config {
    /// Who can send a transfer.
    type AccountId;

    /// The location of an NFT collection, if it can cross chains.
    spec fn spec_collection_location(&self, collection: u32) -> Option<Location>;

    /// Whether transfers may go to `dest`.
    spec fn spec_supports_destination(&self, dest: Location) -> bool;

    /// The most assets one transfer may send.
    spec fn spec_max_assets_for_transfer(&self) -> usize;

    /// The location of an account.
    spec fn spec_account_location(&self, who: Self::AccountId) -> Location;

    /// The reserve location of an asset, if it has one.
    spec fn spec_reserve(&self, asset: Asset) -> Option<Location>;

    /// The least fee that a reserve charges for executing a message, if it is known.
    spec fn spec_min_xcm_fee(&self, reserve: Location) -> Option<u128>;

    /// This chain's location in the universe of consensus systems.
    spec fn spec_universal_location(&self) -> Junctions;

    /// This chain's location as its neighbours see it.
    spec fn spec_self_location(&self) -> Location;

    fn collection_location(&self, collection: u32) -> (r: Option<Location>)
        ensures
            r == self.spec_collection_location(collection),
    ;

    fn supports_destination(&self, dest: &Location) -> (r: bool)
        ensures
            r == self.spec_supports_destination(*dest),
    ;

    fn max_assets_for_transfer(&self) -> (r: usize)
        ensures
            r == self.spec_max_assets_for_transfer(),
    ;

    fn account_location(&self, who: &Self::AccountId) -> (r: Location)
        ensures
            r == self.spec_account_location(*who),
    ;

    fn reserve(&self, asset: &Asset) -> (r: Option<Location>)
        ensures
            r == self.spec_reserve(*asset),
    ;

    fn min_xcm_fee(&self, reserve: &Location) -> (r: Option<u128>)
        ensures
            r == self.spec_min_xcm_fee(*reserve),
    ;

    fn universal_location(&self) -> (r: Junctions)
        ensures
            r == self.spec_universal_location(),
    ;

    fn self_location(&self) -> (r: Location)
        ensures
            r == self.spec_self_location(),
    ;
}

/// The value of the first entry for `k`, if any.
pub open spec fn first_entry<K, V>(s: Seq<(K, V)>, k: K) -> Option<V>
    decreases s.len(),
{
    if s.len() == 0 {
        None
    } else if s[0].0 == k {
        Some(s[0].1)
    } else {
        first_entry(s.drop_first(), k)
    }
}

/// A configuration given by tables: the location of each collection, the supported
/// destinations, the reserve of each asset class, the least fee of each reserve;
/// accounts are 32-byte identifiers inside this chain.
pub struct StaticConfig {
    pub collections: Vec<(u32, Location)>,
    pub destinations: Vec<Location>,
    pub max_assets: usize,
    pub reserves: Vec<(AssetId, Location)>,
    pub min_fees: Vec<(Location, u128)>,
    pub universal_location: Junctions,
    pub self_location: Location,
}

/// The location of a 32-byte account inside this chain.
pub open spec fn account_id_location(who: Bytes32) -> Location {
    Location {
        parents: 0,
        interior: Junctions::X1(Junction::AccountId32 { network: None, id: who }),
    }
}

impl Config for StaticConfig {
    type AccountId = Bytes32;

    open spec fn spec_collection_location(&self, collection: u32) -> Option<Location> {
        first_entry(self.collections@, collection)
    }

    open spec fn spec_supports_destination(&self, dest: Location) -> bool {
        self.destinations@.contains(dest)
    }

    open spec fn spec_max_assets_for_transfer(&self) -> usize {
        self.max_assets
    }

    open spec fn spec_account_location(&self, who: Bytes32) -> Location {
        account_id_location(who)
    }

    open spec fn spec_reserve(&self, asset: Asset) -> Option<Location> {
        first_entry(self.reserves@, asset.id)
    }

    open spec fn spec_min_xcm_fee(&self, reserve: Location) -> Option<u128> {
        first_entry(self.min_fees@, reserve)
    }

    open spec fn spec_universal_location(&self) -> Junctions {
        self.universal_location
    }

    open spec fn spec_self_location(&self) -> Location {
        self.self_location
    }

    fn collection_location(&self, collection: u32) -> (r: Option<Location>) {
        let n = self.collections.len();
        let mut i: usize = 0;
        assert(self.collections@.skip(0) =~= self.collections@);
        while i < n
            invariant
                n == self.collections@.len(),
                i <= n,
                first_entry(self.collections@, collection) == first_entry(
                    self.collections@.skip(i as int),
                    collection,
                ),
            decreases n - i,
        {
            assert(self.collections@.skip(i as int).drop_first() =~= self.collections@.skip(
                i + 1,
            ));
            if self.collections[i].0 == collection {
                return Some(self.collections[i].1);
            }
            i = i + 1;
        }
        None
    }

    fn supports_destination(&self, dest: &Location) -> (r: bool) {
        let n = self.destinations.len();
        let mut i: usize = 0;
        while i < n
            invariant
                n == self.destinations@.len(),
                i <= n,
                forall|j: int| 0 <= j < i ==> self.destinations@[j] != *dest,
            decreases n - i,
        {
            if self.destinations[i] == *dest {
                return true;
            }
            i = i + 1;
        }
        false
    }

    fn max_assets_for_transfer(&self) -> (r: usize) {
        self.max_assets
    }

    fn account_location(&self, who: &Bytes32) -> (r: Location) {
        Location {
            parents: 0,
            interior: Junctions::X1(Junction::AccountId32 { network: None, id: *who }),
        }
    }

    fn reserve(&self, asset: &Asset) -> (r: Option<Location>) {
        let n = self.reserves.len();
        let mut i: usize = 0;
        assert(self.reserves@.skip(0) =~= self.reserves@);
        while i < n
            invariant
                n == self.reserves@.len(),
                i <= n,
                first_entry(self.reserves@, asset.id) == first_entry(
                    self.reserves@.skip(i as int),
                    asset.id,
                ),
            decreases n - i,
        {
            assert(self.reserves@.skip(i as int).drop_first() =~= self.reserves@.skip(i + 1));
            if self.reserves[i].0 == asset.id {
                return Some(self.reserves[i].1);
            }
            i = i + 1;
        }
        None
    }

    fn min_xcm_fee(&self, reserve: &Location) -> (r: Option<u128>) {
        let n = self.min_fees.len();
        let mut i: usize = 0;
        assert(self.min_fees@.skip(0) =~= self.min_fees@);
        while i < n
            invariant
                n == self.min_fees@.len(),
                i <= n,
                first_entry(self.min_fees@, *reserve) == first_entry(
                    self.min_fees@.skip(i as int),
                    *reserve,
                ),
            decreases n - i,
        {
            assert(self.min_fees@.skip(i as int).drop_first() =~= self.min_fees@.skip(i + 1));
            if self.min_fees[i].0 == *reserve {
                return Some(self.min_fees[i].1);
            }
            i = i + 1;
        }
        None
    }

    fn universal_location(&self) -> (r: Junctions) {
        self.universal_location
    }

    fn self_location(&self) -> (r: Location) {
        self.self_location
    }
}

} // verus!
