//! The pallet: its calls, its events, and its two storage maps between NFT
//! collections and their native locations.

use crate::asset::{Asset, AssetId, Assets, Fungibility};
use crate::config::Config;
use crate::location::Location;
use crate::transfer::{
    do_transfer_multiassets, is_transferred, spec_transfer_route, DispatchError, Error,
    TransferPlan, Transferred,
};
use crate::weights::WeightLimit;
use vstd::prelude::*;

verus! {

/// What the pallet reports.
#[derive(Debug)]
pub enum Event<AccountId> {
    /// Assets were sent.
    TransferredMultiAssets { sender: AccountId, assets: Assets, fee: Asset, dest: Location },
    /// A collection was given a native location.
    LocationSet { collection_id: u32, location: Location },
}

/// The map that a list of entries denotes: a later entry for a key replaces an
/// earlier one.
pub open spec fn entries_map<K, V>(s: Seq<(K, V)>) -> Map<K, V>
    decreases s.len(),
{
    if s.len() == 0 {
        Map::empty()
    } else {
        entries_map(s.drop_last()).insert(s.last().0, s.last().1)
    }
}

/// The entry that a map of entries holds for `k`: the last one with that key.
proof fn lemma_entries_map_lookup<K, V>(s: Seq<(K, V)>, k: K, i: int)
    requires
        -1 <= i < s.len(),
        forall|j: int| i < j < s.len() ==> s[j].0 != k,
        i >= 0 ==> s[i].0 == k,
    ensures
        i >= 0 ==> entries_map(s).contains_key(k) && entries_map(s)[k] == s[i].1,
        i < 0 ==> !entries_map(s).contains_key(k),
    decreases s.len(),
{
    if s.len() > 0 {
        if i == s.len() - 1 {
        } else {
            lemma_entries_map_lookup(s.drop_last(), k, i);
        }
    }
}

/// What transferring collection `collection_id` of `who` to `dest` does: no message
/// is sent (the collection's asset pays its own fee, so the fee's reserve is the
/// asset's), and the outcome is refused exactly where the collection has no location,
/// the destination is not supported, or no asset at all may be sent.
pub open spec fn is_collection_transfer<C: Config>(
    config: &C,
    who: C::AccountId,
    collection_id: u32,
    dest: Location,
    plan: TransferPlan<C::AccountId>,
) -> bool {
    &&& plan.executions@.len() == 0
    &&& match config.spec_collection_location(collection_id) {
        None => plan.outcome == Err::<Transferred<C::AccountId>, Error>(
            Error::NotCrossChainTransferableCurrency,
        ),
        Some(l) => if !config.spec_supports_destination(dest) {
            plan.outcome == Err::<Transferred<C::AccountId>, Error>(
                Error::NotSupportedMultiLocation,
            )
        } else if config.spec_max_assets_for_transfer() < 1 {
            plan.outcome == Err::<Transferred<C::AccountId>, Error>(Error::TooManyAssetsBeingSent)
        } else {
            let asset = Asset { id: AssetId::Concrete(l), fun: Fungibility::Fungible(1) };
            is_transferred(plan.outcome, who, seq![asset], asset, dest)
        },
    }
}

/// A registration is read back: once `loc` is recorded for `collection_id` (as
/// `register` does), the location of `collection_id` is `loc`, the collection of `loc`
/// is `collection_id`, and every other collection and location keeps what it had.
pub proof fn law_register_read_back<C: Config>(
    before: Pallet<C>,
    after: Pallet<C>,
    collection_id: u32,
    loc: Location,
)
    requires
        after.spec_locations() == before.spec_locations().insert(collection_id, loc),
        after.spec_location_assets() == before.spec_location_assets().insert(loc, collection_id),
    ensures
        after.spec_locations().contains_key(collection_id),
        after.spec_locations()[collection_id] == loc,
        after.spec_location_assets().contains_key(loc),
        after.spec_location_assets()[loc] == collection_id,
        forall|c: u32|
            c != collection_id ==> (#[trigger] after.spec_locations().contains_key(c)
                == before.spec_locations().contains_key(c) && after.spec_locations()[c]
                == before.spec_locations()[c]),
        forall|l: Location|
            l != loc ==> (#[trigger] after.spec_location_assets().contains_key(l)
                == before.spec_location_assets().contains_key(l)
                && after.spec_location_assets()[l] == before.spec_location_assets()[l]),
{
}

/// The pallet: the runtime's configuration and the two storage maps.
pub struct Pallet<C: Config> {
    config: C,
    /// Native location of each collection, as entries.
    asset_locations: Vec<(u32, Location)>,
    /// Collection of each native location, as entries.
    location_assets: Vec<(Location, u32)>,
}

impl<C: Config> Pallet<C> {
    /// The runtime's configuration.
    pub closed spec fn spec_config(&self) -> C {
        self.config
    }

    /// The runtime's configuration.
    pub fn config(&self) -> (r: &C)
        ensures
            *r == self.spec_config(),
    {
        &self.config
    }

    /// The native location of each collection.
    pub closed spec fn spec_locations(&self) -> Map<u32, Location> {
        entries_map(self.asset_locations@)
    }

    /// The collection of each native location.
    pub closed spec fn spec_location_assets(&self) -> Map<Location, u32> {
        entries_map(self.location_assets@)
    }

    /// A pallet with empty storage.
    pub fn new(config: C) -> (r: Pallet<C>)
        ensures
            r.spec_config() == config,
            r.spec_locations() == Map::<u32, Location>::empty(),
            r.spec_location_assets() == Map::<Location, u32>::empty(),
    {
        Pallet { config, asset_locations: Vec::new(), location_assets: Vec::new() }
    }

    /// The native location of `collection_id`, if registered.
    pub fn locations(&self, collection_id: u32) -> (r: Option<Location>)
        ensures
            r == (if self.spec_locations().contains_key(collection_id) {
                Some(self.spec_locations()[collection_id])
            } else {
                None::<Location>
            }),
    {
        let n = self.asset_locations.len();
        let mut i: usize = n;
        while i > 0
            invariant
                n == self.asset_locations@.len(),
                i <= n,
                forall|j: int| i <= j < n ==> self.asset_locations@[j].0 != collection_id,
            decreases i,
        {
            let (k, v) = self.asset_locations[i - 1];
            if k == collection_id {
                proof {
                    lemma_entries_map_lookup(self.asset_locations@, collection_id, i - 1);
                }
                return Some(v);
            }
            i = i - 1;
        }
        proof {
            lemma_entries_map_lookup(self.asset_locations@, collection_id, -1);
        }
        None
    }

    /// The collection whose native location is `location`, if registered.
    pub fn location_assets(&self, location: &Location) -> (r: Option<u32>)
        ensures
            r == (if self.spec_location_assets().contains_key(*location) {
                Some(self.spec_location_assets()[*location])
            } else {
                None::<u32>
            }),
    {
        let n = self.location_assets.len();
        let mut i: usize = n;
        while i > 0
            invariant
                n == self.location_assets@.len(),
                i <= n,
                forall|j: int| i <= j < n ==> self.location_assets@[j].0 != *location,
            decreases i,
        {
            let (k, v) = self.location_assets[i - 1];
            if k == *location {
                proof {
                    lemma_entries_map_lookup(self.location_assets@, *location, i - 1);
                }
                return Some(v);
            }
            i = i - 1;
        }
        proof {
            lemma_entries_map_lookup(self.location_assets@, *location, -1);
        }
        None
    }

    /// Records `location` as the native location of `collection_id`, both ways, and
    /// reports it; with no location, changes nothing. The origin is not checked.
    pub fn register(
        &mut self,
        _origin: Option<C::AccountId>,
        collection_id: u32,
        location: Option<Location>,
    ) -> (r: Result<Option<Event<C::AccountId>>, DispatchError>)
        ensures
            final(self).spec_config() == old(self).spec_config(),
            match location {
                Some(loc) => {
                    &&& final(self).spec_locations() == old(self).spec_locations().insert(
                        collection_id,
                        loc,
                    )
                    &&& final(self).spec_location_assets()
                        == old(self).spec_location_assets().insert(loc, collection_id)
                    &&& r matches Ok(Some(Event::LocationSet { collection_id: c, location: l }))
                        && c == collection_id && l == loc
                },
                None => {
                    &&& final(self).spec_locations() == old(self).spec_locations()
                    &&& final(self).spec_location_assets() == old(self).spec_location_assets()
                    &&& r matches Ok(None)
                },
            },
    {
        if let Some(loc) = location {
            self.asset_locations.push((collection_id, loc));
            self.location_assets.push((loc, collection_id));
            proof {
                assert(self.asset_locations@.drop_last() =~= old(self).asset_locations@);
                assert(self.location_assets@.drop_last() =~= old(self).location_assets@);
            }
            Ok(Some(Event::LocationSet { collection_id, location: loc }))
        } else {
            Ok(None)
        }
    }

    /// Transfers collection `collection_id` of `who` to `dest`, paying with the
    /// collection's own asset. Since the asset pays its own fee, the fee's reserve is
    /// always the asset's: no message is sent.
    pub fn do_transfer(
        &self,
        who: C::AccountId,
        collection_id: u32,
        dest: Location,
        dest_weight_limit: WeightLimit,
    ) -> (plan: TransferPlan<C::AccountId>)
        ensures
            is_collection_transfer(&self.spec_config(), who, collection_id, dest, plan),
    {
        let location = match self.config.collection_location(collection_id) {
            Some(l) => l,
            None => {
                return TransferPlan {
                    executions: Vec::new(),
                    outcome: Err(Error::NotCrossChainTransferableCurrency),
                };
            },
        };
        if !self.config.supports_destination(&dest) {
            return TransferPlan {
                executions: Vec::new(),
                outcome: Err(Error::NotSupportedMultiLocation),
            };
        }
        let asset = Asset { id: AssetId::Concrete(location), fun: Fungibility::Fungible(1) };
        let assets = Assets::single(asset);
        proof {
            reveal_with_fuel(crate::transfer::scan_reserves, 2);
            assert(spec_transfer_route(&self.config, assets@, asset, dest)
                is Ok ==> spec_transfer_route(&self.config, assets@, asset, dest)
                == Ok::<crate::transfer::Route, Error>(crate::transfer::Route::NoMessage));
        }
        do_transfer_multiassets(&self.config, who, assets, asset, dest, dest_weight_limit)
    }

    /// The `transfer` call: a signed origin sends collection `collection_id` to
    /// `dest`, a location that must be expressible in XCM version 3.
    pub fn transfer(
        &self,
        origin: Option<C::AccountId>,
        collection_id: u32,
        dest: Option<Location>,
        dest_weight_limit: WeightLimit,
    ) -> (r: Result<TransferPlan<C::AccountId>, DispatchError>)
        ensures
            origin is None ==> r == Err::<TransferPlan<C::AccountId>, DispatchError>(
                DispatchError::BadOrigin,
            ),
            origin is Some && dest is None ==> r == Err::<
                TransferPlan<C::AccountId>,
                DispatchError,
            >(DispatchError::Module(Error::BadVersion)),
            match (origin, dest) {
                (Some(who), Some(d)) => r matches Ok(plan) && is_collection_transfer(
                    &self.spec_config(),
                    who,
                    collection_id,
                    d,
                    plan,
                ),
                _ => true,
            },
    {
        let who = match origin {
            Some(who) => who,
            None => return Err(DispatchError::BadOrigin),
        };
        let dest = match dest {
            Some(d) => d,
            None => return Err(DispatchError::Module(Error::BadVersion)),
        };
        Ok(self.do_transfer(who, collection_id, dest, dest_weight_limit))
    }
}

} // verus!
