//! What a store remembers of regions that are being added to it.

use std::collections::HashMap;

use vstd::prelude::*;

use crate::hash;

verus! {

/// What is remembered of a region.
#[derive(Clone, Copy, Debug, PartialEq, Eq, Structural)]
pub struct CachedRegionInfo {
    /// The peer was created by replication.
    pub replicated_or_created: bool,
    /// The first snapshot was applied, or the region fell back to the ordinary way.
    pub inited: bool,
    /// When the snapshot under way was started; 0 where there is none.
    pub snapshot_inflight: u128,
    /// When the peer began to be added; 0 where none is being added.
    pub fast_add_peer_start: u128,
}

impl CachedRegionInfo {
    pub open spec fn spec_default() -> CachedRegionInfo {
        CachedRegionInfo {
            replicated_or_created: false,
            inited: false,
            snapshot_inflight: 0,
            fast_add_peer_start: 0,
        }
    }
}

impl Default for CachedRegionInfo {
    fn default() -> (r: Self)
        ensures
            r == CachedRegionInfo::spec_default(),
    {
        CachedRegionInfo {
            replicated_or_created: false,
            inited: false,
            snapshot_inflight: 0,
            fast_add_peer_start: 0,
        }
    }
}

pub type CachedRegionInfoMap = HashMap<u64, CachedRegionInfo>;

/// The infos of all regions, spread over slots.
pub struct CachedRegionManager {
    slots: Vec<CachedRegionInfoMap>,
}

impl CachedRegionManager {
    #[verifier::type_invariant]
    spec fn all_slots(&self) -> bool {
        self.slots@.len() == 256
    }
}

impl View for CachedRegionManager {
    type V = Map<u64, CachedRegionInfo>;

    closed spec fn view(&self) -> Map<u64, CachedRegionInfo> {
        Map::new(
            |id: u64| self.slots@[hash::spec_slot_index(id)]@.contains_key(id),
            |id: u64| self.slots@[hash::spec_slot_index(id)]@[id],
        )
    }
}

/// The info of a region, where there is one.
pub open spec fn info_of(m: Map<u64, CachedRegionInfo>, id: u64) -> Option<CachedRegionInfo> {
    if m.contains_key(id) {
        Some(m[id])
    } else {
        None
    }
}

/// The infos once that of a region was put in, changed or taken out.
pub open spec fn with_info(
    m: Map<u64, CachedRegionInfo>,
    id: u64,
    info: Option<CachedRegionInfo>,
) -> Map<u64, CachedRegionInfo> {
    match info {
        Some(x) => m.insert(id, x),
        None => m.remove(id),
    }
}

impl CachedRegionManager {
    /// Nothing is remembered.
    pub fn new() -> (r: Self)
        ensures
            r@ == Map::<u64, CachedRegionInfo>::empty(),
    {
        broadcast use vstd::std_specs::hash::group_hash_axioms;

        let mut slots: Vec<CachedRegionInfoMap> = Vec::new();
        let mut i: usize = 0;
        while i < hash::CACHED_REGION_INFO_SLOT_COUNT
            invariant
                i <= 256,
                slots@.len() == i,
                forall|j: int|
                    0 <= j < i ==> (#[trigger] slots@[j])@ == Map::<u64, CachedRegionInfo>::empty(),
            decreases 256 - i,
        {
            slots.push(HashMap::new());
            i = i + 1;
        }
        let r = CachedRegionManager { slots };
        assert(r@ =~= Map::empty());
        r
    }

    /// The info of a region.
    pub fn get_cached_region_info(&self, region_id: u64) -> (r: Option<CachedRegionInfo>)
        ensures
            r == info_of(self@, region_id),
    {
        broadcast use vstd::std_specs::hash::group_hash_axioms;

        proof {
            use_type_invariant(self);
        }
        let slot: usize = hash::slot_index(region_id);
        match self.slots[slot].get(&region_id) {
            Some(x) => Some(*x),
            None => None,
        }
    }

    /// Puts in, changes or takes out the info of a region.
    pub fn set_cached_region_info(&mut self, region_id: u64, info: Option<CachedRegionInfo>)
        ensures
            final(self)@ == with_info(old(self)@, region_id, info),
    {
        broadcast use vstd::std_specs::hash::group_hash_axioms;

        proof {
            use_type_invariant(&*self);
        }
        let ghost m = self@;
        let slot: usize = hash::slot_index(region_id);
        match info {
            Some(x) => {
                self.slots[slot].insert(region_id, x);
            },
            None => {
                self.slots[slot].remove(&region_id);
            },
        }
        assert(self@ =~= with_info(m, region_id, info));
    }

    /// Replaces the info of a region by what a function makes of it.
    pub fn access_cached_region_info_mut<
        F: Fn(Option<CachedRegionInfo>) -> Option<CachedRegionInfo>,
    >(&mut self, region_id: u64, f: F) -> (r: Result<(), String>)
        requires
            f.requires((info_of(old(self)@, region_id),)),
        ensures
            r is Ok,
            exists|x: Option<CachedRegionInfo>|
                {
                    &&& f.ensures((info_of(old(self)@, region_id),), x)
                    &&& final(self)@ == #[trigger] with_info(old(self)@, region_id, x)
                },
    {
        let before = self.get_cached_region_info(region_id);
        let after = f(before);
        self.set_cached_region_info(region_id, after);
        Ok(())
    }

    /// Forgets a region.
    pub fn remove_cached_region_info(&mut self, region_id: u64)
        ensures
            final(self)@ == old(self)@.remove(region_id),
    {
        self.set_cached_region_info(region_id, None);
    }
}

} // verus!
