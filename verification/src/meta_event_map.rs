//! The meta-event cache: event index to meta-event, backed by a hash map
//! with the FNV hasher (`fnv::FnvHashMap`), as the surrounding engine uses
//! for its event-keyed tables.

use vstd::prelude::*;
use crate::gossip::EventIndex;
use crate::meta_event::MetaEvent;
use fnv::FnvHashMap;

verus! {

/// Map from event index to the meta-event retained for that event.
#[verifier::external_body]
#[derive(Debug)]
pub struct MetaEventMap {
    map: FnvHashMap<EventIndex, MetaEvent>,
}

/// What a `MetaEventMap` holds: each retained event index and its stored
/// meta-event.
pub uninterp spec fn meta_event_map_contents(m: MetaEventMap) -> Map<EventIndex, MetaEvent>;

/// Whether the cache contents hold nothing.
pub open spec fn no_meta_events(m: Map<EventIndex, MetaEvent>) -> bool {
    m == Map::<EventIndex, MetaEvent>::empty()
}

impl View for MetaEventMap {
    type V = Map<EventIndex, MetaEvent>;

    open spec fn view(&self) -> Map<EventIndex, MetaEvent> {
        meta_event_map_contents(*self)
    }
}

impl MetaEventMap {
    /// Relies on `HashMap::default` (through `fnv::FnvHashMap`): a freshly
    /// created map is empty.
    #[verifier::external_body]
    pub(crate) fn new() -> (r: MetaEventMap)
        ensures
            no_meta_events(meta_event_map_contents(r)),
    {
        MetaEventMap { map: FnvHashMap::default() }
    }

    /// Relies on `HashMap::insert`: maps the key to the new value, replacing
    /// any previous value, and leaves every other key unchanged.
    #[verifier::external_body]
    pub(crate) fn insert(&mut self, key: EventIndex, value: MetaEvent)
        ensures
            meta_event_map_contents(*final(self)) == meta_event_map_contents(*old(self)).insert(
                key,
                value,
            ),
    {
        let _ = self.map.insert(key, value);
    }

    /// Relies on `HashMap::remove`: takes the key's value out, if present,
    /// and leaves every other key unchanged.
    #[verifier::external_body]
    pub(crate) fn remove(&mut self, key: EventIndex) -> (r: Option<MetaEvent>)
        ensures
            meta_event_map_contents(*final(self)) == meta_event_map_contents(*old(self)).remove(
                key,
            ),
            match r {
                Some(v) => meta_event_map_contents(*old(self)).dom().contains(key) && v
                    == meta_event_map_contents(*old(self))[key],
                None => !meta_event_map_contents(*old(self)).dom().contains(key),
            },
    {
        self.map.remove(&key)
    }

    /// Relies on `HashMap::get`: returns the value stored at the key, if any.
    #[verifier::external_body]
    pub(crate) fn get(&self, key: EventIndex) -> (r: Option<&MetaEvent>)
        ensures
            match r {
                Some(v) => meta_event_map_contents(*self).dom().contains(key) && *v
                    == meta_event_map_contents(*self)[key],
                None => !meta_event_map_contents(*self).dom().contains(key),
            },
    {
        self.map.get(&key)
    }

    /// Relies on `HashMap::clear`: the map is empty afterwards.
    #[verifier::external_body]
    pub(crate) fn clear(&mut self)
        ensures
            no_meta_events(meta_event_map_contents(*final(self))),
    {
        self.map.clear();
    }

    /// Relies on `HashMap::keys`: every key exactly once, in no specified
    /// order.
    #[verifier::external_body]
    pub(crate) fn keys(&self) -> (r: Vec<EventIndex>)
        ensures
            r@.no_duplicates(),
            forall|e: EventIndex| #[trigger] r@.contains(e) <==> meta_event_map_contents(
                *self,
            ).dom().contains(e),
    {
        self.map.keys().copied().collect()
    }
}

} // verus!
