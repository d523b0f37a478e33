//! The view of the gossip graph this core consumes: stable event indices,
//! per-event creator and payload, and an ordered set of event indices.

use vstd::prelude::*;
use crate::observation::ObservationKey;
use crate::peer_list::PeerIndex;

verus! {

/// A stable, totally-ordered reference to a graph event. The wrapped value
/// is the event's topological index: a monotonically increasing integer
/// assigned when the event is inserted into the graph.
#[derive(Clone, Copy, PartialEq, Eq, Structural, Debug, Hash)]
pub struct EventIndex(pub usize);

impl EventIndex {
    /// The event's position in the graph's topological order.
    pub fn topological_index(&self) -> (r: usize)
        ensures
            r == self.0,
    {
        self.0
    }
}

/// What this core reads of a graph event: its creator and the observation
/// key of the payload it carries, if any.
#[derive(Clone, Copy, Debug)]
pub struct GraphEvent {
    pub creator: PeerIndex,
    pub payload_key: Option<ObservationKey>,
}

/// The gossip graph, as consumed here: events looked up by index. A slot
/// holds nothing once the event has been pruned from the graph.
#[derive(Debug)]
pub struct Graph {
    pub events: Vec<Option<GraphEvent>>,
}

impl Graph {
    /// The event stored at the given index, if present.
    pub open spec fn lookup(&self, event_index: EventIndex) -> Option<GraphEvent> {
        if event_index.0 < self.events@.len() {
            self.events@[event_index.0 as int]
        } else {
            None
        }
    }

    pub fn new() -> (r: Graph)
        ensures
            r.events@ == Seq::<Option<GraphEvent>>::empty(),
    {
        Graph { events: Vec::new() }
    }

    /// Appends an event; its index is the next topological index.
    pub fn add_event(&mut self, creator: PeerIndex, payload_key: Option<ObservationKey>) -> (r:
        EventIndex)
        ensures
            final(self).events@ == old(self).events@.push(
                Some(GraphEvent { creator, payload_key }),
            ),
            r.0 == old(self).events@.len(),
    {
        let index = self.events.len();
        self.events.push(Some(GraphEvent { creator, payload_key }));
        EventIndex(index)
    }

    /// Discards the event at the given index, leaving its slot empty.
    pub fn prune_event(&mut self, event_index: EventIndex)
        requires
            event_index.0 < old(self).events@.len(),
        ensures
            final(self).events@ == old(self).events@.update(event_index.0 as int, None),
    {
        let n = self.events.len();
        let mut pruned: Vec<Option<GraphEvent>> = Vec::new();
        let mut i: usize = 0;
        while i < n
            invariant
                self == old(self),
                event_index.0 < n,
                n == self.events@.len(),
                i <= n,
                pruned@ == self.events@.update(event_index.0 as int, None::<GraphEvent>).take(
                    i as int,
                ),
            decreases n - i,
        {
            if i == event_index.0 {
                pruned.push(None);
            } else {
                pruned.push(self.events[i]);
            }
            proof {
                assert(pruned@ =~= self.events@.update(event_index.0 as int, None::<GraphEvent>)
                    .take(i + 1));
            }
            i += 1;
        }
        self.events = pruned;
        proof {
            assert(self.events@ =~= old(self).events@.update(event_index.0 as int, None::<GraphEvent>));
        }
    }

    pub fn get(&self, event_index: EventIndex) -> (r: Option<&GraphEvent>)
        ensures
            match r {
                Some(event) => self.lookup(event_index) == Some(*event),
                None => self.lookup(event_index) is None,
            },
    {
        if event_index.0 < self.events.len() {
            match &self.events[event_index.0] {
                Some(event) => Some(event),
                None => None,
            }
        } else {
            None
        }
    }
}

/// Whether two event indices are in strictly ascending topological order,
/// for every pair of positions of a sequence.
pub open spec fn sorted_strict(s: Seq<EventIndex>) -> bool {
    forall|i: int, j: int| 0 <= i < j < s.len() ==> s[i].0 < s[j].0
}

/// Set of event indices kept in ascending topological order, so that its
/// minimum is its first element.
#[derive(Debug)]
pub struct EventIndexSet {
    items: Vec<EventIndex>,
}

impl View for EventIndexSet {
    type V = Seq<EventIndex>;

    closed spec fn view(&self) -> Seq<EventIndex> {
        self.items@
    }
}

impl EventIndexSet {
    /// The elements are strictly ascending, hence duplicate-free.
    pub open spec fn wf(&self) -> bool {
        sorted_strict(self@)
    }

    pub fn new() -> (r: EventIndexSet)
        ensures
            r.wf(),
            r@ == Seq::<EventIndex>::empty(),
    {
        EventIndexSet { items: Vec::new() }
    }

    /// Builds the set from an already sorted vector.
    pub fn from_sorted(items: Vec<EventIndex>) -> (r: EventIndexSet)
        requires
            sorted_strict(items@),
        ensures
            r.wf(),
            r@ == items@,
    {
        EventIndexSet { items }
    }

    /// Inserts the event index at its ordered position; no effect when it is
    /// already present.
    pub fn insert(&mut self, event_index: EventIndex)
        requires
            old(self).wf(),
        ensures
            final(self).wf(),
            final(self)@.to_set() == old(self)@.to_set().insert(event_index),
    {
        let n = self.items.len();
        let mut i: usize = 0;
        while i < n && self.items[i].0 < event_index.0
            invariant
                self == old(self),
                old(self).wf(),
                n == self.items@.len(),
                i <= n,
                forall|j: int| 0 <= j < i ==> self.items@[j].0 < event_index.0,
            decreases n - i,
        {
            i += 1;
        }
        if i < n && self.items[i].0 == event_index.0 {
            proof {
                assert(self.items@[i as int] == event_index);
                assert(self.items@.contains(event_index));
                assert(old(self)@.to_set().insert(event_index) =~= old(self)@.to_set());
            }
        } else {
            proof {
                assert(forall|j: int| i <= j < n ==> event_index.0 < #[trigger] self.items@[j].0);
            }
            self.items.insert(i, event_index);
            proof {
                let s = old(self)@;
                let t = self.items@;
                assert forall|x: EventIndex| t.to_set().contains(x) implies s.to_set().insert(
                    event_index,
                ).contains(x) by {
                    let j = choose|j: int| 0 <= j < t.len() && t[j] == x;
                    if j < i {
                        assert(s[j] == x);
                    } else if j > i {
                        assert(s[j - 1] == x);
                    }
                };
                assert forall|x: EventIndex| s.to_set().insert(event_index).contains(x)
                    implies t.to_set().contains(x) by {
                    if x == event_index {
                        assert(t[i as int] == x);
                    } else {
                        let j = choose|j: int| 0 <= j < s.len() && s[j] == x;
                        if j < i {
                            assert(t[j] == x);
                        } else {
                            assert(t[j + 1] == x);
                        }
                    }
                };
                assert(t.to_set() =~= s.to_set().insert(event_index));
                assert forall|k: int, l: int| 0 <= k < l < t.len() implies t[k].0 < t[l].0 by {
                    if k < i && l > i {
                        assert(t[l] == s[l - 1]);
                    }
                };
            }
        }
    }

    /// The topologically earliest element, if any.
    pub fn first(&self) -> (r: Option<EventIndex>)
        requires
            self.wf(),
        ensures
            match r {
                Some(e) => self@.len() > 0 && e == self@[0] && forall|j: int|
                    0 <= j < self@.len() ==> e.0 <= #[trigger] self@[j].0,
                None => self@.len() == 0,
            },
    {
        if self.items.len() > 0 {
            Some(self.items[0])
        } else {
            None
        }
    }

    /// The elements in ascending topological order.
    pub fn as_vec(&self) -> (r: &Vec<EventIndex>)
        ensures
            r@ == self@,
    {
        &self.items
    }
}

} // verus!
