//! The guarantees that relate several operations of the election state,
//! stated over the same views the operations' contracts use.

use vstd::prelude::*;
use crate::gossip::EventIndex;
use crate::gossip::GraphEvent;
use crate::meta_election::MetaElection;
use crate::meta_election::appended_events;
use crate::meta_election::is_decided_event;
use crate::meta_election::retained_unconsensused;
use crate::meta_event::IngestRecord;
use crate::observation::ObservationKey;
use crate::peer_list::PeerIndex;
use crate::peer_list::PeerListChange;

verus! {

/// The list of interesting events an ingestion log produces for one
/// creator: the events of that creator whose meta-event had non-empty
/// interesting content, in ingestion order.
pub open spec fn interesting_of_log(log: Seq<IngestRecord>, creator: PeerIndex) -> Seq<EventIndex>
    decreases log.len(),
{
    if log.len() == 0 {
        Seq::empty()
    } else {
        let rest = interesting_of_log(log.drop_last(), creator);
        if log.last().creator == creator && log.last().interesting {
            rest.push(log.last().event)
        } else {
            rest
        }
    }
}

/// The creator's recorded list, or the empty list when the creator has
/// none.
pub open spec fn events_recorded_for(
    m: Map<PeerIndex, Seq<EventIndex>>,
    creator: PeerIndex,
) -> Seq<EventIndex> {
    if m.dom().contains(creator) {
        m[creator]
    } else {
        Seq::<EventIndex>::empty()
    }
}

/// Whether the interesting-event lists are exactly what the ingestion log
/// dictates, for every creator.
pub open spec fn tracks_log(m: Map<PeerIndex, Seq<EventIndex>>, log: Seq<IngestRecord>) -> bool {
    forall|c: PeerIndex| #[trigger] events_recorded_for(m, c) == interesting_of_log(log, c)
}

/// Law: `interesting_events` is always exactly the subsequence, in
/// ingestion order, of the ingested events of each creator whose
/// meta-event had non-empty interesting content. One ingestion, updating
/// the lists the way `add_meta_event`'s contract states, keeps the lists
/// tracking the log extended by that ingestion.
pub proof fn lemma_interesting_events_track_ingestion(
    before: Map<PeerIndex, Seq<EventIndex>>,
    after: Map<PeerIndex, Seq<EventIndex>>,
    log: Seq<IngestRecord>,
    record: IngestRecord,
)
    requires
        tracks_log(before, log),
        after == (if record.interesting {
            before.insert(record.creator, appended_events(before, record.creator, record.event))
        } else {
            before
        }),
    ensures
        tracks_log(after, log.push(record)),
{
    assert forall|c: PeerIndex| #[trigger] events_recorded_for(after, c) == interesting_of_log(
        log.push(record),
        c,
    ) by {
        assert(log.push(record).drop_last() =~= log);
        assert(log.push(record).last() == record);
        assert(events_recorded_for(before, c) == interesting_of_log(log, c));
        if record.interesting {
            if c == record.creator {
                assert(events_recorded_for(after, c) == events_recorded_for(before, c).push(
                    record.event,
                ));
            } else {
                assert(events_recorded_for(after, c) == events_recorded_for(before, c));
            }
        }
    };
}

/// The payload key the graph shows for an event, if the event is present
/// and carries one.
pub open spec fn graph_payload(
    events: Seq<Option<GraphEvent>>,
    event_index: EventIndex,
) -> Option<ObservationKey> {
    if event_index.0 < events.len() {
        match events[event_index.0 as int] {
            Some(ev) => ev.payload_key,
            None => None,
        }
    } else {
        None
    }
}

/// Whether the unconsensused set holds exactly the registered
/// payload-carrying events whose payload key has not yet appeared in the
/// consensus history.
pub open spec fn unconsensused_correct(
    events: Seq<Option<GraphEvent>>,
    registered: Set<EventIndex>,
    history: Seq<ObservationKey>,
    unconsensused: Set<EventIndex>,
) -> bool {
    forall|e: EventIndex| #[trigger]
        unconsensused.contains(e) <==> (registered.contains(e) && (graph_payload(events, e)
            matches Some(k) && !history.contains(k)))
}

/// Law (registration step): registering a payload-carrying event whose
/// key is not yet decided keeps the unconsensused set exactly right.
pub proof fn lemma_unconsensused_after_add(
    events: Seq<Option<GraphEvent>>,
    registered: Set<EventIndex>,
    history: Seq<ObservationKey>,
    unconsensused: Set<EventIndex>,
    event_index: EventIndex,
    payload_key: ObservationKey,
)
    requires
        unconsensused_correct(events, registered, history, unconsensused),
        graph_payload(events, event_index) == Some(payload_key),
        !history.contains(payload_key),
    ensures
        unconsensused_correct(
            events,
            registered.insert(event_index),
            history,
            unconsensused.insert(event_index),
        ),
{
}

/// Law (transition step): retiring the decided key, the way
/// `new_election`'s contract states, and appending it to the history keeps
/// the unconsensused set exactly right, provided every tracked event is
/// still in the graph with its payload.
pub proof fn lemma_unconsensused_after_transition(
    events: Seq<Option<GraphEvent>>,
    registered: Set<EventIndex>,
    history: Seq<ObservationKey>,
    unconsensused: Seq<EventIndex>,
    decided_key: ObservationKey,
)
    requires
        unconsensused_correct(events, registered, history, unconsensused.to_set()),
        forall|e: EventIndex| #[trigger]
            unconsensused.to_set().contains(e) ==> graph_payload(events, e) is Some,
    ensures
        unconsensused_correct(
            events,
            registered,
            history.push(decided_key),
            retained_unconsensused(unconsensused, events, decided_key).to_set(),
        ),
{
    let pred = |e: EventIndex| !is_decided_event(events, e, decided_key);
    let kept = retained_unconsensused(unconsensused, events, decided_key);
    assert forall|e: EventIndex| #[trigger]
        kept.to_set().contains(e) <==> (unconsensused.to_set().contains(e) && pred(e)) by {
        if kept.to_set().contains(e) {
            let i = choose|i: int| 0 <= i < kept.len() && kept[i] == e;
            unconsensused.lemma_filter_pred(pred, i);
            unconsensused.lemma_filter_contains_rev(pred, e);
        }
        if unconsensused.to_set().contains(e) && pred(e) {
            let j = choose|j: int| 0 <= j < unconsensused.len() && unconsensused[j] == e;
            unconsensused.lemma_filter_contains(pred, j);
        }
    };
    assert forall|e: EventIndex| #[trigger]
        kept.to_set().contains(e) <==> (registered.contains(e) && (graph_payload(events, e)
            matches Some(k) && !history.push(decided_key).contains(k))) by {
        assert forall|k: ObservationKey| #[trigger]
            history.push(decided_key).contains(k) <==> (history.contains(k) || k
                == decided_key) by {
            if history.push(decided_key).contains(k) {
                let i = choose|i: int|
                    0 <= i < history.push(decided_key).len() && history.push(decided_key)[i] == k;
                if i < history.len() {
                    assert(history[i] == k);
                }
            }
            if history.contains(k) {
                let i = choose|i: int| 0 <= i < history.len() && history[i] == k;
                assert(history.push(decided_key)[i] == k);
            }
            if k == decided_key {
                assert(history.push(decided_key)[history.len() as int] == k);
            }
        };
        if unconsensused.to_set().contains(e) {
            assert(graph_payload(events, e) is Some);
        }
    };
}

/// Law: for one election state and decided key, a transition through the
/// meta-event-reuse path and one through the full-clear path produce the
/// same consensus history, voters, unconsensused events, round hashes and
/// interesting events; the two can differ only in which meta-events stay
/// cached.
pub proof fn lemma_transition_paths_agree(
    pre: MetaElection,
    post_reuse: MetaElection,
    post_clear: MetaElection,
    events: Seq<Option<GraphEvent>>,
    decided_key: ObservationKey,
)
    requires
        MetaElection::spec_transition(
            pre,
            post_reuse,
            events,
            decided_key,
            None::<PeerListChange>,
            true,
        ),
        MetaElection::spec_transition(
            pre,
            post_clear,
            events,
            decided_key,
            None::<PeerListChange>,
            false,
        ),
    ensures
        post_reuse.spec_history() == post_clear.spec_history(),
        post_reuse.spec_voters() == post_clear.spec_voters(),
        post_reuse.spec_unconsensused_events() == post_clear.spec_unconsensused_events(),
        post_reuse.spec_round_hashes() == post_clear.spec_round_hashes(),
        post_reuse.spec_interesting_events() == post_clear.spec_interesting_events(),
{
}

/// Law: the consensus history is append-only. A transition appends exactly
/// one key; when the decided key was never decided before, it now occurs
/// exactly once, at the end, and every earlier entry is unchanged.
pub proof fn lemma_history_append_only(
    before: Seq<ObservationKey>,
    after: Seq<ObservationKey>,
    decided_key: ObservationKey,
)
    requires
        after == before.push(decided_key),
        !before.contains(decided_key),
    ensures
        after.len() == before.len() + 1,
        forall|i: int| 0 <= i < before.len() ==> after[i] == before[i],
        after[after.len() - 1] == decided_key,
        forall|i: int| 0 <= i < after.len() && #[trigger] after[i] == decided_key ==> i
            == after.len() - 1,
{
    assert forall|i: int|
        0 <= i < after.len() && #[trigger] after[i] == decided_key implies i == after.len()
        - 1 by {
        if i < before.len() {
            assert(before[i] == decided_key);
            assert(before.contains(decided_key));
        }
    };
}

} // verus!
