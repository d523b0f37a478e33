//! The meta-election lifecycle manager: owns all meta-voting state for the
//! current decision round and rolls it forward when a decision is reached.

use vstd::prelude::*;
use crate::gossip::EventIndex;
use crate::gossip::EventIndexSet;
use crate::gossip::Graph;
use crate::gossip::GraphEvent;
use crate::gossip::sorted_strict;
use crate::meta_event::MetaEvent;
use crate::meta_event::MetaEventV;
use crate::meta_event_map::MetaEventMap;
use crate::meta_event_map::meta_event_map_contents;
use crate::meta_vote::MetaVote;
use crate::meta_vote::rounds_needed;
use crate::observation::ObservationHash;
use crate::observation::ObservationKey;
use crate::peer_list::PeerId;
use crate::peer_list::PeerIndex;
use crate::peer_list::PeerIndexMap;
use crate::peer_list::PeerIndexSet;
use crate::peer_list::PeerListChange;
use crate::round_hash::RoundHash;
use crate::round_hash::chain_extends;
use crate::round_hash::valid_chain;

verus! {

/// The larger of two integers.
pub open spec fn int_max(a: int, b: int) -> int {
    if a > b {
        a
    } else {
        b
    }
}

/// The list a creator's interesting events become after appending one more.
pub open spec fn appended_events(
    m: Map<PeerIndex, Seq<EventIndex>>,
    creator: PeerIndex,
    event_index: EventIndex,
) -> Seq<EventIndex> {
    (if m.dom().contains(creator) {
        m[creator]
    } else {
        Seq::<EventIndex>::empty()
    }).push(event_index)
}

/// Whether the graph shows the event carrying exactly the decided payload.
/// An event absent from the graph (already pruned) never matches.
pub open spec fn is_decided_event(
    events: Seq<Option<GraphEvent>>,
    event_index: EventIndex,
    decided_key: ObservationKey,
) -> bool {
    &&& event_index.0 < events.len()
    &&& events[event_index.0 as int] matches Some(ev) && ev.payload_key == Some(decided_key)
}

/// A meta-event's content with the just-decided key removed from its
/// interesting content; its meta-votes are untouched.
pub open spec fn purged_meta_event(m: MetaEventV, decided_key: ObservationKey) -> MetaEventV {
    MetaEventV {
        interesting_content: purged_keys(m.interesting_content, decided_key),
        meta_votes: m.meta_votes,
    }
}

/// The interesting-content keys that survive a decision: all but the
/// just-decided key, in their original order.
pub open spec fn purged_keys(content: Seq<ObservationKey>, decided_key: ObservationKey) -> Seq<
    ObservationKey,
> {
    content.filter(|k: ObservationKey| k != decided_key)
}

/// The unconsensused events that survive a decision: all but those whose
/// graph event carries the decided payload, in their original order.
pub open spec fn retained_unconsensused(
    s: Seq<EventIndex>,
    events: Seq<Option<GraphEvent>>,
    decided_key: ObservationKey,
) -> Seq<EventIndex> {
    s.filter(|e: EventIndex| !is_decided_event(events, e, decided_key))
}

/// The seed for a fresh set of round-hash chains: the hash of the most
/// recently decided observation, or the zero hash before any decision.
pub open spec fn spec_seed_hash(history: Seq<ObservationKey>) -> ObservationHash {
    if history.len() == 0 {
        ObservationHash(0u64)
    } else {
        history.last().0
    }
}

/// All meta-voting state of one node's current election, together with the
/// consensus history accumulated across elections.
pub struct MetaElection {
    /// Meta-event retained for each event whose state is still cached.
    meta_events: MetaEventMap,
    /// Round-hash chain per voter; the entry at position `x` is round `x`'s.
    round_hashes: PeerIndexMap<Vec<RoundHash>>,
    /// Voters participating in this election: a snapshot taken when it
    /// started, updated only by an explicit membership change.
    voters: PeerIndexSet,
    /// Per creator, the events whose interesting content is non-empty, in
    /// ingestion order.
    interesting_events: PeerIndexMap<Vec<EventIndex>>,
    /// Events carrying a payload that has not been consensused yet, in
    /// topological order.
    unconsensused_events: EventIndexSet,
    /// Keys of the consensused payloads, oldest first; append-only.
    consensus_history: Vec<ObservationKey>,
}

impl MetaElection {
    /// The retained meta-events, as mathematical content.
    pub closed spec fn spec_meta_events(&self) -> Map<EventIndex, MetaEventV> {
        meta_event_map_contents(self.meta_events).map_values(|m: MetaEvent| m@)
    }

    /// The round-hash chains, per voter.
    pub closed spec fn spec_round_hashes(&self) -> Map<PeerIndex, Seq<RoundHash>> {
        self.round_hashes@
    }

    /// The voters of the current election.
    pub closed spec fn spec_voters(&self) -> Set<PeerIndex> {
        self.voters@
    }

    /// The per-creator lists of interesting events.
    pub closed spec fn spec_interesting_events(&self) -> Map<PeerIndex, Seq<EventIndex>> {
        self.interesting_events@
    }

    /// The unconsensused events, in ascending topological order.
    pub closed spec fn spec_unconsensused_events(&self) -> Seq<EventIndex> {
        self.unconsensused_events@
    }

    /// The decided observation keys, oldest first.
    pub closed spec fn spec_history(&self) -> Seq<ObservationKey> {
        self.consensus_history@
    }

    /// Internal consistency: the collections are well-formed, every tracked
    /// chain belongs to a current voter, and every chain is a valid
    /// round-hash chain.
    pub closed spec fn wf(&self) -> bool {
        &&& self.round_hashes.wf()
        &&& self.voters.wf()
        &&& self.interesting_events.wf()
        &&& self.unconsensused_events.wf()
        &&& forall|p: PeerIndex| #[trigger]
            self.spec_round_hashes().dom().contains(p) ==> self.spec_voters().contains(p)
        &&& forall|p: PeerIndex|
            self.spec_round_hashes().dom().contains(p) ==> valid_chain(
                #[trigger] self.spec_round_hashes()[p],
            )
    }

    /// Creates the node's election state with the initial voter set and an
    /// empty history.
    pub fn new(voters: PeerIndexSet) -> (r: MetaElection)
        requires
            voters.wf(),
        ensures
            r.wf(),
            r.spec_meta_events() == Map::<EventIndex, MetaEventV>::empty(),
            r.spec_round_hashes() == Map::<PeerIndex, Seq<RoundHash>>::empty(),
            r.spec_voters() == voters@,
            r.spec_interesting_events() == Map::<PeerIndex, Seq<EventIndex>>::empty(),
            r.spec_unconsensused_events() == Seq::<EventIndex>::empty(),
            r.spec_history() == Seq::<ObservationKey>::empty(),
    {
        let r = MetaElection {
            meta_events: MetaEventMap::new(),
            round_hashes: PeerIndexMap::new(),
            voters,
            interesting_events: PeerIndexMap::new(),
            unconsensused_events: EventIndexSet::new(),
            consensus_history: Vec::new(),
        };
        proof {
            assert(r.spec_meta_events() =~= Map::<EventIndex, MetaEventV>::empty());
        }
        r
    }

    /// Ingests the completed meta-event computed for one graph event.
    ///
    /// Every current voter named in the meta-event has its round-hash chain
    /// grown, by successive derivation, exactly far enough to cover every
    /// round the votes mention; existing entries are never overwritten, so a
    /// chain's length never decreases. Voters no longer tracked are silently
    /// skipped: they left before this meta-event's round data applies. If
    /// the interesting content is non-empty the event index is appended to
    /// its creator's list, in ingestion order. The meta-event itself is
    /// stored under the event's index, replacing any previous record.
    #[verifier::rlimit(60)]
    pub fn add_meta_event(
        &mut self,
        event_index: EventIndex,
        creator: PeerIndex,
        meta_event: MetaEvent,
    )
        requires
            old(self).wf(),
            meta_event.wf(),
        ensures
            final(self).wf(),
            final(self).spec_meta_events() == old(self).spec_meta_events().insert(
                event_index,
                meta_event@,
            ),
            final(self).spec_interesting_events() == (if meta_event@.interesting_content.len()
                > 0 {
                old(self).spec_interesting_events().insert(
                    creator,
                    appended_events(old(self).spec_interesting_events(), creator, event_index),
                )
            } else {
                old(self).spec_interesting_events()
            }),
            final(self).spec_round_hashes().dom() == old(self).spec_round_hashes().dom(),
            forall|p: PeerIndex| #[trigger]
                old(self).spec_round_hashes().dom().contains(p) ==> (
                if meta_event@.meta_votes.dom().contains(p) {
                    chain_extends(
                        old(self).spec_round_hashes()[p],
                        final(self).spec_round_hashes()[p],
                    ) && final(self).spec_round_hashes()[p].len() == int_max(
                        old(self).spec_round_hashes()[p].len() as int,
                        rounds_needed(meta_event@.meta_votes[p]),
                    )
                } else {
                    final(self).spec_round_hashes()[p] == old(self).spec_round_hashes()[p]
                }),
            final(self).spec_voters() == old(self).spec_voters(),
            final(self).spec_unconsensused_events() == old(self).spec_unconsensused_events(),
            final(self).spec_history() == old(self).spec_history(),
    {
        let ghost orig = self.round_hashes@;
        let ghost mv_entries = meta_event.meta_votes.spec_entries();
        let vote_entries = meta_event.meta_votes.entries();
        let n = vote_entries.len();
        let mut i: usize = 0;
        while i < n
            invariant
                old(self).wf(),
                meta_event.wf(),
                vote_entries@ == mv_entries,
                mv_entries == meta_event.meta_votes.spec_entries(),
                orig == old(self).round_hashes@,
                n == mv_entries.len(),
                i <= n,
                self.round_hashes.wf(),
                self.round_hashes@.dom() == orig.dom(),
                forall|p: PeerIndex| #[trigger]
                    orig.dom().contains(p) ==> (
                    if exists|j: int| 0 <= j < i && #[trigger] mv_entries[j].0 == p {
                        chain_extends(orig[p], self.round_hashes@[p]) && valid_chain(
                            self.round_hashes@[p],
                        ) && self.round_hashes@[p].len() == int_max(
                            orig[p].len() as int,
                            rounds_needed(meta_event.meta_votes@[p]),
                        )
                    } else {
                        self.round_hashes@[p] == orig[p]
                    }),
                self.meta_events == old(self).meta_events,
                self.voters == old(self).voters,
                self.interesting_events == old(self).interesting_events,
                self.unconsensused_events == old(self).unconsensused_events,
                self.consensus_history == old(self).consensus_history,
            decreases n - i,
        {
            let peer_index = vote_entries[i].0;
            let votes: &Vec<MetaVote> = &vote_entries[i].1;
            proof {
                meta_event.meta_votes.lemma_entries_char();
                assert forall|j: int| 0 <= j < i implies #[trigger] mv_entries[j].0
                    != peer_index by {
                    assert(PeerIndexMap::<Vec<MetaVote>>::keys_of(mv_entries)[j]
                        != PeerIndexMap::<Vec<MetaVote>>::keys_of(mv_entries)[i as int]);
                };
            }
            let ghost before_rh = self.round_hashes@;
            match self.round_hashes.remove(peer_index) {
                Some(mut chain) => {
                    proof {
                        assert(orig.dom().contains(peer_index));
                        assert(before_rh[peer_index] == orig[peer_index]);
                        assert(chain@ == orig[peer_index]);
                        assert(old(self).spec_round_hashes() == orig);
                        assert(old(self).spec_round_hashes().dom().contains(peer_index));
                        assert(valid_chain(old(self).spec_round_hashes()[peer_index]));
                        assert(valid_chain(chain@));
                    }
                    let ghost orig_chain = chain@;
                    let m = votes.len();
                    let mut j: usize = 0;
                    while j < m
                        invariant
                            m == votes@.len(),
                            j <= m,
                            1 <= orig_chain.len(),
                            valid_chain(chain@),
                            chain_extends(orig_chain, chain@),
                            chain@.len() == int_max(
                                orig_chain.len() as int,
                                rounds_needed(votes@.take(j as int)),
                            ),
                        decreases m - j,
                    {
                        let round = votes[j].round;
                        let ghost tj = chain@.len();
                        while chain.len() <= round
                            invariant
                                1 <= orig_chain.len(),
                                valid_chain(chain@),
                                chain_extends(orig_chain, chain@),
                                tj <= chain@.len(),
                                chain@.len() <= int_max(tj as int, round + 1),
                            decreases round + 1 - chain@.len(),
                        {
                            let ghost prev = chain@;
                            let last = chain[chain.len() - 1];
                            chain.push(last.increment_round());
                            proof {
                                assert(chain@ == prev.push(last.spec_next()));
                                assert forall|k: int| 0 <= k < chain@.len()
                                    implies #[trigger] chain@[k].round == k by {
                                    if k < prev.len() {
                                        assert(prev[k].round == k);
                                    }
                                };
                                assert forall|k: int| 1 <= k < chain@.len()
                                    implies #[trigger] chain@[k] == chain@[k - 1].spec_next() by {
                                    if k < prev.len() {
                                        assert(prev[k] == prev[k - 1].spec_next());
                                    }
                                };
                                assert(valid_chain(chain@));
                                assert(chain_extends(orig_chain, chain@));
                            }
                        }
                        proof {
                            assert(votes@.take(j + 1).drop_last() =~= votes@.take(j as int));
                            assert(votes@.take(j + 1).last() == votes@[j as int]);
                            assert(rounds_needed(votes@.take(j + 1)) == int_max(
                                rounds_needed(votes@.take(j as int)),
                                votes@[j as int].round + 1,
                            ));
                        }
                        j += 1;
                    }
                    proof {
                        assert(votes@.take(m as int) =~= votes@);
                        assert(mv_entries[i as int].1@ == meta_event.meta_votes@[peer_index]);
                        assert(chain@.len() == int_max(
                            orig[peer_index].len() as int,
                            rounds_needed(meta_event.meta_votes@[peer_index]),
                        ));
                    }
                    self.round_hashes.insert(peer_index, chain);
                    proof {
                        assert(self.round_hashes@.dom() =~= orig.dom());
                    }
                },
                None => {
                    proof {
                        assert(!before_rh.dom().contains(peer_index));
                        assert(self.round_hashes@ =~= before_rh);
                    }
                },
            }
            proof {
                assert(mv_entries[i as int].0 == peer_index);
                assert forall|p: PeerIndex| #[trigger]
                    orig.dom().contains(p) && p != peer_index
                    implies self.round_hashes@[p] == before_rh[p] by {};
                assert forall|p: PeerIndex| #[trigger]
                    orig.dom().contains(p) && !(exists|j: int|
                        0 <= j < i + 1 && #[trigger] mv_entries[j].0 == p)
                    implies self.round_hashes@[p] == orig[p] by {
                    assert(mv_entries[i as int].0 != p);
                    assert(!(exists|j: int| 0 <= j < i && #[trigger] mv_entries[j].0 == p));
                    assert(before_rh[p] == orig[p]);
                };
            }
            i += 1;
        }
        if meta_event.interesting_content.len() > 0 {
            let existing = self.interesting_events.remove(creator);
            let mut list: Vec<EventIndex> = match existing {
                Some(l) => l,
                None => Vec::new(),
            };
            list.push(event_index);
            self.interesting_events.insert(creator, list);
            proof {
                assert(self.interesting_events@ =~= old(self).interesting_events@.insert(
                    creator,
                    appended_events(old(self).interesting_events@, creator, event_index),
                ));
            }
        }
        self.meta_events.insert(event_index, meta_event);
        proof {
            assert(self.spec_meta_events() =~= old(self).spec_meta_events().insert(
                event_index,
                meta_event@,
            ));
            meta_event.meta_votes.lemma_entries_char();
            let ghost keys = PeerIndexMap::<Vec<MetaVote>>::keys_of(mv_entries);
            assert forall|p: PeerIndex| #[trigger] orig.dom().contains(p) implies (
            if meta_event.meta_votes@.dom().contains(p) {
                chain_extends(orig[p], self.round_hashes@[p]) && self.round_hashes@[p].len()
                    == int_max(
                    orig[p].len() as int,
                    rounds_needed(meta_event.meta_votes@[p]),
                ) && valid_chain(self.round_hashes@[p])
            } else {
                self.round_hashes@[p] == orig[p]
            }) by {
                if meta_event.meta_votes@.dom().contains(p) {
                    let j = choose|j: int| 0 <= j < keys.len() && keys[j] == p;
                    assert(mv_entries[j].0 == p);
                } else {
                    if exists|j: int| 0 <= j < n && #[trigger] mv_entries[j].0 == p {
                        let j = choose|j: int| 0 <= j < n && #[trigger] mv_entries[j].0 == p;
                        assert(keys[j] == p);
                        assert(keys.contains(p));
                    }
                }
            };
            assert(self.spec_voters() == old(self).spec_voters());
            assert(self.round_hashes.wf());
            assert(self.voters.wf());
            assert(self.interesting_events.wf());
            assert(self.unconsensused_events.wf());
            assert forall|p: PeerIndex| #[trigger] self.spec_round_hashes().dom().contains(p)
                implies self.spec_voters().contains(p) by {
                assert(orig.dom().contains(p));
                assert(old(self).spec_round_hashes().dom().contains(p));
            };
            assert forall|p: PeerIndex| self.spec_round_hashes().dom().contains(p)
                implies valid_chain(#[trigger] self.spec_round_hashes()[p]) by {
                assert(orig.dom().contains(p));
                assert(old(self).spec_round_hashes().dom().contains(p));
                assert(valid_chain(old(self).spec_round_hashes()[p]));
                if !meta_event.meta_votes@.dom().contains(p) {
                    assert(self.round_hashes@[p] == orig[p]);
                }
            };
            assert(self.wf());
        }
    }

    /// Deletes and returns the meta-event recorded for the event, if any.
    /// Derived indexes are not shrunk; only a full transition rebuilds them.
    pub fn remove_meta_event(&mut self, event_index: EventIndex) -> (r: Option<MetaEvent>)
        requires
            old(self).wf(),
        ensures
            final(self).wf(),
            final(self).spec_meta_events() == old(self).spec_meta_events().remove(event_index),
            match r {
                Some(m) => old(self).spec_meta_events().dom().contains(event_index) && m@ == old(
                    self,
                ).spec_meta_events()[event_index],
                None => !old(self).spec_meta_events().dom().contains(event_index),
            },
            final(self).spec_round_hashes() == old(self).spec_round_hashes(),
            final(self).spec_voters() == old(self).spec_voters(),
            final(self).spec_interesting_events() == old(self).spec_interesting_events(),
            final(self).spec_unconsensused_events() == old(self).spec_unconsensused_events(),
            final(self).spec_history() == old(self).spec_history(),
    {
        let r = self.meta_events.remove(event_index);
        proof {
            assert(self.spec_meta_events() =~= old(self).spec_meta_events().remove(event_index));
            assert(self.spec_round_hashes() == old(self).spec_round_hashes());
            assert forall|p: PeerIndex| self.spec_round_hashes().dom().contains(p)
                implies self.spec_voters().contains(p) && valid_chain(
                self.spec_round_hashes()[p],
            ) by {
                assert(old(self).spec_round_hashes().dom().contains(p));
            };
            assert(self.wf());
        }
        r
    }

    /// The meta-event recorded for the event, if any.
    pub fn meta_event(&self, event_index: EventIndex) -> (r: Option<&MetaEvent>)
        ensures
            match r {
                Some(m) => self.spec_meta_events().dom().contains(event_index) && m@
                    == self.spec_meta_events()[event_index],
                None => !self.spec_meta_events().dom().contains(event_index),
            },
    {
        self.meta_events.get(event_index)
    }

    /// The event's meta-votes, if the event is recorded and its vote map is
    /// populated, that is non-empty.
    pub fn populated_meta_votes(&self, event_index: EventIndex) -> (r: Option<
        &PeerIndexMap<Vec<MetaVote>>,
    >)
        ensures
            match r {
                Some(mv) => self.spec_meta_events().dom().contains(event_index) && mv@
                    == self.spec_meta_events()[event_index].meta_votes && mv@.dom()
                    != Set::<PeerIndex>::empty(),
                None => !self.spec_meta_events().dom().contains(event_index)
                    || self.spec_meta_events()[event_index].meta_votes.dom()
                    == Set::<PeerIndex>::empty(),
            },
    {
        match self.meta_events.get(event_index) {
            Some(me) => {
                if me.meta_votes.is_empty() {
                    None
                } else {
                    Some(&me.meta_votes)
                }
            },
            None => None,
        }
    }

    /// The voter's round-hash chain, if the voter is tracked.
    pub fn round_hashes(&self, peer_index: PeerIndex) -> (r: Option<&Vec<RoundHash>>)
        requires
            self.wf(),
        ensures
            match r {
                Some(v) => self.spec_round_hashes().dom().contains(peer_index) && v@
                    == self.spec_round_hashes()[peer_index],
                None => !self.spec_round_hashes().dom().contains(peer_index),
            },
    {
        self.round_hashes.get(peer_index)
    }

    /// The voters participating in the current meta-election.
    pub fn voters(&self) -> (r: &PeerIndexSet)
        ensures
            r@ == self.spec_voters(),
            self.wf() ==> r.wf(),
    {
        &self.voters
    }

    /// The decided observation keys, oldest first.
    pub fn consensus_history(&self) -> (r: &Vec<ObservationKey>)
        ensures
            r@ == self.spec_history(),
    {
        &self.consensus_history
    }

    /// The per-creator lists of events with non-empty interesting content,
    /// each list in ingestion order.
    pub fn interesting_events(&self) -> (r: &PeerIndexMap<Vec<EventIndex>>)
        ensures
            r@ == self.spec_interesting_events(),
            self.wf() ==> r.wf(),
    {
        &self.interesting_events
    }

    /// Registers a freshly ingested payload-carrying event as pending
    /// decision.
    pub fn add_unconsensused_event(&mut self, event_index: EventIndex)
        requires
            old(self).wf(),
        ensures
            final(self).wf(),
            final(self).spec_unconsensused_events().to_set() == old(
                self,
            ).spec_unconsensused_events().to_set().insert(event_index),
            sorted_strict(final(self).spec_unconsensused_events()),
            final(self).spec_meta_events() == old(self).spec_meta_events(),
            final(self).spec_round_hashes() == old(self).spec_round_hashes(),
            final(self).spec_voters() == old(self).spec_voters(),
            final(self).spec_interesting_events() == old(self).spec_interesting_events(),
            final(self).spec_history() == old(self).spec_history(),
    {
        self.unconsensused_events.insert(event_index);
        proof {
            assert(self.spec_round_hashes() == old(self).spec_round_hashes());
            assert forall|p: PeerIndex| self.spec_round_hashes().dom().contains(p)
                implies self.spec_voters().contains(p) && valid_chain(
                self.spec_round_hashes()[p],
            ) by {
                assert(old(self).spec_round_hashes().dom().contains(p));
            };
            assert(self.wf());
        }
    }

    /// The unconsensused events, in ascending topological order.
    pub fn unconsensused_events(&self) -> (r: &Vec<EventIndex>)
        ensures
            r@ == self.spec_unconsensused_events(),
    {
        self.unconsensused_events.as_vec()
    }

    /// The retained meta-events, for diagnostic inspection.
    pub fn meta_events(&self) -> (r: &MetaEventMap)
        ensures
            forall|e: EventIndex| #[trigger]
                meta_event_map_contents(*r).dom().contains(e)
                    <==> self.spec_meta_events().dom().contains(e),
            forall|e: EventIndex|
                meta_event_map_contents(*r).dom().contains(e) ==> (
                #[trigger] meta_event_map_contents(*r)[e])@ == self.spec_meta_events()[e],
    {
        &self.meta_events
    }

    /// Topological index of the first unconsensused payload-carrying event:
    /// the set's minimum, since the set is kept topologically sorted.
    pub fn start_index(&self) -> (r: Option<usize>)
        requires
            self.wf(),
        ensures
            match r {
                Some(i) => self.spec_unconsensused_events().len() > 0 && i
                    == self.spec_unconsensused_events()[0].0 && forall|j: int|
                    0 <= j < self.spec_unconsensused_events().len() ==> i <= #[trigger] self.spec_unconsensused_events()[j].0,
                None => self.spec_unconsensused_events().len() == 0,
            },
    {
        match self.unconsensused_events.first() {
            Some(event_index) => Some(event_index.topological_index()),
            None => None,
        }
    }

    /// What `first_interesting_content_by` returns: the first interesting
    /// key of the first interesting event recorded for the creator, if all
    /// of that exists.
    pub open spec fn spec_first_interesting_content_by(&self, creator: PeerIndex) -> Option<
        ObservationKey,
    > {
        let ie = self.spec_interesting_events();
        let mes = self.spec_meta_events();
        if ie.dom().contains(creator) && ie[creator].len() > 0 {
            let e = ie[creator][0];
            if mes.dom().contains(e) && mes[e].interesting_content.len() > 0 {
                Some(mes[e].interesting_content[0])
            } else {
                None
            }
        } else {
            None
        }
    }

    /// The first interesting-content key recorded by the creator, used as a
    /// decision candidate.
    pub fn first_interesting_content_by(&self, creator: PeerIndex) -> (r: Option<ObservationKey>)
        requires
            self.wf(),
        ensures
            r == self.spec_first_interesting_content_by(creator),
    {
        match self.interesting_events.get(creator) {
            Some(indices) => {
                if indices.len() > 0 {
                    let event_index = indices[0];
                    match self.meta_events.get(event_index) {
                        Some(me) => {
                            if me.interesting_content.len() > 0 {
                                Some(me.interesting_content[0])
                            } else {
                                None
                            }
                        },
                        None => None,
                    }
                } else {
                    None
                }
            },
            None => None,
        }
    }

    /// What `is_already_interesting_content` returns: whether any of the
    /// creator's recorded interesting events already carries the key.
    pub open spec fn spec_is_already_interesting_content(
        &self,
        creator: PeerIndex,
        payload_key: ObservationKey,
    ) -> bool {
        let ie = self.spec_interesting_events();
        let mes = self.spec_meta_events();
        ie.dom().contains(creator) && exists|i: int|
            0 <= i < ie[creator].len() && {
                let e = #[trigger] ie[creator][i];
                mes.dom().contains(e) && mes[e].interesting_content.contains(payload_key)
            }
    }

    /// Whether the creator has already recorded the given key as
    /// interesting content: the duplicate-decision guard.
    pub fn is_already_interesting_content(
        &self,
        creator: PeerIndex,
        payload_key: &ObservationKey,
    ) -> (r: bool)
        requires
            self.wf(),
        ensures
            r == self.spec_is_already_interesting_content(creator, *payload_key),
    {
        match self.interesting_events.get(creator) {
            Some(indices) => {
                let n = indices.len();
                let mut i: usize = 0;
                while i < n
                    invariant
                        self.wf(),
                        n == indices@.len(),
                        i <= n,
                        indices@ == self.spec_interesting_events()[creator],
                        self.spec_interesting_events().dom().contains(creator),
                        forall|j: int|
                            0 <= j < i ==> !(self.spec_meta_events().dom().contains(
                                #[trigger] indices@[j],
                            ) && self.spec_meta_events()[indices@[j]].interesting_content.contains(
                                *payload_key,
                            )),
                    decreases n - i,
                {
                    let event_index = indices[i];
                    match self.meta_events.get(event_index) {
                        Some(me) => {
                            if Self::contains_key(&me.interesting_content, payload_key) {
                                return true;
                            }
                        },
                        None => {},
                    }
                    i += 1;
                }
                false
            },
            None => false,
        }
    }

    /// Whether the key occurs among the given keys.
    fn contains_key(keys: &Vec<ObservationKey>, key: &ObservationKey) -> (r: bool)
        ensures
            r == keys@.contains(*key),
    {
        let n = keys.len();
        let mut i: usize = 0;
        while i < n
            invariant
                n == keys@.len(),
                i <= n,
                forall|j: int| 0 <= j < i ==> keys@[j] != *key,
            decreases n - i,
        {
            if keys[i] == *key {
                assert(keys@.contains(*key));
                return true;
            }
            i += 1;
        }
        assert(!keys@.contains(*key));
        false
    }

    /// How one election transition relates the state after to the state
    /// before, given the graph, the decided key and the membership change.
    /// With `reuse` the transition may retain pruned meta-events; without
    /// it every meta-event is discarded. Both paths agree on everything
    /// else.
    pub open spec fn spec_transition(
        pre: MetaElection,
        post: MetaElection,
        events: Seq<Option<GraphEvent>>,
        decided_key: ObservationKey,
        peer_list_change: Option<PeerListChange>,
        reuse: bool,
    ) -> bool {
        let retained = retained_unconsensused(
            pre.spec_unconsensused_events(),
            events,
            decided_key,
        );
        &&& post.spec_unconsensused_events() == retained
        &&& post.spec_round_hashes() == Map::<PeerIndex, Seq<RoundHash>>::empty()
        &&& post.spec_interesting_events() == Map::<PeerIndex, Seq<EventIndex>>::empty()
        &&& post.spec_voters() == (match peer_list_change {
            Some(PeerListChange::Add(p)) => pre.spec_voters().insert(p),
            Some(PeerListChange::Remove(p)) => pre.spec_voters().remove(p),
            None => pre.spec_voters(),
        })
        &&& post.spec_history() == pre.spec_history().push(decided_key)
        &&& if reuse && retained.len() > 0 {
            let si = retained[0].0;
            &&& forall|e: EventIndex| #[trigger]
                post.spec_meta_events().dom().contains(e) <==> (
                pre.spec_meta_events().dom().contains(e) && e.0 >= si)
            &&& forall|e: EventIndex| #[trigger]
                post.spec_meta_events().dom().contains(e) ==> post.spec_meta_events()[e]
                    == purged_meta_event(pre.spec_meta_events()[e], decided_key)
        } else {
            post.spec_meta_events() == Map::<EventIndex, MetaEventV>::empty()
        }
    }

    /// Retires the decided payload: drops from the unconsensused set every
    /// event whose graph event carries exactly the decided key. Events
    /// absent from the graph are treated as not matching and stay.
    fn update_unconsensused_events(&mut self, graph: &Graph, decided_key: &ObservationKey)
        requires
            old(self).wf(),
        ensures
            final(self).wf(),
            final(self).spec_unconsensused_events() == retained_unconsensused(
                old(self).spec_unconsensused_events(),
                graph.events@,
                *decided_key,
            ),
            final(self).spec_meta_events() == old(self).spec_meta_events(),
            final(self).spec_round_hashes() == old(self).spec_round_hashes(),
            final(self).spec_voters() == old(self).spec_voters(),
            final(self).spec_interesting_events() == old(self).spec_interesting_events(),
            final(self).spec_history() == old(self).spec_history(),
    {
        let ghost items_seq = self.unconsensused_events@;
        let ghost events = graph.events@;
        let items = self.unconsensused_events.as_vec();
        let n = items.len();
        let mut kept: Vec<EventIndex> = Vec::new();
        let mut i: usize = 0;
        while i < n
            invariant
                old(self).wf(),
                self == old(self),
                items_seq == old(self).spec_unconsensused_events(),
                events == graph.events@,
                items@ == items_seq,
                sorted_strict(items_seq),
                n == items_seq.len(),
                i <= n,
                sorted_strict(kept@),
                kept@ == retained_unconsensused(
                    items_seq.take(i as int),
                    events,
                    *decided_key,
                ),
            decreases n - i,
        {
            let event_index = items[i];
            let mut drop_it = false;
            match graph.get(event_index) {
                Some(event) => {
                    match event.payload_key {
                        Some(k) => {
                            if k == *decided_key {
                                drop_it = true;
                            }
                        },
                        None => {},
                    }
                },
                None => {},
            }
            proof {
                assert(drop_it == is_decided_event(events, event_index, *decided_key));
                broadcast use vstd::prelude::Seq::lemma_filter_push;

                assert(items_seq.take(i + 1) =~= items_seq.take(i as int).push(
                    items_seq[i as int],
                ));
                if !drop_it {
                    assert forall|x: EventIndex| kept@.contains(x)
                        implies x.0 < event_index.0 by {
                        let pred = |e: EventIndex| !is_decided_event(events, e, *decided_key);
                        items_seq.take(i as int).lemma_filter_contains_rev(pred, x);
                        let j = choose|j: int|
                            0 <= j < i && items_seq.take(i as int)[j] == x;
                        assert(items_seq[j] == x);
                    };
                }
            }
            if !drop_it {
                let ghost kept_before = kept@;
                kept.push(event_index);
                proof {
                    assert forall|k: int, l: int| 0 <= k < l < kept@.len()
                        implies kept@[k].0 < kept@[l].0 by {
                        if l == kept@.len() - 1 {
                            assert(kept_before.contains(kept_before[k]));
                        }
                    };
                }
            }
            i += 1;
        }
        proof {
            assert(items_seq.take(n as int) =~= items_seq);
        }
        self.unconsensused_events = EventIndexSet::from_sorted(kept);
        proof {
            assert(self.spec_round_hashes() == old(self).spec_round_hashes());
            assert forall|p: PeerIndex| self.spec_round_hashes().dom().contains(p)
                implies self.spec_voters().contains(p) && valid_chain(
                self.spec_round_hashes()[p],
            ) by {
                assert(old(self).spec_round_hashes().dom().contains(p));
            };
            assert(self.wf());
        }
    }

    /// Keeps only the meta-events at or past the given topological index,
    /// and removes the just-decided key from each retained meta-event's
    /// interesting content.
    fn prune_meta_events(&mut self, start_index: usize, decided_key: &ObservationKey)
        requires
            old(self).wf(),
        ensures
            final(self).wf(),
            forall|e: EventIndex| #[trigger]
                final(self).spec_meta_events().dom().contains(e) <==> (
                old(self).spec_meta_events().dom().contains(e) && e.0 >= start_index),
            forall|e: EventIndex| #[trigger]
                final(self).spec_meta_events().dom().contains(e) ==> final(self)
                    .spec_meta_events()[e] == purged_meta_event(
                    old(self).spec_meta_events()[e],
                    *decided_key,
                ),
            final(self).spec_round_hashes() == old(self).spec_round_hashes(),
            final(self).spec_voters() == old(self).spec_voters(),
            final(self).spec_interesting_events() == old(self).spec_interesting_events(),
            final(self).spec_unconsensused_events() == old(self).spec_unconsensused_events(),
            final(self).spec_history() == old(self).spec_history(),
    {
        let ghost orig_contents = meta_event_map_contents(self.meta_events);
        let keys = self.meta_events.keys();
        let n = keys.len();
        let mut i: usize = 0;
        while i < n
            invariant
                old(self).wf(),
                orig_contents == meta_event_map_contents(old(self).meta_events),
                keys@.no_duplicates(),
                forall|e: EventIndex| #[trigger]
                    keys@.contains(e) <==> orig_contents.dom().contains(e),
                n == keys@.len(),
                i <= n,
                self.round_hashes == old(self).round_hashes,
                self.voters == old(self).voters,
                self.interesting_events == old(self).interesting_events,
                self.unconsensused_events == old(self).unconsensused_events,
                self.consensus_history == old(self).consensus_history,
                forall|e: EventIndex| #[trigger]
                    meta_event_map_contents(self.meta_events).dom().contains(e) <==> (
                    orig_contents.dom().contains(e) && !(exists|j: int|
                        0 <= j < i && #[trigger] keys@[j] == e && e.0 < start_index)),
                forall|e: EventIndex| #[trigger]
                    meta_event_map_contents(self.meta_events).dom().contains(e) ==> (
                    if exists|j: int| 0 <= j < i && #[trigger] keys@[j] == e {
                        meta_event_map_contents(
                            self.meta_events,
                        )[e].interesting_content@ == purged_keys(
                            orig_contents[e].interesting_content@,
                            *decided_key,
                        ) && meta_event_map_contents(self.meta_events)[e].meta_votes
                            == orig_contents[e].meta_votes
                    } else {
                        meta_event_map_contents(self.meta_events)[e] == orig_contents[e]
                    }),
            decreases n - i,
        {
            let event_index = keys[i];
            proof {
                assert(keys@.contains(event_index));
                assert forall|j: int| 0 <= j < i implies #[trigger] keys@[j]
                    != event_index by {};
            }
            if event_index.topological_index() < start_index {
                let _ = self.meta_events.remove(event_index);
            } else {
                match self.meta_events.remove(event_index) {
                    Some(me) => {
                        let me_votes = me.meta_votes;
                        let purged = Self::purged_content(me.interesting_content, decided_key);
                        self.meta_events.insert(
                            event_index,
                            MetaEvent { interesting_content: purged, meta_votes: me_votes },
                        );
                    },
                    None => {
                        proof {
                            assert(false);
                        }
                    },
                }
            }
            i += 1;
        }
        proof {
            assert forall|e: EventIndex| #[trigger]
                meta_event_map_contents(self.meta_events).dom().contains(e) <==> (
                orig_contents.dom().contains(e) && e.0 >= start_index) by {
                if orig_contents.dom().contains(e) {
                    assert(keys@.contains(e));
                    let j = choose|j: int| 0 <= j < n && keys@[j] == e;
                }
            };
            assert forall|e: EventIndex| #[trigger]
                meta_event_map_contents(self.meta_events).dom().contains(e)
                implies meta_event_map_contents(self.meta_events)[e].interesting_content@
                == purged_keys(orig_contents[e].interesting_content@, *decided_key)
                && meta_event_map_contents(self.meta_events)[e].meta_votes
                == orig_contents[e].meta_votes by {
                assert(keys@.contains(e));
                let j = choose|j: int| 0 <= j < n && keys@[j] == e;
            };
            assert forall|e: EventIndex| #[trigger]
                self.spec_meta_events().dom().contains(e) <==> (old(
                    self,
                ).spec_meta_events().dom().contains(e) && e.0 >= start_index) by {};
            assert forall|e: EventIndex| #[trigger]
                self.spec_meta_events().dom().contains(e) implies self.spec_meta_events()[e]
                == purged_meta_event(old(self).spec_meta_events()[e], *decided_key) by {};
            assert(self.spec_round_hashes() == old(self).spec_round_hashes());
            assert forall|p: PeerIndex| self.spec_round_hashes().dom().contains(p)
                implies self.spec_voters().contains(p) && valid_chain(
                self.spec_round_hashes()[p],
            ) by {
                assert(old(self).spec_round_hashes().dom().contains(p));
            };
            assert(self.wf());
        }
    }

    /// The keys that survive a decision, in their original order.
    fn purged_content(content: Vec<ObservationKey>, decided_key: &ObservationKey) -> (r: Vec<
        ObservationKey,
    >)
        ensures
            r@ == purged_keys(content@, *decided_key),
    {
        let n = content.len();
        let mut kept: Vec<ObservationKey> = Vec::new();
        let mut i: usize = 0;
        while i < n
            invariant
                n == content@.len(),
                i <= n,
                kept@ == purged_keys(content@.take(i as int), *decided_key),
            decreases n - i,
        {
            proof {
                broadcast use vstd::prelude::Seq::lemma_filter_push;

                assert(content@.take(i + 1) =~= content@.take(i as int).push(
                    content@[i as int],
                ));
            }
            let k = content[i];
            if !(k == *decided_key) {
                kept.push(k);
            }
            i += 1;
        }
        proof {
            assert(content@.take(n as int) =~= content@);
        }
        kept
    }

    /// Starts the next election: retires the decided payload from the
    /// unconsensused set, resets all per-round state, applies the at most
    /// one membership change, prunes or clears the cached meta-events, and
    /// appends the decided key to the consensus history.
    ///
    /// Meta-events are carried over only when the voter set did not change:
    /// a membership change invalidates all prior meta-vote computations.
    /// The reuse path and the full-clear path agree on everything but which
    /// meta-events stay cached.
    pub fn new_election(
        &mut self,
        graph: &Graph,
        decided_key: ObservationKey,
        peer_list_change: Option<PeerListChange>,
    )
        requires
            old(self).wf(),
        ensures
            final(self).wf(),
            Self::spec_transition(
                *old(self),
                *final(self),
                graph.events@,
                decided_key,
                peer_list_change,
                peer_list_change is None,
            ),
    {
        self.update_unconsensused_events(graph, &decided_key);
        self.round_hashes.clear();
        self.interesting_events.clear();
        match peer_list_change {
            Some(PeerListChange::Add(peer_index)) => {
                self.voters.insert(peer_index);
            },
            Some(PeerListChange::Remove(peer_index)) => {
                self.voters.remove(peer_index);
            },
            None => {},
        }
        proof {
            assert(self.round_hashes@.dom() =~= Set::<PeerIndex>::empty());
            assert(self.wf());
        }
        let start = if peer_list_change.is_none() {
            self.start_index()
        } else {
            None
        };
        match start {
            Some(start_index) => {
                self.prune_meta_events(start_index, &decided_key);
            },
            None => {
                self.meta_events.clear();
                proof {
                    assert(self.spec_meta_events() =~= Map::<EventIndex, MetaEventV>::empty());
                }
            },
        }
        let ghost mid = *self;
        self.consensus_history.push(decided_key);
        proof {
            assert(self.spec_meta_events() == mid.spec_meta_events());
            assert(self.spec_round_hashes() == mid.spec_round_hashes());
            assert(self.spec_interesting_events() == mid.spec_interesting_events());
            assert(self.spec_unconsensused_events() == mid.spec_unconsensused_events());
            assert(self.spec_voters() == mid.spec_voters());
            assert(self.spec_history() == old(self).spec_history().push(decided_key));
            let retained = retained_unconsensused(
                old(self).spec_unconsensused_events(),
                graph.events@,
                decided_key,
            );
            assert(self.spec_unconsensused_events() == retained);
            if peer_list_change is None && retained.len() > 0 {
                let si = retained[0].0;
                assert(start == Some(si));
                assert forall|e: EventIndex| #[trigger]
                    self.spec_meta_events().dom().contains(e) <==> (
                    old(self).spec_meta_events().dom().contains(e) && e.0 >= si) by {
                    assert(mid.spec_meta_events().dom().contains(e)
                        == self.spec_meta_events().dom().contains(e));
                };
                assert forall|e: EventIndex| #[trigger]
                    self.spec_meta_events().dom().contains(e)
                    implies self.spec_meta_events()[e] == purged_meta_event(
                    old(self).spec_meta_events()[e],
                    decided_key,
                ) by {
                    assert(mid.spec_meta_events().dom().contains(e));
                };
            } else {
                assert(self.spec_meta_events() =~= Map::<EventIndex, MetaEventV>::empty());
            }
            assert(self.round_hashes@.dom() =~= Set::<PeerIndex>::empty());
            assert(self.wf());
        }
    }

    /// Seeds a fresh round-hash map with exactly one round-0 entry per
    /// given voter, derived from that voter's identity and a seed equal to
    /// the hash of the most recently decided observation, or a fixed zero
    /// hash if no decision has ever occurred.
    pub fn initialise_round_hashes(&mut self, peer_ids: &Vec<(PeerIndex, PeerId)>)
        requires
            old(self).wf(),
            forall|i: int, j: int|
                0 <= i < j < peer_ids@.len() ==> peer_ids@[i].0 != peer_ids@[j].0,
            forall|i: int|
                0 <= i < peer_ids@.len() ==> old(self).spec_voters().contains(
                    #[trigger] peer_ids@[i].0,
                ),
        ensures
            final(self).wf(),
            forall|p: PeerIndex| #[trigger]
                final(self).spec_round_hashes().dom().contains(p) <==> exists|i: int|
                    0 <= i < peer_ids@.len() && #[trigger] peer_ids@[i].0 == p,
            forall|i: int|
                0 <= i < peer_ids@.len() ==> final(self).spec_round_hashes()[
                    #[trigger] peer_ids@[i].0
                ] == seq![
                    (RoundHash {
                        peer_id: peer_ids@[i].1,
                        seed: spec_seed_hash(old(self).spec_history()),
                        round: 0usize,
                    }),
                ],
            final(self).spec_meta_events() == old(self).spec_meta_events(),
            final(self).spec_voters() == old(self).spec_voters(),
            final(self).spec_interesting_events() == old(self).spec_interesting_events(),
            final(self).spec_unconsensused_events() == old(self).spec_unconsensused_events(),
            final(self).spec_history() == old(self).spec_history(),
    {
        let seed = if self.consensus_history.len() > 0 {
            self.consensus_history[self.consensus_history.len() - 1].hash()
        } else {
            ObservationHash::zero()
        };
        let ghost seed_spec = spec_seed_hash(self.spec_history());
        proof {
            assert(seed == seed_spec);
        }
        let mut fresh: PeerIndexMap<Vec<RoundHash>> = PeerIndexMap::new();
        let n = peer_ids.len();
        let mut i: usize = 0;
        while i < n
            invariant
                forall|k: int, l: int|
                    0 <= k < l < peer_ids@.len() ==> peer_ids@[k].0 != peer_ids@[l].0,
                seed == seed_spec,
                n == peer_ids@.len(),
                i <= n,
                fresh.wf(),
                forall|p: PeerIndex| #[trigger]
                    fresh@.dom().contains(p) <==> exists|j: int|
                        0 <= j < i && #[trigger] peer_ids@[j].0 == p,
                forall|j: int|
                    0 <= j < i ==> fresh@[#[trigger] peer_ids@[j].0] == seq![
                        (RoundHash { peer_id: peer_ids@[j].1, seed: seed_spec, round: 0usize }),
                    ],
            decreases n - i,
        {
            let peer_index = peer_ids[i].0;
            let id = peer_ids[i].1;
            let mut chain: Vec<RoundHash> = Vec::new();
            chain.push(RoundHash::new(id, seed));
            proof {
                assert(chain@ =~= seq![
                    (RoundHash { peer_id: id, seed: seed_spec, round: 0usize }),
                ]);
            }
            fresh.insert(peer_index, chain);
            proof {
                assert forall|p: PeerIndex| #[trigger]
                    fresh@.dom().contains(p) <==> exists|j: int|
                        0 <= j < i + 1 && #[trigger] peer_ids@[j].0 == p by {
                    if fresh@.dom().contains(p) && p != peer_index {
                        let j = choose|j: int| 0 <= j < i && #[trigger] peer_ids@[j].0 == p;
                        assert(0 <= j < i + 1 && peer_ids@[j].0 == p);
                    }
                    if p == peer_index {
                        assert(peer_ids@[i as int].0 == p);
                    }
                };
            }
            i += 1;
        }
        self.round_hashes = fresh;
        proof {
            assert forall|p: PeerIndex| self.spec_round_hashes().dom().contains(p)
                implies self.spec_voters().contains(p) && valid_chain(
                #[trigger] self.spec_round_hashes()[p],
            ) by {
                let j = choose|j: int| 0 <= j < n && #[trigger] peer_ids@[j].0 == p;
                assert(self.spec_round_hashes()[p] == seq![
                    (RoundHash { peer_id: peer_ids@[j].1, seed: seed_spec, round: 0usize }),
                ]);
                assert(self.spec_round_hashes()[p][0].round == 0);
            };
            assert(self.wf());
        }
    }
}

} // verus!
