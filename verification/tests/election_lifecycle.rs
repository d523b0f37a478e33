use meta_election::EventIndex;
use meta_election::Graph;
use meta_election::MetaElection;
use meta_election::MetaEvent;
use meta_election::MetaVote;
use meta_election::ObservationHash;
use meta_election::ObservationKey;
use meta_election::PeerId;
use meta_election::PeerIndexMap;
use meta_election::PeerIndexSet;
use meta_election::PeerListChange;

fn key(v: u64) -> ObservationKey {
    ObservationKey(ObservationHash(v))
}

fn voters_012() -> PeerIndexSet {
    let mut voters = PeerIndexSet::new();
    voters.insert(0);
    voters.insert(1);
    voters.insert(2);
    voters
}

fn meta_event_with(
    interesting: Vec<ObservationKey>,
    votes: Vec<(usize, Vec<MetaVote>)>,
) -> MetaEvent {
    let mut meta_votes: PeerIndexMap<Vec<MetaVote>> = PeerIndexMap::new();
    for (peer, list) in votes {
        meta_votes.insert(peer, list);
    }
    MetaEvent { interesting_content: interesting, meta_votes }
}

#[test]
fn three_voters_decide_without_membership_change() {
    let k1 = key(1);
    let mut graph = Graph::new();
    let e_a = graph.add_event(0, None);
    let e_b = graph.add_event(1, None);
    let e_c = graph.add_event(2, None);
    let mut election = MetaElection::new(voters_012());
    election.initialise_round_hashes(&vec![(0, PeerId(10)), (1, PeerId(11)), (2, PeerId(12))]);
    election.add_meta_event(e_a, 0, meta_event_with(vec![k1], vec![]));
    election.add_meta_event(e_b, 1, meta_event_with(vec![k1], vec![]));
    election.add_meta_event(e_c, 2, meta_event_with(vec![k1], vec![]));
    assert!(election.meta_event(e_a).is_some());
    assert_eq!(election.first_interesting_content_by(0), Some(k1));

    election.new_election(&graph, k1, None);

    assert_eq!(election.consensus_history(), &vec![k1]);
    assert!(election.round_hashes(0).is_none());
    assert!(election.round_hashes(1).is_none());
    assert!(election.round_hashes(2).is_none());
    assert_eq!(election.interesting_events().entries().len(), 0);
    // No unconsensused event remained, so no start index exists and the
    // meta-events are cleared entirely.
    assert_eq!(election.start_index(), None);
    assert!(election.meta_event(e_a).is_none());
    assert!(election.meta_event(e_b).is_none());
    assert!(election.meta_event(e_c).is_none());
}

#[test]
fn membership_change_clears_meta_events_and_ignores_removed_voter() {
    let k1 = key(1);
    let k2 = key(2);
    let mut graph = Graph::new();
    let e_a = graph.add_event(0, None);
    let e_b = graph.add_event(1, None);
    let e_c = graph.add_event(2, None);
    let e_pending = graph.add_event(0, Some(k2));
    let mut election = MetaElection::new(voters_012());
    election.initialise_round_hashes(&vec![(0, PeerId(10)), (1, PeerId(11)), (2, PeerId(12))]);
    election.add_meta_event(e_a, 0, meta_event_with(vec![k1], vec![]));
    election.add_meta_event(e_b, 1, meta_event_with(vec![k1], vec![]));
    election.add_meta_event(e_c, 2, meta_event_with(vec![k1], vec![]));
    election.add_unconsensused_event(e_pending);

    election.new_election(&graph, k1, Some(PeerListChange::Remove(2)));

    assert!(election.voters().contains(0));
    assert!(election.voters().contains(1));
    assert!(!election.voters().contains(2));
    assert_eq!(election.voters().len(), 2);
    // A start index was computable (e_pending is still unconsensused), but
    // the membership change forces a full clear.
    assert_eq!(election.start_index(), Some(3));
    assert!(election.meta_event(e_a).is_none());
    assert!(election.meta_event(e_b).is_none());
    assert!(election.meta_event(e_c).is_none());
    assert!(election.meta_event(e_pending).is_none());

    // Round-hash data for the removed voter is silently ignored from now on.
    election.initialise_round_hashes(&vec![(0, PeerId(10)), (1, PeerId(11))]);
    let e_next = graph.add_event(0, None);
    election.add_meta_event(
        e_next,
        0,
        meta_event_with(vec![], vec![(2, vec![MetaVote { round: 1 }])]),
    );
    assert!(election.round_hashes(2).is_none());
}

#[test]
fn round_hash_chains_grow_to_vote_rounds() {
    let mut graph = Graph::new();
    let e_a = graph.add_event(0, None);
    let e_b = graph.add_event(1, None);
    let mut election = MetaElection::new(voters_012());
    election.initialise_round_hashes(&vec![(0, PeerId(10)), (1, PeerId(11)), (2, PeerId(12))]);

    election.add_meta_event(
        e_a,
        0,
        meta_event_with(
            vec![],
            vec![
                (0, vec![MetaVote { round: 0 }, MetaVote { round: 2 }]),
                (1, vec![MetaVote { round: 1 }]),
            ],
        ),
    );
    let chain0 = election.round_hashes(0).unwrap().clone();
    assert_eq!(chain0.len(), 3);
    for (round, hash) in chain0.iter().enumerate() {
        assert_eq!(hash.round, round);
        assert_eq!(hash.peer_id, PeerId(10));
        assert_eq!(hash.seed, ObservationHash(0));
    }
    assert_eq!(election.round_hashes(1).unwrap().len(), 2);
    assert_eq!(election.round_hashes(2).unwrap().len(), 1);

    // A later meta-event mentioning only lower rounds changes nothing: the
    // chain never shrinks and no entry is overwritten.
    election.add_meta_event(
        e_b,
        1,
        meta_event_with(vec![], vec![(0, vec![MetaVote { round: 1 }])]),
    );
    assert_eq!(election.round_hashes(0).unwrap(), &chain0);
}

#[test]
fn interesting_events_follow_ingestion_order() {
    let k1 = key(1);
    let k2 = key(2);
    let mut graph = Graph::new();
    let e1 = graph.add_event(0, None);
    let e2 = graph.add_event(0, None);
    let e3 = graph.add_event(0, None);
    let e4 = graph.add_event(1, None);
    let mut election = MetaElection::new(voters_012());
    election.add_meta_event(e1, 0, meta_event_with(vec![k1], vec![]));
    election.add_meta_event(e2, 0, meta_event_with(vec![], vec![]));
    election.add_meta_event(e3, 0, meta_event_with(vec![k2], vec![]));
    election.add_meta_event(e4, 1, meta_event_with(vec![k1], vec![]));

    assert_eq!(election.interesting_events().get(0), Some(&vec![e1, e3]));
    assert_eq!(election.interesting_events().get(1), Some(&vec![e4]));
    assert_eq!(election.interesting_events().get(2), None);
}

#[test]
fn unconsensused_events_follow_decisions() {
    let k1 = key(1);
    let k2 = key(2);
    let mut graph = Graph::new();
    let e1 = graph.add_event(0, Some(k1));
    let e2 = graph.add_event(1, Some(k2));
    let e3 = graph.add_event(2, Some(k1));
    let mut election = MetaElection::new(voters_012());
    // Insertion order does not matter: the set keeps topological order.
    election.add_unconsensused_event(e3);
    election.add_unconsensused_event(e1);
    election.add_unconsensused_event(e2);
    election.add_unconsensused_event(e2);
    assert_eq!(election.unconsensused_events(), &vec![e1, e2, e3]);
    assert_eq!(election.start_index(), Some(0));

    election.new_election(&graph, k1, None);
    assert_eq!(election.unconsensused_events(), &vec![e2]);
    assert_eq!(election.start_index(), Some(1));

    election.new_election(&graph, k2, None);
    assert_eq!(election.unconsensused_events(), &Vec::<EventIndex>::new());
    assert_eq!(election.start_index(), None);
    assert_eq!(election.consensus_history(), &vec![k1, k2]);
}

#[test]
fn transition_paths_agree_on_observable_state() {
    let k1 = key(1);
    let k2 = key(2);
    let mut graph = Graph::new();
    let e0 = graph.add_event(0, Some(k1));
    let e1 = graph.add_event(1, Some(k2));

    let mut reused = MetaElection::new(voters_012());
    reused.add_unconsensused_event(e0);
    reused.add_unconsensused_event(e1);
    reused.add_meta_event(e0, 0, meta_event_with(vec![k1], vec![]));
    reused.add_meta_event(e1, 1, meta_event_with(vec![k1, k2], vec![]));

    let mut cleared = MetaElection::new(voters_012());
    cleared.add_unconsensused_event(e0);
    cleared.add_unconsensused_event(e1);
    cleared.add_meta_event(e0, 0, meta_event_with(vec![k1], vec![]));
    cleared.add_meta_event(e1, 1, meta_event_with(vec![k1, k2], vec![]));

    // No membership change: the reuse path retains meta-events at or past
    // the start index. Adding an already-present voter is a membership
    // change, so the other instance discards every meta-event; the voter
    // set itself does not change.
    reused.new_election(&graph, k1, None);
    cleared.new_election(&graph, k1, Some(PeerListChange::Add(0)));

    assert_eq!(reused.consensus_history(), cleared.consensus_history());
    assert_eq!(reused.unconsensused_events(), cleared.unconsensused_events());
    for peer in 0..3 {
        assert_eq!(reused.voters().contains(peer), cleared.voters().contains(peer));
    }
    assert_eq!(reused.voters().len(), cleared.voters().len());

    // Only the cached meta-events differ.
    assert!(reused.meta_event(e0).is_none());
    assert!(reused.meta_event(e1).is_some());
    assert!(cleared.meta_event(e0).is_none());
    assert!(cleared.meta_event(e1).is_none());

    // The retained meta-event lost the decided key from its interesting
    // content, and nothing else.
    assert_eq!(reused.meta_event(e1).unwrap().interesting_content, vec![k2]);
}

#[test]
fn history_appends_one_key_per_election() {
    let graph = Graph::new();
    let mut election = MetaElection::new(voters_012());
    assert_eq!(election.consensus_history().len(), 0);
    election.new_election(&graph, key(7), None);
    assert_eq!(election.consensus_history(), &vec![key(7)]);
    election.new_election(&graph, key(8), Some(PeerListChange::Add(3)));
    election.new_election(&graph, key(9), None);
    assert_eq!(election.consensus_history(), &vec![key(7), key(8), key(9)]);
    assert!(election.voters().contains(3));
}

#[test]
fn pruned_graph_event_is_not_retired() {
    let k1 = key(1);
    let mut graph = Graph::new();
    let e0 = graph.add_event(0, Some(k1));
    let e1 = graph.add_event(1, Some(k1));
    graph.prune_event(e0);
    let mut election = MetaElection::new(voters_012());
    election.add_unconsensused_event(e0);
    election.add_unconsensused_event(e1);

    election.new_election(&graph, k1, None);
    // The pruned event cannot be looked up, so it is treated as not
    // matching the decided key and stays in the set.
    assert_eq!(election.unconsensused_events(), &vec![e0]);
}
