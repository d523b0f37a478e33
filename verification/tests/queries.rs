use meta_election::EventIndex;
use meta_election::Graph;
use meta_election::MetaElection;
use meta_election::MetaEvent;
use meta_election::MetaVote;
use meta_election::ObservationHash;
use meta_election::ObservationKey;
use meta_election::PeerId;
use meta_election::PeerIndexMap;
use meta_election::PeerIndexSet;

fn key(v: u64) -> ObservationKey {
    ObservationKey(ObservationHash(v))
}

fn voters_01() -> PeerIndexSet {
    let mut voters = PeerIndexSet::new();
    voters.insert(0);
    voters.insert(1);
    voters
}

fn meta_event_with(
    interesting: Vec<ObservationKey>,
    votes: Vec<(usize, Vec<MetaVote>)>,
) -> MetaEvent {
    let mut meta_votes: PeerIndexMap<Vec<MetaVote>> = PeerIndexMap::new();
    for (peer, list) in votes {
        meta_votes.insert(peer, list);
    }
    MetaEvent { interesting_content: interesting, meta_votes }
}

#[test]
fn meta_event_lookup_and_removal() {
    let mut graph = Graph::new();
    let e0 = graph.add_event(0, None);
    let e1 = graph.add_event(1, None);
    let mut election = MetaElection::new(voters_01());
    election.add_meta_event(e0, 0, meta_event_with(vec![key(5)], vec![]));

    assert!(election.meta_event(e0).is_some());
    assert_eq!(election.meta_event(e0).unwrap().interesting_content, vec![key(5)]);
    assert!(election.meta_event(e1).is_none());

    let removed = election.remove_meta_event(e0);
    assert!(removed.is_some());
    assert_eq!(removed.unwrap().interesting_content, vec![key(5)]);
    assert!(election.meta_event(e0).is_none());
    assert!(election.remove_meta_event(e0).is_none());
}

#[test]
fn ingestion_overwrites_a_recorded_meta_event() {
    let mut graph = Graph::new();
    let e0 = graph.add_event(0, None);
    let mut election = MetaElection::new(voters_01());
    election.add_meta_event(e0, 0, meta_event_with(vec![key(5)], vec![]));
    election.add_meta_event(e0, 0, meta_event_with(vec![key(6)], vec![]));
    assert_eq!(election.meta_event(e0).unwrap().interesting_content, vec![key(6)]);
}

#[test]
fn populated_meta_votes_means_non_empty() {
    let mut graph = Graph::new();
    let e0 = graph.add_event(0, None);
    let e1 = graph.add_event(1, None);
    let e2 = graph.add_event(0, None);
    let mut election = MetaElection::new(voters_01());
    election.add_meta_event(e0, 0, meta_event_with(vec![], vec![]));
    election.add_meta_event(e1, 1, meta_event_with(vec![], vec![(0, vec![MetaVote {
        round: 0,
    }])]));

    assert!(election.populated_meta_votes(e0).is_none());
    assert!(election.populated_meta_votes(e1).is_some());
    assert!(election.populated_meta_votes(e2).is_none());
    let votes = election.populated_meta_votes(e1).unwrap();
    assert_eq!(votes.get(0), Some(&vec![MetaVote { round: 0 }]));
}

#[test]
fn first_interesting_content_by_creator() {
    let mut graph = Graph::new();
    let e0 = graph.add_event(0, None);
    let e1 = graph.add_event(0, None);
    let mut election = MetaElection::new(voters_01());
    assert_eq!(election.first_interesting_content_by(0), None);
    election.add_meta_event(e0, 0, meta_event_with(vec![key(3), key(4)], vec![]));
    election.add_meta_event(e1, 0, meta_event_with(vec![key(9)], vec![]));
    assert_eq!(election.first_interesting_content_by(0), Some(key(3)));
    assert_eq!(election.first_interesting_content_by(1), None);

    // When the first interesting event's meta-event was removed, there is
    // no candidate to report.
    election.remove_meta_event(e0);
    assert_eq!(election.first_interesting_content_by(0), None);
}

#[test]
fn already_interesting_content_guards_duplicates() {
    let mut graph = Graph::new();
    let e0 = graph.add_event(0, None);
    let e1 = graph.add_event(0, None);
    let mut election = MetaElection::new(voters_01());
    election.add_meta_event(e0, 0, meta_event_with(vec![key(3)], vec![]));
    election.add_meta_event(e1, 0, meta_event_with(vec![key(4), key(5)], vec![]));

    assert!(election.is_already_interesting_content(0, &key(3)));
    assert!(election.is_already_interesting_content(0, &key(5)));
    assert!(!election.is_already_interesting_content(0, &key(6)));
    assert!(!election.is_already_interesting_content(1, &key(3)));
}

#[test]
fn round_hashes_are_seeded_from_the_last_decision() {
    let graph = Graph::new();
    let mut election = MetaElection::new(voters_01());
    election.initialise_round_hashes(&vec![(0, PeerId(100)), (1, PeerId(101))]);

    // Before any decision the chains are seeded with the zero hash.
    let chain = election.round_hashes(0).unwrap();
    assert_eq!(chain.len(), 1);
    assert_eq!(chain[0].peer_id, PeerId(100));
    assert_eq!(chain[0].seed, ObservationHash(0));
    assert_eq!(chain[0].round, 0);
    assert!(election.round_hashes(7).is_none());

    // After a decision they are seeded with the decided key's hash.
    election.new_election(&graph, key(42), None);
    assert!(election.round_hashes(0).is_none());
    election.initialise_round_hashes(&vec![(0, PeerId(100)), (1, PeerId(101))]);
    assert_eq!(election.round_hashes(0).unwrap()[0].seed, ObservationHash(42));
    assert_eq!(election.round_hashes(1).unwrap()[0].seed, ObservationHash(42));
}

#[test]
fn voter_set_and_event_index_basics() {
    let election = MetaElection::new(voters_01());
    assert!(election.voters().contains(0));
    assert!(election.voters().contains(1));
    assert!(!election.voters().contains(2));
    assert_eq!(election.voters().len(), 2);

    let e = EventIndex(17);
    assert_eq!(e.topological_index(), 17);
    assert_eq!(key(8).hash(), ObservationHash(8));
    assert_eq!(ObservationHash::zero(), ObservationHash(0));
}
