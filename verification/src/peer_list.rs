//! Voter bookkeeping: peer indices, identities, membership changes, and the
//! index-keyed collections the election state is built from.

use vstd::prelude::*;

verus! {

/// A stable integer reference to a voter, scoped to a single node's local
/// registry; never reused for a different identity while that identity
/// remains a voter.
pub type PeerIndex = usize;

/// A voter's identity, as a plain value.
#[derive(Clone, Copy, PartialEq, Eq, Structural, Debug)]
pub struct PeerId(pub u64);

/// The single membership change an election transition may apply.
#[derive(Clone, Copy, Debug)]
pub enum PeerListChange {
    Add(PeerIndex),
    Remove(PeerIndex),
}

/// Removing the element at a position of a duplicate-free sequence removes
/// exactly that element from the sequence's set of values.
pub proof fn lemma_remove_to_set<A>(s: Seq<A>, i: int)
    requires
        0 <= i < s.len(),
        s.no_duplicates(),
    ensures
        s.remove(i).to_set() == s.to_set().remove(s[i]),
        s.remove(i).no_duplicates(),
{
    let t = s.remove(i);
    s.remove_ensures(i);
    assert forall|x: A| t.to_set().contains(x) implies s.to_set().remove(s[i]).contains(x) by {
        let j = choose|j: int| 0 <= j < t.len() && t[j] == x;
        if j < i {
            assert(s[j] == x);
        } else {
            assert(s[j + 1] == x);
        }
    };
    assert forall|x: A| s.to_set().remove(s[i]).contains(x) implies t.to_set().contains(x) by {
        let j = choose|j: int| 0 <= j < s.len() && s[j] == x;
        if j < i {
            assert(t[j] == x);
        } else {
            assert(t[j - 1] == x);
        }
    };
    assert(t.to_set() =~= s.to_set().remove(s[i]));
    assert forall|k: int, l: int|
        0 <= k < t.len() && 0 <= l < t.len() && k != l implies t[k] != t[l] by {
        let k2: int = if k < i { k } else { k + 1 };
        let l2: int = if l < i { l } else { l + 1 };
        assert(t[k] == s[k2]);
        assert(t[l] == s[l2]);
    };
}

/// Set of peer indices, e.g. the voters of the current election.
#[derive(Debug)]
pub struct PeerIndexSet {
    items: Vec<PeerIndex>,
}

impl View for PeerIndexSet {
    type V = Set<PeerIndex>;

    closed spec fn view(&self) -> Set<PeerIndex> {
        self.items@.to_set()
    }
}

impl PeerIndexSet {
    /// No peer index occurs twice in the backing vector.
    pub closed spec fn wf(&self) -> bool {
        self.items@.no_duplicates()
    }

    pub fn new() -> (r: PeerIndexSet)
        ensures
            r.wf(),
            r@ == Set::<PeerIndex>::empty(),
    {
        let r = PeerIndexSet { items: Vec::new() };
        proof {
            assert(r@ =~= Set::<PeerIndex>::empty());
        }
        r
    }

    pub fn contains(&self, peer_index: PeerIndex) -> (r: bool)
        ensures
            r == self@.contains(peer_index),
    {
        let n = self.items.len();
        let mut i: usize = 0;
        while i < n
            invariant
                n == self.items@.len(),
                i <= n,
                forall|j: int| 0 <= j < i ==> self.items@[j] != peer_index,
            decreases n - i,
        {
            if self.items[i] == peer_index {
                assert(self.items@.contains(peer_index));
                return true;
            }
            i += 1;
        }
        assert(!self.items@.contains(peer_index));
        false
    }

    pub fn insert(&mut self, peer_index: PeerIndex)
        requires
            old(self).wf(),
        ensures
            final(self).wf(),
            final(self)@ == old(self)@.insert(peer_index),
    {
        if self.contains(peer_index) {
            proof {
                assert(old(self)@.insert(peer_index) =~= old(self)@);
            }
        } else {
            self.items.push(peer_index);
            proof {
                broadcast use vstd::prelude::Seq::lemma_push_to_set_commute;

                assert(self@ =~= old(self)@.insert(peer_index));
                assert forall|k: int, l: int|
                    0 <= k < self.items@.len() && 0 <= l < self.items@.len() && k != l
                    implies self.items@[k] != self.items@[l] by {
                    if l == self.items@.len() - 1 {
                        assert(!old(self).items@.contains(peer_index));
                        assert(old(self).items@[k] != peer_index);
                    } else if k == self.items@.len() - 1 {
                        assert(!old(self).items@.contains(peer_index));
                        assert(old(self).items@[l] != peer_index);
                    }
                };
            }
        }
    }

    pub fn remove(&mut self, peer_index: PeerIndex)
        requires
            old(self).wf(),
        ensures
            final(self).wf(),
            final(self)@ == old(self)@.remove(peer_index),
    {
        let n = self.items.len();
        let mut i: usize = 0;
        while i < n
            invariant
                self == old(self),
                old(self).wf(),
                n == self.items@.len(),
                i <= n,
                forall|j: int| 0 <= j < i ==> self.items@[j] != peer_index,
            decreases n - i,
        {
            if self.items[i] == peer_index {
                proof {
                    lemma_remove_to_set(self.items@, i as int);
                }
                let _ = self.items.remove(i);
                return;
            }
            i += 1;
        }
        proof {
            assert(!self.items@.contains(peer_index));
            assert(old(self)@.remove(peer_index) =~= old(self)@);
        }
    }

    pub fn len(&self) -> (r: usize)
        requires
            self.wf(),
        ensures
            r == self@.len(),
    {
        proof {
            self.items@.unique_seq_to_set();
        }
        self.items.len()
    }
}

/// Map from peer index to a value, backed by a duplicate-free vector of
/// entries.
#[derive(Debug)]
pub struct PeerIndexMap<V> {
    entries: Vec<(PeerIndex, V)>,
}

impl<V: View> View for PeerIndexMap<V> {
    type V = Map<PeerIndex, <V as View>::V>;

    closed spec fn view(&self) -> Map<PeerIndex, <V as View>::V> {
        Self::entries_view(self.entries@)
    }
}

impl<V: View> PeerIndexMap<V> {
    /// The mapping described by a sequence of entries, later entries winning.
    pub closed spec fn entries_view(s: Seq<(PeerIndex, V)>) -> Map<PeerIndex, <V as View>::V>
        decreases s.len(),
    {
        if s.len() == 0 {
            Map::empty()
        } else {
            Self::entries_view(s.drop_last()).insert(s.last().0, s.last().1@)
        }
    }

    /// The backing entries, oldest first.
    pub closed spec fn spec_entries(&self) -> Seq<(PeerIndex, V)> {
        self.entries@
    }

    /// The keys of a sequence of entries, in entry order.
    pub open spec fn keys_of(s: Seq<(PeerIndex, V)>) -> Seq<PeerIndex> {
        s.map_values(|e: (PeerIndex, V)| e.0)
    }

    /// No peer index occurs twice among the entries.
    pub open spec fn wf(&self) -> bool {
        Self::keys_of(self.spec_entries()).no_duplicates()
    }

    /// For duplicate-free entries, the map holds exactly the entry keys, and
    /// each key maps to its entry's value.
    pub proof fn lemma_entries_view_char(s: Seq<(PeerIndex, V)>)
        requires
            Self::keys_of(s).no_duplicates(),
        ensures
            forall|p: PeerIndex|
                #[trigger] Self::entries_view(s).dom().contains(p) <==> Self::keys_of(s).contains(p),
            forall|i: int|
                0 <= i < s.len() ==> Self::entries_view(s).dom().contains(#[trigger] s[i].0)
                    && Self::entries_view(s)[s[i].0] == s[i].1@,
        decreases s.len(),
    {
        if s.len() > 0 {
            let t = s.drop_last();
            assert(Self::keys_of(t) =~= Self::keys_of(s).drop_last());
            assert forall|k: int, l: int|
                0 <= k < t.len() && 0 <= l < t.len() && k != l
                implies Self::keys_of(t)[k] != Self::keys_of(t)[l] by {
                assert(Self::keys_of(s)[k] != Self::keys_of(s)[l]);
            };
            Self::lemma_entries_view_char(t);
            let v = Self::entries_view(s);
            assert(v == Self::entries_view(t).insert(s.last().0, s.last().1@));
            assert forall|p: PeerIndex|
                #[trigger] v.dom().contains(p) <==> Self::keys_of(s).contains(p) by {
                if v.dom().contains(p) {
                    if p == s.last().0 {
                        assert(Self::keys_of(s)[s.len() - 1] == p);
                    } else {
                        let j = choose|j: int| 0 <= j < t.len() && Self::keys_of(t)[j] == p;
                        assert(Self::keys_of(s)[j] == p);
                    }
                }
                if Self::keys_of(s).contains(p) {
                    let j = choose|j: int| 0 <= j < s.len() && Self::keys_of(s)[j] == p;
                    if j < s.len() - 1 {
                        assert(Self::keys_of(t)[j] == p);
                    }
                }
            };
            assert forall|i: int| 0 <= i < s.len()
                implies v.dom().contains(#[trigger] s[i].0) && v[s[i].0] == s[i].1@ by {
                if i < s.len() - 1 {
                    assert(Self::keys_of(s)[i] != Self::keys_of(s)[s.len() - 1]);
                    assert(t[i] == s[i]);
                    assert(v[s[i].0] == Self::entries_view(t)[t[i].0]);
                }
            };
        }
    }

    /// Removing an entry of a duplicate-free entry sequence removes exactly
    /// its key from the described map.
    pub proof fn lemma_entries_view_remove(s: Seq<(PeerIndex, V)>, i: int)
        requires
            Self::keys_of(s).no_duplicates(),
            0 <= i < s.len(),
        ensures
            Self::entries_view(s.remove(i)) == Self::entries_view(s).remove(s[i].0),
            Self::keys_of(s.remove(i)).no_duplicates(),
    {
        let t = s.remove(i);
        s.remove_ensures(i);
        assert(Self::keys_of(t) =~= Self::keys_of(s).remove(i)) by {
            Self::keys_of(s).remove_ensures(i);
            assert forall|j: int| 0 <= j < t.len()
                implies Self::keys_of(t)[j] == Self::keys_of(s).remove(i)[j] by {
                if j < i {
                    assert(t[j] == s[j]);
                } else {
                    assert(t[j] == s[j + 1]);
                }
            };
        };
        lemma_remove_to_set(Self::keys_of(s), i);
        assert(Self::keys_of(s)[i] == s[i].0);
        Self::lemma_entries_view_char(s);
        Self::lemma_entries_view_char(t);
        let lhs = Self::entries_view(t);
        let rhs = Self::entries_view(s).remove(s[i].0);
        assert forall|p: PeerIndex| #[trigger] lhs.dom().contains(p) implies rhs.dom().contains(p)
            && lhs[p] == rhs[p] by {
            let j = choose|j: int| 0 <= j < t.len() && Self::keys_of(t)[j] == p;
            assert(t[j].0 == p);
            assert(lhs[p] == t[j].1@);
            let j2: int = if j < i { j } else { j + 1 };
            assert(t[j] == s[j2]);
            assert(Self::keys_of(s)[j2] == p);
            assert(Self::keys_of(s)[i] != Self::keys_of(s)[j2]);
            assert(Self::entries_view(s)[p] == s[j2].1@);
        };
        assert forall|p: PeerIndex| #[trigger] rhs.dom().contains(p) implies lhs.dom().contains(p) by {
            let j = choose|j: int| 0 <= j < s.len() && Self::keys_of(s)[j] == p;
            assert(j != i);
            let j2: int = if j < i { j } else { j - 1 };
            assert(t[j2] == s[j]);
            assert(Self::keys_of(t)[j2] == p);
        };
        assert(lhs =~= rhs);
    }

    /// Public form of the entry characterization, for callers that walk the
    /// entries while reasoning about the map.
    pub proof fn lemma_entries_char(&self)
        requires
            self.wf(),
        ensures
            forall|p: PeerIndex|
                #[trigger] self@.dom().contains(p) <==> Self::keys_of(self.spec_entries()).contains(p),
            forall|i: int|
                0 <= i < self.spec_entries().len() ==> self@.dom().contains(
                    #[trigger] self.spec_entries()[i].0,
                ) && self@[self.spec_entries()[i].0] == self.spec_entries()[i].1@,
    {
        Self::lemma_entries_view_char(self.entries@);
    }

    pub fn new() -> (r: Self)
        ensures
            r.wf(),
            r@ == Map::<PeerIndex, <V as View>::V>::empty(),
    {
        let r = PeerIndexMap { entries: Vec::new() };
        proof {
            assert(r@ =~= Map::<PeerIndex, <V as View>::V>::empty());
            assert(Self::keys_of(r.entries@) =~= Seq::<PeerIndex>::empty());
        }
        r
    }

    pub fn get(&self, peer_index: PeerIndex) -> (r: Option<&V>)
        requires
            self.wf(),
        ensures
            match r {
                Some(v) => self@.dom().contains(peer_index) && v@ == self@[peer_index],
                None => !self@.dom().contains(peer_index),
            },
    {
        let n = self.entries.len();
        let mut i: usize = 0;
        while i < n
            invariant
                self.wf(),
                n == self.entries@.len(),
                i <= n,
                forall|j: int| 0 <= j < i ==> self.entries@[j].0 != peer_index,
            decreases n - i,
        {
            if self.entries[i].0 == peer_index {
                proof {
                    Self::lemma_entries_view_char(self.entries@);
                }
                return Some(&self.entries[i].1);
            }
            i += 1;
        }
        proof {
            Self::lemma_entries_view_char(self.entries@);
            assert forall|j: int| 0 <= j < self.entries@.len()
                implies Self::keys_of(self.entries@)[j] != peer_index by {
                assert(self.entries@[j].0 != peer_index);
            };
            assert(!Self::keys_of(self.entries@).contains(peer_index));
        }
        None
    }

    pub fn remove(&mut self, peer_index: PeerIndex) -> (r: Option<V>)
        requires
            old(self).wf(),
        ensures
            final(self).wf(),
            final(self)@ == old(self)@.remove(peer_index),
            match r {
                Some(v) => old(self)@.dom().contains(peer_index) && v@ == old(self)@[peer_index],
                None => !old(self)@.dom().contains(peer_index),
            },
    {
        let n = self.entries.len();
        let mut i: usize = 0;
        while i < n
            invariant
                self == old(self),
                old(self).wf(),
                n == self.entries@.len(),
                i <= n,
                forall|j: int| 0 <= j < i ==> self.entries@[j].0 != peer_index,
            decreases n - i,
        {
            if self.entries[i].0 == peer_index {
                proof {
                    Self::lemma_entries_view_char(self.entries@);
                    Self::lemma_entries_view_remove(self.entries@, i as int);
                }
                let e = self.entries.remove(i);
                return Some(e.1);
            }
            i += 1;
        }
        proof {
            Self::lemma_entries_view_char(self.entries@);
            assert forall|j: int| 0 <= j < self.entries@.len()
                implies Self::keys_of(self.entries@)[j] != peer_index by {
                assert(self.entries@[j].0 != peer_index);
            };
            assert(!Self::keys_of(self.entries@).contains(peer_index));
            assert(old(self)@.remove(peer_index) =~= old(self)@);
        }
        None
    }

    pub fn insert(&mut self, peer_index: PeerIndex, value: V)
        requires
            old(self).wf(),
        ensures
            final(self).wf(),
            final(self)@ == old(self)@.insert(peer_index, value@),
    {
        let _ = self.remove(peer_index);
        let ghost mid = self.entries@;
        self.entries.push((peer_index, value));
        proof {
            assert(self.entries@.drop_last() =~= mid);
            assert(self@ == Self::entries_view(mid).insert(peer_index, value@));
            assert(self@ =~= old(self)@.insert(peer_index, value@));
            assert(Self::keys_of(self.entries@) =~= Self::keys_of(mid).push(peer_index));
            Self::lemma_entries_view_char(mid);
            assert(!Self::entries_view(mid).dom().contains(peer_index));
            assert(!Self::keys_of(mid).contains(peer_index));
            assert forall|k: int, l: int|
                0 <= k < Self::keys_of(self.entries@).len() && 0 <= l < Self::keys_of(
                    self.entries@,
                ).len() && k != l
                implies Self::keys_of(self.entries@)[k] != Self::keys_of(self.entries@)[l] by {
                let m = Self::keys_of(self.entries@).len() - 1;
                if l == m {
                    assert(Self::keys_of(mid)[k] != peer_index);
                } else if k == m {
                    assert(Self::keys_of(mid)[l] != peer_index);
                } else {
                    assert(Self::keys_of(mid)[k] != Self::keys_of(mid)[l]);
                }
            };
        }
    }

    pub fn clear(&mut self)
        ensures
            final(self).wf(),
            final(self)@ == Map::<PeerIndex, <V as View>::V>::empty(),
    {
        self.entries.clear();
        proof {
            assert(self@ =~= Map::<PeerIndex, <V as View>::V>::empty());
            assert(Self::keys_of(self.entries@) =~= Seq::<PeerIndex>::empty());
        }
    }

    pub fn is_empty(&self) -> (r: bool)
        ensures
            r <==> self@.dom() == Set::<PeerIndex>::empty(),
    {
        let r = self.entries.is_empty();
        proof {
            if self.entries@.len() == 0 {
                assert(self@ =~= Map::<PeerIndex, <V as View>::V>::empty());
                assert(self@.dom() =~= Set::<PeerIndex>::empty());
            } else {
                assert(self@.dom().contains(self.entries@.last().0));
                assert(!Set::<PeerIndex>::empty().contains(self.entries@.last().0));
            }
        }
        r
    }

    /// The backing entries, for callers that walk all pairs.
    pub fn entries(&self) -> (r: &Vec<(PeerIndex, V)>)
        ensures
            r@ == self.spec_entries(),
    {
        &self.entries
    }
}

} // verus!
