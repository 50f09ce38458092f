//! The aggregate of all current snapshots.
//!
//! The aggregator consumes "item updated" events. An event with a snapshot
//! inserts or overwrites the peer's entry, an event without one removes it.
//! After every event the aggregator hands out a frame: the complete current
//! set of snapshots, never a delta.

use crate::item::{items_view, Item, ItemView};
use vstd::prelude::*;

verus! {

/// The mathematical value of an [`Aggregator`]: the peers that have an entry,
/// in the order in which their snapshots stand in a frame, and the snapshots
/// in that same order.
pub struct AggregateView {
    pub peers: Seq<Seq<char>>,
    pub snapshots: Seq<ItemView>,
}

impl AggregateView {
    /// The aggregate without any entry.
    pub open spec fn empty() -> Self {
        AggregateView { peers: Seq::empty(), snapshots: Seq::empty() }
    }

    /// Every peer has exactly one snapshot and occurs once.
    pub open spec fn wf(self) -> bool {
        &&& self.peers.len() == self.snapshots.len()
        &&& self.peers.no_duplicates()
    }

    /// The aggregate as a mapping from peer to snapshot.
    pub open spec fn as_map(self) -> Map<Seq<char>, ItemView> {
        Map::new(
            |peer: Seq<char>| self.peers.contains(peer),
            |peer: Seq<char>| self.snapshots[self.peers.index_of(peer)],
        )
    }

    /// The aggregate after one event. A new peer's snapshot goes to the end;
    /// a known peer's snapshot is replaced where it stands.
    pub open spec fn apply(self, peer: Seq<char>, update: Option<ItemView>) -> Self {
        match update {
            Some(snapshot) => {
                if self.peers.contains(peer) {
                    AggregateView {
                        peers: self.peers,
                        snapshots: self.snapshots.update(self.peers.index_of(peer), snapshot),
                    }
                } else {
                    AggregateView {
                        peers: self.peers.push(peer),
                        snapshots: self.snapshots.push(snapshot),
                    }
                }
            },
            None => {
                if self.peers.contains(peer) {
                    AggregateView {
                        peers: self.peers.remove(self.peers.index_of(peer)),
                        snapshots: self.snapshots.remove(self.peers.index_of(peer)),
                    }
                } else {
                    self
                }
            },
        }
    }

    /// The frame that is emitted in this state.
    pub open spec fn frame(self) -> Seq<ItemView> {
        self.snapshots
    }

    /// The aggregate after a sequence of events, applied in order.
    pub open spec fn apply_all(self, events: Seq<(Seq<char>, Option<ItemView>)>) -> Self
        decreases events.len(),
    {
        if events.len() == 0 {
            self
        } else {
            self.apply_all(events.drop_last()).apply(events.last().0, events.last().1)
        }
    }
}

/// In a well-formed aggregate a peer is found at the one place where it
/// stands.
pub proof fn lemma_index_of_unique(peers: Seq<Seq<char>>, i: int)
    requires
        peers.no_duplicates(),
        0 <= i < peers.len(),
    ensures
        peers.contains(peers[i]),
        peers.index_of(peers[i]) == i,
{
}

/// An event leaves the aggregate well formed.
pub proof fn lemma_apply_wf(state: AggregateView, peer: Seq<char>, update: Option<ItemView>)
    requires
        state.wf(),
    ensures
        state.apply(peer, update).wf(),
{
    let next = state.apply(peer, update);
    if state.peers.contains(peer) {
        let i = state.peers.index_of(peer);
        if update is None {
            assert forall|a: int, b: int|
                0 <= a < next.peers.len() && 0 <= b < next.peers.len() && a != b implies
                next.peers[a] != next.peers[b] by {
                let a0 = if a < i { a } else { a + 1 };
                let b0 = if b < i { b } else { b + 1 };
                assert(next.peers[a] == state.peers[a0]);
                assert(next.peers[b] == state.peers[b0]);
            }
        }
    } else {
        assert forall|a: int, b: int|
            0 <= a < next.peers.len() && 0 <= b < next.peers.len() && a != b implies next.peers[a]
            != next.peers[b] by {
            if a < state.peers.len() {
                assert(state.peers.contains(state.peers[a]));
            }
            if b < state.peers.len() {
                assert(state.peers.contains(state.peers[b]));
            }
        }
    }
}

/// An event with a snapshot inserts or overwrites the peer's entry and
/// touches no other.
pub proof fn lemma_update_is_insert(state: AggregateView, peer: Seq<char>, snapshot: ItemView)
    requires
        state.wf(),
    ensures
        state.apply(peer, Some(snapshot)).as_map() == state.as_map().insert(peer, snapshot),
{
    let next = state.apply(peer, Some(snapshot));
    lemma_apply_wf(state, peer, Some(snapshot));
    assert forall|k: Seq<char>| next.peers.contains(k) <==> (k == peer || state.peers.contains(
        k,
    )) by {
        if state.peers.contains(peer) {
        } else {
            if state.peers.contains(k) {
                let j = state.peers.index_of(k);
                assert(next.peers[j] == k);
            }
            assert(next.peers[state.peers.len() as int] == peer);
        }
    }
    assert forall|k: Seq<char>| next.peers.contains(k) implies #[trigger] next.as_map()[k]
        == state.as_map().insert(peer, snapshot)[k] by {
        let j = next.peers.index_of(k);
        lemma_index_of_unique(next.peers, j);
        if state.peers.contains(peer) {
            let i = state.peers.index_of(peer);
            lemma_index_of_unique(state.peers, j);
        } else {
            if k != peer {
                lemma_index_of_unique(state.peers, j);
            }
        }
    }
    assert(next.as_map() =~= state.as_map().insert(peer, snapshot));
}

/// An event without a snapshot removes the peer's entry, if there is one,
/// and touches no other.
pub proof fn lemma_removal_is_remove(state: AggregateView, peer: Seq<char>)
    requires
        state.wf(),
    ensures
        state.apply(peer, None).as_map() == state.as_map().remove(peer),
        !state.peers.contains(peer) ==> state.apply(peer, None) == state,
{
    let next = state.apply(peer, None);
    lemma_apply_wf(state, peer, None);
    if state.peers.contains(peer) {
        let i = state.peers.index_of(peer);
        assert forall|k: Seq<char>| next.peers.contains(k) <==> (k != peer && state.peers.contains(
            k,
        )) by {
            if next.peers.contains(k) {
                let j = next.peers.index_of(k);
                let j0 = if j < i { j } else { j + 1 };
                assert(state.peers[j0] == k);
            }
            if k != peer && state.peers.contains(k) {
                let j0 = state.peers.index_of(k);
                let j = if j0 < i { j0 } else { j0 - 1 };
                assert(next.peers[j] == k);
            }
        }
        assert forall|k: Seq<char>| next.peers.contains(k) implies #[trigger] next.as_map()[k]
            == state.as_map().remove(peer)[k] by {
            let j = next.peers.index_of(k);
            let j0 = if j < i { j } else { j + 1 };
            assert(state.peers[j0] == k);
            lemma_index_of_unique(state.peers, j0);
        }
        assert(next.as_map() =~= state.as_map().remove(peer));
    } else {
        assert(next.as_map() =~= state.as_map().remove(peer));
    }
}

/// The mapping has one entry for each peer of the aggregate, and the frame
/// has one snapshot for each entry.
pub proof fn lemma_one_snapshot_per_peer(state: AggregateView)
    requires
        state.wf(),
    ensures
        state.as_map().dom() == state.peers.to_set(),
        state.as_map().dom().finite(),
        state.as_map().dom().len() == state.frame().len(),
        forall|i: int|
            0 <= i < state.frame().len() ==> state.as_map()[#[trigger] state.peers[i]]
                == state.frame()[i],
{
    assert(state.as_map().dom() =~= state.peers.to_set());
    vstd::seq_lib::seq_to_set_is_finite(state.peers);
    state.peers.unique_seq_to_set();
    assert forall|i: int| 0 <= i < state.frame().len() implies state.as_map()[
    #[trigger] state.peers[i]] == state.frame()[i] by {
        lemma_index_of_unique(state.peers, i);
    }
}

/// A snapshot followed by the departure of the same peer leaves no entry for
/// that peer and changes no other entry. If the peer had no entry before, the
/// aggregate, and with it the emitted frame, is what it was before the peer
/// appeared.
pub proof fn lemma_snapshot_then_departure(
    state: AggregateView,
    peer: Seq<char>,
    snapshot: ItemView,
)
    requires
        state.wf(),
    ensures
        ({
            let end = state.apply(peer, Some(snapshot)).apply(peer, None);
            &&& end.wf()
            &&& !end.peers.contains(peer)
            &&& end.as_map() == state.as_map().remove(peer)
            &&& !state.peers.contains(peer) ==> end == state
        }),
{
    let mid = state.apply(peer, Some(snapshot));
    let end = mid.apply(peer, None);
    lemma_apply_wf(state, peer, Some(snapshot));
    lemma_apply_wf(mid, peer, None);
    lemma_update_is_insert(state, peer, snapshot);
    lemma_removal_is_remove(mid, peer);
    assert(end.as_map() =~= state.as_map().remove(peer));
    assert(!end.as_map().dom().contains(peer));
    if !state.peers.contains(peer) {
        let n = state.peers.len() as int;
        assert(mid.peers[n] == peer);
        lemma_index_of_unique(mid.peers, n);
        assert(end.peers =~= state.peers);
        assert(end.snapshots =~= state.snapshots);
    }
}

/// Processed the other way round, the two events leave the peer's entry in
/// the aggregate: this is why the order of one peer's events has to be kept.
pub proof fn lemma_departure_then_snapshot(
    state: AggregateView,
    peer: Seq<char>,
    snapshot: ItemView,
)
    requires
        state.wf(),
    ensures
        ({
            let end = state.apply(peer, None).apply(peer, Some(snapshot));
            &&& end.wf()
            &&& end.peers.contains(peer)
            &&& end.as_map() == state.as_map().insert(peer, snapshot)
        }),
{
    let mid = state.apply(peer, None);
    let end = mid.apply(peer, Some(snapshot));
    lemma_apply_wf(state, peer, None);
    lemma_apply_wf(mid, peer, Some(snapshot));
    lemma_removal_is_remove(state, peer);
    lemma_update_is_insert(mid, peer, snapshot);
    assert(end.as_map() =~= state.as_map().insert(peer, snapshot));
    assert(end.as_map().dom().contains(peer));
}

/// The events of peers that each produce one snapshot.
pub open spec fn as_updates(produced: Seq<(Seq<char>, ItemView)>) -> Seq<
    (Seq<char>, Option<ItemView>),
> {
    Seq::new(produced.len(), |i: int| (produced[i].0, Some(produced[i].1)))
}

/// No peer occurs twice among the producers.
pub open spec fn distinct_peers(produced: Seq<(Seq<char>, ItemView)>) -> bool {
    forall|i: int, j: int|
        0 <= i < j < produced.len() ==> (#[trigger] produced[i]).0 != (#[trigger] produced[j]).0
}

/// After peers that differ from one another have each produced one snapshot,
/// the aggregate holds exactly these peers and the frame holds exactly their
/// snapshots, one for each.
pub proof fn lemma_full_frame(produced: Seq<(Seq<char>, ItemView)>)
    requires
        distinct_peers(produced),
    ensures
        ({
            let end = AggregateView::empty().apply_all(as_updates(produced));
            &&& end.wf()
            &&& end.peers == Seq::new(produced.len(), |i: int| produced[i].0)
            &&& end.frame() == Seq::new(produced.len(), |i: int| produced[i].1)
        }),
    decreases produced.len(),
{
    let events = as_updates(produced);
    if produced.len() > 0 {
        let earlier = produced.drop_last();
        assert(distinct_peers(earlier)) by {
            assert forall|i: int, j: int| 0 <= i < j < earlier.len() implies (
            #[trigger] earlier[i]).0 != (#[trigger] earlier[j]).0 by {
                assert(earlier[i] == produced[i] && earlier[j] == produced[j]);
            }
        }
        lemma_full_frame(earlier);
        assert(events.drop_last() =~= as_updates(earlier));
        let mid = AggregateView::empty().apply_all(as_updates(earlier));
        let last = produced.last();
        assert(events.last() == (last.0, Some(last.1)));
        assert(!mid.peers.contains(last.0)) by {
            if mid.peers.contains(last.0) {
                let i = mid.peers.index_of(last.0);
                assert(produced[i].0 == produced[produced.len() - 1].0);
            }
        }
        let end = mid.apply(last.0, Some(last.1));
        lemma_apply_wf(mid, last.0, Some(last.1));
        assert(end.peers =~= Seq::new(produced.len(), |i: int| produced[i].0));
        assert(end.snapshots =~= Seq::new(produced.len(), |i: int| produced[i].1));
    } else {
        assert(AggregateView::empty().peers =~= Seq::new(produced.len(), |i: int| produced[i].0));
        assert(AggregateView::empty().snapshots =~= Seq::new(
            produced.len(),
            |i: int| produced[i].1,
        ));
    }
}

/// The order in which the peers produce their snapshots does not matter: two
/// runs over the same snapshots, in whatever order, end with the same mapping
/// from peer to snapshot and with frames that hold the same snapshots, each
/// as often as the other.
pub proof fn lemma_full_frame_any_order(
    first: Seq<(Seq<char>, ItemView)>,
    second: Seq<(Seq<char>, ItemView)>,
)
    requires
        distinct_peers(first),
        first.to_multiset() == second.to_multiset(),
    ensures
        ({
            let a = AggregateView::empty().apply_all(as_updates(first));
            let b = AggregateView::empty().apply_all(as_updates(second));
            &&& a.as_map() == b.as_map()
            &&& a.frame().to_multiset() == b.frame().to_multiset()
            &&& a.frame().len() == first.len()
            &&& b.frame().len() == first.len()
        }),
{
    let a = AggregateView::empty().apply_all(as_updates(first));
    let b = AggregateView::empty().apply_all(as_updates(second));
    lemma_reordering_keeps_distinct(first, second);
    lemma_full_frame(first);
    lemma_full_frame(second);
    lemma_produced_map(first, a);
    lemma_produced_map(second, b);
    vstd::seq_lib::to_multiset_len(first);
    vstd::seq_lib::to_multiset_len(second);
    assert forall|k: Seq<char>| a.peers.contains(k) <==> b.peers.contains(k) by {
        if a.peers.contains(k) {
            let i = a.peers.index_of(k);
            lemma_occurs_in_reordering(first, second, i);
            let j = second.index_of(first[i]);
            assert(b.peers[j] == k);
        }
        if b.peers.contains(k) {
            let i = b.peers.index_of(k);
            lemma_occurs_in_reordering(second, first, i);
            let j = first.index_of(second[i]);
            assert(a.peers[j] == k);
        }
    }
    assert forall|k: Seq<char>| a.peers.contains(k) implies #[trigger] a.as_map()[k]
        == b.as_map()[k] by {
        let i = a.peers.index_of(k);
        lemma_occurs_in_reordering(first, second, i);
        let j = second.index_of(first[i]);
        assert(b.peers[j] == k);
        lemma_index_of_unique(b.peers, j);
        lemma_index_of_unique(a.peers, i);
    }
    assert(a.as_map() =~= b.as_map());
    let snapshot = |produced: (Seq<char>, ItemView)| produced.1;
    lemma_reordering_maps(first, second, snapshot);
    assert(a.frame() =~= first.map_values(snapshot));
    assert(b.frame() =~= second.map_values(snapshot));
}

/// What stands at place `i` of a sequence stands somewhere in each of its
/// reorderings.
proof fn lemma_occurs_in_reordering<A>(first: Seq<A>, second: Seq<A>, i: int)
    requires
        first.to_multiset() == second.to_multiset(),
        0 <= i < first.len(),
    ensures
        second.contains(first[i]),
{
    assert(first.contains(first[i]));
    vstd::seq_lib::to_multiset_contains(first, first[i]);
    vstd::seq_lib::to_multiset_contains(second, first[i]);
}

/// A reordering of producers that differ from one another consists of
/// producers that differ from one another.
proof fn lemma_reordering_keeps_distinct(
    first: Seq<(Seq<char>, ItemView)>,
    second: Seq<(Seq<char>, ItemView)>,
)
    requires
        distinct_peers(first),
        first.to_multiset() == second.to_multiset(),
    ensures
        distinct_peers(second),
    decreases first.len(),
{
    vstd::seq_lib::to_multiset_len(first);
    vstd::seq_lib::to_multiset_len(second);
    if second.len() > 0 {
        let last = second.last();
        lemma_occurs_in_reordering(second, first, second.len() - 1);
        let j = first.index_of(last);
        let rest_first = first.remove(j);
        let rest_second = second.drop_last();
        assert(rest_second.push(last) =~= second);
        vstd::seq_lib::to_multiset_build(rest_second, last);
        vstd::seq_lib::to_multiset_remove(first, j);
        assert(rest_first.to_multiset() =~= rest_second.to_multiset());
        assert(distinct_peers(rest_first)) by {
            assert forall|x: int, y: int| 0 <= x < y < rest_first.len() implies (
            #[trigger] rest_first[x]).0 != (#[trigger] rest_first[y]).0 by {
                let x0 = if x < j { x } else { x + 1 };
                let y0 = if y < j { y } else { y + 1 };
                assert(rest_first[x] == first[x0] && rest_first[y] == first[y0]);
            }
        }
        lemma_reordering_keeps_distinct(rest_first, rest_second);
        assert forall|x: int, y: int| 0 <= x < y < second.len() implies (#[trigger] second[x]).0
            != (#[trigger] second[y]).0 by {
            if y < second.len() - 1 {
                assert(second[x] == rest_second[x] && second[y] == rest_second[y]);
            } else {
                assert(second[y] == first[j]);
                assert(second[x] == rest_second[x]);
                lemma_occurs_in_reordering(rest_second, rest_first, x);
                let z = rest_first.index_of(rest_second[x]);
                let z0 = if z < j { z } else { z + 1 };
                assert(rest_first[z] == first[z0]);
                if z0 < j {
                    assert(first[z0].0 != first[j].0);
                } else {
                    assert(first[j].0 != first[z0].0);
                }
            }
        }
    }
}

/// Mapping two reorderings of one sequence gives two reorderings of one
/// sequence.
proof fn lemma_reordering_maps<A, B>(first: Seq<A>, second: Seq<A>, f: spec_fn(A) -> B)
    requires
        first.to_multiset() == second.to_multiset(),
    ensures
        first.map_values(f).to_multiset() == second.map_values(f).to_multiset(),
    decreases first.len(),
{
    vstd::seq_lib::to_multiset_len(first);
    vstd::seq_lib::to_multiset_len(second);
    if first.len() == 0 {
        assert(first.map_values(f) =~= second.map_values(f));
    } else {
        let last = first.last();
        lemma_occurs_in_reordering(first, second, first.len() - 1);
        let j = second.index_of(last);
        let rest_first = first.drop_last();
        let rest_second = second.remove(j);
        assert(rest_first.push(last) =~= first);
        vstd::seq_lib::to_multiset_build(rest_first, last);
        vstd::seq_lib::to_multiset_remove(second, j);
        assert(rest_first.to_multiset() =~= rest_second.to_multiset());
        lemma_reordering_maps(rest_first, rest_second, f);
        assert(first.map_values(f) =~= rest_first.map_values(f).push(f(last)));
        vstd::seq_lib::to_multiset_build(rest_first.map_values(f), f(last));
        assert(second.map_values(f) =~= rest_second.map_values(f).insert(j, f(last)));
        vstd::seq_lib::to_multiset_insert(rest_second.map_values(f), j, f(last));
    }
}

proof fn lemma_produced_map(produced: Seq<(Seq<char>, ItemView)>, end: AggregateView)
    requires
        end.wf(),
        end.peers == Seq::new(produced.len(), |i: int| produced[i].0),
        end.snapshots == Seq::new(produced.len(), |i: int| produced[i].1),
    ensures
        forall|i: int|
            0 <= i < produced.len() ==> end.peers.contains(#[trigger] produced[i].0)
                && end.as_map()[produced[i].0] == produced[i].1,
{
    assert forall|i: int| 0 <= i < produced.len() implies end.peers.contains(
        #[trigger] produced[i].0,
    ) && end.as_map()[produced[i].0] == produced[i].1 by {
        assert(end.peers[i] == produced[i].0);
        lemma_index_of_unique(end.peers, i);
    }
}

/// The mathematical value of an event's payload.
pub open spec fn update_view(update: Option<Item>) -> Option<ItemView> {
    match update {
        Some(item) => Some(item@),
        None => None,
    }
}

struct Entry {
    peer: String,
    item: Item,
}

/// The single owner of the aggregate state.
pub struct Aggregator {
    entries: Vec<Entry>,
}

spec fn peers_of(entries: Seq<Entry>) -> Seq<Seq<char>> {
    Seq::new(entries.len(), |i: int| entries[i].peer@)
}

spec fn snapshots_of(entries: Seq<Entry>) -> Seq<ItemView> {
    Seq::new(entries.len(), |i: int| entries[i].item@)
}

impl View for Aggregator {
    type V = AggregateView;

    closed spec fn view(&self) -> AggregateView {
        AggregateView { peers: peers_of(self.entries@), snapshots: snapshots_of(self.entries@) }
    }
}

/// Place of `peer` among the entries, if it has one.
fn position(entries: &Vec<Entry>, peer: &String) -> (found: Option<usize>)
    ensures
        match found {
            Some(i) => i < entries@.len() && entries@[i as int].peer@ == peer@,
            None => !peers_of(entries@).contains(peer@),
        },
{
    let mut i: usize = 0;
    while i < entries.len()
        invariant
            i <= entries@.len(),
            forall|j: int| 0 <= j < i ==> entries@[j].peer@ != peer@,
        decreases entries@.len() - i,
    {
        if entries[i].peer == *peer {
            return Some(i);
        }
        i = i + 1;
    }
    assert(!peers_of(entries@).contains(peer@)) by {
        if peers_of(entries@).contains(peer@) {
            let j = peers_of(entries@).index_of(peer@);
            assert(entries@[j].peer@ == peer@);
        }
    }
    None
}

impl Aggregator {
    #[verifier::type_invariant]
    spec fn well_formed(self) -> bool {
        self@.wf()
    }

    /// The aggregate at startup: no entry.
    pub fn new() -> (aggregator: Self)
        ensures
            aggregator@ == AggregateView::empty(),
    {
        let aggregator = Aggregator { entries: Vec::new() };
        assert(aggregator@.peers =~= Seq::<Seq<char>>::empty());
        assert(aggregator@.snapshots =~= Seq::<ItemView>::empty());
        aggregator
    }

    /// Number of peers that have an entry.
    pub fn len(&self) -> (n: usize)
        ensures
            self@.wf(),
            n == self@.peers.len(),
    {
        proof {
            use_type_invariant(self);
        }
        self.entries.len()
    }

    /// The complete current set of snapshots.
    pub fn frame(&self) -> (frame: Vec<Item>)
        ensures
            self@.wf(),
            items_view(frame@) == self@.frame(),
    {
        proof {
            use_type_invariant(self);
        }
        let mut frame: Vec<Item> = Vec::new();
        let mut i: usize = 0;
        while i < self.entries.len()
            invariant
                i <= self.entries@.len(),
                frame@.len() == i,
                forall|j: int| 0 <= j < i ==> (#[trigger] frame@[j])@ == self.entries@[j].item@,
            decreases self.entries@.len() - i,
        {
            frame.push(self.entries[i].item.clone());
            i = i + 1;
        }
        assert(items_view(frame@) =~= self@.frame());
        frame
    }

    /// Processes one "item updated" event and returns the frame to emit.
    pub fn apply(&mut self, peer: String, update: Option<Item>) -> (frame: Vec<Item>)
        ensures
            final(self)@ == old(self)@.apply(peer@, update_view(update)),
            final(self)@.wf(),
            items_view(frame@) == final(self)@.frame(),
    {
        proof {
            use_type_invariant(&*self);
        }
        let ghost before = self@;
        let ghost event = update_view(update);
        let mut entries: Vec<Entry> = Vec::new();
        std::mem::swap(&mut entries, &mut self.entries);
        assert(peers_of(entries@) == before.peers);
        assert(snapshots_of(entries@) == before.snapshots);
        let found = position(&entries, &peer);
        proof {
            lemma_apply_wf(before, peer@, event);
            if let Some(i) = found {
                lemma_index_of_unique(before.peers, i as int);
            }
        }
        match update {
            Some(item) => {
                match found {
                    Some(i) => {
                        entries.set(i, Entry { peer, item });
                    },
                    None => {
                        entries.push(Entry { peer, item });
                    },
                }
            },
            None => {
                match found {
                    Some(i) => {
                        entries.remove(i);
                    },
                    None => {},
                }
            },
        }
        assert(peers_of(entries@) =~= before.apply(peer@, event).peers);
        assert(snapshots_of(entries@) =~= before.apply(peer@, event).snapshots);
        self.entries = entries;
        self.frame()
    }
}

} // verus!
