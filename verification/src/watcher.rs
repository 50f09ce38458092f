//! The registry that tray items announce themselves to.
//!
//! The registry holds the set of registered peers and one flag that says
//! whether a consumer has announced itself. Every operation changes the
//! state, if it has to, and names the notifications that go out on the bus.
//! Registering a peer twice, or unregistering an unknown one, changes nothing
//! and still notifies.

use vstd::prelude::*;

verus! {

/// The version of the protocol that the registry speaks.
pub const PROTOCOL_VERSION: u64 = 1;

/// A notification that the registry sends after an operation.
#[derive(Debug, PartialEq, Eq)]
pub enum WatcherSignal {
    /// The set of registered peers is to be read again.
    RegisteredItemsChanged,
    /// The named peer was registered.
    ItemRegistered(String),
    /// The named peer was unregistered.
    ItemUnregistered(String),
    /// The consumer flag is to be read again.
    HostRegisteredChanged,
    /// The named consumer announced itself.
    HostRegistered(String),
}

/// The mathematical value of a [`WatcherSignal`].
pub enum WatcherSignalView {
    RegisteredItemsChanged,
    ItemRegistered(Seq<char>),
    ItemUnregistered(Seq<char>),
    HostRegisteredChanged,
    HostRegistered(Seq<char>),
}

impl View for WatcherSignal {
    type V = WatcherSignalView;

    open spec fn view(&self) -> WatcherSignalView {
        match self {
            WatcherSignal::RegisteredItemsChanged => WatcherSignalView::RegisteredItemsChanged,
            WatcherSignal::ItemRegistered(peer) => WatcherSignalView::ItemRegistered(peer@),
            WatcherSignal::ItemUnregistered(peer) => WatcherSignalView::ItemUnregistered(peer@),
            WatcherSignal::HostRegisteredChanged => WatcherSignalView::HostRegisteredChanged,
            WatcherSignal::HostRegistered(name) => WatcherSignalView::HostRegistered(name@),
        }
    }
}

/// The notifications of a list, each as its mathematical value.
pub open spec fn signals_view(signals: Seq<WatcherSignal>) -> Seq<WatcherSignalView> {
    Seq::new(signals.len(), |i: int| signals[i]@)
}

/// The names of a list, each as its mathematical value.
pub open spec fn names_view(names: Seq<String>) -> Seq<Seq<char>> {
    Seq::new(names.len(), |i: int| names[i]@)
}

/// The mathematical value of the registry: the consumer flag and the
/// registered peers in the order in which they are listed.
pub struct WatcherView {
    pub host_registered: bool,
    pub items: Seq<Seq<char>>,
}

impl WatcherView {
    /// The registry at startup: no consumer, no peer.
    pub open spec fn initial() -> Self {
        WatcherView { host_registered: false, items: Seq::empty() }
    }

    /// No peer is listed twice.
    pub open spec fn wf(self) -> bool {
        self.items.no_duplicates()
    }

    /// The set of registered peers.
    pub open spec fn peers(self) -> Set<Seq<char>> {
        self.items.to_set()
    }

    /// The state after `peer` was registered and the notifications sent.
    pub open spec fn register(self, peer: Seq<char>) -> (Self, Seq<WatcherSignalView>) {
        (
            if self.items.contains(peer) {
                self
            } else {
                WatcherView { items: self.items.push(peer), ..self }
            },
            seq![
                WatcherSignalView::RegisteredItemsChanged,
                WatcherSignalView::ItemRegistered(peer),
            ],
        )
    }

    /// The state after `peer` was unregistered and the notifications sent.
    pub open spec fn unregister(self, peer: Seq<char>) -> (Self, Seq<WatcherSignalView>) {
        (
            if self.items.contains(peer) {
                WatcherView { items: self.items.remove(self.items.index_of(peer)), ..self }
            } else {
                self
            },
            seq![
                WatcherSignalView::RegisteredItemsChanged,
                WatcherSignalView::ItemUnregistered(peer),
            ],
        )
    }

    /// The state after each of `peers` was unregistered, in order.
    pub open spec fn unregister_all(self, peers: Seq<Seq<char>>) -> Self
        decreases peers.len(),
    {
        if peers.len() == 0 {
            self
        } else {
            self.unregister_all(peers.drop_last()).unregister(peers.last()).0
        }
    }

    /// The state after the consumer `name` announced itself and the
    /// notifications sent. There is one consumer slot, and nothing takes the
    /// flag back.
    pub open spec fn register_host(self, name: Seq<char>) -> (Self, Seq<WatcherSignalView>) {
        (
            WatcherView { host_registered: true, ..self },
            seq![
                WatcherSignalView::HostRegisteredChanged,
                WatcherSignalView::HostRegistered(name),
            ],
        )
    }
}

/// Registration adds the peer to the set of peers and to nothing else, and
/// keeps the list free of duplicates.
pub proof fn lemma_register_inserts(state: WatcherView, peer: Seq<char>)
    requires
        state.wf(),
    ensures
        state.register(peer).0.wf(),
        state.register(peer).0.peers() == state.peers().insert(peer),
        state.register(peer).0.host_registered == state.host_registered,
{
    let next = state.register(peer).0;
    if !state.items.contains(peer) {
        assert forall|a: int, b: int|
            0 <= a < next.items.len() && 0 <= b < next.items.len() && a != b implies next.items[a]
            != next.items[b] by {
            if a < state.items.len() {
                assert(state.items.contains(state.items[a]));
            }
            if b < state.items.len() {
                assert(state.items.contains(state.items[b]));
            }
        }
        assert forall|k: Seq<char>| next.items.contains(k) <==> (k == peer || state.items.contains(
            k,
        )) by {
            if state.items.contains(k) {
                let j = state.items.index_of(k);
                assert(next.items[j] == k);
            }
            assert(next.items[state.items.len() as int] == peer);
        }
    }
    assert(next.peers() =~= state.peers().insert(peer));
}

/// Unregistration removes the peer from the set of peers and nothing else,
/// and keeps the list free of duplicates.
pub proof fn lemma_unregister_removes(state: WatcherView, peer: Seq<char>)
    requires
        state.wf(),
    ensures
        state.unregister(peer).0.wf(),
        state.unregister(peer).0.peers() == state.peers().remove(peer),
        state.unregister(peer).0.host_registered == state.host_registered,
{
    let next = state.unregister(peer).0;
    if state.items.contains(peer) {
        let i = state.items.index_of(peer);
        assert forall|a: int, b: int|
            0 <= a < next.items.len() && 0 <= b < next.items.len() && a != b implies next.items[a]
            != next.items[b] by {
            let a0 = if a < i { a } else { a + 1 };
            let b0 = if b < i { b } else { b + 1 };
            assert(next.items[a] == state.items[a0]);
            assert(next.items[b] == state.items[b0]);
        }
        assert forall|k: Seq<char>| next.items.contains(k) <==> (k != peer && state.items.contains(
            k,
        )) by {
            if next.items.contains(k) {
                let j = next.items.index_of(k);
                let j0 = if j < i { j } else { j + 1 };
                assert(state.items[j0] == k);
            }
            if k != peer && state.items.contains(k) {
                let j0 = state.items.index_of(k);
                let j = if j0 < i { j0 } else { j0 - 1 };
                assert(next.items[j] == k);
            }
        }
    }
    assert(next.peers() =~= state.peers().remove(peer));
}

/// Registering a peer twice leaves it listed exactly once, as registering it
/// once does, and each of the two registrations sends its "registered"
/// notification.
pub proof fn lemma_register_idempotent(state: WatcherView, peer: Seq<char>)
    requires
        state.wf(),
    ensures
        ({
            let once = state.register(peer);
            let twice = once.0.register(peer);
            &&& twice.0 == once.0
            &&& twice.0.peers().contains(peer)
            &&& twice.0.items.to_multiset().count(peer) == 1
            &&& once.1.contains(WatcherSignalView::ItemRegistered(peer))
            &&& twice.1.contains(WatcherSignalView::ItemRegistered(peer))
        }),
{
    let once = state.register(peer);
    let twice = once.0.register(peer);
    lemma_register_inserts(state, peer);
    assert(once.0.peers().contains(peer));
    assert(once.0.items.contains(peer));
    once.0.items.lemma_multiset_has_no_duplicates();
    vstd::seq_lib::to_multiset_contains(once.0.items, peer);
    assert(once.1[1] == WatcherSignalView::ItemRegistered(peer));
    assert(twice.1[1] == WatcherSignalView::ItemRegistered(peer));
}

/// Unregistering a peer that is not registered leaves the state as it is and
/// still sends the "unregistered" notification.
pub proof fn lemma_unregister_absent(state: WatcherView, peer: Seq<char>)
    requires
        !state.peers().contains(peer),
    ensures
        state.unregister(peer).0 == state,
        state.unregister(peer).1.contains(WatcherSignalView::ItemUnregistered(peer)),
{
    assert(state.unregister(peer).1[1] == WatcherSignalView::ItemUnregistered(peer));
}

/// Unregistering a peer twice is the same as unregistering it once.
pub proof fn lemma_unregister_idempotent(state: WatcherView, peer: Seq<char>)
    requires
        state.wf(),
    ensures
        state.unregister(peer).0.unregister(peer) == state.unregister(peer),
{
    lemma_unregister_removes(state, peer);
    let once = state.unregister(peer).0;
    assert(!once.peers().contains(peer));
}

/// The registry service.
pub struct StatusNotifierWatcher {
    registered: bool,
    items: Vec<String>,
}

impl View for StatusNotifierWatcher {
    type V = WatcherView;

    closed spec fn view(&self) -> WatcherView {
        WatcherView { host_registered: self.registered, items: names_view(self.items@) }
    }
}

/// Place of `peer` in the list, if it is listed.
fn position(items: &Vec<String>, peer: &String) -> (found: Option<usize>)
    ensures
        match found {
            Some(i) => i < items@.len() && items@[i as int]@ == peer@,
            None => !names_view(items@).contains(peer@),
        },
{
    let mut i: usize = 0;
    while i < items.len()
        invariant
            i <= items@.len(),
            forall|j: int| 0 <= j < i ==> items@[j]@ != peer@,
        decreases items@.len() - i,
    {
        if items[i] == *peer {
            return Some(i);
        }
        i = i + 1;
    }
    assert(!names_view(items@).contains(peer@)) by {
        if names_view(items@).contains(peer@) {
            let j = names_view(items@).index_of(peer@);
            assert(items@[j]@ == peer@);
        }
    }
    None
}

impl StatusNotifierWatcher {
    #[verifier::type_invariant]
    spec fn well_formed(self) -> bool {
        self@.wf()
    }

    /// The registry at startup.
    pub fn new() -> (watcher: Self)
        ensures
            watcher@ == WatcherView::initial(),
    {
        let watcher = StatusNotifierWatcher { registered: false, items: Vec::new() };
        assert(watcher@.items =~= Seq::<Seq<char>>::empty());
        watcher
    }

    /// Registers the peer `service`.
    pub fn register_status_notifier_item(&mut self, service: &str) -> (signals: Vec<WatcherSignal>)
        ensures
            final(self)@ == old(self)@.register(service@).0,
            signals_view(signals@) == old(self)@.register(service@).1,
            final(self)@.wf(),
    {
        proof {
            use_type_invariant(&*self);
            lemma_register_inserts(self@, service@);
        }
        let ghost before = self@;
        let peer = service.to_owned();
        let mut items: Vec<String> = Vec::new();
        std::mem::swap(&mut items, &mut self.items);
        assert(names_view(items@) == before.items);
        match position(&items, &peer) {
            Some(i) => {
                assert(before.items[i as int] == service@);
            },
            None => {
                items.push(peer);
            },
        }
        assert(names_view(items@) =~= before.register(service@).0.items);
        self.items = items;
        let mut signals: Vec<WatcherSignal> = Vec::new();
        signals.push(WatcherSignal::RegisteredItemsChanged);
        signals.push(WatcherSignal::ItemRegistered(service.to_owned()));
        assert(signals_view(signals@) =~= before.register(service@).1);
        signals
    }

    /// Unregisters the peer `service`.
    pub fn unregister_status_notifier_item(&mut self, service: &str) -> (signals: Vec<
        WatcherSignal,
    >)
        ensures
            final(self)@ == old(self)@.unregister(service@).0,
            signals_view(signals@) == old(self)@.unregister(service@).1,
            final(self)@.wf(),
    {
        proof {
            use_type_invariant(&*self);
            lemma_unregister_removes(self@, service@);
        }
        let ghost before = self@;
        let peer = service.to_owned();
        let mut items: Vec<String> = Vec::new();
        std::mem::swap(&mut items, &mut self.items);
        assert(names_view(items@) == before.items);
        match position(&items, &peer) {
            Some(i) => {
                assert(before.items[i as int] == service@);
                assert(before.items.index_of(service@) == i);
                items.remove(i);
            },
            None => {},
        }
        assert(names_view(items@) =~= before.unregister(service@).0.items);
        self.items = items;
        let mut signals: Vec<WatcherSignal> = Vec::new();
        signals.push(WatcherSignal::RegisteredItemsChanged);
        signals.push(WatcherSignal::ItemUnregistered(peer));
        assert(signals_view(signals@) =~= before.unregister(service@).1);
        signals
    }

    /// Records that the consumer `service` announced itself.
    pub fn register_status_notifier_host(&mut self, service: &str) -> (signals: Vec<WatcherSignal>)
        ensures
            final(self)@ == old(self)@.register_host(service@).0,
            signals_view(signals@) == old(self)@.register_host(service@).1,
            final(self)@.wf(),
    {
        proof {
            use_type_invariant(&*self);
        }
        let ghost before = self@;
        self.registered = true;
        let mut signals: Vec<WatcherSignal> = Vec::new();
        signals.push(WatcherSignal::HostRegisteredChanged);
        signals.push(WatcherSignal::HostRegistered(service.to_owned()));
        assert(signals_view(signals@) =~= before.register_host(service@).1);
        signals
    }

    /// The version of the protocol, a constant.
    pub fn protocol_version(&self) -> (version: u64)
        ensures
            version == PROTOCOL_VERSION,
    {
        PROTOCOL_VERSION
    }

    /// Whether a consumer has announced itself.
    pub fn is_status_notifier_host_registered(&self) -> (registered: bool)
        ensures
            registered == self@.host_registered,
    {
        self.registered
    }

    /// A copy of the list of registered peers.
    pub fn registered_status_notifier_items(&self) -> (items: Vec<String>)
        ensures
            names_view(items@) == self@.items,
            self@.wf(),
    {
        proof {
            use_type_invariant(self);
        }
        let mut items: Vec<String> = Vec::new();
        let mut i: usize = 0;
        while i < self.items.len()
            invariant
                i <= self.items@.len(),
                items@.len() == i,
                forall|j: int| 0 <= j < i ==> (#[trigger] items@[j])@ == self.items@[j]@,
            decreases self.items@.len() - i,
        {
            items.push(self.items[i].clone());
            i = i + 1;
        }
        assert(names_view(items@) =~= self@.items);
        items
    }
}

} // verus!
