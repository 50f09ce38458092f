//! The life cycle of one peer's session.
//!
//! A session serves one registered peer. It publishes at most one snapshot of
//! the peer and reports the peer's departure once, then it is over. A failure
//! ends the session and nothing else.
//!
//! The session is a state machine: the caller watches the bus, hands every
//! observation to [`PeerSession::step`] and carries out the actions that come
//! back, in their order.

use crate::aggregator::AggregateView;
use crate::item::{Item, ItemView};
use crate::watcher::WatcherView;
use vstd::prelude::*;

verus! {

/// What a session has done so far.
#[derive(Debug, Clone, Copy, PartialEq, Eq, Structural)]
pub enum Phase {
    /// The peer is watched and no snapshot was published yet.
    Waiting,
    /// The peer is watched and its snapshot was published.
    Live,
    /// The session is over: the peer departed or the session failed.
    Closed,
}

/// An observation that a session reacts to.
#[derive(Debug, PartialEq, Eq)]
pub enum SessionEvent {
    /// Title and icon were fetched and the snapshot is ready.
    Snapshot(Item),
    /// A bus call failed or the peer's icon was not accepted.
    Failed,
    /// The peer's bus name changed hands; the payload names the new owner,
    /// if there is one.
    OwnerChanged(Option<String>),
    /// The stream of owner changes ended.
    OwnerWatchEnded,
    /// The peer emitted one of its other signals.
    Signal,
}

/// The mathematical value of a [`SessionEvent`].
pub enum SessionEventView {
    Snapshot(ItemView),
    Failed,
    OwnerChanged(Option<Seq<char>>),
    OwnerWatchEnded,
    Signal,
}

impl View for SessionEvent {
    type V = SessionEventView;

    open spec fn view(&self) -> SessionEventView {
        match self {
            SessionEvent::Snapshot(item) => SessionEventView::Snapshot(item@),
            SessionEvent::Failed => SessionEventView::Failed,
            SessionEvent::OwnerChanged(owner) => SessionEventView::OwnerChanged(
                match owner {
                    Some(name) => Some(name@),
                    None => None,
                },
            ),
            SessionEvent::OwnerWatchEnded => SessionEventView::OwnerWatchEnded,
            SessionEvent::Signal => SessionEventView::Signal,
        }
    }
}

/// What the caller has to do after a step.
#[derive(Debug, PartialEq, Eq)]
pub enum SessionAction {
    /// Send an "item updated" event to the aggregator.
    Update(String, Option<Item>),
    /// Ask the registry to unregister the peer.
    Unregister(String),
}

/// The mathematical value of a [`SessionAction`].
pub enum SessionActionView {
    Update(Seq<char>, Option<ItemView>),
    Unregister(Seq<char>),
}

impl View for SessionAction {
    type V = SessionActionView;

    open spec fn view(&self) -> SessionActionView {
        match self {
            SessionAction::Update(peer, update) => SessionActionView::Update(
                peer@,
                crate::aggregator::update_view(*update),
            ),
            SessionAction::Unregister(peer) => SessionActionView::Unregister(peer@),
        }
    }
}

/// The actions of a list, each as its mathematical value.
pub open spec fn actions_view(actions: Seq<SessionAction>) -> Seq<SessionActionView> {
    Seq::new(actions.len(), |i: int| actions[i]@)
}

/// An owner is absent where none is named or the name is empty.
pub open spec fn owner_absent(owner: Option<Seq<char>>) -> bool {
    match owner {
        Some(name) => name.len() == 0,
        None => true,
    }
}

/// The mathematical value of a [`PeerSession`].
pub struct SessionView {
    pub peer: Seq<char>,
    pub phase: Phase,
}

impl SessionView {
    /// The session of `peer` when it is opened.
    pub open spec fn start(peer: Seq<char>) -> Self {
        SessionView { peer, phase: Phase::Waiting }
    }

    /// What the session does when the peer is found gone: it asks for the
    /// peer to be unregistered, tells the aggregator and is over.
    pub open spec fn depart(self) -> (Self, Seq<SessionActionView>) {
        (
            SessionView { phase: Phase::Closed, ..self },
            seq![
                SessionActionView::Unregister(self.peer),
                SessionActionView::Update(self.peer, None),
            ],
        )
    }

    /// The next state and the actions that one observation leads to.
    pub open spec fn step(self, event: SessionEventView) -> (Self, Seq<SessionActionView>) {
        if self.phase == Phase::Closed {
            (self, Seq::empty())
        } else {
            match event {
                SessionEventView::Snapshot(item) => {
                    if self.phase == Phase::Waiting {
                        (
                            SessionView { phase: Phase::Live, ..self },
                            seq![SessionActionView::Update(self.peer, Some(item))],
                        )
                    } else {
                        (self, Seq::empty())
                    }
                },
                SessionEventView::Failed => (
                    SessionView { phase: Phase::Closed, ..self },
                    Seq::empty(),
                ),
                SessionEventView::OwnerChanged(owner) => {
                    if owner_absent(owner) {
                        self.depart()
                    } else {
                        (self, Seq::empty())
                    }
                },
                SessionEventView::OwnerWatchEnded => self.depart(),
                SessionEventView::Signal => (self, Seq::empty()),
            }
        }
    }

    /// The state after a sequence of observations and all actions that they
    /// led to, in order.
    pub open spec fn run(self, events: Seq<SessionEventView>) -> (Self, Seq<SessionActionView>)
        decreases events.len(),
    {
        if events.len() == 0 {
            (self, Seq::empty())
        } else {
            let earlier = self.run(events.drop_last());
            let last = earlier.0.step(events.last());
            (last.0, earlier.1 + last.1)
        }
    }
}

/// The events that a list of actions sends to the aggregator, in order.
pub open spec fn updates_of(actions: Seq<SessionActionView>) -> Seq<(Seq<char>, Option<ItemView>)>
    decreases actions.len(),
{
    if actions.len() == 0 {
        Seq::empty()
    } else {
        match actions.last() {
            SessionActionView::Update(peer, update) => updates_of(actions.drop_last()).push(
                (peer, update),
            ),
            SessionActionView::Unregister(_) => updates_of(actions.drop_last()),
        }
    }
}

/// The peers that a list of actions asks the registry to unregister, in
/// order.
pub open spec fn unregistrations_of(actions: Seq<SessionActionView>) -> Seq<Seq<char>>
    decreases actions.len(),
{
    if actions.len() == 0 {
        Seq::empty()
    } else {
        match actions.last() {
            SessionActionView::Unregister(peer) => unregistrations_of(actions.drop_last()).push(
                peer,
            ),
            SessionActionView::Update(_, _) => unregistrations_of(actions.drop_last()),
        }
    }
}

/// The four things that a session can have done when it is asked: nothing,
/// published a snapshot, reported the departure, or both in this order.
pub open spec fn trace_shape(peer: Seq<char>, actions: Seq<SessionActionView>) -> bool {
    ||| actions == Seq::<SessionActionView>::empty()
    ||| exists|item: ItemView| actions == seq![SessionActionView::Update(peer, Some(item))]
    ||| actions == seq![
        SessionActionView::Unregister(peer),
        SessionActionView::Update(peer, None),
    ]
    ||| exists|item: ItemView|
        actions == seq![
            SessionActionView::Update(peer, Some(item)),
            SessionActionView::Unregister(peer),
            SessionActionView::Update(peer, None),
        ]
}

/// Whatever a session observes, it publishes at most one snapshot, reports at
/// most one departure, and never publishes a snapshot after the departure.
/// All its actions name its own peer. While it waits it has done nothing, and
/// while it is live it has published its snapshot and nothing else.
pub proof fn lemma_session_trace(peer: Seq<char>, events: Seq<SessionEventView>)
    ensures
        ({
            let end = SessionView::start(peer).run(events);
            &&& end.0.peer == peer
            &&& trace_shape(peer, end.1)
            &&& end.0.phase == Phase::Waiting ==> end.1 == Seq::<SessionActionView>::empty()
            &&& end.0.phase == Phase::Live ==> exists|item: ItemView|
                end.1 == seq![SessionActionView::Update(peer, Some(item))]
        }),
    decreases events.len(),
{
    let start = SessionView::start(peer);
    if events.len() > 0 {
        lemma_session_trace(peer, events.drop_last());
        let earlier = start.run(events.drop_last());
        let last = earlier.0.step(events.last());
        let end = start.run(events);
        assert(end.1 == earlier.1 + last.1);
        if earlier.0.phase == Phase::Closed {
            assert(end.1 =~= earlier.1);
        } else if last.1.len() == 0 {
            assert(end.1 =~= earlier.1);
        } else if earlier.0.phase == Phase::Waiting {
            assert(end.1 =~= last.1);
            match events.last() {
                SessionEventView::Snapshot(item) => {
                    assert(end.1 == seq![SessionActionView::Update(peer, Some(item))]);
                },
                _ => {},
            }
        } else {
            let item = choose|item: ItemView|
                earlier.1 == seq![SessionActionView::Update(peer, Some(item))];
            assert(last.1 == seq![
                SessionActionView::Unregister(peer),
                SessionActionView::Update(peer, None),
            ]);
            assert(end.1 =~= seq![
                SessionActionView::Update(peer, Some(item)),
                SessionActionView::Unregister(peer),
                SessionActionView::Update(peer, None),
            ]);
        }
    }
}

/// Once a session has reported the departure of its peer, an aggregator that
/// has processed the session's events, in their order, has no entry for the
/// peer and has not touched the entry of any other peer.
pub proof fn lemma_departed_peer_has_no_entry(
    peer: Seq<char>,
    events: Seq<SessionEventView>,
    aggregate: AggregateView,
)
    requires
        aggregate.wf(),
        SessionView::start(peer).run(events).1.contains(SessionActionView::Update(peer, None)),
    ensures
        ({
            let sent = updates_of(SessionView::start(peer).run(events).1);
            let end = aggregate.apply_all(sent);
            &&& end.wf()
            &&& !end.peers.contains(peer)
            &&& end.as_map() == aggregate.as_map().remove(peer)
        }),
{
    let actions = SessionView::start(peer).run(events).1;
    lemma_session_trace(peer, events);
    let gone = SessionActionView::Update(peer, None);
    let i = choose|i: int| 0 <= i < actions.len() && actions[i] == gone;
    assert(actions[i] == gone);
    let short = seq![SessionActionView::Unregister(peer), gone];
    if actions == short {
        lemma_updates_of_departure(peer);
        let sent = updates_of(short);
        assert(sent.drop_last() =~= Seq::empty());
        reveal_with_fuel(AggregateView::apply_all, 2);
        assert(aggregate.apply_all(sent) == aggregate.apply(peer, None));
        crate::aggregator::lemma_apply_wf(aggregate, peer, None);
        crate::aggregator::lemma_removal_is_remove(aggregate, peer);
        assert(!aggregate.apply(peer, None).as_map().dom().contains(peer));
    } else {
        let item = choose|item: ItemView|
            actions == seq![
                SessionActionView::Update(peer, Some(item)),
                SessionActionView::Unregister(peer),
                gone,
            ];
        lemma_updates_of_snapshot_then_departure(peer, item);
        let sent = updates_of(actions);
        assert(sent.drop_last() =~= seq![(peer, Some(item))]);
        assert(sent.drop_last().drop_last() =~= Seq::empty());
        reveal_with_fuel(AggregateView::apply_all, 3);
        assert(aggregate.apply_all(sent) == aggregate.apply(peer, Some(item)).apply(peer, None));
        crate::aggregator::lemma_snapshot_then_departure(aggregate, peer, item);
    }
}

/// Once a session has reported the departure of its peer, a registry that
/// has carried out the session's requests no longer lists the peer and lists
/// every other peer as before.
pub proof fn lemma_departed_peer_is_unregistered(
    peer: Seq<char>,
    events: Seq<SessionEventView>,
    registry: WatcherView,
)
    requires
        registry.wf(),
        SessionView::start(peer).run(events).1.contains(SessionActionView::Unregister(peer)),
    ensures
        ({
            let asked = unregistrations_of(SessionView::start(peer).run(events).1);
            let end = registry.unregister_all(asked);
            &&& end.wf()
            &&& !end.peers().contains(peer)
            &&& end.peers() == registry.peers().remove(peer)
            &&& end.host_registered == registry.host_registered
        }),
{
    let actions = SessionView::start(peer).run(events).1;
    lemma_session_trace(peer, events);
    let asks = SessionActionView::Unregister(peer);
    let gone = SessionActionView::Update(peer, None);
    let i = choose|i: int| 0 <= i < actions.len() && actions[i] == asks;
    assert(actions[i] == asks);
    let short = seq![asks, gone];
    if actions == short {
        assert(short.drop_last() =~= seq![asks]);
        assert(short.drop_last().drop_last() =~= Seq::empty());
        reveal_with_fuel(unregistrations_of, 3);
        assert(unregistrations_of(short) =~= seq![peer]);
    } else {
        let item = choose|item: ItemView|
            actions == seq![SessionActionView::Update(peer, Some(item)), asks, gone];
        let long = seq![SessionActionView::Update(peer, Some(item)), asks, gone];
        assert(long.drop_last() =~= seq![SessionActionView::Update(peer, Some(item)), asks]);
        assert(long.drop_last().drop_last() =~= seq![SessionActionView::Update(peer, Some(item))]);
        assert(long.drop_last().drop_last().drop_last() =~= Seq::empty());
        reveal_with_fuel(unregistrations_of, 4);
        assert(unregistrations_of(long) =~= seq![peer]);
    }
    let asked = unregistrations_of(actions);
    assert(asked.drop_last() =~= Seq::empty());
    reveal_with_fuel(WatcherView::unregister_all, 2);
    assert(registry.unregister_all(asked) == registry.unregister(peer).0);
    crate::watcher::lemma_unregister_removes(registry, peer);
}

/// What a bare departure sends to the aggregator.
proof fn lemma_updates_of_departure(peer: Seq<char>)
    ensures
        updates_of(
            seq![SessionActionView::Unregister(peer), SessionActionView::Update(peer, None)],
        ) == seq![(peer, None::<ItemView>)],
{
    let actions = seq![SessionActionView::Unregister(peer), SessionActionView::Update(peer, None)];
    assert(actions.drop_last() =~= seq![SessionActionView::Unregister(peer)]);
    assert(actions.drop_last().drop_last() =~= Seq::empty());
    reveal_with_fuel(updates_of, 3);
    assert(updates_of(actions) =~= seq![(peer, None::<ItemView>)]);
}

/// What a snapshot followed by the departure sends to the aggregator.
proof fn lemma_updates_of_snapshot_then_departure(peer: Seq<char>, item: ItemView)
    ensures
        updates_of(
            seq![
                SessionActionView::Update(peer, Some(item)),
                SessionActionView::Unregister(peer),
                SessionActionView::Update(peer, None),
            ],
        ) == seq![(peer, Some(item)), (peer, None::<ItemView>)],
{
    let actions = seq![
        SessionActionView::Update(peer, Some(item)),
        SessionActionView::Unregister(peer),
        SessionActionView::Update(peer, None),
    ];
    assert(actions.drop_last() =~= seq![
        SessionActionView::Update(peer, Some(item)),
        SessionActionView::Unregister(peer),
    ]);
    assert(actions.drop_last().drop_last() =~= seq![SessionActionView::Update(peer, Some(item))]);
    assert(actions.drop_last().drop_last().drop_last() =~= Seq::empty());
    reveal_with_fuel(updates_of, 4);
    assert(updates_of(actions) =~= seq![(peer, Some(item)), (peer, None::<ItemView>)]);
}

/// The session of one peer.
#[derive(Debug, PartialEq, Eq)]
pub struct PeerSession {
    peer: String,
    phase: Phase,
}

impl View for PeerSession {
    type V = SessionView;

    closed spec fn view(&self) -> SessionView {
        SessionView { peer: self.peer@, phase: self.phase }
    }
}

impl PeerSession {
    /// Opens the session of `peer`.
    pub fn new(peer: &str) -> (session: Self)
        ensures
            session@ == SessionView::start(peer@),
    {
        PeerSession { peer: peer.to_owned(), phase: Phase::Waiting }
    }

    /// The peer that the session serves.
    pub fn peer(&self) -> (peer: &String)
        ensures
            peer@ == self@.peer,
    {
        &self.peer
    }

    /// What the session has done so far.
    pub fn phase(&self) -> (phase: Phase)
        ensures
            phase == self@.phase,
    {
        self.phase
    }

    /// Whether the session is over.
    pub fn is_closed(&self) -> (closed: bool)
        ensures
            closed == (self@.phase == Phase::Closed),
    {
        match self.phase {
            Phase::Closed => true,
            _ => false,
        }
    }

    fn depart(&mut self) -> (actions: Vec<SessionAction>)
        ensures
            final(self)@ == old(self)@.depart().0,
            actions_view(actions@) == old(self)@.depart().1,
    {
        self.phase = Phase::Closed;
        let mut actions: Vec<SessionAction> = Vec::new();
        actions.push(SessionAction::Unregister(self.peer.clone()));
        actions.push(SessionAction::Update(self.peer.clone(), None));
        assert(actions_view(actions@) =~= old(self)@.depart().1);
        actions
    }

    /// Reacts to one observation and returns the actions to carry out.
    pub fn step(&mut self, event: SessionEvent) -> (actions: Vec<SessionAction>)
        ensures
            final(self)@ == old(self)@.step(event@).0,
            actions_view(actions@) == old(self)@.step(event@).1,
    {
        let ghost before = self@;
        if self.is_closed() {
            let actions: Vec<SessionAction> = Vec::new();
            assert(actions_view(actions@) =~= before.step(event@).1);
            return actions;
        }
        match event {
            SessionEvent::Snapshot(item) => {
                let mut actions: Vec<SessionAction> = Vec::new();
                match self.phase {
                    Phase::Waiting => {
                        self.phase = Phase::Live;
                        actions.push(SessionAction::Update(self.peer.clone(), Some(item)));
                    },
                    _ => {},
                }
                assert(actions_view(actions@) =~= before.step(event@).1);
                actions
            },
            SessionEvent::Failed => {
                self.phase = Phase::Closed;
                let actions: Vec<SessionAction> = Vec::new();
                assert(actions_view(actions@) =~= before.step(event@).1);
                actions
            },
            SessionEvent::OwnerChanged(owner) => {
                let absent = match &owner {
                    Some(name) => name.as_str().is_empty(),
                    None => true,
                };
                if absent {
                    self.depart()
                } else {
                    let actions: Vec<SessionAction> = Vec::new();
                    assert(actions_view(actions@) =~= before.step(event@).1);
                    actions
                }
            },
            SessionEvent::OwnerWatchEnded => self.depart(),
            SessionEvent::Signal => {
                let actions: Vec<SessionAction> = Vec::new();
                assert(actions_view(actions@) =~= before.step(event@).1);
                actions
            },
        }
    }
}

} // verus!
