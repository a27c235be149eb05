//! The client's outbound queue and the state machine of its one connection.
//!
//! Events wait in a FIFO queue until delivered. The item being written is
//! held apart; if its write fails it goes back to the head of the queue and
//! the connection is dropped, to be dialled again after a fixed interval.
//! The caller performs each returned action and reports its outcome.
use vstd::prelude::*;

verus! {

/// Time units to wait after a failure before dialling again.
pub const RECONNECT_INTERVAL: u64 = 10;

#[derive(Clone, Copy, Debug, PartialEq, Eq, Structural)]
pub enum LinkState {
    Disconnected,
    Connecting,
    Connected,
}

/// An outcome reported by whoever performs the actions.
#[derive(Clone, Copy, Debug, PartialEq, Eq, Structural)]
pub enum LinkEvent {
    /// The reconnect interval has passed.
    TimerElapsed,
    DialSucceeded,
    DialFailed,
    /// The item in flight was written completely.
    WriteSucceeded,
    /// A write failed, or the connection was found broken.
    WriteFailed,
    /// An item was enqueued while nothing was in flight.
    ItemQueued,
}

/// What to do next.
#[derive(Clone, Copy, Debug, PartialEq, Eq, Structural)]
pub enum LinkAction {
    /// Wait this many time units, then report `TimerElapsed`.
    Wait(u64),
    /// Open a connection, then report `DialSucceeded` or `DialFailed`.
    Dial,
    /// Write the item in flight, then report `WriteSucceeded` or `WriteFailed`.
    Send,
    /// Wait until an item is enqueued, then report `ItemQueued`.
    AwaitItem,
}

pub struct OutboxView<T> {
    pub state: LinkState,
    pub queue: Seq<T>,
    pub in_flight: Option<T>,
}

impl<T> OutboxView<T> {
    /// Nothing is in flight unless connected.
    pub open spec fn wf(self) -> bool {
        self.state != LinkState::Connected ==> self.in_flight is None
    }

    /// Every item not yet confirmed delivered, oldest first.
    pub open spec fn pending(self) -> Seq<T> {
        match self.in_flight {
            Some(x) => seq![x] + self.queue,
            None => self.queue,
        }
    }

    /// The action owed in the current state when no transition applies.
    pub open spec fn current_action(self) -> LinkAction {
        match self.state {
            LinkState::Disconnected => LinkAction::Wait(RECONNECT_INTERVAL),
            LinkState::Connecting => LinkAction::Dial,
            LinkState::Connected => if self.in_flight is Some {
                LinkAction::Send
            } else {
                LinkAction::AwaitItem
            },
        }
    }

    /// While connected with nothing in flight: move the queue's head into
    /// flight and send it, or wait for an item.
    pub open spec fn take_next(self) -> (Self, LinkAction) {
        if self.queue.len() > 0 {
            (
                OutboxView {
                    state: self.state,
                    queue: self.queue.drop_first(),
                    in_flight: Some(self.queue[0]),
                },
                LinkAction::Send,
            )
        } else {
            (self, LinkAction::AwaitItem)
        }
    }

    /// The transition taken on `e`, and the action that follows it.
    pub open spec fn step(self, e: LinkEvent) -> (Self, LinkAction) {
        match (self.state, e) {
            (LinkState::Disconnected, LinkEvent::TimerElapsed) => (
                OutboxView { state: LinkState::Connecting, ..self },
                LinkAction::Dial,
            ),
            (LinkState::Connecting, LinkEvent::DialSucceeded) => OutboxView {
                state: LinkState::Connected,
                ..self
            }.take_next(),
            (LinkState::Connecting, LinkEvent::DialFailed) => (
                OutboxView { state: LinkState::Disconnected, ..self },
                LinkAction::Wait(RECONNECT_INTERVAL),
            ),
            (LinkState::Connected, LinkEvent::WriteSucceeded) => if self.in_flight is Some {
                OutboxView { in_flight: None, ..self }.take_next()
            } else {
                (self, self.current_action())
            },
            (LinkState::Connected, LinkEvent::WriteFailed) => (
                OutboxView {
                    state: LinkState::Disconnected,
                    queue: self.pending(),
                    in_flight: None,
                },
                LinkAction::Wait(RECONNECT_INTERVAL),
            ),
            (LinkState::Connected, LinkEvent::ItemQueued) => if self.in_flight is None {
                self.take_next()
            } else {
                (self, self.current_action())
            },
            _ => (self, self.current_action()),
        }
    }
}

/// The outbound queue together with the state of its connection.
pub struct Outbox<T> {
    state: LinkState,
    queue: Vec<T>,
    in_flight: Option<T>,
}

impl<T> View for Outbox<T> {
    type V = OutboxView<T>;

    closed spec fn view(&self) -> OutboxView<T> {
        OutboxView { state: self.state, queue: self.queue@, in_flight: self.in_flight }
    }
}

impl<T> Outbox<T> {
    /// An empty queue, disconnected.
    pub fn new() -> (r: Self)
        ensures
            r@.state == LinkState::Disconnected,
            r@.queue.len() == 0,
            r@.in_flight is None,
            r@.wf(),
    {
        Outbox { state: LinkState::Disconnected, queue: Vec::new(), in_flight: None }
    }

    pub fn state(&self) -> (r: LinkState)
        ensures
            r == self@.state,
    {
        self.state
    }

    /// Number of items waiting behind the one in flight.
    pub fn queue_len(&self) -> (r: usize)
        ensures
            r == self@.queue.len(),
    {
        self.queue.len()
    }

    /// The item being written, if any.
    pub fn in_flight(&self) -> (r: Option<&T>)
        ensures
            r is None <==> self@.in_flight is None,
            r matches Some(x) ==> self@.in_flight == Some(*x),
    {
        match &self.in_flight {
            Some(x) => Some(x),
            None => None,
        }
    }

    /// Appends `item` at the tail of the queue; never blocks and never drops.
    pub fn enqueue(&mut self, item: T)
        ensures
            final(self)@ == (OutboxView {
                queue: old(self)@.queue.push(item),
                ..old(self)@
            }),
            final(self)@.pending() == old(self)@.pending().push(item),
    {
        self.queue.push(item);
        proof {
            if self@.in_flight is Some {
                let x = self@.in_flight->0;
                assert((seq![x] + old(self)@.queue).push(item) =~= seq![x] + self.queue@);
            }
        }
    }

    fn take_next(&mut self) -> (r: LinkAction)
        requires
            old(self)@.in_flight is None,
        ensures
            (final(self)@, r) == old(self)@.take_next(),
    {
        if self.queue.len() > 0 {
            let x = self.queue.remove(0);
            self.in_flight = Some(x);
            proof {
                assert(self.queue@ =~= old(self)@.queue.drop_first());
            }
            LinkAction::Send
        } else {
            LinkAction::AwaitItem
        }
    }

    fn current_action(&self) -> (r: LinkAction)
        ensures
            r == self@.current_action(),
    {
        match self.state {
            LinkState::Disconnected => LinkAction::Wait(RECONNECT_INTERVAL),
            LinkState::Connecting => LinkAction::Dial,
            LinkState::Connected => if self.in_flight.is_some() {
                LinkAction::Send
            } else {
                LinkAction::AwaitItem
            },
        }
    }

    /// Takes the transition for event `e` and returns the next action.
    pub fn step(&mut self, e: LinkEvent) -> (r: LinkAction)
        requires
            old(self)@.wf(),
        ensures
            (final(self)@, r) == old(self)@.step(e),
            final(self)@.wf(),
    {
        match (self.state, e) {
            (LinkState::Disconnected, LinkEvent::TimerElapsed) => {
                self.state = LinkState::Connecting;
                LinkAction::Dial
            },
            (LinkState::Connecting, LinkEvent::DialSucceeded) => {
                self.state = LinkState::Connected;
                self.take_next()
            },
            (LinkState::Connecting, LinkEvent::DialFailed) => {
                self.state = LinkState::Disconnected;
                LinkAction::Wait(RECONNECT_INTERVAL)
            },
            (LinkState::Connected, LinkEvent::WriteSucceeded) => {
                if self.in_flight.is_some() {
                    self.in_flight = None;
                    self.take_next()
                } else {
                    self.current_action()
                }
            },
            (LinkState::Connected, LinkEvent::WriteFailed) => {
                let taken = self.in_flight.take();
                if let Some(x) = taken {
                    self.queue.insert(0, x);
                    proof {
                        assert(self.queue@ =~= seq![x] + old(self)@.queue);
                    }
                }
                self.state = LinkState::Disconnected;
                LinkAction::Wait(RECONNECT_INTERVAL)
            },
            (LinkState::Connected, LinkEvent::ItemQueued) => {
                if self.in_flight.is_none() {
                    self.take_next()
                } else {
                    self.current_action()
                }
            },
            _ => self.current_action(),
        }
    }
}

} // verus!

verus! {

/// A failed write puts the item in flight back at the head of the queue,
/// ahead of everything queued behind it, and drops the connection.
pub proof fn lemma_failed_write_requeues<T>(v: OutboxView<T>, x: T)
    requires
        v.state == LinkState::Connected,
        v.in_flight == Some(x),
    ensures
        v.step(LinkEvent::WriteFailed).0.queue == seq![x] + v.queue,
        v.step(LinkEvent::WriteFailed).0.queue[0] == x,
        v.step(LinkEvent::WriteFailed).0.in_flight is None,
        v.step(LinkEvent::WriteFailed).0.state == LinkState::Disconnected,
        v.step(LinkEvent::WriteFailed).1 == LinkAction::Wait(RECONNECT_INTERVAL),
{
}

/// After a failed write, the next successful reconnect sends the same item again.
pub proof fn lemma_failed_write_is_retried<T>(v: OutboxView<T>, x: T)
    requires
        v.state == LinkState::Connected,
        v.in_flight == Some(x),
    ensures
        ({
            let w1 = v.step(LinkEvent::WriteFailed).0;
            let w2 = w1.step(LinkEvent::TimerElapsed).0;
            let (w3, a) = w2.step(LinkEvent::DialSucceeded);
            w3.in_flight == Some(x) && a == LinkAction::Send && w3.queue == v.queue
        }),
{
    let w1 = v.step(LinkEvent::WriteFailed).0;
    assert((seq![x] + v.queue).drop_first() =~= v.queue);
}

/// No event but a confirmed write removes an item from the pending ones,
/// and that one removes exactly the oldest; the order of the rest is kept.
pub proof fn lemma_nothing_dropped<T>(v: OutboxView<T>, e: LinkEvent)
    requires
        v.wf(),
    ensures
        v.step(e).0.wf(),
        if e == LinkEvent::WriteSucceeded && v.state == LinkState::Connected && v.in_flight is Some {
            v.step(e).0.pending() == v.pending().drop_first()
        } else {
            v.step(e).0.pending() == v.pending()
        },
{
    if v.queue.len() > 0 {
        assert(seq![v.queue[0]] + v.queue.drop_first() =~= v.queue);
    }
    if v.in_flight is Some {
        let x = v.in_flight->0;
        assert((seq![x] + v.queue).drop_first() =~= v.queue);
    }
}

} // verus!
