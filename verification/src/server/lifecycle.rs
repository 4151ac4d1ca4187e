//! How many connections a listener serves, and when it is done.

use vstd::prelude::*;

verus! {

/// The most followers that a leader answers at a time.
pub const MAX_REPLICATION_CONNECTIONS: usize = 16;

/// The most requests for metrics that are answered at a time.
pub const MAX_METRICS_CONNECTIONS: usize = 64;

/// What a listener is about.
#[derive(Clone, Copy, Debug, PartialEq, Eq, Structural)]
pub enum Phase {
    /// Connections are accepted.
    Accepting,
    /// Shutdown was requested: no connection is accepted, and those that are served come to an
    /// end.
    Draining,
    /// Nothing is left to do.
    Stopped,
}

/// What happened.
#[derive(Clone, Copy, Debug, PartialEq, Eq, Structural)]
pub enum Event {
    ShutdownRequested,
    Accepted,
    ConnectionEnded,
}

/// What to do about it.
#[derive(Clone, Copy, Debug, PartialEq, Eq, Structural)]
pub enum Reaction {
    /// Serve the connection.
    Serve,
    /// Drop the connection.
    Reject,
    /// Wait for what happens next.
    Wait,
    /// Stop.
    Stop,
}

/// A listener: what it is about, how many connections it serves, and how many it may serve.
#[derive(Clone, Copy, Debug, PartialEq, Eq, Structural)]
pub struct Lifecycle {
    pub phase: Phase,
    pub serving: usize,
    pub maximum: usize,
}

impl Lifecycle {
    /// Whether no more connections are served than may be, and none is left once it has stopped.
    pub open spec fn valid(self) -> bool {
        self.serving <= self.maximum && (self.phase == Phase::Stopped ==> self.serving == 0) && (
        self.phase == Phase::Draining ==> self.serving > 0)
    }

    /// The phase of a listener that was asked to shut down and serves this many connections.
    pub open spec fn winding_down(serving: usize) -> Phase {
        if serving == 0 {
            Phase::Stopped
        } else {
            Phase::Draining
        }
    }

    /// The listener after an event.
    pub open spec fn after(self, event: Event) -> Lifecycle {
        match event {
            Event::ShutdownRequested => Lifecycle {
                phase: Self::winding_down(self.serving),
                ..self
            },
            Event::Accepted => if self.phase == Phase::Accepting && self.serving < self.maximum {
                Lifecycle { serving: (self.serving + 1) as usize, ..self }
            } else {
                self
            },
            Event::ConnectionEnded => if self.serving == 0 {
                self
            } else {
                let serving = (self.serving - 1) as usize;
                Lifecycle {
                    serving,
                    phase: if self.phase == Phase::Accepting {
                        Phase::Accepting
                    } else {
                        Self::winding_down(serving)
                    },
                    ..self
                }
            },
        }
    }

    /// What to do about an event.
    pub open spec fn reaction(self, event: Event) -> Reaction {
        if self.after(event).phase == Phase::Stopped {
            Reaction::Stop
        } else if event == Event::Accepted {
            if self.after(event).serving > self.serving {
                Reaction::Serve
            } else {
                Reaction::Reject
            }
        } else {
            Reaction::Wait
        }
    }

    /// A listener that may serve this many connections.
    pub fn new(maximum: usize) -> (lifecycle: Self)
        ensures
            lifecycle == (Lifecycle { phase: Phase::Accepting, serving: 0, maximum }),
            lifecycle.valid(),
    {
        Self { phase: Phase::Accepting, serving: 0, maximum }
    }

    /// Takes note of an event, and says what to do about it.
    pub fn on(&mut self, event: Event) -> (reaction: Reaction)
        requires
            old(self).valid(),
        ensures
            final(self).valid(),
            *final(self) == old(self).after(event),
            reaction == old(self).reaction(event),
    {
        match event {
            Event::ShutdownRequested => {
                if self.serving == 0 {
                    self.phase = Phase::Stopped;
                    Reaction::Stop
                } else {
                    self.phase = Phase::Draining;
                    Reaction::Wait
                }
            },
            Event::Accepted => {
                if self.phase == Phase::Stopped {
                    Reaction::Stop
                } else if self.phase == Phase::Accepting && self.serving < self.maximum {
                    self.serving = self.serving + 1;
                    Reaction::Serve
                } else {
                    Reaction::Reject
                }
            },
            Event::ConnectionEnded => {
                if self.serving > 0 {
                    self.serving = self.serving - 1;
                }
                if self.serving == 0 && self.phase != Phase::Accepting {
                    self.phase = Phase::Stopped;
                    Reaction::Stop
                } else {
                    Reaction::Wait
                }
            },
        }
    }
}

/// The listener after events.
pub open spec fn after_events(start: Lifecycle, events: Seq<Event>) -> Lifecycle
    decreases events.len(),
{
    if events.len() == 0 {
        start
    } else {
        after_events(start, events.drop_last()).after(events.last())
    }
}

/// Whatever happens, a listener serves no more connections than it may.
pub proof fn law_connections_are_bounded(maximum: usize, events: Seq<Event>)
    ensures
        ({
            let start = Lifecycle { phase: Phase::Accepting, serving: 0, maximum };
            let now = after_events(start, events);
            now.valid() && now.maximum == maximum && now.serving <= maximum
        }),
    decreases events.len(),
{
    if events.len() > 0 {
        law_connections_are_bounded(maximum, events.drop_last());
    }
}

/// Once shutdown was requested, no connection is served any more, and the listener stops as soon
/// as those that are served have ended, not before.
pub proof fn law_shutdown_is_graceful(start: Lifecycle, events: Seq<Event>, next: Event)
    requires
        start.valid(),
        events.contains(Event::ShutdownRequested),
    ensures
        ({
            let now = after_events(start, events);
            &&& now.valid()
            &&& now.phase == Lifecycle::winding_down(now.serving)
            &&& now.reaction(next) != Reaction::Serve
            &&& now.reaction(next) == Reaction::Stop <==> now.after(next).serving == 0
        }),
    decreases events.len(),
{
    let before = events.drop_last();
    let last = events.last();
    lemma_valid(start, before);
    if before.contains(Event::ShutdownRequested) {
        law_shutdown_is_graceful(start, before, last);
    } else {
        let i = choose|i: int| 0 <= i < events.len() && events[i] == Event::ShutdownRequested;
        if i < before.len() {
            assert(before[i] == Event::ShutdownRequested);
        }
    }
}

proof fn lemma_valid(start: Lifecycle, events: Seq<Event>)
    requires
        start.valid(),
    ensures
        after_events(start, events).valid(),
    decreases events.len(),
{
    if events.len() > 0 {
        lemma_valid(start, events.drop_last());
    }
}

/// A connection is served as long as the listener accepts and has room, counts until it ends, and
/// makes room for another then. None is turned away before the limit is reached.
pub proof fn law_connections_are_served_up_to_the_limit(listener: Lifecycle)
    requires
        listener.valid(),
    ensures
        listener.reaction(Event::Accepted) == Reaction::Serve <==> listener.phase
            == Phase::Accepting && listener.serving < listener.maximum,
        listener.reaction(Event::Accepted) == Reaction::Reject <==> listener.phase
            != Phase::Stopped && !(listener.phase == Phase::Accepting && listener.serving
            < listener.maximum),
        listener.after(Event::Accepted).serving == listener.serving + (if listener.reaction(
            Event::Accepted,
        ) == Reaction::Serve {
            1int
        } else {
            0int
        }),
        listener.serving > 0 ==> listener.after(Event::ConnectionEnded).serving == listener.serving
            - 1,
        listener.phase == Phase::Accepting ==> listener.after(Event::Accepted).phase
            == Phase::Accepting && listener.after(Event::ConnectionEnded).phase
            == Phase::Accepting && listener.reaction(Event::ConnectionEnded) == Reaction::Wait,
        listener.after(Event::ShutdownRequested).serving == listener.serving,
        listener.after(Event::ShutdownRequested).phase == (if listener.serving == 0 {
            Phase::Stopped
        } else {
            Phase::Draining
        }),
        listener.reaction(Event::ShutdownRequested) == (if listener.serving == 0 {
            Reaction::Stop
        } else {
            Reaction::Wait
        }),
        MAX_REPLICATION_CONNECTIONS == 16,
        MAX_METRICS_CONNECTIONS == 64,
{
}

} // verus!
