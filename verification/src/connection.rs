//! The life of one accepted connection, as a state machine. The library
//! decides; whoever owns the sockets performs each action and reports what
//! happened as the next event.

use vstd::prelude::*;
use vstd::string::*;
use crate::request::{request_path, request_path_of, utf8_lossy};
use crate::response::unavailable_response;
use crate::routing::{cursor_after, decide, decision_address, Balancer, Decision};

verus! {

/// Where a connection stands.
#[derive(Clone, Copy, Debug, PartialEq, Eq, Structural)]
pub enum Phase {
    /// Accepted; the first chunk has not been read yet.
    Accepted,
    /// A path route applied; the backend is being connected.
    PathRouted,
    /// Round-robin picked a backend; it is being connected.
    RoundRobinRouted,
    /// No backend can take the connection; the failure response is being written.
    Unavailable,
    /// Bytes are being copied between the client and the backend.
    Proxying,
    /// The failure response was written; the socket is being shut down.
    ResponseSent,
    /// Over. Nothing follows.
    Closed,
}

/// What the outside work reports back.
#[derive(Clone, Copy, Debug, PartialEq, Eq, Structural)]
pub enum Event {
    /// The backend accepted the outbound connection.
    Connected,
    /// The failure response was written and flushed.
    Responded,
    /// A direction of the relay reached end-of-stream, or the shutdown is done.
    Ended,
    /// The operation that was under way failed.
    Failed,
}

/// What the owner of the sockets has to do next.
#[derive(Clone, Debug, PartialEq, Eq)]
pub enum Action {
    /// Open a connection to this `host:port`.
    Connect(String),
    /// Write these bytes to the backend, then copy in both directions until
    /// either direction ends or fails.
    Relay(Vec<u8>),
    /// Write this text to the client and flush.
    Respond(String),
    /// Shut the client socket down in order.
    Shutdown,
    /// Drop both sockets.
    Close,
    /// Nothing is left to do.
    Nothing,
}

/// An action as plain values.
pub enum ActionView {
    Connect(Seq<char>),
    Relay(Seq<u8>),
    Respond(Seq<char>),
    Shutdown,
    Close,
    Nothing,
}

impl View for Action {
    type V = ActionView;

    open spec fn view(&self) -> ActionView {
        match self {
            Action::Connect(address) => ActionView::Connect(address@),
            Action::Relay(bytes) => ActionView::Relay(bytes@),
            Action::Respond(text) => ActionView::Respond(text@),
            Action::Shutdown => ActionView::Shutdown,
            Action::Close => ActionView::Close,
            Action::Nothing => ActionView::Nothing,
        }
    }
}

/// One connection: its phase and the bytes that were read from the client
/// before a backend was chosen.
#[derive(Clone, Debug)]
pub struct Connection {
    pub phase: Phase,
    pub initial: Vec<u8>,
}

/// The text of the failure response.
pub open spec fn unavailable_text() -> Seq<char> {
    "HTTP/1.1 503 Service Unavailable\r\nContent-Length: 19\r\n\r\nService Unavailable"@
}

/// The phase that a routing decision puts an accepted connection in.
pub open spec fn phase_for(d: Decision) -> Phase {
    match d {
        Decision::PathRoute(_) => Phase::PathRouted,
        Decision::Backend(_) => Phase::RoundRobinRouted,
        Decision::Unavailable => Phase::Unavailable,
    }
}

/// The phase after `event` in `phase`. An event that the phase does not
/// wait for closes the connection.
pub open spec fn next_phase(phase: Phase, event: Event) -> Phase {
    match (phase, event) {
        (Phase::PathRouted, Event::Connected) => Phase::Proxying,
        (Phase::RoundRobinRouted, Event::Connected) => Phase::Proxying,
        (Phase::Unavailable, Event::Responded) => Phase::ResponseSent,
        _ => Phase::Closed,
    }
}

/// The action that goes with `event` in `phase`, for a connection whose
/// first chunk was `initial`.
pub open spec fn next_action(phase: Phase, initial: Seq<u8>, event: Event) -> ActionView {
    match (phase, event) {
        (Phase::PathRouted, Event::Connected) => ActionView::Relay(initial),
        (Phase::RoundRobinRouted, Event::Connected) => ActionView::Relay(initial),
        (Phase::Unavailable, Event::Responded) => ActionView::Shutdown,
        (Phase::Closed, _) => ActionView::Nothing,
        _ => ActionView::Close,
    }
}

/// The moves that a connection may make from one phase to the next.
pub open spec fn may_follow(before: Phase, after: Phase) -> bool {
    match before {
        Phase::Accepted => after == Phase::PathRouted || after == Phase::RoundRobinRouted || after
            == Phase::Unavailable || after == Phase::Closed,
        Phase::PathRouted => after == Phase::Proxying || after == Phase::Closed,
        Phase::RoundRobinRouted => after == Phase::Proxying || after == Phase::Closed,
        Phase::Unavailable => after == Phase::ResponseSent || after == Phase::Closed,
        Phase::Proxying => after == Phase::Closed,
        Phase::ResponseSent => after == Phase::Closed,
        Phase::Closed => after == Phase::Closed,
    }
}

/// Every step moves along `may_follow`; a closed connection stays closed
/// and asks for nothing.
pub proof fn lemma_steps_are_allowed(phase: Phase, initial: Seq<u8>, event: Event)
    ensures
        may_follow(phase, next_phase(phase, event)),
        phase == Phase::Closed ==> next_phase(phase, event) == Phase::Closed && next_action(
            phase,
            initial,
            event,
        ) == ActionView::Nothing,
{
}

/// Bytes go to a backend only as the first part of a relay, only from a
/// routed connection that has just been connected, by a path route or by
/// round-robin alike, and they are the bytes that were read from the client
/// before routing, unchanged.
pub proof fn lemma_relay_starts_with_first_chunk(
    phase: Phase,
    initial: Seq<u8>,
    event: Event,
    bytes: Seq<u8>,
)
    ensures
        next_action(phase, initial, event) == ActionView::Relay(bytes) ==> {
            &&& bytes == initial
            &&& event == Event::Connected
            &&& (phase == Phase::PathRouted || phase == Phase::RoundRobinRouted)
            &&& next_phase(phase, event) == Phase::Proxying
        },
        (phase == Phase::PathRouted || phase == Phase::RoundRobinRouted) && event
            == Event::Connected ==> next_action(phase, initial, event) == ActionView::Relay(
            initial,
        ),
        next_phase(phase, event) == Phase::Proxying ==> next_action(phase, initial, event)
            == ActionView::Relay(initial),
{
}

/// After the first chunk no step writes a response: what an unroutable
/// connection gets is the one response that routing asked for, then the
/// shutdown, then the close.
pub proof fn lemma_one_response_then_close(initial: Seq<u8>, first: Event, second: Event)
    ensures
        forall|phase: Phase, event: Event, text: Seq<char>|
            next_action(phase, initial, event) != ActionView::Respond(text),
        next_phase(Phase::Unavailable, first) == Phase::ResponseSent || next_phase(
            Phase::Unavailable,
            first,
        ) == Phase::Closed,
        next_phase(next_phase(Phase::Unavailable, first), second) == Phase::Closed,
{
}

/// The actions that a run of events draws from a connection in `phase`.
pub open spec fn actions(phase: Phase, initial: Seq<u8>, events: Seq<Event>) -> Seq<ActionView>
    decreases events.len(),
{
    if events.len() == 0 {
        Seq::empty()
    } else {
        seq![next_action(phase, initial, events[0])] + actions(
            next_phase(phase, events[0]),
            initial,
            events.drop_first(),
        )
    }
}

proof fn lemma_no_relay_once_proxying(phase: Phase, initial: Seq<u8>, events: Seq<Event>, j: int)
    requires
        phase == Phase::Proxying || phase == Phase::Closed || phase == Phase::ResponseSent,
        0 <= j < events.len(),
    ensures
        actions(phase, initial, events).len() == events.len(),
        !(actions(phase, initial, events)[j] is Relay),
    decreases events.len(),
{
    lemma_actions_len(phase, initial, events);
    if j > 0 {
        lemma_no_relay_once_proxying(
            next_phase(phase, events[0]),
            initial,
            events.drop_first(),
            j - 1,
        );
    }
}

proof fn lemma_actions_len(phase: Phase, initial: Seq<u8>, events: Seq<Event>)
    ensures
        actions(phase, initial, events).len() == events.len(),
    decreases events.len(),
{
    if events.len() > 0 {
        lemma_actions_len(next_phase(phase, events[0]), initial, events.drop_first());
    }
}

/// Whatever events arrive, a connection starts at most one relay, and the
/// relay's first bytes are the connection's first chunk. So the bytes read
/// before routing reach the backend once, ahead of everything that the
/// relay copies after them.
pub proof fn lemma_at_most_one_relay(
    phase: Phase,
    initial: Seq<u8>,
    events: Seq<Event>,
    i: int,
    j: int,
)
    requires
        0 <= i < j < events.len(),
    ensures
        actions(phase, initial, events).len() == events.len(),
        actions(phase, initial, events)[i] is Relay ==> actions(phase, initial, events)[i]
            == ActionView::Relay(initial),
        !(actions(phase, initial, events)[i] is Relay && actions(phase, initial, events)[j]
            is Relay),
    decreases events.len(),
{
    lemma_actions_len(phase, initial, events);
    let rest = events.drop_first();
    let then = next_phase(phase, events[0]);
    if i == 0 {
        if next_action(phase, initial, events[0]) is Relay {
            lemma_no_relay_once_proxying(then, initial, rest, j - 1);
        }
    } else {
        lemma_at_most_one_relay(then, initial, rest, i - 1, j - 1);
    }
}

impl Connection {
    /// A connection that was just accepted. Its first chunk is to be read.
    pub fn accept() -> (c: Connection)
        ensures
            c.phase == Phase::Accepted,
            c.initial@ == Seq::<u8>::empty(),
    {
        Connection { phase: Phase::Accepted, initial: Vec::new() }
    }

    /// Routes an accepted connection whose first chunk was `chunk` and whose
    /// request path is `path`: asks for a connection to the backend that
    /// the balancer decides on, or for the failure response when there is
    /// none. The chunk is kept for the relay. A connection that is past
    /// `Accepted` is closed instead, and the balancer is left alone.
    pub fn route_to(&mut self, balancer: &mut Balancer, chunk: Vec<u8>, path: &str) -> (action:
        Action)
        requires
            old(balancer).wf(),
            old(balancer).cursor < usize::MAX,
        ensures
            final(balancer).wf(),
            final(balancer).config == old(balancer).config,
            final(balancer).health == old(balancer).health,
            old(self).phase != Phase::Accepted ==> {
                &&& final(self).phase == Phase::Closed
                &&& final(self).initial == old(self).initial
                &&& final(balancer).cursor == old(balancer).cursor
                &&& action@ == (if old(self).phase == Phase::Closed {
                    ActionView::Nothing
                } else {
                    ActionView::Close
                })
            },
            old(self).phase == Phase::Accepted ==> {
                let d = decide(
                    old(balancer).config,
                    old(balancer).health@,
                    old(balancer).cursor as nat,
                    path@,
                );
                &&& final(self).initial@ == chunk@
                &&& final(self).phase == phase_for(d)
                &&& final(balancer).cursor as nat == cursor_after(
                    old(balancer).config,
                    old(balancer).health@,
                    old(balancer).cursor as nat,
                    path@,
                )
                &&& action@ == (match decision_address(old(balancer).config, d) {
                    Some(address) => ActionView::Connect(address),
                    None => ActionView::Respond(unavailable_text()),
                })
            },
    {
        match self.phase {
            Phase::Accepted => {
                let d = balancer.select(path);
                self.initial = chunk;
                match balancer.address_of(d) {
                    Some(address) => {
                        self.phase = match d {
                            Decision::PathRoute(_) => Phase::PathRouted,
                            _ => Phase::RoundRobinRouted,
                        };
                        Action::Connect(address)
                    },
                    None => {
                        self.phase = Phase::Unavailable;
                        Action::Respond(unavailable_response())
                    },
                }
            },
            Phase::Closed => Action::Nothing,
            _ => {
                self.phase = Phase::Closed;
                Action::Close
            },
        }
    }

    /// Routes an accepted connection by its first chunk: the request path is
    /// peeked from the chunk, then the connection is routed by that path.
    pub fn route(&mut self, balancer: &mut Balancer, chunk: Vec<u8>) -> (action: Action)
        requires
            old(balancer).wf(),
            old(balancer).cursor < usize::MAX,
        ensures
            final(balancer).wf(),
            final(balancer).config == old(balancer).config,
            final(balancer).health == old(balancer).health,
            old(self).phase != Phase::Accepted ==> {
                &&& final(self).phase == Phase::Closed
                &&& final(self).initial == old(self).initial
                &&& final(balancer).cursor == old(balancer).cursor
                &&& action@ == (if old(self).phase == Phase::Closed {
                    ActionView::Nothing
                } else {
                    ActionView::Close
                })
            },
            old(self).phase == Phase::Accepted ==> {
                let path = request_path_of(utf8_lossy(chunk@));
                let d = decide(
                    old(balancer).config,
                    old(balancer).health@,
                    old(balancer).cursor as nat,
                    path,
                );
                &&& final(self).initial@ == chunk@
                &&& final(self).phase == phase_for(d)
                &&& final(balancer).cursor as nat == cursor_after(
                    old(balancer).config,
                    old(balancer).health@,
                    old(balancer).cursor as nat,
                    path,
                )
                &&& action@ == (match decision_address(old(balancer).config, d) {
                    Some(address) => ActionView::Connect(address),
                    None => ActionView::Respond(unavailable_text()),
                })
            },
    {
        let path = request_path(chunk.as_slice());
        self.route_to(balancer, chunk, path.as_str())
    }

    /// Takes the report of the outside work and says what to do next.
    pub fn advance(&mut self, event: Event) -> (action: Action)
        ensures
            final(self).phase == next_phase(old(self).phase, event),
            final(self).initial == old(self).initial,
            action@ == next_action(old(self).phase, old(self).initial@, event),
    {
        match (self.phase, event) {
            (Phase::PathRouted, Event::Connected) | (Phase::RoundRobinRouted, Event::Connected) => {
                self.phase = Phase::Proxying;
                Action::Relay(self.initial.clone())
            },
            (Phase::Unavailable, Event::Responded) => {
                self.phase = Phase::ResponseSent;
                Action::Shutdown
            },
            (Phase::Closed, _) => Action::Nothing,
            _ => {
                self.phase = Phase::Closed;
                Action::Close
            },
        }
    }
}

} // verus!
