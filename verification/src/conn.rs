//! The per-connection serve loop as an explicit state machine.
//!
//! A connection is selected once — the chosen upstream is pinned for the
//! connection's whole life — and then served in a loop: read one request,
//! check admission, annotate, forward to the pinned upstream, relay the
//! response, repeat. Each exit path and its client-visible consequence is
//! one transition here: client-protocol errors draw a 4xx reply and keep
//! the connection open, upstream failures draw a 502 and end it, a clean
//! close or a transport error ends it silently. The caller performs the
//! socket work named by each action and feeds the outcome back in as the
//! next event.

use vstd::prelude::*;
use vstd::string::StringExecFns;

verus! {

pub const STATUS_BAD_REQUEST: u16 = 400;

pub const STATUS_PAYLOAD_TOO_LARGE: u16 = 413;

pub const STATUS_TOO_MANY_REQUESTS: u16 = 429;

pub const STATUS_BAD_GATEWAY: u16 = 502;

/// What reading one request from the client produced.
pub enum ReadOutcome {
    /// A well-formed request arrived.
    Parsed,
    /// The stream ended in the middle of a request after this many bytes;
    /// zero bytes is the clean end of the connection.
    Incomplete { bytes_read: usize },
    /// The bytes were not a well-formed request.
    Malformed,
    /// The declared content length was not a number.
    InvalidContentLength,
    /// The body did not match its declared length.
    ContentLengthMismatch,
    /// The declared body size exceeds the configured maximum.
    BodyTooLarge,
    /// A raw I/O error on the client socket.
    TransportError,
}

/// One completed piece of outside work, fed back into the machine.
pub enum ConnEvent {
    /// The selector finished: the chosen upstream address, if any.
    UpstreamSelected(Option<String>),
    /// Reading one request from the client finished.
    RequestRead(ReadOutcome),
    /// The rate limiter ruled on the request.
    RateChecked(bool),
    /// Writing the request to the pinned upstream finished.
    ForwardDone(bool),
    /// Reading the upstream response and sending it on finished.
    RelayDone(bool),
}

/// The next piece of outside work the caller must perform.
#[derive(Debug, PartialEq, Eq, Structural)]
pub enum ConnAction {
    /// Read the next request from the client.
    AwaitRequest,
    /// Run the rate limiter's admission check for this request.
    CheckRate,
    /// Append the client address to the forwarded-for chain and write
    /// the request to the pinned upstream.
    ForwardRequest,
    /// Read the response from the pinned upstream and send it to the
    /// client verbatim.
    RelayResponse,
    /// Send a synthesized error response, then keep serving.
    ReplyAndContinue(u16),
    /// Send a synthesized error response, then end the connection.
    ReplyAndClose(u16),
    /// End the connection without a response.
    CloseSilently,
}

/// Where the connection stands.
pub enum ConnState {
    /// No upstream chosen yet.
    Selecting,
    /// Serving requests; every forward goes to this pinned upstream.
    Ready { upstream: String },
    /// The connection is over.
    Closed,
}

/// The transition table: next state and ordered action for one event.
/// An event that cannot arise in a state ends the connection silently.
pub open spec fn spec_step(state: ConnState, event: ConnEvent) -> (ConnState, ConnAction) {
    match state {
        ConnState::Selecting => match event {
            ConnEvent::UpstreamSelected(sel) => match sel {
                Option::None => (ConnState::Closed, ConnAction::ReplyAndClose(STATUS_BAD_GATEWAY)),
                Option::Some(u) => (ConnState::Ready { upstream: u }, ConnAction::AwaitRequest),
            },
            _ => (ConnState::Closed, ConnAction::CloseSilently),
        },
        ConnState::Ready { upstream } => match event {
            ConnEvent::RequestRead(o) => match o {
                ReadOutcome::Parsed => (ConnState::Ready { upstream }, ConnAction::CheckRate),
                ReadOutcome::Incomplete { bytes_read } => if bytes_read == 0 {
                    (ConnState::Closed, ConnAction::CloseSilently)
                } else {
                    (
                        ConnState::Ready { upstream },
                        ConnAction::ReplyAndContinue(STATUS_BAD_REQUEST),
                    )
                },
                ReadOutcome::Malformed => (
                    ConnState::Ready { upstream },
                    ConnAction::ReplyAndContinue(STATUS_BAD_REQUEST),
                ),
                ReadOutcome::InvalidContentLength => (
                    ConnState::Ready { upstream },
                    ConnAction::ReplyAndContinue(STATUS_BAD_REQUEST),
                ),
                ReadOutcome::ContentLengthMismatch => (
                    ConnState::Ready { upstream },
                    ConnAction::ReplyAndContinue(STATUS_BAD_REQUEST),
                ),
                ReadOutcome::BodyTooLarge => (
                    ConnState::Ready { upstream },
                    ConnAction::ReplyAndContinue(STATUS_PAYLOAD_TOO_LARGE),
                ),
                ReadOutcome::TransportError => (ConnState::Closed, ConnAction::CloseSilently),
            },
            ConnEvent::RateChecked(admitted) => if admitted {
                (ConnState::Ready { upstream }, ConnAction::ForwardRequest)
            } else {
                (
                    ConnState::Ready { upstream },
                    ConnAction::ReplyAndContinue(STATUS_TOO_MANY_REQUESTS),
                )
            },
            ConnEvent::ForwardDone(ok) => if ok {
                (ConnState::Ready { upstream }, ConnAction::RelayResponse)
            } else {
                (ConnState::Closed, ConnAction::ReplyAndClose(STATUS_BAD_GATEWAY))
            },
            ConnEvent::RelayDone(ok) => if ok {
                (ConnState::Ready { upstream }, ConnAction::AwaitRequest)
            } else {
                (ConnState::Closed, ConnAction::ReplyAndClose(STATUS_BAD_GATEWAY))
            },
            _ => (ConnState::Closed, ConnAction::CloseSilently),
        },
        ConnState::Closed => (ConnState::Closed, ConnAction::CloseSilently),
    }
}

/// Performs one transition of the serve loop.
pub fn conn_step(state: ConnState, event: ConnEvent) -> (r: (ConnState, ConnAction))
    ensures
        r == spec_step(state, event),
{
    match state {
        ConnState::Selecting => match event {
            ConnEvent::UpstreamSelected(sel) => match sel {
                Option::None => (ConnState::Closed, ConnAction::ReplyAndClose(STATUS_BAD_GATEWAY)),
                Option::Some(u) => (ConnState::Ready { upstream: u }, ConnAction::AwaitRequest),
            },
            _ => (ConnState::Closed, ConnAction::CloseSilently),
        },
        ConnState::Ready { upstream } => match event {
            ConnEvent::RequestRead(o) => match o {
                ReadOutcome::Parsed => (ConnState::Ready { upstream }, ConnAction::CheckRate),
                ReadOutcome::Incomplete { bytes_read } => if bytes_read == 0 {
                    (ConnState::Closed, ConnAction::CloseSilently)
                } else {
                    (
                        ConnState::Ready { upstream },
                        ConnAction::ReplyAndContinue(STATUS_BAD_REQUEST),
                    )
                },
                ReadOutcome::Malformed => (
                    ConnState::Ready { upstream },
                    ConnAction::ReplyAndContinue(STATUS_BAD_REQUEST),
                ),
                ReadOutcome::InvalidContentLength => (
                    ConnState::Ready { upstream },
                    ConnAction::ReplyAndContinue(STATUS_BAD_REQUEST),
                ),
                ReadOutcome::ContentLengthMismatch => (
                    ConnState::Ready { upstream },
                    ConnAction::ReplyAndContinue(STATUS_BAD_REQUEST),
                ),
                ReadOutcome::BodyTooLarge => (
                    ConnState::Ready { upstream },
                    ConnAction::ReplyAndContinue(STATUS_PAYLOAD_TOO_LARGE),
                ),
                ReadOutcome::TransportError => (ConnState::Closed, ConnAction::CloseSilently),
            },
            ConnEvent::RateChecked(admitted) => if admitted {
                (ConnState::Ready { upstream }, ConnAction::ForwardRequest)
            } else {
                (
                    ConnState::Ready { upstream },
                    ConnAction::ReplyAndContinue(STATUS_TOO_MANY_REQUESTS),
                )
            },
            ConnEvent::ForwardDone(ok) => if ok {
                (ConnState::Ready { upstream }, ConnAction::RelayResponse)
            } else {
                (ConnState::Closed, ConnAction::ReplyAndClose(STATUS_BAD_GATEWAY))
            },
            ConnEvent::RelayDone(ok) => if ok {
                (ConnState::Ready { upstream }, ConnAction::AwaitRequest)
            } else {
                (ConnState::Closed, ConnAction::ReplyAndClose(STATUS_BAD_GATEWAY))
            },
            _ => (ConnState::Closed, ConnAction::CloseSilently),
        },
        ConnState::Closed => (ConnState::Closed, ConnAction::CloseSilently),
    }
}

/// The state after a whole sequence of events, oldest first.
pub open spec fn run_steps(state: ConnState, events: Seq<ConnEvent>) -> ConnState
    decreases events.len(),
{
    if events.len() == 0 {
        state
    } else {
        run_steps(spec_step(state, events[0]).0, events.drop_first())
    }
}

/// A closed connection never serves again.
pub proof fn lemma_closed_stays_closed(events: Seq<ConnEvent>)
    ensures
        run_steps(ConnState::Closed, events) is Closed,
    decreases events.len(),
{
    if events.len() > 0 {
        lemma_closed_stays_closed(events.drop_first());
    }
}

/// The pinned upstream never changes: however many requests one client
/// connection carries and however the healthy set moves meanwhile, every
/// state the serve loop reaches carries the upstream chosen at selection,
/// until the connection closes.
pub proof fn lemma_upstream_pinned(u: String, events: Seq<ConnEvent>)
    ensures
        run_steps(ConnState::Ready { upstream: u }, events) matches ConnState::Ready { upstream }
            ==> upstream == u,
    decreases events.len(),
{
    if events.len() > 0 {
        let next = spec_step(ConnState::Ready { upstream: u }, events[0]).0;
        if next is Closed {
            lemma_closed_stays_closed(events.drop_first());
        } else {
            assert(next == ConnState::Ready { upstream: u });
            lemma_upstream_pinned(u, events.drop_first());
        }
    }
}

/// A forward is only ever ordered from the serving state, and ordering
/// it leaves that state — with its pinned upstream — unchanged.
pub proof fn lemma_forward_only_while_serving(state: ConnState, event: ConnEvent)
    ensures
        spec_step(state, event).1 == ConnAction::ForwardRequest ==> (state matches ConnState::Ready {
            ..
        }) && spec_step(state, event).0 == state,
{
}

/// An oversized request body draws exactly one 413 reply and leaves the
/// connection open, still pinned, for the client's next request.
pub proof fn lemma_oversized_body_keeps_connection(u: String)
    ensures
        spec_step(
            ConnState::Ready { upstream: u },
            ConnEvent::RequestRead(ReadOutcome::BodyTooLarge),
        ) == (
            ConnState::Ready { upstream: u },
            ConnAction::ReplyAndContinue(STATUS_PAYLOAD_TOO_LARGE),
        ),
{
}

/// Appends the client address to a forwarded-for chain: the prior chain
/// is preserved, never replaced.
pub fn append_forwarded_for(existing: Option<&str>, client_ip: &str) -> (r: String)
    ensures
        match existing {
            Option::Some(prev) => r@ == prev@ + ", "@ + client_ip@,
            Option::None => r@ == client_ip@,
        },
{
    match existing {
        Option::Some(prev) => {
            let mut chain = prev.to_owned();
            chain.append(", ");
            chain.append(client_ip);
            chain
        },
        Option::None => client_ip.to_owned(),
    }
}

} // verus!
