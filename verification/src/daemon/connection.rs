//! The decisions of one client connection to the daemon's JSON-RPC socket:
//! what to do with each line read and each event, and whether the client
//! has subscribed to events.
use vstd::prelude::*;
use crate::text::{chars_of, same_text, trim, trim_bounds};

verus! {

/// The error code answered for a line that is not a JSON-RPC request.
pub const INVALID_REQUEST: i32 = -32600;

/// The error code answered for a request whose method or parameters do not
/// name a command.
pub const INVALID_PARAMS: i32 = -32602;

/// What happened on a connection.
#[derive(Debug, Clone)]
pub enum ConnInput {
    /// A line was read from the client.
    Line(String),
    /// The non-blank line handed to `Parse` is not a JSON-RPC request.
    Unparsable,
    /// The non-blank line handed to `Parse` is a request for `method`.
    Request { method: String },
    /// The daemon published an event.
    Event,
    /// The client closed the connection, or reading failed.
    Closed,
}

/// What the connection does next.
#[derive(Debug, Clone, Copy, PartialEq, Eq, Structural)]
pub enum ConnAction {
    /// Nothing to answer.
    Skip,
    /// Parse the line as a JSON-RPC request and hand back the outcome.
    Parse,
    /// Answer an error with this code and no id.
    ReplyError { code: i32 },
    /// Answer that the client is subscribed, with the request's id.
    ReplySubscribed,
    /// Run the request's command and answer its response, with the request's id.
    Execute,
    /// Send the event to the client as a notification line.
    ForwardEvent,
    /// Stop serving the connection.
    Close,
}

/// The connection's next subscription state and action.
pub open spec fn step_spec(subscribed: bool, input: ConnInput) -> (bool, ConnAction) {
    match input {
        ConnInput::Line(text) => if trim(text@).len() == 0 {
            (subscribed, ConnAction::Skip)
        } else {
            (subscribed, ConnAction::Parse)
        },
        ConnInput::Unparsable => (subscribed, ConnAction::ReplyError { code: INVALID_REQUEST }),
        ConnInput::Request { method } => if method@ == "Subscribe"@ {
            (true, ConnAction::ReplySubscribed)
        } else {
            (subscribed, ConnAction::Execute)
        },
        ConnInput::Event => if subscribed {
            (subscribed, ConnAction::ForwardEvent)
        } else {
            (subscribed, ConnAction::Skip)
        },
        ConnInput::Closed => (subscribed, ConnAction::Close),
    }
}

/// One step of a connection: blank lines are skipped, other lines are
/// parsed, a line that is no request gets `INVALID_REQUEST`, `Subscribe`
/// switches the connection to forwarding events, any other request is
/// executed, and events reach only subscribed clients.
pub fn connection_step(subscribed: bool, input: &ConnInput) -> (r: (bool, ConnAction))
    ensures
        r == step_spec(subscribed, *input),
{
    match input {
        ConnInput::Line(text) => {
            let cs = chars_of(text.as_str());
            let (a, b) = trim_bounds(cs.as_slice());
            if a == b {
                (subscribed, ConnAction::Skip)
            } else {
                (subscribed, ConnAction::Parse)
            }
        },
        ConnInput::Unparsable => (subscribed, ConnAction::ReplyError { code: INVALID_REQUEST }),
        ConnInput::Request { method } => {
            if same_text(method.as_str(), "Subscribe") {
                (true, ConnAction::ReplySubscribed)
            } else {
                (subscribed, ConnAction::Execute)
            }
        },
        ConnInput::Event => if subscribed {
            (subscribed, ConnAction::ForwardEvent)
        } else {
            (subscribed, ConnAction::Skip)
        },
        ConnInput::Closed => (subscribed, ConnAction::Close),
    }
}

/// Once subscribed, a connection stays subscribed: no step unsubscribes it.
pub proof fn subscription_is_kept(input: ConnInput)
    ensures
        step_spec(true, input).0,
{
}

} // verus!
