//! The live channel: what the server answers to each control message. It
//! holds no state of the notes; a client that never connects loses nothing.
use vstd::prelude::*;

verus! {

/// A control message of a client.
pub enum LiveMessage {
    /// Asks for a sign of life and the server's time.
    Ping,
    /// Asks for news of a note.
    Subscribe { note_id: Option<String> },
    /// Anything else; it gets no answer.
    Other,
}

/// A message of the server.
pub enum LiveReply {
    /// Sent once, when the channel opens.
    Connected { server_time: i64 },
    /// The answer to a ping.
    Pong { server_time: i64 },
    /// The answer to a subscription, naming its note.
    Subscribed { note_id: Option<String> },
}

/// The message of type `msg_type`, carrying `note_id` when it has one.
pub fn parse_live_message(msg_type: &str, note_id: Option<String>) -> (r: LiveMessage)
    ensures
        msg_type@ == "ping"@ ==> r is Ping,
        msg_type@ == "subscribe"@ ==> r == (LiveMessage::Subscribe { note_id }),
        msg_type@ != "ping"@ && msg_type@ != "subscribe"@ ==> r is Other,
{
    proof {
        reveal_strlit("ping");
        reveal_strlit("subscribe");
        assert("ping"@[0] != "subscribe"@[0]);
    }
    let t = msg_type.to_owned();
    let ping = "ping".to_owned();
    let subscribe = "subscribe".to_owned();
    if t == ping {
        LiveMessage::Ping
    } else if t == subscribe {
        LiveMessage::Subscribe { note_id }
    } else {
        LiveMessage::Other
    }
}

/// The first message of a channel opened at time `now`.
pub fn welcome(now: i64) -> (r: LiveReply)
    ensures
        r == (LiveReply::Connected { server_time: now }),
{
    LiveReply::Connected { server_time: now }
}

/// The answer to `msg` at time `now`: a pong to a ping, an acknowledgment
/// naming the note to a subscription, nothing to anything else.
pub fn handle_message(msg: LiveMessage, now: i64) -> (r: Option<LiveReply>)
    ensures
        msg is Ping ==> r == Some(LiveReply::Pong { server_time: now }),
        msg is Subscribe ==> r == Some(LiveReply::Subscribed { note_id: msg->Subscribe_note_id }),
        msg is Other ==> r.is_none(),
{
    match msg {
        LiveMessage::Ping => Some(LiveReply::Pong { server_time: now }),
        LiveMessage::Subscribe { note_id } => Some(LiveReply::Subscribed { note_id }),
        LiveMessage::Other => None,
    }
}

} // verus!
