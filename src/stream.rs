use vstd::prelude::*;
use vstd::string::*;
use vstd::utf8::*;

use crate::text::decode_text;

verus! {

/// Where a stream transport stands within one exchange.
#[derive(Clone, Copy, Debug, PartialEq, Eq, Structural)]
pub enum Phase {
    /// Between exchanges.
    Idle,
    /// Waiting for a connection attempt.
    Connecting,
    /// Waiting for the command to be written.
    Writing,
    /// Waiting for the answer to be read.
    Reading,
}

/// What the code that owns the socket reports back.
pub enum LinkEvent {
    /// A new exchange is asked for.
    Start,
    /// A connection attempt ended; `true` when it succeeded.
    Connected(bool),
    /// Writing the command ended; `true` when every byte went out.
    Wrote(bool),
    /// Reading ended: the bytes read, or `None` on an error.
    Received(Option<Vec<u8>>),
}

/// What the code that owns the socket is to do next.
pub enum LinkAction {
    /// Open a new connection to the peer.
    Connect,
    /// Write the command on the connection.
    Write,
    /// Read the answer from the connection.
    Read,
    /// The exchange is over; this is its result.
    Reply(String),
}

/// The decisions of a stream transport: connect lazily, reconnect after any
/// failure, and answer `"disconnected"` rather than fail.
#[derive(Clone, Copy, Debug, PartialEq, Eq, Structural)]
pub struct StreamLink {
    pub connected: bool,
    pub phase: Phase,
}

/// The answer of a stream transport that could not reach its peer.
pub open spec fn disconnected() -> Seq<char> {
    "disconnected"@
}

/// The text an answer carries: valid UTF-8 and not empty.
pub open spec fn reply_text(bytes: Seq<u8>) -> Option<Seq<char>> {
    if valid_utf8(bytes) && decode_utf8(bytes).len() > 0 {
        Some(decode_utf8(bytes))
    } else {
        None
    }
}

/// The link after a failure: idle, with the connection dropped.
pub open spec fn failed() -> (StreamLink, Option<Seq<char>>) {
    (StreamLink { connected: false, phase: Phase::Idle }, Some(disconnected()))
}

/// The next link and, when the exchange ends, its result.
pub open spec fn transition(link: StreamLink, event: LinkEvent) -> (StreamLink, Option<Seq<char>>) {
    match event {
        LinkEvent::Start => if link.phase == Phase::Idle {
            if link.connected {
                (StreamLink { connected: true, phase: Phase::Writing }, None)
            } else {
                (StreamLink { connected: false, phase: Phase::Connecting }, None)
            }
        } else {
            failed()
        },
        LinkEvent::Connected(ok) => if link.phase == Phase::Connecting && ok {
            (StreamLink { connected: true, phase: Phase::Writing }, None)
        } else {
            failed()
        },
        LinkEvent::Wrote(ok) => if link.phase == Phase::Writing && ok {
            (StreamLink { connected: link.connected, phase: Phase::Reading }, None)
        } else {
            failed()
        },
        LinkEvent::Received(read) => if link.phase == Phase::Reading && read is Some && reply_text(
            read->0@,
        ) is Some {
            (StreamLink { connected: link.connected, phase: Phase::Idle }, reply_text(read->0@))
        } else {
            failed()
        },
    }
}

/// The action that leads out of a phase reached without a result.
pub open spec fn action_fits(action: LinkAction, phase: Phase, result: Option<Seq<char>>) -> bool {
    match action {
        LinkAction::Connect => phase == Phase::Connecting && result is None,
        LinkAction::Write => phase == Phase::Writing && result is None,
        LinkAction::Read => phase == Phase::Reading && result is None,
        LinkAction::Reply(t) => result == Some(t@),
    }
}

/// The link after each of the first `k` events.
pub open spec fn after_steps(link: StreamLink, events: Seq<LinkEvent>, k: nat) -> StreamLink
    decreases k,
{
    if k == 0 {
        link
    } else {
        transition(after_steps(link, events, (k - 1) as nat), events[k - 1]).0
    }
}

/// Whether the `k`-th event (from zero) ends the exchange.
pub open spec fn ends_at(link: StreamLink, events: Seq<LinkEvent>, k: nat) -> bool {
    transition(after_steps(link, events, k), events[k as int]).1 is Some
}

impl StreamLink {
    /// A link whose first connection attempt gave `connected`.
    pub fn new(connected: bool) -> (r: StreamLink)
        ensures
            r.connected == connected,
            r.phase == Phase::Idle,
    {
        StreamLink { connected, phase: Phase::Idle }
    }

    /// Takes one event and says what to do next.
    pub fn step(&mut self, event: LinkEvent) -> (action: LinkAction)
        ensures
            *final(self) == transition(*old(self), event).0,
            action_fits(action, final(self).phase, transition(*old(self), event).1),
    {
        let failure = StreamLink { connected: false, phase: Phase::Idle };
        match event {
            LinkEvent::Start => {
                if self.phase == Phase::Idle {
                    if self.connected {
                        self.phase = Phase::Writing;
                        LinkAction::Write
                    } else {
                        self.phase = Phase::Connecting;
                        LinkAction::Connect
                    }
                } else {
                    *self = failure;
                    LinkAction::Reply(String::from_str("disconnected"))
                }
            },
            LinkEvent::Connected(ok) => {
                if self.phase == Phase::Connecting && ok {
                    *self = StreamLink { connected: true, phase: Phase::Writing };
                    LinkAction::Write
                } else {
                    *self = failure;
                    LinkAction::Reply(String::from_str("disconnected"))
                }
            },
            LinkEvent::Wrote(ok) => {
                if self.phase == Phase::Writing && ok {
                    self.phase = Phase::Reading;
                    LinkAction::Read
                } else {
                    *self = failure;
                    LinkAction::Reply(String::from_str("disconnected"))
                }
            },
            LinkEvent::Received(read) => {
                if self.phase == Phase::Reading {
                    if let Some(bytes) = read {
                        if let Some(text) = decode_text(bytes.as_slice()) {
                            if text.unicode_len() > 0 {
                                self.phase = Phase::Idle;
                                return LinkAction::Reply(text);
                            }
                        }
                    }
                }
                *self = failure;
                LinkAction::Reply(String::from_str("disconnected"))
            },
        }
    }
}

/// An exchange that begins on an idle link ends within four events, whatever
/// the socket reports: no sequence of events keeps it waiting longer.
pub proof fn lemma_exchange_ends(link: StreamLink, events: Seq<LinkEvent>)
    requires
        link.phase == Phase::Idle,
        events.len() >= 4,
    ensures
        exists|k: nat| k < 4 && #[trigger] ends_at(link, events, k),
{
    reveal_with_fuel(after_steps, 5);
    if !ends_at(link, events, 0) && !ends_at(link, events, 1) && !ends_at(link, events, 2) {
        assert(ends_at(link, events, 3));
    }
}

/// An exchange that ends in failure leaves the link without a connection, so
/// the next exchange begins by connecting anew.
pub proof fn lemma_failure_reconnects(link: StreamLink, event: LinkEvent)
    requires
        transition(link, event) == failed(),
    ensures
        transition(link, event).0.phase == Phase::Idle,
        transition(transition(link, event).0, LinkEvent::Start).0.phase == Phase::Connecting,
{
}

} // verus!
