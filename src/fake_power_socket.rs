use vstd::prelude::*;
use vstd::string::*;
use vstd::utf8::*;

use crate::text::{decode_text, text_eq};

verus! {

/// What a text is once leading and trailing white space is taken off.
pub uninterp spec fn trimmed(s: Seq<char>) -> Seq<char>;

/// Relies on `str::trim`: the text without its leading and trailing white
/// space.
#[verifier::external_body]
fn trim_text(s: &str) -> (r: &str)
    ensures
        r@ == trimmed(s@),
{
    s.trim()
}

/// The switch of a simulated outlet.
#[derive(Clone, Copy, Debug, PartialEq, Eq, Structural)]
pub enum PowerSocketState {
    On,
    Off,
}

/// The answer to one command of the power-socket protocol, and the state it
/// leaves: `"state"` is answered `"on"` or `"off"`, `"on"` and `"off"` switch
/// and are answered `"ok"`, `"exit"` is answered `"bye"`, an empty command
/// gets no answer, anything else `"error"`.
pub open spec fn response(command: Seq<char>, state: PowerSocketState) -> (Seq<char>, PowerSocketState) {
    if command == "state"@ {
        (if state == PowerSocketState::On {
            "on"@
        } else {
            "off"@
        }, state)
    } else if command == "off"@ {
        ("ok"@, PowerSocketState::Off)
    } else if command == "on"@ {
        ("ok"@, PowerSocketState::On)
    } else if command == "exit"@ {
        ("bye"@, state)
    } else if command.len() == 0 {
        (Seq::empty(), state)
    } else {
        ("error"@, state)
    }
}

/// The command that a received buffer holds: its text without surrounding
/// white space, or `"error"` when it is not UTF-8.
pub open spec fn command_of(buf: Seq<u8>) -> Seq<char> {
    if valid_utf8(buf) {
        trimmed(decode_utf8(buf))
    } else {
        "error"@
    }
}

/// The peer end of the power-socket protocol: a simulated outlet listening on
/// `port`.
pub struct FakePowerSocket {
    pub state: PowerSocketState,
    pub port: u16,
}

impl FakePowerSocket {
    /// An outlet on `port`, switched off.
    pub fn new(port: u16) -> (r: Self)
        ensures
            r.state == PowerSocketState::Off,
            r.port == port,
    {
        FakePowerSocket { state: PowerSocketState::Off, port }
    }

    /// The command a received buffer holds.
    pub fn parse(buf: &[u8]) -> (r: String)
        ensures
            r@ == command_of(buf@),
    {
        match decode_text(buf) {
            Some(text) => String::from_str(trim_text(text.as_str())),
            None => String::from_str("error"),
        }
    }

    /// Answers one command and switches `state` as it asks.
    pub fn respond(command: &str, state: &mut PowerSocketState) -> (r: String)
        ensures
            (r@, *final(state)) == response(command@, *old(state)),
    {
        if text_eq(command, "state") {
            match *state {
                PowerSocketState::On => String::from_str("on"),
                PowerSocketState::Off => String::from_str("off"),
            }
        } else if text_eq(command, "off") {
            *state = PowerSocketState::Off;
            String::from_str("ok")
        } else if text_eq(command, "on") {
            *state = PowerSocketState::On;
            String::from_str("ok")
        } else if text_eq(command, "exit") {
            String::from_str("bye")
        } else if command.unicode_len() == 0 {
            String::new()
        } else {
            String::from_str("error")
        }
    }

    /// Answers the command that a received buffer holds.
    pub fn process(buf: &[u8], state: &mut PowerSocketState) -> (r: String)
        ensures
            (r@, *final(state)) == response(command_of(buf@), *old(state)),
    {
        let command = FakePowerSocket::parse(buf);
        FakePowerSocket::respond(command.as_str(), state)
    }
}

} // verus!
