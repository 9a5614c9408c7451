use vstd::prelude::*;
use vstd::string::*;

use vstd::utf8::*;

use crate::text::{decode_text, text_eq};

verus! {

/// A channel to one device: a command goes out as text, the answer comes back
/// as text.
pub trait Transport: Sized {
    /// Whether a transport in state `self` may answer `command` with `reply`
    /// and be left in state `after`. Of a transport that says nothing more (a
    /// network connection), any answer and any state may come.
    open spec fn answers(self, command: Seq<char>, reply: Seq<char>, after: Self) -> bool {
        true
    }

    fn exchange(&mut self, command: &str) -> (reply: String)
        ensures
            old(self).answers(command@, reply@, *final(self)),
    ;
}

/// An in-memory transport that holds one text: `"on"` and `"off"` set it, and
/// every command is answered with the text it then holds.
pub struct MockTransport {
    value: String,
}

impl View for MockTransport {
    type V = Seq<char>;

    closed spec fn view(&self) -> Seq<char> {
        self.value@
    }
}

/// What an in-memory transport holding `held` holds after `command`.
pub open spec fn mock_after(held: Seq<char>, command: Seq<char>) -> Seq<char> {
    if command == "on"@ {
        "on"@
    } else if command == "off"@ {
        "off"@
    } else {
        held
    }
}

impl MockTransport {
    pub fn new(value: String) -> (r: Self)
        ensures
            r@ == value@,
    {
        MockTransport { value }
    }
}

impl Transport for MockTransport {
    open spec fn answers(self, command: Seq<char>, reply: Seq<char>, after: Self) -> bool {
        &&& after@ == mock_after(self@, command)
        &&& command != "on"@ && command != "off"@ ==> after == self
        &&& reply == after@
    }

    fn exchange(&mut self, command: &str) -> (reply: String) {
        if text_eq(command, "on") {
            self.value = String::from_str("on");
        } else if text_eq(command, "off") {
            self.value = String::from_str("off");
        }
        self.value.clone()
    }
}

/// The text a datagram carries: its bytes read as UTF-8, or empty text when
/// they are not valid UTF-8.
pub fn datagram_text(bytes: &[u8]) -> (r: String)
    ensures
        r@ == (if valid_utf8(bytes@) {
            decode_utf8(bytes@)
        } else {
            Seq::empty()
        }),
{
    match decode_text(bytes) {
        Some(s) => s,
        None => String::new(),
    }
}

} // verus!
