use vstd::prelude::*;
use vstd::string::*;

use crate::decimal::{decimal_milli, parse_fixed, parses_to_fixed, Fixed};
use crate::text::{ascii_upper, text_eq, to_ascii_upper};
use crate::transport::{MockTransport, Transport};

verus! {

/// The kinds of device a registry can make.
#[derive(Clone, Copy, Debug, PartialEq, Eq, Structural)]
pub enum DeviceType {
    PowerSocket,
    Thermometer,
}

pub open spec fn zero_fixed() -> Fixed {
    Fixed { milli: 0 }
}

/// Whether a power socket's answer to `"state"` reads as switched on, in
/// whatever case it came.
pub open spec fn reads_on(reply: Seq<char>) -> bool {
    ascii_upper(reply) == "ON"@
}

/// What a power socket rated `power` reports when its state query was answered
/// with `reply`.
pub open spec fn socket_value(power: Fixed, reply: Seq<char>) -> Fixed {
    if reads_on(reply) {
        power
    } else {
        zero_fixed()
    }
}

/// The reading a sensor payload carries: decimal text with a non-zero value.
pub open spec fn sample_reading(payload: Seq<char>) -> Option<Fixed> {
    if parses_to_fixed(payload) && decimal_milli(payload) != 0 {
        Some(Fixed { milli: decimal_milli(payload) as i64 })
    } else {
        None
    }
}

proof fn lemma_state_tokens()
    ensures
        ascii_upper("on"@) == "ON"@,
        ascii_upper("off"@) == "OFF"@,
        ascii_upper("OFF"@) == "OFF"@,
        "ON"@ != "OFF"@,
        "on"@ != "off"@,
        "state"@ != "on"@,
        "state"@ != "off"@,
{
    reveal_strlit("on");
    reveal_strlit("ON");
    reveal_strlit("off");
    reveal_strlit("OFF");
    reveal_strlit("state");
    assert(ascii_upper("on"@) =~= "ON"@);
    assert(ascii_upper("off"@) =~= "OFF"@);
    assert(ascii_upper("OFF"@) =~= "OFF"@);
    assert("ON"@.len() != "OFF"@.len());
    assert("on"@.len() != "off"@.len());
    assert("state"@.len() != "on"@.len());
    assert("state"@.len() != "off"@.len());
}

/// A switchable outlet. It keeps no on/off flag of its own: every query is a
/// round trip through its transport.
pub struct PowerSocket<T> {
    pub power: Fixed,
    pub transport: T,
}

impl<T: Transport> PowerSocket<T> {
    pub fn new(transport: T, power: Fixed) -> (r: Self)
        ensures
            r.power == power,
            r.transport == transport,
    {
        PowerSocket { power, transport }
    }

    pub fn get_name(&self) -> (r: String)
        ensures
            r@ == "PowerSocket"@,
    {
        String::from_str("PowerSocket")
    }

    /// Sends `"on"`; whatever comes back is not looked at.
    pub fn on(&mut self)
        ensures
            final(self).power == old(self).power,
            exists|reply: Seq<char>| old(self).transport.answers("on"@, reply, final(self).transport),
    {
        let reply = self.transport.exchange("on");
        assert(old(self).transport.answers("on"@, reply@, self.transport));
    }

    /// Sends `"off"`; whatever comes back is not looked at.
    pub fn off(&mut self)
        ensures
            final(self).power == old(self).power,
            exists|reply: Seq<char>| old(self).transport.answers("off"@, reply, final(self).transport),
    {
        let reply = self.transport.exchange("off");
        assert(old(self).transport.answers("off"@, reply@, self.transport));
    }

    /// Asks the transport for the state and returns its answer in upper case.
    pub fn get_state(&mut self) -> (r: String)
        ensures
            final(self).power == old(self).power,
            exists|reply: Seq<char>|
                #![trigger old(self).transport.answers("state"@, reply, final(self).transport)]
                old(self).transport.answers("state"@, reply, final(self).transport) && r@
                    == ascii_upper(reply),
    {
        let reply = self.transport.exchange("state");
        let r = to_ascii_upper(reply.as_str());
        assert(old(self).transport.answers("state"@, reply@, self.transport));
        r
    }

    /// The rated power while the transport reports the socket on, else zero.
    pub fn get_value(&mut self) -> (r: Fixed)
        ensures
            final(self).power == old(self).power,
            exists|reply: Seq<char>|
                #![trigger old(self).transport.answers("state"@, reply, final(self).transport)]
                old(self).transport.answers("state"@, reply, final(self).transport) && r
                    == socket_value(old(self).power, reply),
    {
        let state = self.get_state();
        if text_eq(state.as_str(), "ON") {
            self.power
        } else {
            Fixed::zero()
        }
    }
}

impl Default for PowerSocket<MockTransport> {
    /// A socket rated zero, switched off.
    fn default() -> (r: Self)
        ensures
            r.power == zero_fixed(),
            r.transport@ == "OFF"@,
    {
        PowerSocket::new(MockTransport::new(String::from_str("OFF")), Fixed::zero())
    }
}

/// A temperature sensor. Its reading is replaced by the samples that arrive
/// from its feed; a local switch decides whether the reading is shown.
pub struct Thermometer {
    pub temperature: Fixed,
    pub on: bool,
}

impl Thermometer {
    /// The value a sensor shows: its reading while on, else zero.
    pub open spec fn shown_value(self) -> Fixed {
        if self.on {
            self.temperature
        } else {
            zero_fixed()
        }
    }

    /// A sensor showing `temperature`, switched on.
    pub fn new(temperature: Fixed) -> (r: Self)
        ensures
            r.temperature == temperature,
            r.on,
    {
        Thermometer { temperature, on: true }
    }

    pub fn get_name(&self) -> (r: String)
        ensures
            r@ == "Thermometer"@,
    {
        String::from_str("Thermometer")
    }

    pub fn get_state(&self) -> (r: String)
        ensures
            r@ == (if self.on {
                "ON"@
            } else {
                "OFF"@
            }),
    {
        if self.on {
            String::from_str("ON")
        } else {
            String::from_str("OFF")
        }
    }

    /// The last reading while switched on, else zero.
    pub fn get_value(&self) -> (r: Fixed)
        ensures
            r == self.shown_value(),
    {
        if self.on {
            self.temperature
        } else {
            Fixed::zero()
        }
    }

    pub fn on(&mut self)
        ensures
            final(self).on,
            final(self).temperature == old(self).temperature,
    {
        self.on = true;
    }

    pub fn off(&mut self)
        ensures
            !final(self).on,
            final(self).temperature == old(self).temperature,
    {
        self.on = false;
    }

    /// Takes one payload of the sensor feed. Decimal text with a non-zero
    /// value becomes the reading; anything else leaves the last reading.
    pub fn apply_sample(&mut self, payload: &str)
        ensures
            final(self).on == old(self).on,
            final(self).temperature == (match sample_reading(payload@) {
                Some(v) => v,
                None => old(self).temperature,
            }),
    {
        if let Some(v) = parse_fixed(payload) {
            if !v.is_zero() {
                self.temperature = v;
            }
        }
    }
}

impl Default for Thermometer {
    /// A sensor reading zero, switched on.
    fn default() -> (r: Self)
        ensures
            r.temperature == zero_fixed(),
            r.on,
    {
        Thermometer::new(Fixed::zero())
    }
}

/// A device as `SmartDevice::new` makes it: a socket switched off, a sensor
/// switched on, with `value` as its rating.
pub open spec fn fresh(d: SmartDevice, kind: DeviceType, value: Fixed) -> bool {
    &&& d.kind() == kind
    &&& d.rating() == value
    &&& d.is_on() == (kind == DeviceType::Thermometer)
    &&& d.state_of() == (if d.is_on() {
        "ON"@
    } else {
        "OFF"@
    })
}

/// `after` is a device switched on (or off) from `before`.
pub open spec fn switched(before: SmartDevice, after: SmartDevice, on: bool) -> bool {
    &&& after.kind() == before.kind()
    &&& after.rating() == before.rating()
    &&& after.is_on() == on
    &&& after.state_of() == (if on {
        "ON"@
    } else {
        "OFF"@
    })
}

/// A device of either kind. Devices made by a registry answer through an
/// in-memory transport.
pub enum SmartDevice {
    PowerSocket(PowerSocket<MockTransport>),
    Thermometer(Thermometer),
}

impl SmartDevice {
    pub open spec fn kind(self) -> DeviceType {
        match self {
            SmartDevice::PowerSocket(_) => DeviceType::PowerSocket,
            SmartDevice::Thermometer(_) => DeviceType::Thermometer,
        }
    }

    /// The rated power of a socket, the last reading of a sensor.
    pub open spec fn rating(self) -> Fixed {
        match self {
            SmartDevice::PowerSocket(p) => p.power,
            SmartDevice::Thermometer(t) => t.temperature,
        }
    }

    pub open spec fn is_on(self) -> bool {
        match self {
            SmartDevice::PowerSocket(p) => reads_on(p.transport@),
            SmartDevice::Thermometer(t) => t.on,
        }
    }

    pub open spec fn value_of(self) -> Fixed {
        if self.is_on() {
            self.rating()
        } else {
            zero_fixed()
        }
    }

    pub open spec fn state_of(self) -> Seq<char> {
        match self {
            SmartDevice::PowerSocket(p) => ascii_upper(p.transport@),
            SmartDevice::Thermometer(t) => if t.on {
                "ON"@
            } else {
                "OFF"@
            },
        }
    }

    pub open spec fn name_of(self) -> Seq<char> {
        match self {
            SmartDevice::PowerSocket(_) => "PowerSocket"@,
            SmartDevice::Thermometer(_) => "Thermometer"@,
        }
    }

    /// A new device of the given kind: a socket rated `value`, switched off,
    /// or a sensor showing `value`, switched on.
    pub fn new(kind: DeviceType, value: Fixed) -> (r: Self)
        ensures
            fresh(r, kind, value),
    {
        proof {
            lemma_state_tokens();
        }
        match kind {
            DeviceType::PowerSocket => SmartDevice::PowerSocket(
                PowerSocket::new(MockTransport::new(String::from_str("OFF")), value),
            ),
            DeviceType::Thermometer => SmartDevice::Thermometer(Thermometer::new(value)),
        }
    }

    pub fn turn_on(&mut self)
        ensures
            switched(*old(self), *final(self), true),
    {
        proof {
            lemma_state_tokens();
        }
        match self {
            SmartDevice::PowerSocket(p) => p.on(),
            SmartDevice::Thermometer(t) => t.on(),
        }
    }

    pub fn turn_off(&mut self)
        ensures
            switched(*old(self), *final(self), false),
    {
        proof {
            lemma_state_tokens();
        }
        match self {
            SmartDevice::PowerSocket(p) => p.off(),
            SmartDevice::Thermometer(t) => t.off(),
        }
    }

    pub fn get_value(&mut self) -> (r: Fixed)
        ensures
            r == old(self).value_of(),
            *final(self) == *old(self),
    {
        proof {
            lemma_state_tokens();
        }
        match self {
            SmartDevice::PowerSocket(p) => p.get_value(),
            SmartDevice::Thermometer(t) => t.get_value(),
        }
    }

    pub fn get_state(&mut self) -> (r: String)
        ensures
            r@ == old(self).state_of(),
            *final(self) == *old(self),
    {
        proof {
            lemma_state_tokens();
        }
        match self {
            SmartDevice::PowerSocket(p) => p.get_state(),
            SmartDevice::Thermometer(t) => t.get_state(),
        }
    }

    /// Hands out the port `base` holds and moves `base` on to the next one.
    pub fn get_port_then_increment(base: &mut u16) -> (port: u16)
        requires
            *old(base) < u16::MAX,
        ensures
            port == *old(base),
            *final(base) == *old(base) + 1,
    {
        let port = *base;
        *base = *base + 1;
        port
    }

    pub fn get_name(&self) -> (r: String)
        ensures
            r@ == self.name_of(),
    {
        match self {
            SmartDevice::PowerSocket(p) => p.get_name(),
            SmartDevice::Thermometer(t) => t.get_name(),
        }
    }
}

impl From<PowerSocket<MockTransport>> for SmartDevice {
    fn from(device: PowerSocket<MockTransport>) -> (r: Self) {
        SmartDevice::PowerSocket(device)
    }
}

impl vstd::std_specs::convert::FromSpecImpl<PowerSocket<MockTransport>> for SmartDevice {
    open spec fn obeys_from_spec() -> bool {
        true
    }

    open spec fn from_spec(device: PowerSocket<MockTransport>) -> Self {
        SmartDevice::PowerSocket(device)
    }
}

impl From<Thermometer> for SmartDevice {
    fn from(device: Thermometer) -> (r: Self) {
        SmartDevice::Thermometer(device)
    }
}

impl vstd::std_specs::convert::FromSpecImpl<Thermometer> for SmartDevice {
    open spec fn obeys_from_spec() -> bool {
        true
    }

    open spec fn from_spec(device: Thermometer) -> Self {
        SmartDevice::Thermometer(device)
    }
}

} // verus!
