use vstd::prelude::*;
use vstd::string::*;
use vstd::utf8::*;

use crate::decimal::Fixed;
use crate::device::{fresh, switched, zero_fixed, DeviceType, SmartDevice};

verus! {

/// Devices addressed by handle. A handle is the index of the device's slot;
/// slots are only ever appended, so a handle names one device for the whole
/// life of the registry and is never given to another.
pub struct Registry {
    devices: Vec<SmartDevice>,
}

impl View for Registry {
    type V = Seq<SmartDevice>;

    closed spec fn view(&self) -> Seq<SmartDevice> {
        self.devices@
    }
}

/// A device whose state reads `"ON"` exactly when it is on and `"OFF"`
/// otherwise.
pub open spec fn canonical(d: SmartDevice) -> bool {
    d.state_of() == (if d.is_on() {
        "ON"@
    } else {
        "OFF"@
    })
}

/// Every device of a registry reports one of the two state tokens.
pub open spec fn all_canonical(devices: Seq<SmartDevice>) -> bool {
    forall|i: int| 0 <= i < devices.len() ==> #[trigger] canonical(devices[i])
}


/// The text returned for a handle that names no device.
pub open spec fn placeholder() -> Seq<char> {
    "Unknown"@
}

pub open spec fn names_device(devices: Seq<SmartDevice>, id: u64) -> bool {
    (id as int) < devices.len()
}

/// `after` is `before` with one more device, made of `kind` and `value`.
pub open spec fn created(
    before: Seq<SmartDevice>,
    after: Seq<SmartDevice>,
    kind: DeviceType,
    value: Fixed,
) -> bool {
    &&& after.len() == before.len() + 1
    &&& after.take(before.len() as int) == before
    &&& fresh(after[before.len() as int], kind, value)
}

/// `after` is `before` with device `id` switched on (or off); with no such
/// device, nothing changed.
pub open spec fn switched_at(
    before: Seq<SmartDevice>,
    after: Seq<SmartDevice>,
    id: u64,
    on: bool,
) -> bool {
    if names_device(before, id) {
        &&& after.len() == before.len()
        &&& forall|i: int| 0 <= i < before.len() && i != id ==> after[i] == before[i]
        &&& switched(before[id as int], after[id as int], on)
    } else {
        after == before
    }
}

pub open spec fn value_at(devices: Seq<SmartDevice>, id: u64) -> Fixed {
    if names_device(devices, id) {
        devices[id as int].value_of()
    } else {
        zero_fixed()
    }
}

pub open spec fn name_at(devices: Seq<SmartDevice>, id: u64) -> Seq<char> {
    if names_device(devices, id) {
        devices[id as int].name_of()
    } else {
        placeholder()
    }
}

pub open spec fn state_at(devices: Seq<SmartDevice>, id: u64) -> Seq<char> {
    if names_device(devices, id) {
        devices[id as int].state_of()
    } else {
        placeholder()
    }
}

/// How many bytes of a `len`-byte text fit a buffer of `cap` bytes that must
/// keep room for the terminating zero.
pub open spec fn copied_len(cap: int, len: int) -> int {
    if cap == 0 {
        0
    } else if cap - 1 < len {
        cap - 1
    } else {
        len
    }
}

/// `after` is buffer `before` holding as much of `src` as fits, then a zero;
/// the bytes beyond are untouched. A buffer of no bytes stays as it was.
pub open spec fn holds_copy(before: Seq<u8>, after: Seq<u8>, src: Seq<u8>) -> bool {
    let n = copied_len(before.len() as int, src.len() as int);
    &&& after.len() == before.len()
    &&& after.take(n) == src.take(n)
    &&& before.len() > 0 ==> after[n] == 0
    &&& before.len() > 0 ==> after.skip(n + 1) == before.skip(n + 1)
    &&& before.len() == 0 ==> after == before
}

/// Copies as much of `src` as fits into `buffer`, followed by a zero, and
/// returns the full length of `src` so that a caller can tell it was cut.
pub fn copy_to_buffer(src: &[u8], buffer: &mut [u8]) -> (r: usize)
    ensures
        r == src@.len(),
        holds_copy(old(buffer)@, final(buffer)@, src@),
{
    let ghost before = buffer@;
    let cap = buffer.len();
    if cap == 0 {
        assert(buffer@.take(0) =~= src@.take(0));
        return src.len();
    }
    let n = if cap - 1 < src.len() {
        cap - 1
    } else {
        src.len()
    };
    let mut i: usize = 0;
    while i < n
        invariant
            before == old(buffer)@,
            cap == before.len(),
            n < cap,
            n <= src@.len(),
            i <= n,
            buffer@.len() == cap,
            forall|j: int| 0 <= j < i ==> buffer@[j] == src@[j],
            forall|j: int| i <= j < cap ==> buffer@[j] == before[j],
        decreases n - i,
    {
        buffer[i] = src[i];
        i = i + 1;
    }
    buffer[n] = 0;
    assert(buffer@.take(n as int) =~= src@.take(n as int));
    assert(buffer@.skip(n + 1) =~= before.skip(n + 1));
    src.len()
}

/// Copies `text` into `buffer` as `copy_to_buffer` does, as UTF-8 bytes.
fn copy_text(text: &str, buffer: &mut [u8]) -> (r: usize)
    ensures
        r == encode_utf8(text@).len(),
        holds_copy(old(buffer)@, final(buffer)@, encode_utf8(text@)),
{
    copy_to_buffer(text.as_bytes(), buffer)
}

impl Registry {
    pub fn new() -> (r: Registry)
        ensures
            r@ == Seq::<SmartDevice>::empty(),
            all_canonical(r@),
    {
        Registry { devices: Vec::new() }
    }

    /// The number of devices, which is also the next handle to be given.
    pub fn len(&self) -> (r: usize)
        ensures
            r == self@.len(),
    {
        self.devices.len()
    }
}

/// Makes a device of the given kind and returns its handle, one above every
/// handle given before.
pub fn new_device(registry: &mut Registry, device_type: DeviceType, value: Fixed) -> (r: u64)
    requires
        all_canonical(old(registry)@),
    ensures
        r == old(registry)@.len(),
        created(old(registry)@, final(registry)@, device_type, value),
        all_canonical(final(registry)@),
{
    let ghost before = registry@;
    let id = registry.devices.len() as u64;
    let device = SmartDevice::new(device_type, value);
    registry.devices.push(device);
    assert(registry@.take(before.len() as int) =~= before);
    id
}

/// Switches device `id` on; `false` when no device has that handle.
pub fn device_on(registry: &mut Registry, id: u64) -> (r: bool)
    requires
        all_canonical(old(registry)@),
    ensures
        r == names_device(old(registry)@, id),
        switched_at(old(registry)@, final(registry)@, id, true),
        all_canonical(final(registry)@),
{
    if id >= registry.devices.len() as u64 {
        return false;
    }
    let i = id as usize;
    registry.devices[i].turn_on();
    true
}

/// Switches device `id` off; `false` when no device has that handle.
pub fn device_off(registry: &mut Registry, id: u64) -> (r: bool)
    requires
        all_canonical(old(registry)@),
    ensures
        r == names_device(old(registry)@, id),
        switched_at(old(registry)@, final(registry)@, id, false),
        all_canonical(final(registry)@),
{
    if id >= registry.devices.len() as u64 {
        return false;
    }
    let i = id as usize;
    registry.devices[i].turn_off();
    true
}

/// The value device `id` reports, or zero when no device has that handle.
/// Asking is a round trip through the device's transport, hence `&mut`.
pub fn device_get_value(registry: &mut Registry, id: u64) -> (r: Fixed)
    requires
        all_canonical(old(registry)@),
    ensures
        r == value_at(old(registry)@, id),
        final(registry)@ == old(registry)@,
        all_canonical(final(registry)@),
{
    if id >= registry.devices.len() as u64 {
        return Fixed::zero();
    }
    let i = id as usize;
    let ghost before = registry@;
    let v = registry.devices[i].get_value();
    assert(registry@ =~= before);
    v
}

/// Writes the name of device `id` (or the placeholder) into `buffer` and
/// returns the name's full length in bytes.
pub fn device_get_name(registry: &Registry, id: u64, buffer: &mut [u8]) -> (r: usize)
    ensures
        r == encode_utf8(name_at(registry@, id)).len(),
        holds_copy(old(buffer)@, final(buffer)@, encode_utf8(name_at(registry@, id))),
{
    let name = if id < registry.devices.len() as u64 {
        registry.devices[id as usize].get_name()
    } else {
        String::from_str("Unknown")
    };
    copy_text(name.as_str(), buffer)
}

/// Writes the state of device `id` (or the placeholder) into `buffer` and
/// returns the state's full length in bytes.
pub fn device_state(registry: &mut Registry, id: u64, buffer: &mut [u8]) -> (r: usize)
    requires
        all_canonical(old(registry)@),
    ensures
        state_at(old(registry)@, id) == (if !names_device(old(registry)@, id) {
            placeholder()
        } else if old(registry)@[id as int].is_on() {
            "ON"@
        } else {
            "OFF"@
        }),
        r == encode_utf8(state_at(old(registry)@, id)).len(),
        holds_copy(old(buffer)@, final(buffer)@, encode_utf8(state_at(old(registry)@, id))),
        final(registry)@ == old(registry)@,
        all_canonical(final(registry)@),
{
    if id >= registry.devices.len() as u64 {
        let placeholder = String::from_str("Unknown");
        return copy_text(placeholder.as_str(), buffer);
    }
    let i = id as usize;
    let ghost before = registry@;
    assert(canonical(before[i as int]));
    let state = registry.devices[i].get_state();
    assert(registry@ =~= before);
    copy_text(state.as_str(), buffer)
}

/// A power socket made with rating `w` reports `w` once switched on, and zero
/// once switched off again.
pub proof fn lemma_socket_round_trip(
    r0: Seq<SmartDevice>,
    r1: Seq<SmartDevice>,
    r2: Seq<SmartDevice>,
    r3: Seq<SmartDevice>,
    h: u64,
    w: Fixed,
)
    requires
        h == r0.len(),
        created(r0, r1, DeviceType::PowerSocket, w),
        switched_at(r1, r2, h, true),
        switched_at(r2, r3, h, false),
    ensures
        value_at(r2, h) == w,
        value_at(r3, h) == zero_fixed(),
{
}

/// Switching a device on a second time changes nothing that a caller can
/// observe: every handle reports the same name, state and value as after the
/// first time.
pub proof fn lemma_turn_on_idempotent(
    r0: Seq<SmartDevice>,
    r1: Seq<SmartDevice>,
    r2: Seq<SmartDevice>,
    id: u64,
)
    requires
        switched_at(r0, r1, id, true),
        switched_at(r1, r2, id, true),
    ensures
        forall|h: u64|
            #![trigger value_at(r2, h)]
            #![trigger name_at(r2, h)]
            #![trigger state_at(r2, h)]
            value_at(r1, h) == value_at(r2, h) && name_at(r1, h) == name_at(r2, h) && state_at(
                r1,
                h,
            ) == state_at(r2, h),
{
    assert forall|h: u64|
        #![trigger value_at(r2, h)]
        #![trigger name_at(r2, h)]
        #![trigger state_at(r2, h)]
        value_at(r1, h) == value_at(r2, h) && name_at(r1, h) == name_at(r2, h) && state_at(r1, h)
            == state_at(r2, h) by {
        if names_device(r1, h) && h != id {
            assert(r2[h as int] == r1[h as int]);
        }
    }
}

/// The registries seen by a run of creates: `rs[i + 1]` is `rs[i]` with the
/// device made of `kinds[i]` and `values[i]`.
pub open spec fn create_run(
    rs: Seq<Seq<SmartDevice>>,
    kinds: Seq<DeviceType>,
    values: Seq<Fixed>,
) -> bool {
    &&& rs.len() == kinds.len() + 1
    &&& values.len() == kinds.len()
    &&& forall|i: int|
        0 <= i < kinds.len() ==> #[trigger] created(rs[i], rs[i + 1], kinds[i], values[i])
}

proof fn lemma_run_lengths(
    rs: Seq<Seq<SmartDevice>>,
    kinds: Seq<DeviceType>,
    values: Seq<Fixed>,
    i: int,
)
    requires
        create_run(rs, kinds, values),
        0 <= i < rs.len(),
    ensures
        rs[i].len() == rs[0].len() + i,
    decreases i,
{
    if i > 0 {
        lemma_run_lengths(rs, kinds, values, i - 1);
        let p = i - 1;
        assert(created(rs[p], rs[p + 1], kinds[p], values[p]));
    }
}

proof fn lemma_run_prefix(
    rs: Seq<Seq<SmartDevice>>,
    kinds: Seq<DeviceType>,
    values: Seq<Fixed>,
    i: int,
    j: int,
)
    requires
        create_run(rs, kinds, values),
        0 <= i <= j < rs.len(),
    ensures
        rs[i].len() <= rs[j].len(),
        rs[j].take(rs[i].len() as int) == rs[i],
    decreases j - i,
{
    if i == j {
        assert(rs[j].take(rs[i].len() as int) =~= rs[i]);
    } else {
        lemma_run_prefix(rs, kinds, values, i, j - 1);
        let p = j - 1;
        assert(created(rs[p], rs[p + 1], kinds[p], values[p]));
        let a = rs[i];
        let b = rs[j - 1];
        let c = rs[j];
        assert(c.take(b.len() as int) == b);
        assert(c.take(a.len() as int) =~= a) by {
            assert forall|t: int| 0 <= t < a.len() implies c.take(a.len() as int)[t] == a[t] by {
                assert(c[t] == c.take(b.len() as int)[t]);
                assert(b[t] == b.take(a.len() as int)[t]);
            }
        }
    }
}

/// A run of creates gives each device its own handle (the length of the
/// registry it was added to), and at the end each of those handles still
/// names the device made under it.
pub proof fn lemma_creates_distinct(
    rs: Seq<Seq<SmartDevice>>,
    kinds: Seq<DeviceType>,
    values: Seq<Fixed>,
)
    requires
        create_run(rs, kinds, values),
    ensures
        forall|i: int, j: int|
            0 <= i < j < kinds.len() ==> #[trigger] rs[i].len() != #[trigger] rs[j].len(),
        forall|i: int|
            0 <= i < kinds.len() ==> #[trigger] fresh(
                rs[kinds.len() as int][rs[i].len() as int],
                kinds[i],
                values[i],
            ),
{
    let n = kinds.len() as int;
    assert forall|i: int, j: int|
        0 <= i < j < kinds.len() implies #[trigger] rs[i].len() != #[trigger] rs[j].len() by {
        lemma_run_lengths(rs, kinds, values, i);
        lemma_run_lengths(rs, kinds, values, j);
    }
    assert forall|i: int| 0 <= i < kinds.len() implies #[trigger] fresh(
        rs[n][rs[i].len() as int],
        kinds[i],
        values[i],
    ) by {
        assert(created(rs[i], rs[i + 1], kinds[i], values[i]));
        lemma_run_prefix(rs, kinds, values, i + 1, n);
        let b = rs[i + 1];
        let c = rs[n];
        let k = rs[i].len() as int;
        assert(c[k] == c.take(b.len() as int)[k]);
    }
}

/// After a run of creates on an empty registry, a handle that none of them
/// returned names no device: switching it fails and every query of it gives
/// the not-found answer (zero, or the placeholder text).
pub proof fn lemma_unissued_handles(
    rs: Seq<Seq<SmartDevice>>,
    kinds: Seq<DeviceType>,
    values: Seq<Fixed>,
    h: u64,
)
    requires
        create_run(rs, kinds, values),
        rs[0].len() == 0,
        forall|i: int| 0 <= i < kinds.len() ==> h != #[trigger] rs[i].len(),
    ensures
        !names_device(rs[kinds.len() as int], h),
        value_at(rs[kinds.len() as int], h) == zero_fixed(),
        name_at(rs[kinds.len() as int], h) == placeholder(),
        state_at(rs[kinds.len() as int], h) == placeholder(),
{
    let n = kinds.len() as int;
    lemma_run_lengths(rs, kinds, values, n);
    if (h as int) < n {
        lemma_run_lengths(rs, kinds, values, h as int);
        assert(rs[h as int].len() == h);
    }
}

} // verus!
