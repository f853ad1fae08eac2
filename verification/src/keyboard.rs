//! The events a virtual keyboard writes to the kernel's uinput device.

use vstd::prelude::*;
use crate::le::{push_u16_le, push_u32_le, push_u64_le, u16_le, u32_le, u64_le};

verus! {

/// Linux key code of A.
pub const KEY_A: u16 = 30;

/// Linux key code of D.
pub const KEY_D: u16 = 32;

/// Event type of a synchronization report.
pub const EV_SYN: u16 = 0;

/// Event type of a key event.
pub const EV_KEY: u16 = 1;

/// Code of a synchronization report.
pub const SYN_REPORT: u16 = 0;

/// Size of the name field of a uinput device setup.
pub const UINPUT_MAX_NAME_SIZE: usize = 80;

/// A time stamp: seconds and microseconds since the epoch.
#[derive(Debug, Clone, Copy, PartialEq, Eq, Structural)]
pub struct Timeval {
    pub seconds: u64,
    pub microseconds: u64,
}

/// An input event as the kernel reads it.
#[derive(Debug, Clone, Copy, PartialEq, Eq, Structural)]
pub struct InputEvent {
    pub time: Timeval,
    pub event_type: u16,
    pub code: u16,
    pub value: i32,
}

/// The bytes of an event: seconds and microseconds as little-endian `u64`,
/// type and code as little-endian `u16`, the value as a little-endian `i32`.
pub open spec fn event_bytes(e: InputEvent) -> Seq<u8> {
    u64_le(e.time.seconds) + u64_le(e.time.microseconds) + u16_le(e.event_type) + u16_le(e.code)
        + u32_le(e.value as u32)
}

impl InputEvent {
    pub fn bytes(&self) -> (r: Vec<u8>)
        ensures
            r@ == event_bytes(*self),
            r@.len() == 24,
    {
        let mut bytes: Vec<u8> = Vec::new();
        push_u64_le(&mut bytes, self.time.seconds);
        push_u64_le(&mut bytes, self.time.microseconds);
        push_u16_le(&mut bytes, self.event_type);
        push_u16_le(&mut bytes, self.code);
        push_u32_le(&mut bytes, self.value as u32);
        assert(bytes@ =~= event_bytes(*self));
        bytes
    }
}

/// A key of the virtual keyboard.
#[derive(Debug, Clone, Copy, PartialEq, Eq, Structural)]
pub enum VirtualKey {
    A,
    D,
}

impl VirtualKey {
    /// The key's Linux key code.
    pub open spec fn spec_code(self) -> u16 {
        match self {
            VirtualKey::A => KEY_A,
            VirtualKey::D => KEY_D,
        }
    }

    pub fn code(self) -> (r: u16)
        ensures
            r == self.spec_code(),
    {
        match self {
            VirtualKey::A => KEY_A,
            VirtualKey::D => KEY_D,
        }
    }
}

/// The two events that press or release a key at a time: the key event, then
/// a synchronization report with the same time.
pub fn key_events(key: VirtualKey, pressed: bool, time: Timeval) -> (r: (InputEvent, InputEvent))
    ensures
        r.0 == (InputEvent {
            time,
            event_type: EV_KEY,
            code: key.spec_code(),
            value: if pressed {
                1
            } else {
                0
            },
        }),
        r.1 == (InputEvent { time, event_type: EV_SYN, code: SYN_REPORT, value: 0 }),
{
    let key_event = InputEvent {
        time,
        event_type: EV_KEY,
        code: key.code(),
        value: if pressed {
            1
        } else {
            0
        },
    };
    let syn = InputEvent { time, event_type: EV_SYN, code: SYN_REPORT, value: 0 };
    (key_event, syn)
}

/// The name field of the device setup: the name's bytes, cut to leave room
/// for a terminating zero, then zeros.
pub fn device_name_field(name: &[u8]) -> (r: [u8; 80])
    ensures
        forall|k: int|
            0 <= k < 80 ==> #[trigger] r@[k] == if k < name@.len() && k < 79 {
                name@[k]
            } else {
                0u8
            },
{
    let mut field = [0u8; 80];
    let copy_len: usize = if name.len() < 79 { name.len() } else { 79 };
    let mut k: usize = 0;
    while k < copy_len
        invariant
            copy_len <= 79,
            copy_len <= name@.len(),
            copy_len == name@.len() || copy_len == 79,
            k <= copy_len,
            forall|j: int| 0 <= j < k ==> field@[j] == name@[j],
            forall|j: int| k <= j < 80 ==> field@[j] == 0u8,
        decreases copy_len - k,
    {
        field.set(k, name[k]);
        k += 1;
    }
    field
}

} // verus!
