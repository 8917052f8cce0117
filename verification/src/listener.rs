//! What a keyboard listener reports: key values and why it stopped.
use vstd::prelude::*;

use crate::input::KeyEventKind;
use crate::text::append_str;

verus! {

/// The value of a key event from the kernel.
#[derive(Clone, Copy, Debug, PartialEq, Eq, Structural)]
pub enum KeyValue {
    Up,
    Down,
    Repeat,
}

/// The key value of a raw evdev key event value: 0, 1 and 2; other values
/// are ignored.
pub open spec fn key_value_of(raw: i32) -> Option<KeyValue> {
    if raw == 0 {
        Some(KeyValue::Up)
    } else if raw == 1 {
        Some(KeyValue::Down)
    } else if raw == 2 {
        Some(KeyValue::Repeat)
    } else {
        None
    }
}

pub fn key_value(raw: i32) -> (r: Option<KeyValue>)
    ensures
        r == key_value_of(raw),
{
    match raw {
        0 => Some(KeyValue::Up),
        1 => Some(KeyValue::Down),
        2 => Some(KeyValue::Repeat),
        _ => None,
    }
}

/// The kind of input event a key value is: a press, a release or a repeat.
pub open spec fn kind_of(value: KeyValue) -> KeyEventKind {
    match value {
        KeyValue::Up => KeyEventKind::Release,
        KeyValue::Down => KeyEventKind::Press,
        KeyValue::Repeat => KeyEventKind::Repeat,
    }
}

pub fn event_kind(value: KeyValue) -> (r: KeyEventKind)
    ensures
        r == kind_of(value),
{
    match value {
        KeyValue::Up => KeyEventKind::Release,
        KeyValue::Down => KeyEventKind::Press,
        KeyValue::Repeat => KeyEventKind::Repeat,
    }
}

/// Why a listener stopped.
#[derive(Debug)]
pub enum StopReason {
    Requested,
    OpenFailed(String),
    EventStreamFailed(String),
    ReadFailed(String),
}

/// The message shown for a stop reason.
pub open spec fn stop_message(reason: StopReason) -> Seq<char> {
    match reason {
        StopReason::Requested => "stopped"@,
        StopReason::OpenFailed(e) => "failed to open keyboard: "@ + e@,
        StopReason::EventStreamFailed(e) => "failed to start keyboard event stream: "@ + e@,
        StopReason::ReadFailed(e) => "keyboard read failed: "@ + e@,
    }
}

impl StopReason {
    /// Every stop but a requested one is an error.
    pub fn is_error(&self) -> (r: bool)
        ensures
            r == !(*self is Requested),
    {
        !matches!(self, StopReason::Requested)
    }

    /// The reason's message.
    pub fn describe(&self) -> (r: String)
        ensures
            r@ == stop_message(*self),
    {
        let mut r = String::new();
        match self {
            StopReason::Requested => append_str(&mut r, "stopped"),
            StopReason::OpenFailed(e) => {
                append_str(&mut r, "failed to open keyboard: ");
                append_str(&mut r, e.as_str());
            },
            StopReason::EventStreamFailed(e) => {
                append_str(&mut r, "failed to start keyboard event stream: ");
                append_str(&mut r, e.as_str());
            },
            StopReason::ReadFailed(e) => {
                append_str(&mut r, "keyboard read failed: ");
                append_str(&mut r, e.as_str());
            },
        }
        r
    }
}

} // verus!
