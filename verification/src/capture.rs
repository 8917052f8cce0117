//! Turning raw key input into the events the metrics consume.
use vstd::prelude::*;

use crate::input::{KeyEvent, KeyEventKind, KeyRole};
use crate::text::chars_of;
use crate::working_session::WorkingSession;

verus! {

/// What `format!("{:?}", evdev::KeyCode::new(code))` gives: evdev's name
/// for the code (such as `KEY_A`), or `unknown key: <code>`.
pub uninterp spec fn evdev_key_name(code: u16) -> Seq<char>;

/// evdev's debug name of a key code.
#[verifier::external_body]
fn key_code_name(code: u16) -> (r: String)
    ensures
        r@ == evdev_key_name(code),
{
    format!("{:?}", evdev::KeyCode::new(code))
}

/// evdev's `KeyCode::KEY_BACKSPACE`, by `KeyCode::code`: the Linux code 14.
#[verifier::external_body]
fn backspace_code() -> (r: u16)
    ensures
        r == 14,
{
    evdev::KeyCode::KEY_BACKSPACE.code()
}

/// A key's label: its evdev name without the `KEY_` prefix.
pub open spec fn label_from_name(name: Seq<char>) -> Seq<char> {
    if name.len() >= 4 && name.take(4) == seq!['K', 'E', 'Y', '_'] {
        name.skip(4)
    } else {
        name
    }
}

/// The label of the key with Linux code `code`.
pub fn key_label(code: u16) -> (r: String)
    ensures
        r@ == label_from_name(evdev_key_name(code)),
{
    let name = key_code_name(code);
    let c = chars_of(name.as_str());
    let prefixed = c.len() >= 4 && c[0] == 'K' && c[1] == 'E' && c[2] == 'Y' && c[3] == '_';
    proof {
        let p = seq!['K', 'E', 'Y', '_'];
        if c.len() >= 4 {
            if prefixed {
                assert(name@.take(4) =~= p);
            } else if name@.take(4) == p {
                assert(name@.take(4)[0] == p[0] && name@.take(4)[1] == p[1] && name@.take(4)[2]
                    == p[2] && name@.take(4)[3] == p[3]);
            }
        }
    }
    if prefixed {
        let mut r = String::new();
        let mut i: usize = 4;
        while i < c.len()
            invariant
                c@ == name@,
                4 <= i <= c.len(),
                r@ == name@.subrange(4, i as int),
            decreases c.len() - i,
        {
            crate::text::push_char(&mut r, c[i]);
            proof {
                assert(name@.subrange(4, i as int + 1) =~= name@.subrange(4, i as int).push(
                    name@[i as int],
                ));
            }
            i += 1;
        }
        proof {
            assert(name@.subrange(4, c.len() as int) =~= name@.skip(4));
        }
        r
    } else {
        name
    }
}

/// Backspace deletes text; every other key is ordinary.
pub open spec fn role_of(code: u16) -> KeyRole {
    if code == 14 {
        KeyRole::Backspace
    } else {
        KeyRole::Other
    }
}

pub fn key_role(code: u16) -> (r: KeyRole)
    ensures
        r == role_of(code),
{
    if code == backspace_code() {
        KeyRole::Backspace
    } else {
        KeyRole::Other
    }
}

/// The xkb keycode of a Linux key code: xkb numbers evdev codes from 8.
pub fn xkb_keycode(code: u16) -> (r: u32)
    ensures
        r == code + 8,
{
    code as u32 + 8
}

/// The text a key produced, when it produced any.
pub fn produced_text(text: String) -> (r: Option<String>)
    ensures
        match r {
            Some(t) => t@ == text@ && text@.len() > 0,
            None => text@.len() == 0,
        },
{
    let n = chars_of(text.as_str()).len();
    if n == 0 {
        None
    } else {
        Some(text)
    }
}

impl WorkingSession {
    /// The event for a key input: the session's physical key for the code
    /// (labelled by evdev's name when first seen), the produced text if any,
    /// and the key's role.
    pub fn input_event(&mut self, code: u16, text: String, timestamp_ns: u64, kind: KeyEventKind) -> (r:
        KeyEvent)
        requires
            old(self).wf(),
        ensures
            final(self).wf(),
            old(self).keys_view().contains_key(code) ==> r@.key == old(self).keys_view()[code]
                && final(self).keys_view() == old(self).keys_view(),
            !old(self).keys_view().contains_key(code) ==> r@.key == (
                code,
                label_from_name(evdev_key_name(code)),
            ) && final(self).keys_view() == old(self).keys_view().insert(code, r@.key),
            r@.text == (if text@.len() > 0 {
                Some(text@)
            } else {
                None::<Seq<char>>
            }),
            r@.timestamp == timestamp_ns,
            r@.kind == kind,
            r@.role == role_of(code),
            final(self).metrics_view() == old(self).metrics_view(),
            final(self).captured_view() == old(self).captured_view(),
            final(self).capturing() == old(self).capturing(),
    {
        let label = || -> (l: String)
            ensures
                l@ == label_from_name(evdev_key_name(code)),
            { key_label(code) };
        let key = self.physical_key(code, label);
        let text = produced_text(text);
        KeyEvent::new(key, text, timestamp_ns, kind, key_role(code))
    }
}

} // verus!
