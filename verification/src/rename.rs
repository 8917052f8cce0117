//! Checking a new session name before a rename: its length, and that no
//! other session already uses it.
use vstd::prelude::*;

use crate::database::MAX_SESSION_NAME_BYTES;
use crate::keymaps::{trim_text, trimmed};
use crate::metric::byte_len;
use crate::session::{SessionId, SessionMetadata};
use crate::text::{chars_of, same_text, string_from_chars};

verus! {

/// The session a rename applies to: the active one, or a saved one.
#[derive(Clone, Copy, Debug, PartialEq, Eq, Structural)]
pub enum RenameTarget {
    Current,
    Saved(SessionId),
}

/// Why a name was refused.
#[derive(Clone, Copy, Debug, PartialEq, Eq, Structural)]
pub enum RenameRefusal {
    TooLong,
    NameTaken,
}

impl RenameRefusal {
    /// The message shown in the rename dialog.
    pub fn message(self) -> (r: &'static str)
        ensures
            r@ == match self {
                RenameRefusal::TooLong => "Session name is longer than 80 UTF-8 bytes."@,
                RenameRefusal::NameTaken => "Another session already uses that name."@,
            },
    {
        match self {
            RenameRefusal::TooLong => "Session name is longer than 80 UTF-8 bytes.",
            RenameRefusal::NameTaken => "Another session already uses that name.",
        }
    }
}

/// The name a typed text gives: trimmed, and none when nothing is left.
pub open spec fn name_from_text(buffer: Seq<char>) -> Option<Seq<char>> {
    if trimmed(buffer).len() == 0 {
        None
    } else {
        Some(trimmed(buffer))
    }
}

/// The session is named `name`.
pub open spec fn named(s: SessionMetadata, name: Seq<char>) -> bool {
    match s.name {
        Some(n) => n@ == name,
        None => false,
    }
}

/// A saved session other than the one excluded holds `name`.
pub open spec fn saved_name_taken(
    sessions: Seq<SessionMetadata>,
    excluded: Option<SessionId>,
    name: Seq<char>,
) -> bool {
    exists|i: int|
        0 <= i < sessions.len() && Some(sessions[i].id) != excluded && #[trigger] named(
            sessions[i],
            name,
        )
}

/// The outcome of renaming `target` to the typed `buffer`: the name to use
/// (none to clear it), or why it is refused.
pub open spec fn rename_outcome(
    buffer: Seq<char>,
    target: RenameTarget,
    working_id: Option<SessionId>,
    working_name: Option<Seq<char>>,
    sessions: Seq<SessionMetadata>,
) -> Result<Option<Seq<char>>, RenameRefusal> {
    if byte_len(trimmed(buffer)) > MAX_SESSION_NAME_BYTES {
        Err(RenameRefusal::TooLong)
    } else {
        let excluded = match target {
            RenameTarget::Current => working_id,
            RenameTarget::Saved(id) => Some(id),
        };
        match name_from_text(buffer) {
            None => Ok(None),
            Some(n) => {
                let active_taken = match target {
                    RenameTarget::Saved(id) => working_id != Some(id) && working_name == Some(n),
                    RenameTarget::Current => false,
                };
                if saved_name_taken(sessions, excluded, n) || active_taken {
                    Err(RenameRefusal::NameTaken)
                } else {
                    Ok(Some(n))
                }
            },
        }
    }
}

/// Checks a rename of `target` to the typed `buffer` against the saved
/// `sessions` and the active session's ID and name.
pub fn check_rename(
    buffer: &str,
    target: RenameTarget,
    working_id: Option<SessionId>,
    working_name: Option<&str>,
    sessions: &Vec<SessionMetadata>,
) -> (r: Result<Option<String>, RenameRefusal>)
    ensures
        match rename_outcome(
            buffer@,
            target,
            working_id,
            match working_name {
                Some(n) => Some(n@),
                None => None,
            },
            sessions@,
        ) {
            Ok(Some(n)) => r matches Ok(Some(s)) && s@ == n,
            Ok(None) => r matches Ok(None),
            Err(e) => r == Err::<Option<String>, RenameRefusal>(e),
        },
{
    let chars = chars_of(buffer);
    let t = trim_text(&chars);
    let name = string_from_chars(&t);
    if name.as_str().len() > MAX_SESSION_NAME_BYTES {
        return Err(RenameRefusal::TooLong);
    }
    if t.len() == 0 {
        return Ok(None);
    }
    let excluded = match target {
        RenameTarget::Current => working_id,
        RenameTarget::Saved(id) => Some(id),
    };
    let mut i: usize = 0;
    while i < sessions.len()
        invariant
            i <= sessions.len(),
            name@ == trimmed(buffer@),
            name@.len() > 0,
            byte_len(name@) <= MAX_SESSION_NAME_BYTES,
            excluded == match target {
                RenameTarget::Current => working_id,
                RenameTarget::Saved(id) => Some(id),
            },
            forall|j: int|
                0 <= j < i ==> !(Some(sessions@[j].id) != excluded && #[trigger] named(
                    sessions@[j],
                    name@,
                )),
        decreases sessions.len() - i,
    {
        let session = &sessions[i];
        let other = match excluded {
            Some(e) => session.id != e,
            None => true,
        };
        if other {
            if let Some(n) = &session.name {
                if same_text(n.as_str(), name.as_str()) {
                    assert(named(sessions@[i as int], name@));
                    assert(Some(sessions@[i as int].id) != excluded);
                    assert(saved_name_taken(sessions@, excluded, name@));
                    return Err(RenameRefusal::NameTaken);
                }
            }
        }
        i += 1;
    }
    let active_taken = match target {
        RenameTarget::Saved(id) => {
            let other = match working_id {
                Some(w) => w != id,
                None => true,
            };
            other && match working_name {
                Some(n) => same_text(n, name.as_str()),
                None => false,
            }
        },
        RenameTarget::Current => false,
    };
    if active_taken {
        return Err(RenameRefusal::NameTaken);
    }
    Ok(Some(name))
}

} // verus!
