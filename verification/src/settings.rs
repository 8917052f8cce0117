//! Application settings and the rules they are checked by before they are
//! loaded or saved.
use vstd::prelude::*;

use crate::text::{append_decimal, append_str, decimal};

use crate::metric::byte_len;
use crate::session::SessionId;

verus! {

pub const SETTINGS_SCHEMA_VERSION: u32 = 2;

/// The largest settings file that is read, in bytes.
pub const MAX_SETTINGS_BYTES: u64 = 1048576;

/// The longest keyboard model, layout or variant, in bytes.
pub const MAX_KEYBOARD_VALUE_BYTES: usize = 256;

/// Storage preferences.
#[derive(Clone, Debug, Default, PartialEq, Eq)]
pub struct StorageSettings {
    pub disclosure_acknowledged: bool,
    pub autosave_enabled: bool,
    pub last_session_id: Option<i64>,
}

/// The XKB keyboard description.
#[derive(Clone, Debug, Default, PartialEq, Eq)]
pub struct KeyboardSettings {
    pub model: String,
    pub layout: String,
    pub variant: String,
}

/// The settings a user keeps between runs.
#[derive(Clone, Debug, PartialEq, Eq)]
pub struct Settings {
    pub schema_version: u32,
    pub storage: StorageSettings,
    pub keyboard: KeyboardSettings,
}

/// Why settings were refused.
#[derive(Clone, Copy, Debug, PartialEq, Eq, Structural)]
pub enum SettingsValidationError {
    UnsupportedSchemaVersion { supported: u32, actual: u32 },
    InvalidSessionId,
    KeyboardValueTooLong,
}

impl SettingsValidationError {
    /// The error's message.
    pub fn describe(&self) -> (r: String)
        ensures
            r@ == match *self {
                SettingsValidationError::UnsupportedSchemaVersion { supported, actual } =>
                    "settings schema version "@ + decimal(actual as nat) + " is unsupported; expected "@
                    + decimal(supported as nat),
                SettingsValidationError::InvalidSessionId => "last session ID is invalid"@,
                SettingsValidationError::KeyboardValueTooLong => "keyboard setting exceeds the size limit"@,
            },
    {
        let mut r = String::new();
        match *self {
            SettingsValidationError::UnsupportedSchemaVersion { supported, actual } => {
                append_str(&mut r, "settings schema version ");
                append_decimal(&mut r, actual as u128);
                append_str(&mut r, " is unsupported; expected ");
                append_decimal(&mut r, supported as u128);
            },
            SettingsValidationError::InvalidSessionId => {
                append_str(&mut r, "last session ID is invalid");
            },
            SettingsValidationError::KeyboardValueTooLong => {
                append_str(&mut r, "keyboard setting exceeds the size limit");
            },
        }
        r
    }
}

/// The error validation reports for the given settings, or `None` when they are valid.
pub open spec fn settings_problem(s: Settings) -> Option<SettingsValidationError> {
    if s.schema_version != SETTINGS_SCHEMA_VERSION {
        Some(SettingsValidationError::UnsupportedSchemaVersion { supported: SETTINGS_SCHEMA_VERSION, actual: s.schema_version })
    } else if s.storage.last_session_id matches Some(id) && id <= 0 {
        Some(SettingsValidationError::InvalidSessionId)
    } else if byte_len(s.keyboard.model@) > MAX_KEYBOARD_VALUE_BYTES || byte_len(s.keyboard.layout@)
        > MAX_KEYBOARD_VALUE_BYTES || byte_len(s.keyboard.variant@) > MAX_KEYBOARD_VALUE_BYTES {
        Some(SettingsValidationError::KeyboardValueTooLong)
    } else {
        None
    }
}

impl Settings {
    /// The current schema, no disclosure acknowledged, autosave off, no last
    /// session and no keyboard chosen.
    pub fn new() -> (r: Self)
        ensures
            r.schema_version == SETTINGS_SCHEMA_VERSION,
            !r.storage.disclosure_acknowledged,
            !r.storage.autosave_enabled,
            r.storage.last_session_id is None,
            r.keyboard.model@.len() == 0 && r.keyboard.layout@.len() == 0 && r.keyboard.variant@.len() == 0,
    {
        Settings {
            schema_version: SETTINGS_SCHEMA_VERSION,
            storage: StorageSettings {
                disclosure_acknowledged: false,
                autosave_enabled: false,
                last_session_id: None,
            },
            keyboard: KeyboardSettings { model: String::new(), layout: String::new(), variant: String::new() },
        }
    }

    pub fn storage_disclosure_acknowledged(&self) -> (r: bool)
        ensures
            r == self.storage.disclosure_acknowledged,
    {
        self.storage.disclosure_acknowledged
    }

    pub fn acknowledge_storage_disclosure(&mut self)
        ensures
            final(self).storage.disclosure_acknowledged,
            final(self).storage.autosave_enabled == old(self).storage.autosave_enabled,
            final(self).storage.last_session_id == old(self).storage.last_session_id,
            final(self).keyboard == old(self).keyboard,
            final(self).schema_version == old(self).schema_version,
    {
        self.storage.disclosure_acknowledged = true;
    }

    pub fn autosave_enabled(&self) -> (r: bool)
        ensures
            r == self.storage.autosave_enabled,
    {
        self.storage.autosave_enabled
    }

    pub fn set_autosave_enabled(&mut self, enabled: bool)
        ensures
            final(self).storage.autosave_enabled == enabled,
            final(self).storage.disclosure_acknowledged == old(self).storage.disclosure_acknowledged,
            final(self).storage.last_session_id == old(self).storage.last_session_id,
            final(self).keyboard == old(self).keyboard,
            final(self).schema_version == old(self).schema_version,
    {
        self.storage.autosave_enabled = enabled;
    }

    /// The remembered session, when its ID is positive.
    pub fn last_session_id(&self) -> (r: Option<SessionId>)
        ensures
            match self.storage.last_session_id {
                Some(v) => if v > 0 {
                    r matches Some(id) && id@ == v
                } else {
                    r is None
                },
                None => r is None,
            },
    {
        match self.storage.last_session_id {
            Some(v) => SessionId::new(v),
            None => None,
        }
    }

    pub fn set_last_session_id(&mut self, session_id: Option<SessionId>)
        ensures
            final(self).storage.last_session_id == match session_id {
                Some(id) => Some(id@),
                None => None::<i64>,
            },
            final(self).storage.disclosure_acknowledged == old(self).storage.disclosure_acknowledged,
            final(self).storage.autosave_enabled == old(self).storage.autosave_enabled,
            final(self).keyboard == old(self).keyboard,
            final(self).schema_version == old(self).schema_version,
    {
        self.storage.last_session_id = match session_id {
            Some(id) => Some(id.get()),
            None => None,
        };
    }

    pub fn keyboard_model(&self) -> (r: &str)
        ensures
            r@ == self.keyboard.model@,
    {
        self.keyboard.model.as_str()
    }

    pub fn keyboard_layout(&self) -> (r: &str)
        ensures
            r@ == self.keyboard.layout@,
    {
        self.keyboard.layout.as_str()
    }

    pub fn keyboard_variant(&self) -> (r: &str)
        ensures
            r@ == self.keyboard.variant@,
    {
        self.keyboard.variant.as_str()
    }

    pub fn set_keyboard(&mut self, model: String, layout: String, variant: String)
        ensures
            final(self).keyboard.model@ == model@,
            final(self).keyboard.layout@ == layout@,
            final(self).keyboard.variant@ == variant@,
            final(self).storage == old(self).storage,
            final(self).schema_version == old(self).schema_version,
    {
        self.keyboard = KeyboardSettings { model, layout, variant };
    }

    /// Checks the schema version, the remembered session ID and the keyboard values.
    pub fn validate(&self) -> (r: Result<(), SettingsValidationError>)
        ensures
            match settings_problem(*self) {
                Some(e) => r == Err::<(), SettingsValidationError>(e),
                None => r is Ok,
            },
    {
        if self.schema_version != SETTINGS_SCHEMA_VERSION {
            return Err(
                SettingsValidationError::UnsupportedSchemaVersion {
                    supported: SETTINGS_SCHEMA_VERSION,
                    actual: self.schema_version,
                },
            );
        }
        if let Some(id) = self.storage.last_session_id {
            if id <= 0 {
                return Err(SettingsValidationError::InvalidSessionId);
            }
        }
        if self.keyboard.model.as_str().len() > MAX_KEYBOARD_VALUE_BYTES
            || self.keyboard.layout.as_str().len() > MAX_KEYBOARD_VALUE_BYTES
            || self.keyboard.variant.as_str().len() > MAX_KEYBOARD_VALUE_BYTES {
            return Err(SettingsValidationError::KeyboardValueTooLong);
        }
        Ok(())
    }
}

} // verus!
