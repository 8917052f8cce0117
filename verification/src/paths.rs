//! Where settings and data are kept.
use vstd::prelude::*;

use crate::text::{append_str, push_char};

verus! {

pub const APPLICATION_NAME: &'static str = "evtap";

/// `base` with the relative path `name` appended, as `Path::join` forms it.
pub open spec fn path_join(base: Seq<char>, name: Seq<char>) -> Seq<char> {
    if base.len() == 0 {
        name
    } else if base.last() == '/' {
        base + name
    } else {
        base + seq!['/'] + name
    }
}

/// Joins the relative path `name` onto `base`.
pub fn join_path(base: &str, name: &str) -> (r: String)
    ensures
        r@ == path_join(base@, name@),
{
    let mut r = String::new();
    append_str(&mut r, base);
    let chars = crate::text::chars_of(base);
    if chars.len() > 0 && chars[chars.len() - 1] != '/' {
        push_char(&mut r, '/');
    }
    append_str(&mut r, name);
    proof {
        assert(chars@ == base@);
        if base@.len() == 0 {
            assert(r@ =~= name@);
        }
    }
    r
}

/// The configuration and data directories of the application.
#[derive(Clone, Debug, PartialEq, Eq)]
pub struct AppPaths {
    config_dir: String,
    data_dir: String,
}

#[derive(Clone, Copy, Debug, PartialEq, Eq, Structural)]
pub enum AppPathsError {
    /// No configuration and data directories could be determined.
    DirectoriesUnavailable,
}

impl AppPaths {
    pub closed spec fn config_view(&self) -> Seq<char> {
        self.config_dir@
    }

    pub closed spec fn data_view(&self) -> Seq<char> {
        self.data_dir@
    }

    pub fn with_roots(config_dir: String, data_dir: String) -> (r: Self)
        ensures
            r.config_view() == config_dir@,
            r.data_view() == data_dir@,
    {
        AppPaths { config_dir, data_dir }
    }

    pub fn config_dir(&self) -> (r: &str)
        ensures
            r@ == self.config_view(),
    {
        self.config_dir.as_str()
    }

    pub fn data_dir(&self) -> (r: &str)
        ensures
            r@ == self.data_view(),
    {
        self.data_dir.as_str()
    }

    /// `settings.json` in the configuration directory.
    pub fn settings_file(&self) -> (r: String)
        ensures
            r@ == path_join(self.config_view(), "settings.json"@),
    {
        join_path(self.config_dir.as_str(), "settings.json")
    }

    /// `app.ron` in the data directory.
    pub fn eframe_file(&self) -> (r: String)
        ensures
            r@ == path_join(self.data_view(), "app.ron"@),
    {
        join_path(self.data_dir.as_str(), "app.ron")
    }

    /// `evtap.sqlite3` in the data directory.
    pub fn database_file(&self) -> (r: String)
        ensures
            r@ == path_join(self.data_view(), "evtap.sqlite3"@),
    {
        join_path(self.data_dir.as_str(), "evtap.sqlite3")
    }
}

} // verus!
