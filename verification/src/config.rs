//! Preferences and the locations of the files the application keeps.

use vstd::prelude::*;
use crate::text;

verus! {

/// The user's settings: how long to wait after a display change before
/// applying a layout, and whether to show notifications.
#[derive(Debug, Clone, Copy, PartialEq, Eq, Structural)]
pub struct Preferences {
    pub apply_delay_ms: u64,
    pub notifications_enabled: bool,
}

/// The apply delay used when none is stored: one second.
pub fn default_apply_delay_ms() -> (ms: u64)
    ensures
        ms == 1000,
{
    1000
}

/// Notifications are on unless the user turned them off.
pub fn default_notifications_enabled() -> (b: bool)
    ensures
        b,
{
    true
}

impl Default for Preferences {
    fn default() -> (p: Self)
        ensures
            p.apply_delay_ms == 1000,
            p.notifications_enabled,
    {
        Preferences {
            apply_delay_ms: default_apply_delay_ms(),
            notifications_enabled: default_notifications_enabled(),
        }
    }
}

/// The preferences to use once the stored file was read: what it held when
/// it could be read and understood, else the defaults.
pub fn preferences_or_default(loaded: Option<Preferences>) -> (p: Preferences)
    ensures
        match loaded {
            Some(l) => p == l,
            None => p.apply_delay_ms == 1000 && p.notifications_enabled,
        },
{
    match loaded {
        Some(l) => l,
        None => Preferences::default(),
    }
}

/// `dir` with the relative name `name` appended, as `PathBuf::push` appends
/// a relative component: a `/` goes between them unless `dir` is empty or
/// already ends in one.
pub open spec fn path_join(dir: Seq<char>, name: Seq<char>) -> Seq<char> {
    if dir.len() == 0 {
        name
    } else if dir.last() == '/' {
        dir + name
    } else {
        dir + seq!['/'] + name
    }
}

/// Appends the relative name `name` to the path `dir`.
fn join_path(dir: &str, name: &str) -> (p: String)
    ensures
        p@ == path_join(dir@, name@),
{
    let mut out = text::chars_of(dir);
    if out.len() > 0 && out[out.len() - 1] == '/' {
    } else if out.len() > 0 {
        out.push('/');
    }
    text::push_str(&mut out, name);
    assert(out@ =~= path_join(dir@, name@));
    text::string_of(&out)
}

/// The directory of the application's files: `auto-mac-layout` under the
/// user's local data directory, or under the working directory `.` when
/// there is none.
pub fn config_dir_from(data_local_dir: Option<&str>) -> (p: String)
    ensures
        p@ == path_join(
            match data_local_dir {
                Some(d) => d@,
                None => "."@,
            },
            "auto-mac-layout"@,
        ),
{
    match data_local_dir {
        Some(d) => join_path(d, "auto-mac-layout"),
        None => join_path(".", "auto-mac-layout"),
    }
}

/// The file that holds the saved layouts: `layouts.json` in `config_dir`.
pub fn get_config_path(config_dir: &str) -> (p: String)
    ensures
        p@ == path_join(config_dir@, "layouts.json"@),
{
    join_path(config_dir, "layouts.json")
}

/// The file that holds the preferences: `preferences.json` in `config_dir`.
pub fn get_preferences_path(config_dir: &str) -> (p: String)
    ensures
        p@ == path_join(config_dir@, "preferences.json"@),
{
    join_path(config_dir, "preferences.json")
}

/// The extension of the temporary file a layout file is first written to:
/// the file's own extension followed by `.tmp`, or `tmp` when it has none.
pub fn temp_extension(extension: Option<&str>) -> (e: String)
    ensures
        e@ == match extension {
            Some(x) => x@ + ".tmp"@,
            None => "tmp"@,
        },
{
    let mut out: Vec<char> = Vec::new();
    match extension {
        Some(x) => {
            text::push_str(&mut out, x);
            text::push_str(&mut out, ".tmp");
        },
        None => {
            text::push_str(&mut out, "tmp");
        },
    }
    assert(out@ =~= match extension {
        Some(x) => x@ + ".tmp"@,
        None => "tmp"@,
    });
    text::string_of(&out)
}

} // verus!
