//! The record of the last thing the application did, and the status lines
//! of the tray menu.

use vstd::prelude::*;
use crate::text;

verus! {

/// What the application last did with a layout.
#[derive(Debug, Clone, Copy, PartialEq, Eq, Structural)]
pub enum ActionKind {
    Saved,
    Restored,
    NewProfileSaved,
}

/// The last action: what it was, how many icons it touched, and when
/// (a clock reading of the application's choice).
#[derive(Debug)]
pub struct LastAction<T> {
    pub kind: ActionKind,
    pub icon_count: usize,
    pub when: T,
}

/// Records an action as the last one, replacing any earlier record.
pub fn record_action<T>(last: &mut Option<LastAction<T>>, kind: ActionKind, icon_count: usize, when: T)
    ensures
        *final(last) == Some(LastAction { kind, icon_count, when }),
{
    *last = Some(LastAction { kind, icon_count, when });
}

/// How long ago, in words: `just now` under five seconds, then seconds,
/// minutes or hours, each rounded down.
pub open spec fn elapsed_text(secs: nat) -> Seq<char> {
    if secs < 5 {
        "just now"@
    } else if secs < 60 {
        text::decimal(secs) + "s ago"@
    } else if secs < 3600 {
        text::decimal(secs / 60) + "m ago"@
    } else {
        text::decimal(secs / 3600) + "h ago"@
    }
}

/// The verb that names an action.
pub open spec fn action_verb(kind: ActionKind) -> Seq<char> {
    match kind {
        ActionKind::Saved => "Saved"@,
        ActionKind::Restored => "Restored"@,
        ActionKind::NewProfileSaved => "New profile saved"@,
    }
}

/// `Last: <verb> (<N> icons) — <when>`.
pub open spec fn last_action_text(kind: ActionKind, icon_count: nat, secs: nat) -> Seq<char> {
    "Last: "@ + action_verb(kind) + " ("@ + text::decimal(icon_count) + " icons) — "@ + elapsed_text(secs)
}

/// The last-action line of the menu, given how many whole seconds have
/// passed since the action; `Last action: —` when there was none.
pub fn format_last_action<T>(last: &Option<LastAction<T>>, elapsed_secs: u64) -> (s: String)
    ensures
        s@ == match last {
            None => "Last action: —"@,
            Some(a) => last_action_text(a.kind, a.icon_count as nat, elapsed_secs as nat),
        },
{
    let mut out: Vec<char> = Vec::new();
    match last {
        None => {
            text::push_str(&mut out, "Last action: —");
        },
        Some(a) => {
            text::push_str(&mut out, "Last: ");
            match a.kind {
                ActionKind::Saved => text::push_str(&mut out, "Saved"),
                ActionKind::Restored => text::push_str(&mut out, "Restored"),
                ActionKind::NewProfileSaved => text::push_str(&mut out, "New profile saved"),
            }
            text::push_str(&mut out, " (");
            text::push_decimal(&mut out, a.icon_count as u64);
            text::push_str(&mut out, " icons) — ");
            if elapsed_secs < 5 {
                text::push_str(&mut out, "just now");
            } else if elapsed_secs < 60 {
                text::push_decimal(&mut out, elapsed_secs);
                text::push_str(&mut out, "s ago");
            } else if elapsed_secs < 3600 {
                text::push_decimal(&mut out, elapsed_secs / 60);
                text::push_str(&mut out, "m ago");
            } else {
                text::push_decimal(&mut out, elapsed_secs / 3600);
                text::push_str(&mut out, "h ago");
            }
        },
    }
    assert(out@ =~= match last {
        None => "Last action: —"@,
        Some(a) => last_action_text(a.kind, a.icon_count as nat, elapsed_secs as nat),
    });
    text::string_of(&out)
}

/// The three status lines at the top of the menu: the display summary, the
/// number of saved profiles, and the last action.
pub fn status_lines(display_summary: &str, profile_count: usize, last_action: &str) -> (r: (
    String,
    String,
    String,
))
    ensures
        r.0@ == "📺  "@ + display_summary@,
        r.1@ == "💾  Saved profiles: "@ + text::decimal(profile_count as nat),
        r.2@ == "🕐  "@ + last_action@,
{
    let mut a: Vec<char> = Vec::new();
    text::push_str(&mut a, "📺  ");
    text::push_str(&mut a, display_summary);
    let mut b: Vec<char> = Vec::new();
    text::push_str(&mut b, "💾  Saved profiles: ");
    text::push_decimal(&mut b, profile_count as u64);
    let mut c: Vec<char> = Vec::new();
    text::push_str(&mut c, "🕐  ");
    text::push_str(&mut c, last_action);
    assert(a@ =~= "📺  "@ + display_summary@);
    assert(b@ =~= "💾  Saved profiles: "@ + text::decimal(profile_count as nat));
    assert(c@ =~= "🕐  "@ + last_action@);
    (text::string_of(&a), text::string_of(&b), text::string_of(&c))
}

} // verus!
