//! When and how layouts are saved and restored: the debounce of display
//! changes, the choice between restoring and capturing, and the changes to
//! the saved profiles.

use vstd::prelude::*;
use crate::layout::LayoutStore;
use crate::status::ActionKind;
use crate::text;

verus! {

// ─── Debounce ───────────────────────────────────────────────────────────

/// The debounce state: a counter of scheduled runs, and how long a run
/// waits before it goes ahead. A run goes ahead only when no other run was
/// scheduled while it waited.
#[derive(Debug, Clone, Copy, PartialEq, Eq, Structural)]
pub struct SyncScheduler {
    pub seq: u64,
    pub debounce_ms: u64,
}

impl SyncScheduler {
    /// No run scheduled yet; runs wait `initial_delay_ms`.
    pub fn new(initial_delay_ms: u64) -> (s: Self)
        ensures
            s.seq == 0,
            s.debounce_ms == initial_delay_ms,
    {
        SyncScheduler { seq: 0, debounce_ms: initial_delay_ms }
    }

    /// Changes how long later runs wait.
    pub fn set_debounce_ms(&mut self, delay_ms: u64)
        ensures
            final(self).debounce_ms == delay_ms,
            final(self).seq == old(self).seq,
    {
        self.debounce_ms = delay_ms;
    }

    /// Schedules a run: gives its ticket and how long it must wait.
    pub fn schedule(&mut self) -> (r: (u64, u64))
        requires
            old(self).seq < u64::MAX,
        ensures
            final(self).seq == old(self).seq + 1,
            final(self).debounce_ms == old(self).debounce_ms,
            r.0 == final(self).seq,
            r.1 == old(self).debounce_ms,
    {
        self.seq = self.seq + 1;
        (self.seq, self.debounce_ms)
    }

    /// Whether the run holding `ticket` is still the latest one scheduled,
    /// so that it should go ahead once its wait is over.
    pub fn is_latest(&self, ticket: u64) -> (b: bool)
        ensures
            b == (self.seq == ticket),
    {
        self.seq == ticket
    }
}

/// The scheduler after `n` more runs were scheduled.
pub open spec fn scheduled_n(s: SyncScheduler, n: nat) -> SyncScheduler {
    SyncScheduler { seq: (s.seq + n) as u64, debounce_ms: s.debounce_ms }
}

/// Debounce: a run goes ahead when nothing was scheduled after it, and
/// does not when anything was.
pub proof fn lemma_only_latest_run_proceeds(after_schedule: SyncScheduler, ticket: u64, n: nat)
    requires
        ticket == after_schedule.seq,
        after_schedule.seq + n <= u64::MAX,
    ensures
        (scheduled_n(after_schedule, n).seq == ticket) <==> n == 0,
{
}

// ─── Restore or capture ─────────────────────────────────────────────────

/// What a synchronisation does for the current display arrangement.
pub enum SyncPlan<'a, V> {
    /// Capture the current icon positions and save them; `new_profile`
    /// when no profile existed for the arrangement.
    Capture { new_profile: bool },
    /// Move the icons to the positions saved for the arrangement.
    Restore(&'a Vec<V>),
}

/// The positions a synchronisation restores, if it restores any: the
/// saved ones, unless a save was asked for or nothing is saved.
pub open spec fn planned_restore<V>(saved: Map<Seq<char>, Seq<V>>, fingerprint: Seq<char>, force_save: bool) -> Option<Seq<V>> {
    if !force_save && saved.contains_key(fingerprint) {
        Some(saved[fingerprint])
    } else {
        None
    }
}

/// Chooses what to do: capture and save when a save was asked for; else
/// restore the saved layout of this arrangement; else capture a new
/// profile for it.
pub fn plan_sync<'a, V>(store: &'a LayoutStore<V>, fingerprint: &str, force_save: bool) -> (p: SyncPlan<'a, V>)
    ensures
        match p {
            SyncPlan::Restore(v) => planned_restore(store@, fingerprint@, force_save) == Some(v@),
            SyncPlan::Capture { new_profile } => planned_restore(store@, fingerprint@, force_save) is None
                && new_profile == !force_save,
        },
{
    if force_save {
        return SyncPlan::Capture { new_profile: false };
    }
    match store.get(fingerprint) {
        Some(v) => SyncPlan::Restore(v),
        None => SyncPlan::Capture { new_profile: true },
    }
}

/// What a synchronisation or an explicit apply ended with.
#[derive(Debug, Clone, Copy, PartialEq, Eq, Structural)]
pub enum SyncOutcome {
    Saved(usize),
    Restored(usize),
    NewProfileSaved(usize),
    Applied(usize),
    NoLayoutForDisplay,
}

/// The saved layouts once a capture of `captured` for `fingerprint` is
/// done: an empty capture saves nothing.
pub open spec fn after_capture<V>(saved: Map<Seq<char>, Seq<V>>, fingerprint: Seq<char>, captured: Seq<V>) -> Map<Seq<char>, Seq<V>> {
    if captured.len() == 0 {
        saved
    } else {
        saved.insert(fingerprint, captured)
    }
}

/// Saves the captured positions as the profile of `fingerprint`, unless
/// the capture is empty. Tells what was done, so that the caller writes the
/// store, records the action and notifies.
pub fn save_captured<V>(store: &mut LayoutStore<V>, fingerprint: String, captured: Vec<V>, new_profile: bool) -> (o: Option<SyncOutcome>)
    ensures
        final(store)@ == after_capture(old(store)@, fingerprint@, captured@),
        captured@.len() == 0 ==> o is None,
        captured@.len() > 0 ==> o == Some(
            if new_profile {
                SyncOutcome::NewProfileSaved(captured@.len() as usize)
            } else {
                SyncOutcome::Saved(captured@.len() as usize)
            },
        ),
{
    if captured.len() == 0 {
        return None;
    }
    let count = captured.len();
    store.insert(fingerprint, captured);
    if new_profile {
        Some(SyncOutcome::NewProfileSaved(count))
    } else {
        Some(SyncOutcome::Saved(count))
    }
}

/// A saved layout comes back: after a non-empty capture is saved for an
/// arrangement, the next synchronisation on that arrangement restores it.
pub proof fn lemma_saved_layout_is_restored<V>(saved: Map<Seq<char>, Seq<V>>, fingerprint: Seq<char>, captured: Seq<V>)
    requires
        captured.len() > 0,
    ensures
        planned_restore(after_capture(saved, fingerprint, captured), fingerprint, false) == Some(captured),
{
}

/// An empty capture changes nothing: what was saved is restored as before.
pub proof fn lemma_empty_capture_keeps_profiles<V>(saved: Map<Seq<char>, Seq<V>>, fingerprint: Seq<char>, other: Seq<char>)
    ensures
        planned_restore(after_capture(saved, fingerprint, Seq::<V>::empty()), other, false)
            == planned_restore(saved, other, false),
{
}

/// Saving for one arrangement leaves what every other arrangement restores.
pub proof fn lemma_capture_leaves_other_profiles<V>(saved: Map<Seq<char>, Seq<V>>, fingerprint: Seq<char>, captured: Seq<V>, other: Seq<char>)
    requires
        other != fingerprint,
    ensures
        planned_restore(after_capture(saved, fingerprint, captured), other, false)
            == planned_restore(saved, other, false),
{
}

/// The action that an outcome records, with its icon count; an explicit
/// apply counts as a restore.
pub open spec fn outcome_action(o: SyncOutcome) -> Option<(ActionKind, usize)> {
    match o {
        SyncOutcome::Saved(n) => Some((ActionKind::Saved, n)),
        SyncOutcome::Restored(n) => Some((ActionKind::Restored, n)),
        SyncOutcome::NewProfileSaved(n) => Some((ActionKind::NewProfileSaved, n)),
        SyncOutcome::Applied(n) => Some((ActionKind::Restored, n)),
        SyncOutcome::NoLayoutForDisplay => None,
    }
}

/// The action to record for an outcome, if any.
pub fn action_of(o: SyncOutcome) -> (a: Option<(ActionKind, usize)>)
    ensures
        a == outcome_action(o),
{
    match o {
        SyncOutcome::Saved(n) => Some((ActionKind::Saved, n)),
        SyncOutcome::Restored(n) => Some((ActionKind::Restored, n)),
        SyncOutcome::NewProfileSaved(n) => Some((ActionKind::NewProfileSaved, n)),
        SyncOutcome::Applied(n) => Some((ActionKind::Restored, n)),
        SyncOutcome::NoLayoutForDisplay => None,
    }
}

/// The notification text of an outcome.
pub open spec fn outcome_text(o: SyncOutcome) -> Seq<char> {
    match o {
        SyncOutcome::Saved(n) => "Layout saved — "@ + text::decimal(n as nat) + " icons captured"@,
        SyncOutcome::Restored(n) => "Layout restored — "@ + text::decimal(n as nat) + " icons positioned"@,
        SyncOutcome::NewProfileSaved(n) => "New display setup detected — "@ + text::decimal(n as nat)
            + " icons saved"@,
        SyncOutcome::Applied(n) => "Layout applied — "@ + text::decimal(n as nat) + " icons positioned"@,
        SyncOutcome::NoLayoutForDisplay => "No saved layout found for current display setup"@,
    }
}

/// The notification text of an outcome.
pub fn outcome_message(o: SyncOutcome) -> (s: String)
    ensures
        s@ == outcome_text(o),
{
    let mut out: Vec<char> = Vec::new();
    match o {
        SyncOutcome::Saved(n) => {
            text::push_str(&mut out, "Layout saved — ");
            text::push_decimal(&mut out, n as u64);
            text::push_str(&mut out, " icons captured");
        },
        SyncOutcome::Restored(n) => {
            text::push_str(&mut out, "Layout restored — ");
            text::push_decimal(&mut out, n as u64);
            text::push_str(&mut out, " icons positioned");
        },
        SyncOutcome::NewProfileSaved(n) => {
            text::push_str(&mut out, "New display setup detected — ");
            text::push_decimal(&mut out, n as u64);
            text::push_str(&mut out, " icons saved");
        },
        SyncOutcome::Applied(n) => {
            text::push_str(&mut out, "Layout applied — ");
            text::push_decimal(&mut out, n as u64);
            text::push_str(&mut out, " icons positioned");
        },
        SyncOutcome::NoLayoutForDisplay => {
            text::push_str(&mut out, "No saved layout found for current display setup");
        },
    }
    assert(out@ =~= outcome_text(o));
    text::string_of(&out)
}

// ─── Profiles ───────────────────────────────────────────────────────────

/// The number of saved profiles.
pub fn get_profile_count<V>(store: &LayoutStore<V>) -> (n: usize)
    ensures
        n == store@.len(),
{
    store.len()
}

/// Deletes the profile of `fingerprint`. Tells whether there was one, so
/// that the caller writes the store and notifies only then.
pub fn delete_profile<V>(store: &mut LayoutStore<V>, fingerprint: &str) -> (deleted: bool)
    ensures
        final(store)@ == old(store)@.remove(fingerprint@),
        deleted == old(store)@.contains_key(fingerprint@),
{
    store.remove(fingerprint).is_some()
}

/// Deletes every profile.
pub fn delete_all_profiles<V>(store: &mut LayoutStore<V>)
    ensures
        final(store)@ == Map::<Seq<char>, Seq<V>>::empty(),
{
    store.clear();
}

/// A deleted profile is no longer restored: the next synchronisation on
/// that arrangement captures a new one.
pub proof fn lemma_deleted_profile_not_restored<V>(saved: Map<Seq<char>, Seq<V>>, fingerprint: Seq<char>, force_save: bool)
    ensures
        planned_restore(saved.remove(fingerprint), fingerprint, force_save) is None,
{
}

/// A forced save never restores.
pub proof fn lemma_forced_save_captures<V>(saved: Map<Seq<char>, Seq<V>>, fingerprint: Seq<char>)
    ensures
        planned_restore(saved, fingerprint, true) is None,
{
}

/// Saving a layout for a new arrangement adds one profile; saving for a
/// known arrangement, or saving an empty capture, keeps the count.
pub proof fn lemma_profile_count_after_capture<V>(saved: Map<Seq<char>, Seq<V>>, fingerprint: Seq<char>, captured: Seq<V>)
    requires
        saved.dom().finite(),
    ensures
        after_capture(saved, fingerprint, captured).dom().finite(),
        after_capture(saved, fingerprint, captured).len() == if captured.len() > 0
            && !saved.contains_key(fingerprint) {
            saved.len() + 1
        } else {
            saved.len()
        },
{
    if captured.len() > 0 {
        if saved.contains_key(fingerprint) {
            assert(saved.insert(fingerprint, captured).dom() =~= saved.dom());
        }
    }
}

/// Deleting a saved profile removes exactly one.
pub proof fn lemma_profile_count_after_delete<V>(saved: Map<Seq<char>, Seq<V>>, fingerprint: Seq<char>)
    requires
        saved.dom().finite(),
        saved.contains_key(fingerprint),
    ensures
        saved.remove(fingerprint).len() + 1 == saved.len(),
{
}

// ─── Change detection ───────────────────────────────────────────────────

/// A display reconfiguration is complete when the callback's flags do not
/// carry the begin-configuration bit (bit 0).
pub fn is_configuration_complete(flags: u32) -> (b: bool)
    ensures
        b == (flags & 1u32 == 0u32),
{
    flags & 1u32 == 0u32
}

/// The signature of the desktop's contents: the names of its items, sorted,
/// one per line. It changes exactly when an item is added, removed or
/// renamed.
pub open spec fn is_signature_of(s: Seq<char>, names: Seq<Seq<char>>) -> bool {
    exists|sorted: Seq<Seq<char>>|
        #![trigger text::join(sorted, "\n"@)]
        {
            &&& sorted.to_multiset() == names.to_multiset()
            &&& text::lex_sorted(sorted)
            &&& s == text::join(sorted, "\n"@)
        }
}

/// The signature of the desktop given the names of its items.
pub fn desktop_items_signature(names: &Vec<String>) -> (s: String)
    ensures
        is_signature_of(s@, names@.map_values(|n: String| n@)),
{
    let mut chars: Vec<Vec<char>> = Vec::new();
    let mut i: usize = 0;
    while i < names.len()
        invariant
            i <= names.len(),
            text::views(chars@) == names@.map_values(|n: String| n@).take(i as int),
        decreases names.len() - i,
    {
        let c = text::chars_of(names[i].as_str());
        let ghost before = chars@;
        chars.push(c);
        proof {
            assert(text::views(chars@) =~= text::views(before).push(names@[i as int]@));
            assert(names@.map_values(|n: String| n@).take(i + 1) =~= names@.map_values(
                |n: String| n@,
            ).take(i as int).push(names@[i as int]@));
        }
        i = i + 1;
    }
    assert(names@.map_values(|n: String| n@).take(names.len() as int) =~= names@.map_values(
        |n: String| n@,
    ));
    let sorted = text::sort_lex(&chars);
    let mut out: Vec<char> = Vec::new();
    text::push_joined(&mut out, &sorted, "\n");
    assert(out@ =~= text::join(text::views(sorted@), "\n"@));
    text::string_of(&out)
}

/// The desktop signature does not depend on the order the names are listed in.
pub proof fn lemma_signature_order_independent(s1: Seq<char>, s2: Seq<char>, names1: Seq<Seq<char>>, names2: Seq<Seq<char>>)
    requires
        is_signature_of(s1, names1),
        is_signature_of(s2, names2),
        names1.to_multiset() == names2.to_multiset(),
    ensures
        s1 == s2,
{
    let a = choose|sorted: Seq<Seq<char>>|
        #![trigger text::join(sorted, "\n"@)]
        {
            &&& sorted.to_multiset() == names1.to_multiset()
            &&& text::lex_sorted(sorted)
            &&& s1 == text::join(sorted, "\n"@)
        };
    let b = choose|sorted: Seq<Seq<char>>|
        #![trigger text::join(sorted, "\n"@)]
        {
            &&& sorted.to_multiset() == names2.to_multiset()
            &&& text::lex_sorted(sorted)
            &&& s2 == text::join(sorted, "\n"@)
        };
    text::lemma_lex_sorted_unique(a, b);
}

/// Whether the desktop changed between two looks: the signatures differ,
/// or one of the looks could not read the desktop and the other could.
pub fn desktop_changed(last: &Option<String>, current: &Option<String>) -> (b: bool)
    ensures
        b == match (last, current) {
            (Some(a), Some(c)) => a@ != c@,
            (None, None) => false,
            _ => true,
        },
{
    match (last, current) {
        (Some(a), Some(c)) => !(*a == *c),
        (None, None) => false,
        _ => true,
    }
}

} // verus!
