//! The entries of the tray menu that list profiles and apply delays.

use vstd::prelude::*;
use crate::monitor;
use crate::text;

verus! {

/// The menu entry of a saved profile: a check mark when it is the current
/// arrangement, its summary, and how many icons it holds.
pub open spec fn profile_label_text(fingerprint: Seq<char>, current: Seq<char>, icon_count: nat) -> Seq<char> {
    (if fingerprint == current {
        "✓ "@
    } else {
        "   "@
    }) + monitor::summary_of_fingerprint(fingerprint) + " — "@ + text::decimal(icon_count) + " icons"@
}

/// The menu entry of a saved profile.
pub fn profile_label(fingerprint: &str, current_fingerprint: &str, icon_count: usize) -> (s: String)
    ensures
        s@ == profile_label_text(fingerprint@, current_fingerprint@, icon_count as nat),
        fingerprint@ == current_fingerprint@ ==> s@.take(2) == "✓ "@,
        fingerprint@ != current_fingerprint@ ==> s@.take(3) == "   "@,
{
    let a = text::chars_of(fingerprint);
    let b = text::chars_of(current_fingerprint);
    let mut out: Vec<char> = Vec::new();
    if text::chars_eq(&a, &b) {
        text::push_str(&mut out, "✓ ");
    } else {
        text::push_str(&mut out, "   ");
    }
    let summary = monitor::fingerprint_to_summary(fingerprint);
    text::push_str(&mut out, summary.as_str());
    text::push_str(&mut out, " — ");
    text::push_decimal(&mut out, icon_count as u64);
    text::push_str(&mut out, " icons");
    assert(out@ =~= profile_label_text(fingerprint@, current_fingerprint@, icon_count as nat));
    proof {
        lemma_profile_mark(fingerprint@, current_fingerprint@, icon_count as nat);
    }
    text::string_of(&out)
}

/// The check mark goes on exactly the profile whose fingerprint is the
/// current one, character for character: two arrangements with the same
/// summary but different fingerprints are told apart. The entry then names
/// the profile's summary and icon count.
pub proof fn lemma_profile_mark(fingerprint: Seq<char>, current: Seq<char>, icon_count: nat)
    ensures
        profile_label_text(fingerprint, current, icon_count).take(2) == "✓ "@ <==> fingerprint
            == current,
        fingerprint != current ==> profile_label_text(fingerprint, current, icon_count).take(3)
            == "   "@,
        profile_label_text(fingerprint, current, icon_count).skip(
            if fingerprint == current { 2 } else { 3 },
        ) == monitor::summary_of_fingerprint(fingerprint) + " — "@ + text::decimal(icon_count)
            + " icons"@,
{
    reveal_strlit("✓ ");
    reveal_strlit("   ");
    assert("✓ "@ =~= seq!['✓', ' ']);
    assert("   "@ =~= seq![' ', ' ', ' ']);
    let rest = monitor::summary_of_fingerprint(fingerprint) + " — "@ + text::decimal(icon_count)
        + " icons"@;
    let t = profile_label_text(fingerprint, current, icon_count);
    if fingerprint == current {
        assert(t =~= "✓ "@ + rest);
        assert(t.take(2) =~= "✓ "@);
        assert(t.skip(2) =~= rest);
    } else {
        assert(t =~= "   "@ + rest);
        assert(t.take(3) =~= "   "@);
        assert(t.skip(3) =~= rest);
        assert(t.take(2)[0] == ' ');
        assert(t.take(2) != "✓ "@) by {
            assert("✓ "@[0] == '✓');
        }
    }
}

/// The apply delays offered, in milliseconds.
pub fn delay_choices_ms() -> (v: Vec<u64>)
    ensures
        v@ == seq![0u64, 300u64, 1000u64, 2000u64, 3000u64],
{
    let mut v: Vec<u64> = Vec::new();
    v.push(0);
    v.push(300);
    v.push(1000);
    v.push(2000);
    v.push(3000);
    assert(v@ =~= seq![0u64, 300u64, 1000u64, 2000u64, 3000u64]);
    v
}

/// The menu entry of an apply delay: `0ms (Fastest)`, else `<N>ms`.
pub fn delay_choice_label(ms: u64) -> (s: String)
    ensures
        s@ == (if ms == 0 {
            "0ms (Fastest)"@
        } else {
            text::decimal(ms as nat) + "ms"@
        }),
{
    let mut out: Vec<char> = Vec::new();
    if ms == 0 {
        text::push_str(&mut out, "0ms (Fastest)");
    } else {
        text::push_decimal(&mut out, ms);
        text::push_str(&mut out, "ms");
    }
    assert(out@ =~= (if ms == 0 {
        "0ms (Fastest)"@
    } else {
        text::decimal(ms as nat) + "ms"@
    }));
    text::string_of(&out)
}

/// Which delay entries carry a check mark: exactly those equal to the
/// delay in force.
pub fn delay_checks(choices: &Vec<u64>, selected_ms: u64) -> (checks: Vec<bool>)
    ensures
        checks@.len() == choices@.len(),
        forall|i: int| 0 <= i < choices@.len() ==> #[trigger] checks@[i] == (choices@[i] == selected_ms),
{
    let mut checks: Vec<bool> = Vec::new();
    let mut i: usize = 0;
    while i < choices.len()
        invariant
            i <= choices.len(),
            checks@.len() == i,
            forall|j: int| 0 <= j < i ==> #[trigger] checks@[j] == (choices@[j] == selected_ms),
        decreases choices.len() - i,
    {
        checks.push(choices[i] == selected_ms);
        i = i + 1;
    }
    checks
}

} // verus!
