//! Display-arrangement fingerprints and the human-readable summaries made
//! from them.

use vstd::prelude::*;
use crate::text;

verus! {

/// What the fingerprint records of one active display: its hardware
/// identity, its size in pixels and the position of its origin, rounded to
/// whole points.
#[derive(Debug, Clone, Copy, PartialEq, Eq, Structural)]
pub struct DisplayInfo {
    pub id: u32,
    pub vendor: u32,
    pub model: u32,
    pub serial: u32,
    pub pixels_wide: u64,
    pub pixels_high: u64,
    pub origin_x: i64,
    pub origin_y: i64,
}

/// The fingerprint part of one display:
/// `id=<id>:vendor=<v>:model=<m>:serial=<s>:<W>x<H>@<X>,<Y>`.
pub open spec fn display_part(d: DisplayInfo) -> Seq<char> {
    "id="@ + text::decimal(d.id as nat) + ":vendor="@ + text::decimal(d.vendor as nat) + ":model="@
        + text::decimal(d.model as nat) + ":serial="@ + text::decimal(d.serial as nat) + ":"@ + text::decimal(
        d.pixels_wide as nat,
    ) + "x"@ + text::decimal(d.pixels_high as nat) + "@"@ + text::signed_decimal(d.origin_x as int) + ","@
        + text::signed_decimal(d.origin_y as int)
}

/// The parts of all displays, in the order given.
pub open spec fn display_parts(ds: Seq<DisplayInfo>) -> Seq<Seq<char>> {
    ds.map_values(|d: DisplayInfo| display_part(d))
}

/// A fingerprint: `main=<id>|displays=<N>|<part>;<part>;...`.
pub open spec fn fingerprint_text(main_id: nat, parts: Seq<Seq<char>>) -> Seq<char> {
    "main="@ + text::decimal(main_id) + "|displays="@ + text::decimal(parts.len()) + "|"@ + text::join(parts, ";"@)
}

/// Appends the fingerprint part of `d` to `out`.
fn push_display_part(out: &mut Vec<char>, d: &DisplayInfo)
    ensures
        final(out)@ == old(out)@ + display_part(*d),
{
    let ghost start = out@;
    text::push_str(out, "id=");
    text::push_decimal(out, d.id as u64);
    text::push_str(out, ":vendor=");
    text::push_decimal(out, d.vendor as u64);
    text::push_str(out, ":model=");
    text::push_decimal(out, d.model as u64);
    text::push_str(out, ":serial=");
    text::push_decimal(out, d.serial as u64);
    text::push_str(out, ":");
    text::push_decimal(out, d.pixels_wide);
    text::push_str(out, "x");
    text::push_decimal(out, d.pixels_high);
    text::push_str(out, "@");
    text::push_signed_decimal(out, d.origin_x);
    text::push_str(out, ",");
    text::push_signed_decimal(out, d.origin_y);
    assert(out@ =~= start + display_part(*d));
}

/// `s` is the fingerprint of the displays `ds` with main display `main_id`:
/// it lists the parts of all the displays in lexicographic order.
pub open spec fn is_fingerprint_of(s: Seq<char>, main_id: nat, ds: Seq<DisplayInfo>) -> bool {
    exists|ps: Seq<Seq<char>>|
        #![trigger fingerprint_text(main_id, ps)]
        {
            &&& ps.to_multiset() == display_parts(ds).to_multiset()
            &&& text::lex_sorted(ps)
            &&& s == fingerprint_text(main_id, ps)
        }
}

/// The fingerprint of a display arrangement: the main display's id, the
/// number of displays, and the parts of all displays in lexicographic order,
/// so that the same arrangement gives the same fingerprint whatever order
/// the system lists the displays in.
pub fn fingerprint_from_displays(main_id: u32, displays: &Vec<DisplayInfo>) -> (s: String)
    ensures
        is_fingerprint_of(s@, main_id as nat, displays@),
{
    let mut parts: Vec<Vec<char>> = Vec::new();
    let mut i: usize = 0;
    while i < displays.len()
        invariant
            i <= displays.len(),
            text::views(parts@) == display_parts(displays@).take(i as int),
        decreases displays.len() - i,
    {
        let mut part: Vec<char> = Vec::new();
        push_display_part(&mut part, &displays[i]);
        let ghost before = parts@;
        parts.push(part);
        proof {
            assert(text::views(parts@) =~= text::views(before).push(display_part(displays@[i as int])));
            assert(display_parts(displays@).take(i + 1) =~= display_parts(displays@).take(i as int).push(
                display_part(displays@[i as int]),
            ));
        }
        i = i + 1;
    }
    assert(display_parts(displays@).take(displays@.len() as int) =~= display_parts(displays@));
    let sorted = text::sort_lex(&parts);
    let mut out: Vec<char> = Vec::new();
    text::push_str(&mut out, "main=");
    text::push_decimal(&mut out, main_id as u64);
    text::push_str(&mut out, "|displays=");
    text::push_decimal(&mut out, sorted.len() as u64);
    text::push_str(&mut out, "|");
    text::push_joined(&mut out, &sorted, ";");
    proof {
        broadcast use vstd::seq_lib::group_to_multiset_ensures;

        let ps = text::views(sorted@);
        assert(ps.len() == sorted@.len());
        assert(ps.to_multiset().len() == display_parts(displays@).to_multiset().len());
        assert(out@ =~= fingerprint_text(main_id as nat, ps));
    }
    text::string_of(&out)
}

/// `W×H` for one display.
pub open spec fn resolution_text(d: DisplayInfo) -> Seq<char> {
    text::decimal(d.pixels_wide as nat) + "×"@ + text::decimal(d.pixels_high as nat)
}

/// `display` for one, `displays` otherwise.
pub open spec fn display_label(count: nat) -> Seq<char> {
    if count == 1 {
        "display"@
    } else {
        "displays"@
    }
}

/// `<N> display(s): <res> + <res> + ...`.
pub open spec fn summary_text(count: nat, resolutions: Seq<Seq<char>>) -> Seq<char> {
    text::decimal(count) + " "@ + display_label(count) + ": "@ + text::join(resolutions, " + "@)
}

/// Appends the summary line to `out`.
fn push_summary(out: &mut Vec<char>, count: usize, resolutions: &Vec<Vec<char>>)
    ensures
        final(out)@ == old(out)@ + summary_text(count as nat, text::views(resolutions@)),
{
    let ghost start = out@;
    text::push_decimal(out, count as u64);
    text::push_str(out, " ");
    if count == 1 {
        text::push_str(out, "display");
    } else {
        text::push_str(out, "displays");
    }
    text::push_str(out, ": ");
    text::push_joined(out, resolutions, " + ");
    assert(out@ =~= start + summary_text(count as nat, text::views(resolutions@)));
}

/// The resolution text of each display, in order.
fn resolutions_of(ds: &Vec<DisplayInfo>) -> (res: Vec<Vec<char>>)
    ensures
        text::views(res@) == ds@.map_values(|d: DisplayInfo| resolution_text(d)),
{
    let mut res: Vec<Vec<char>> = Vec::new();
    let mut i: usize = 0;
    while i < ds.len()
        invariant
            i <= ds.len(),
            text::views(res@) == ds@.map_values(|d: DisplayInfo| resolution_text(d)).take(i as int),
        decreases ds.len() - i,
    {
        let mut r: Vec<char> = Vec::new();
        text::push_decimal(&mut r, ds[i].pixels_wide);
        text::push_str(&mut r, "×");
        text::push_decimal(&mut r, ds[i].pixels_high);
        assert(r@ =~= resolution_text(ds@[i as int]));
        let ghost before = res@;
        res.push(r);
        proof {
            assert(text::views(res@) =~= text::views(before).push(resolution_text(ds@[i as int])));
            assert(ds@.map_values(|d: DisplayInfo| resolution_text(d)).take(i + 1)
                =~= ds@.map_values(|d: DisplayInfo| resolution_text(d)).take(i as int).push(
                resolution_text(ds@[i as int]),
            ));
        }
        i = i + 1;
    }
    assert(ds@.map_values(|d: DisplayInfo| resolution_text(d)).take(ds.len() as int)
        =~= ds@.map_values(|d: DisplayInfo| resolution_text(d)));
    res
}

/// A human-readable summary of the active displays, in the order given, such
/// as `1 display: 2560×1600` or `2 displays: 1440×900 + 2560×1440`; when the
/// displays could not be listed, `Unknown display configuration`.
pub fn get_display_summary(displays: Option<&Vec<DisplayInfo>>) -> (s: String)
    ensures
        match displays {
            None => s@ == "Unknown display configuration"@,
            Some(ds) => s@ == summary_text(
                ds@.len(),
                ds@.map_values(|d: DisplayInfo| resolution_text(d)),
            ) && s@ == text::decimal(ds@.len()) + " "@ + (if ds@.len() == 1 {
                "display"@
            } else {
                "displays"@
            }) + ": "@ + text::join(
                ds@.map_values(|d: DisplayInfo| resolution_text(d)),
                " + "@,
            ),
        },
{
    match displays {
        None => {
            let mut out: Vec<char> = Vec::new();
            text::push_str(&mut out, "Unknown display configuration");
            assert(out@ =~= "Unknown display configuration"@);
            text::string_of(&out)
        },
        Some(ds) => {
            let res = resolutions_of(ds);
            let mut out: Vec<char> = Vec::new();
            push_summary(&mut out, ds.len(), &res);
            assert(out@ =~= summary_text(
                ds@.len(),
                ds@.map_values(|d: DisplayInfo| resolution_text(d)),
            ));
            text::string_of(&out)
        },
    }
}

/// `s` with every `x` written as `×`.
pub open spec fn with_times_sign(s: Seq<char>) -> Seq<char> {
    s.map_values(|c: char| if c == 'x' { '×' } else { c })
}

/// The resolution that a fingerprint part names: the text after its last
/// `:` and before the first `@` there, with `x` written as `×`.
pub open spec fn resolution_of_part(part: Seq<char>) -> Seq<char> {
    with_times_sign(text::split(text::split(part, ':').last(), '@')[0])
}

/// The display count that the second section of a fingerprint states:
/// the number after `displays=`, or 0 where there is none.
pub open spec fn count_of_section(section: Seq<char>) -> nat {
    if "displays="@.is_prefix_of(section) {
        match text::parse_usize_spec(section.skip("displays="@.len() as int)) {
            Some(v) => v,
            None => 0,
        }
    } else {
        0
    }
}

/// The summary that a fingerprint describes: `Unknown` when it states no
/// display count, else the count and the resolutions of its parts.
pub open spec fn summary_of_fingerprint(fp: Seq<char>) -> Seq<char> {
    let sections = text::splitn3(fp, '|');
    let count = if sections.len() >= 2 {
        count_of_section(sections[1])
    } else {
        0
    };
    if count == 0 {
        "Unknown"@
    } else {
        let resolutions = if sections.len() >= 3 {
            text::split(sections[2], ';').map_values(|p: Seq<char>| resolution_of_part(p))
        } else {
            Seq::<Seq<char>>::empty()
        };
        summary_text(count, resolutions)
    }
}

/// Reads the display count of a fingerprint section.
fn section_count(section: &Vec<char>) -> (n: usize)
    ensures
        n as nat == count_of_section(section@),
{
    let pre = text::chars_of("displays=");
    if section.len() < pre.len() {
        return 0;
    }
    let mut i: usize = 0;
    while i < pre.len()
        invariant
            i <= pre.len() <= section.len(),
            pre@ == "displays="@,
            forall|j: int| 0 <= j < i ==> pre@[j] == section@[j],
        decreases pre.len() - i,
    {
        if pre[i] != section[i] {
            assert(!"displays="@.is_prefix_of(section@)) by {
                if "displays="@.is_prefix_of(section@) {
                    assert(section@.subrange(0, pre.len() as int)[i as int] == section@[i as int]);
                }
            }
            return 0;
        }
        i = i + 1;
    }
    assert("displays="@ =~= section@.subrange(0, pre.len() as int));
    let mut rest: Vec<char> = Vec::new();
    let mut k: usize = pre.len();
    while k < section.len()
        invariant
            pre.len() <= k <= section.len(),
            rest@ == section@.subrange(pre.len() as int, k as int),
        decreases section.len() - k,
    {
        rest.push(section[k]);
        k = k + 1;
        assert(rest@ =~= section@.subrange(pre.len() as int, k as int));
    }
    assert(rest@ =~= section@.skip(pre.len() as int));
    match text::parse_usize(&rest) {
        Some(v) => v,
        None => 0,
    }
}

/// The resolution that one fingerprint part names.
fn part_resolution(part: &Vec<char>) -> (r: Vec<char>)
    ensures
        r@ == resolution_of_part(part@),
{
    let segs = text::split_chars(part, ':');
    proof {
        text::lemma_split_nonempty(part@, ':');
    }
    let last = &segs[segs.len() - 1];
    assert(last@ == text::split(part@, ':').last());
    let sub = text::split_chars(last, '@');
    proof {
        text::lemma_split_nonempty(last@, '@');
    }
    let first = &sub[0];
    assert(first@ == text::split(last@, '@')[0]);
    let mut r: Vec<char> = Vec::new();
    let mut i: usize = 0;
    while i < first.len()
        invariant
            i <= first.len(),
            r@ == with_times_sign(first@).take(i as int),
        decreases first.len() - i,
    {
        let c = first[i];
        if c == 'x' {
            r.push('×');
        } else {
            r.push(c);
        }
        i = i + 1;
        assert(r@ =~= with_times_sign(first@).take(i as int));
    }
    assert(with_times_sign(first@).take(first.len() as int) =~= with_times_sign(first@));
    r
}

/// The third section of a fingerprint: everything after its second `|`.
fn third_section(sections: &Vec<Vec<char>>) -> (t: Vec<char>)
    requires
        sections@.len() >= 3,
    ensures
        t@ == (if sections@.len() == 3 {
            sections@[2]@
        } else {
            text::join(text::views(sections@).skip(2), seq!['|'])
        }),
{
    let mut rest: Vec<Vec<char>> = Vec::new();
    let mut i: usize = 2;
    while i < sections.len()
        invariant
            2 <= i <= sections.len(),
            text::views(rest@) == text::views(sections@).subrange(2, i as int),
        decreases sections.len() - i,
    {
        let piece = sections[i].clone();
        assert(piece@ =~= sections@[i as int]@);
        let ghost before = rest@;
        rest.push(piece);
        proof {
            assert(text::views(rest@) =~= text::views(before).push(sections@[i as int]@));
            assert(text::views(sections@).subrange(2, i + 1) =~= text::views(sections@).subrange(
                2,
                i as int,
            ).push(sections@[i as int]@));
        }
        i = i + 1;
    }
    assert(text::views(rest@) =~= text::views(sections@).skip(2));
    let mut t: Vec<char> = Vec::new();
    text::push_joined(&mut t, &rest, "|");
    proof {
        reveal_strlit("|");
        assert("|"@ =~= seq!['|']);
        if sections@.len() == 3 {
            assert(t@ =~= sections@[2]@);
        }
    }
    t
}

/// A human-readable description of a fingerprint: the display count it
/// states and the resolution of each of its parts, such as
/// `2 displays: 1440×900 + 2560×1440`; `Unknown` when it states no count or
/// a count of 0.
pub fn fingerprint_to_summary(fingerprint: &str) -> (s: String)
    ensures
        s@ == summary_of_fingerprint(fingerprint@),
{
    let chars = text::chars_of(fingerprint);
    let sections = text::split_chars(&chars, '|');
    let ghost spec_sections = text::splitn3(fingerprint@, '|');
    let count: usize = if sections.len() >= 2 {
        section_count(&sections[1])
    } else {
        0
    };
    let mut out: Vec<char> = Vec::new();
    if count == 0 {
        text::push_str(&mut out, "Unknown");
        assert(out@ =~= summary_of_fingerprint(fingerprint@));
        return text::string_of(&out);
    }
    let mut resolutions: Vec<Vec<char>> = Vec::new();
    if sections.len() >= 3 {
        let third = third_section(&sections);
        assert(third@ == spec_sections[2]);
        let parts = text::split_chars(&third, ';');
        let mut i: usize = 0;
        while i < parts.len()
            invariant
                i <= parts.len(),
                text::views(resolutions@) == text::views(parts@).take(i as int).map_values(
                    |p: Seq<char>| resolution_of_part(p),
                ),
            decreases parts.len() - i,
        {
            let r = part_resolution(&parts[i]);
            let ghost before = resolutions@;
            resolutions.push(r);
            proof {
                assert(text::views(resolutions@) =~= text::views(before).push(
                    resolution_of_part(parts@[i as int]@),
                ));
                assert(text::views(parts@).take(i + 1).map_values(
                    |p: Seq<char>| resolution_of_part(p),
                ) =~= text::views(parts@).take(i as int).map_values(
                    |p: Seq<char>| resolution_of_part(p),
                ).push(resolution_of_part(parts@[i as int]@)));
            }
            i = i + 1;
        }
        assert(text::views(parts@).take(parts.len() as int) =~= text::views(parts@));
    } else {
        assert(text::views(resolutions@) =~= Seq::<Seq<char>>::empty());
    }
    push_summary(&mut out, count, &resolutions);
    assert(out@ =~= summary_of_fingerprint(fingerprint@));
    text::string_of(&out)
}

// ─── What a summary of a fingerprint gives back ─────────────────────────

/// The part of a display part after its last `:`: size, then origin.
pub open spec fn part_tail(d: DisplayInfo) -> Seq<char> {
    size_text(d) + seq!['@'] + text::signed_decimal(d.origin_x as int) + seq![','] + text::signed_decimal(
        d.origin_y as int,
    )
}

/// `<W>x<H>` for one display.
pub open spec fn size_text(d: DisplayInfo) -> Seq<char> {
    text::decimal(d.pixels_wide as nat) + seq!['x'] + text::decimal(d.pixels_high as nat)
}

/// The part of a display part before its last `:`: the identity fields.
pub open spec fn part_head(d: DisplayInfo) -> Seq<char> {
    "id="@ + text::decimal(d.id as nat) + ":vendor="@ + text::decimal(d.vendor as nat) + ":model="@
        + text::decimal(d.model as nat) + ":serial="@ + text::decimal(d.serial as nat)
}

proof fn lemma_literals()
    ensures
        "id="@ == seq!['i', 'd', '='],
        ":vendor="@ == seq![':', 'v', 'e', 'n', 'd', 'o', 'r', '='],
        ":model="@ == seq![':', 'm', 'o', 'd', 'e', 'l', '='],
        ":serial="@ == seq![':', 's', 'e', 'r', 'i', 'a', 'l', '='],
        ":"@ == seq![':'],
        "x"@ == seq!['x'],
        "@"@ == seq!['@'],
        ","@ == seq![','],
        ";"@ == seq![';'],
        "|"@ == seq!['|'],
        "×"@ == seq!['×'],
        "main="@ == seq!['m', 'a', 'i', 'n', '='],
        "|displays="@ == seq!['|', 'd', 'i', 's', 'p', 'l', 'a', 'y', 's', '='],
        "displays="@ == seq!['d', 'i', 's', 'p', 'l', 'a', 'y', 's', '='],
{
    reveal_strlit("id=");
    reveal_strlit(":vendor=");
    reveal_strlit(":model=");
    reveal_strlit(":serial=");
    reveal_strlit(":");
    reveal_strlit("x");
    reveal_strlit("@");
    reveal_strlit(",");
    reveal_strlit(";");
    reveal_strlit("|");
    reveal_strlit("×");
    reveal_strlit("main=");
    reveal_strlit("|displays=");
    reveal_strlit("displays=");
    assert("id="@ =~= seq!['i', 'd', '=']);
    assert(":vendor="@ =~= seq![':', 'v', 'e', 'n', 'd', 'o', 'r', '=']);
    assert(":model="@ =~= seq![':', 'm', 'o', 'd', 'e', 'l', '=']);
    assert(":serial="@ =~= seq![':', 's', 'e', 'r', 'i', 'a', 'l', '=']);
    assert(":"@ =~= seq![':']);
    assert("x"@ =~= seq!['x']);
    assert("@"@ =~= seq!['@']);
    assert(","@ =~= seq![',']);
    assert(";"@ =~= seq![';']);
    assert("|"@ =~= seq!['|']);
    assert("×"@ =~= seq!['×']);
    assert("main="@ =~= seq!['m', 'a', 'i', 'n', '=']);
    assert("|displays="@ =~= seq!['|', 'd', 'i', 's', 'p', 'l', 'a', 'y', 's', '=']);
    assert("displays="@ =~= seq!['d', 'i', 's', 'p', 'l', 'a', 'y', 's', '=']);
}

proof fn lemma_display_part_shape(d: DisplayInfo)
    ensures
        display_part(d) == part_head(d) + seq![':'] + part_tail(d),
        !part_tail(d).contains(':'),
        !size_text(d).contains('@'),
        !display_part(d).contains('|'),
        !display_part(d).contains(';'),
{
    lemma_literals();
    assert(display_part(d) =~= part_head(d) + seq![':'] + part_tail(d));
    let w = d.pixels_wide as nat;
    let h = d.pixels_high as nat;
    text::lemma_decimal_lacks(w, ':');
    text::lemma_decimal_lacks(h, ':');
    text::lemma_decimal_lacks(w, '@');
    text::lemma_decimal_lacks(h, '@');
    text::lemma_signed_decimal_lacks(d.origin_x as int, ':');
    text::lemma_signed_decimal_lacks(d.origin_y as int, ':');
    assert(!part_tail(d).contains(':'));
    assert(!size_text(d).contains('@'));
    text::lemma_decimal_lacks(d.id as nat, '|');
    text::lemma_decimal_lacks(d.vendor as nat, '|');
    text::lemma_decimal_lacks(d.model as nat, '|');
    text::lemma_decimal_lacks(d.serial as nat, '|');
    text::lemma_decimal_lacks(w, '|');
    text::lemma_decimal_lacks(h, '|');
    text::lemma_signed_decimal_lacks(d.origin_x as int, '|');
    text::lemma_signed_decimal_lacks(d.origin_y as int, '|');
    assert(!display_part(d).contains('|'));
    text::lemma_decimal_lacks(d.id as nat, ';');
    text::lemma_decimal_lacks(d.vendor as nat, ';');
    text::lemma_decimal_lacks(d.model as nat, ';');
    text::lemma_decimal_lacks(d.serial as nat, ';');
    text::lemma_decimal_lacks(w, ';');
    text::lemma_decimal_lacks(h, ';');
    text::lemma_signed_decimal_lacks(d.origin_x as int, ';');
    text::lemma_signed_decimal_lacks(d.origin_y as int, ';');
    assert(!display_part(d).contains(';'));
}

proof fn lemma_resolution_of_display_part(d: DisplayInfo)
    ensures
        resolution_of_part(display_part(d)) == resolution_text(d),
{
    lemma_display_part_shape(d);
    lemma_literals();
    text::lemma_split_concat(part_head(d), part_tail(d), ':');
    text::lemma_split_no_sep(part_tail(d), ':');
    text::lemma_split_nonempty(part_head(d), ':');
    assert(text::split(display_part(d), ':').last() == part_tail(d));
    let rest = text::signed_decimal(d.origin_x as int) + seq![','] + text::signed_decimal(
        d.origin_y as int,
    );
    assert(part_tail(d) =~= size_text(d) + seq!['@'] + rest);
    text::lemma_split_concat(size_text(d), rest, '@');
    text::lemma_split_no_sep(size_text(d), '@');
    assert(text::split(part_tail(d), '@')[0] == size_text(d));
    let w = d.pixels_wide as nat;
    let h = d.pixels_high as nat;
    text::lemma_decimal_lacks(w, 'x');
    text::lemma_decimal_lacks(h, 'x');
    assert forall|i: int| 0 <= i < text::decimal(w).len() implies text::decimal(w)[i] != 'x' by {
        if text::decimal(w)[i] == 'x' {
            assert(text::decimal(w).contains('x'));
        }
    }
    assert forall|i: int| 0 <= i < text::decimal(h).len() implies text::decimal(h)[i] != 'x' by {
        if text::decimal(h)[i] == 'x' {
            assert(text::decimal(h).contains('x'));
        }
    }
    assert(with_times_sign(size_text(d)) =~= resolution_text(d));
}

/// A fingerprint depends only on the main display and on which displays
/// are active, not on the order in which the system lists them.
pub proof fn lemma_fingerprint_order_independent(
    s1: Seq<char>,
    s2: Seq<char>,
    main_id: nat,
    ds1: Seq<DisplayInfo>,
    ds2: Seq<DisplayInfo>,
)
    requires
        is_fingerprint_of(s1, main_id, ds1),
        is_fingerprint_of(s2, main_id, ds2),
        ds1.to_multiset() == ds2.to_multiset(),
    ensures
        s1 == s2,
{
    let ps1 = choose|ps: Seq<Seq<char>>|
        #![trigger fingerprint_text(main_id, ps)]
        {
            &&& ps.to_multiset() == display_parts(ds1).to_multiset()
            &&& text::lex_sorted(ps)
            &&& s1 == fingerprint_text(main_id, ps)
        };
    let ps2 = choose|ps: Seq<Seq<char>>|
        #![trigger fingerprint_text(main_id, ps)]
        {
            &&& ps.to_multiset() == display_parts(ds2).to_multiset()
            &&& text::lex_sorted(ps)
            &&& s2 == fingerprint_text(main_id, ps)
        };
    text::lemma_map_multiset(ds1, ds2, |d: DisplayInfo| display_part(d));
    text::lemma_lex_sorted_unique(ps1, ps2);
}

/// A fingerprint's summary gives back what it was made of: the number of
/// displays and the resolution of each display (in the fingerprint's order);
/// a fingerprint of no displays reads `Unknown`.
pub proof fn lemma_summary_of_fingerprint(s: Seq<char>, main_id: nat, ds: Seq<DisplayInfo>)
    requires
        is_fingerprint_of(s, main_id, ds),
        ds.len() <= usize::MAX,
    ensures
        ds.len() == 0 ==> summary_of_fingerprint(s) == "Unknown"@,
        ds.len() > 0 ==> exists|rs: Seq<Seq<char>>|
            #![trigger summary_text(ds.len(), rs)]
            rs.to_multiset() == ds.map_values(|d: DisplayInfo| resolution_text(d)).to_multiset()
                && summary_of_fingerprint(s) == summary_text(ds.len(), rs)
                && summary_of_fingerprint(s) == text::decimal(ds.len()) + " "@ + (if ds.len() == 1 {
                "display"@
            } else {
                "displays"@
            }) + ": "@ + text::join(rs, " + "@),
{
    broadcast use vstd::seq_lib::group_to_multiset_ensures;

    lemma_literals();
    let parts = choose|ps: Seq<Seq<char>>|
        #![trigger fingerprint_text(main_id, ps)]
        {
            &&& ps.to_multiset() == display_parts(ds).to_multiset()
            &&& text::lex_sorted(ps)
            &&& s == fingerprint_text(main_id, ps)
        };
    let n = parts.len();
    assert(parts.to_multiset().len() == display_parts(ds).to_multiset().len());
    assert(n == ds.len());
    assert forall|i: int| 0 <= i < parts.len() implies parts[i] == display_part(
        ds[choose|j: int| 0 <= j < ds.len() && display_part(ds[j]) == parts[i]],
    ) && exists|j: int| 0 <= j < ds.len() && display_part(ds[j]) == parts[i] by {
        assert(parts.to_multiset().count(parts[i]) > 0);
        assert(display_parts(ds).contains(parts[i]));
        let j = choose|j: int| 0 <= j < display_parts(ds).len() && display_parts(ds)[j] == parts[i];
        assert(display_part(ds[j]) == parts[i]);
    }
    assert forall|i: int| 0 <= i < parts.len() implies !(#[trigger] parts[i]).contains('|')
        && !parts[i].contains(';') && resolution_of_part(parts[i]) == resolution_text(
        ds[choose|j: int| 0 <= j < ds.len() && display_part(ds[j]) == parts[i]],
    ) by {
        let j = choose|j: int| 0 <= j < ds.len() && display_part(ds[j]) == parts[i];
        lemma_display_part_shape(ds[j]);
        lemma_resolution_of_display_part(ds[j]);
    }
    let a = "main="@ + text::decimal(main_id);
    let b = "displays="@ + text::decimal(n);
    let c = text::join(parts, seq![';']);
    assert(s =~= a + seq!['|'] + b + seq!['|'] + c);
    text::lemma_decimal_lacks(main_id, '|');
    text::lemma_decimal_lacks(n, '|');
    assert(!"main="@.contains('|'));
    assert(!"displays="@.contains('|'));
    text::lemma_concat_lacks("main="@, text::decimal(main_id), '|');
    text::lemma_concat_lacks("displays="@, text::decimal(n), '|');
    assert(!seq![';'].contains('|')) by {
        if seq![';'].contains('|') {
            assert(seq![';'][0] == '|');
        }
    }
    text::lemma_join_lacks(parts, seq![';'], '|');
    text::lemma_split_concat(a + seq!['|'] + b, c, '|');
    text::lemma_split_concat(a, b, '|');
    text::lemma_split_no_sep(a, '|');
    text::lemma_split_no_sep(b, '|');
    text::lemma_split_no_sep(c, '|');
    let sections = text::splitn3(s, '|');
    assert(sections =~= seq![a, b, c]);
    assert("displays="@.is_prefix_of(b)) by {
        assert("displays="@ =~= b.subrange(0, 9));
    }
    assert(b.skip(9) =~= text::decimal(n));
    text::lemma_parse_decimal(n);
    assert(count_of_section(sections[1]) == n);
    if n > 0 {
        text::lemma_split_join(parts, ';');
        let rs = text::split(sections[2], ';').map_values(|q: Seq<char>| resolution_of_part(q));
        assert(text::split(sections[2], ';') == parts);
        text::lemma_map_multiset(parts, display_parts(ds), |q: Seq<char>| resolution_of_part(q));
        let f = |q: Seq<char>| resolution_of_part(q);
        assert forall|j: int| 0 <= j < ds.len() implies #[trigger] display_parts(ds).map_values(f)[j]
            == ds.map_values(|d: DisplayInfo| resolution_text(d))[j] by {
            lemma_resolution_of_display_part(ds[j]);
        }
        assert(display_parts(ds).map_values(f) =~= ds.map_values(|d: DisplayInfo| resolution_text(d)));
        assert(summary_of_fingerprint(s) == summary_text(ds.len(), rs));
    }
}

/// The summary of `n` displays lists every one of them: after the count
/// and the word `display(s)` come the resolutions of all `n` displays, in
/// order, joined by ` + `, so that `+` occurs exactly `n - 1` times.
pub proof fn lemma_summary_lists_every_display(ds: Seq<DisplayInfo>)
    requires
        ds.len() >= 1,
    ensures
        summary_text(ds.len(), ds.map_values(|d: DisplayInfo| resolution_text(d))) == text::decimal(
            ds.len(),
        ) + " "@ + (if ds.len() == 1 {
            "display"@
        } else {
            "displays"@
        }) + ": "@ + text::join(ds.map_values(|d: DisplayInfo| resolution_text(d)), " + "@),
        text::count_char(
            summary_text(ds.len(), ds.map_values(|d: DisplayInfo| resolution_text(d))),
            '+',
        ) == ds.len() - 1,
{
    reveal_strlit(" ");
    reveal_strlit("display");
    reveal_strlit("displays");
    reveal_strlit(": ");
    reveal_strlit(" + ");
    reveal_strlit("×");
    assert(" "@ =~= seq![' ']);
    assert("display"@ =~= seq!['d', 'i', 's', 'p', 'l', 'a', 'y']);
    assert("displays"@ =~= seq!['d', 'i', 's', 'p', 'l', 'a', 'y', 's']);
    assert(": "@ =~= seq![':', ' ']);
    assert(" + "@ =~= seq![' ', '+', ' ']);
    assert("×"@ =~= seq!['×']);
    let rs = ds.map_values(|d: DisplayInfo| resolution_text(d));
    let n = ds.len();
    assert forall|i: int| 0 <= i < rs.len() implies !(#[trigger] rs[i]).contains('+') by {
        let d = ds[i];
        text::lemma_decimal_lacks(d.pixels_wide as nat, '+');
        text::lemma_decimal_lacks(d.pixels_high as nat, '+');
        assert(!seq!['×'].contains('+')) by {
            if seq!['×'].contains('+') {
                assert(seq!['×'][0] == '+');
            }
        }
        text::lemma_concat_lacks(text::decimal(d.pixels_wide as nat), "×"@, '+');
        text::lemma_concat_lacks(text::decimal(d.pixels_wide as nat) + "×"@, text::decimal(d.pixels_high as nat), '+');
    }
    assert(text::count_char(" + "@, '+') == 1) by {
        reveal_with_fuel(text::count_char, 4);
        assert(seq![' ', '+', ' '].drop_last() =~= seq![' ', '+']);
        assert(seq![' ', '+'].drop_last() =~= seq![' ']);
        assert(seq![' '].drop_last() =~= Seq::<char>::empty());
    }
    text::lemma_join_count(rs, " + "@, '+');
    let label = if n == 1 {
        "display"@
    } else {
        "displays"@
    };
    text::lemma_decimal_lacks(n, '+');
    text::lemma_count_absent(text::decimal(n), '+');
    assert(!" "@.contains('+')) by {
        if " "@.contains('+') {
            assert(" "@[0] == '+');
        }
    }
    assert(!label.contains('+')) by {
        if label.contains('+') {
            let i = choose|i: int| 0 <= i < label.len() && label[i] == '+';
        }
    }
    assert(!": "@.contains('+')) by {
        if ": "@.contains('+') {
            let i = choose|i: int| 0 <= i < 2 && ": "@[i] == '+';
        }
    }
    text::lemma_count_absent(" "@, '+');
    text::lemma_count_absent(label, '+');
    text::lemma_count_absent(": "@, '+');
    let p1 = text::decimal(n) + " "@;
    let p2 = p1 + label;
    let p3 = p2 + ": "@;
    text::lemma_count_concat(text::decimal(n), " "@, '+');
    text::lemma_count_concat(p1, label, '+');
    text::lemma_count_concat(p2, ": "@, '+');
    text::lemma_count_concat(p3, text::join(rs, " + "@), '+');
}

} // verus!
