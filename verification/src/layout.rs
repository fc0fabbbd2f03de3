//! The saved layouts: for each display fingerprint, the icon positions
//! recorded for it.

use vstd::prelude::*;
use crate::text;

verus! {

/// The saved layouts, one profile per display fingerprint. Each profile is
/// the list of icon positions (of type `V`) saved for that fingerprint; no
/// fingerprint has two profiles.
pub struct LayoutStore<V> {
    entries: Vec<(String, Vec<V>)>,
}

/// No two entries share a fingerprint.
pub open spec fn keys_distinct<V>(e: Seq<(String, Vec<V>)>) -> bool {
    forall|i: int, j: int| 0 <= i < e.len() && 0 <= j < e.len() && i != j ==> #[trigger] e[i].0@ != #[trigger] e[j].0@
}

/// The profiles that a list of entries holds.
pub open spec fn map_of<V>(e: Seq<(String, Vec<V>)>) -> Map<Seq<char>, Seq<V>>
    decreases e.len(),
{
    if e.len() == 0 {
        Map::empty()
    } else {
        map_of(e.drop_last()).insert(e.last().0@, e.last().1@)
    }
}

impl<V> View for LayoutStore<V> {
    type V = Map<Seq<char>, Seq<V>>;

    closed spec fn view(&self) -> Map<Seq<char>, Seq<V>> {
        map_of(self.entries@)
    }
}

#[verifier::spinoff_prover]
proof fn lemma_map_of_lookup<V>(e: Seq<(String, Vec<V>)>)
    requires
        keys_distinct(e),
    ensures
        forall|k: Seq<char>| #[trigger] map_of(e).contains_key(k) <==> exists|i: int| 0 <= i < e.len() && e[i].0@ == k,
        forall|i: int| 0 <= i < e.len() ==> #[trigger] map_of(e).contains_key(e[i].0@) && map_of(e)[e[i].0@] == e[i].1@,
        map_of(e).dom().finite(),
        map_of(e).dom().len() == e.len(),
    decreases e.len(),
{
    if e.len() > 0 {
        let init = e.drop_last();
        assert forall|i: int, j: int| 0 <= i < init.len() && 0 <= j < init.len() && i != j implies #[trigger] init[i].0@ != #[trigger] init[j].0@ by {
            assert(init[i] == e[i]);
            assert(init[j] == e[j]);
        }
        lemma_map_of_lookup(init);
        let last = e.last();
        assert(!map_of(init).contains_key(last.0@)) by {
            if map_of(init).contains_key(last.0@) {
                let i = choose|i: int| 0 <= i < init.len() && init[i].0@ == last.0@;
                assert(e[i] == init[i]);
                assert(e[e.len() - 1] == last);
            }
        }
        assert forall|k: Seq<char>| #[trigger] map_of(e).contains_key(k) <==> exists|i: int| 0 <= i < e.len() && e[i].0@ == k by {
            if map_of(e).contains_key(k) {
                if k == last.0@ {
                    assert(e[e.len() - 1].0@ == k);
                } else {
                    let i = choose|i: int| 0 <= i < init.len() && init[i].0@ == k;
                    assert(e[i] == init[i]);
                }
            }
            if exists|i: int| 0 <= i < e.len() && e[i].0@ == k {
                let i = choose|i: int| 0 <= i < e.len() && e[i].0@ == k;
                if i < e.len() - 1 {
                    assert(init[i] == e[i]);
                }
            }
        }
        assert forall|i: int| 0 <= i < e.len() implies #[trigger] map_of(e).contains_key(e[i].0@) && map_of(e)[e[i].0@] == e[i].1@ by {
            if i < e.len() - 1 {
                assert(init[i] == e[i]);
                assert(e[i].0@ != e[e.len() - 1].0@);
            }
        }
    }
}

proof fn lemma_map_of_push<V>(e: Seq<(String, Vec<V>)>, x: (String, Vec<V>))
    ensures
        map_of(e.push(x)) == map_of(e).insert(x.0@, x.1@),
{
    assert(e.push(x).drop_last() =~= e);
}

proof fn lemma_map_of_update<V>(e: Seq<(String, Vec<V>)>, i: int, x: (String, Vec<V>))
    requires
        keys_distinct(e),
        0 <= i < e.len(),
        e[i].0@ == x.0@,
    ensures
        keys_distinct(e.update(i, x)),
        map_of(e.update(i, x)) == map_of(e).insert(x.0@, x.1@),
{
    let e2 = e.update(i, x);
    assert forall|a: int, b: int| 0 <= a < e2.len() && 0 <= b < e2.len() && a != b implies #[trigger] e2[a].0@ != #[trigger] e2[b].0@ by {
        assert(e2[a].0@ == e[a].0@);
        assert(e2[b].0@ == e[b].0@);
    }
    lemma_map_of_lookup(e);
    lemma_map_of_lookup(e2);
    let m = map_of(e).insert(x.0@, x.1@);
    assert forall|k: Seq<char>| #[trigger] map_of(e2).contains_key(k) <==> m.contains_key(k) by {
        if m.contains_key(k) && k != x.0@ {
            let j = choose|j: int| 0 <= j < e.len() && e[j].0@ == k;
            assert(e2[j].0@ == k);
        }
        if map_of(e2).contains_key(k) {
            let j = choose|j: int| 0 <= j < e2.len() && e2[j].0@ == k;
            assert(e[j].0@ == k);
        }
        if k == x.0@ {
            assert(e2[i].0@ == k);
        }
    }
    assert forall|k: Seq<char>| #[trigger] map_of(e2).contains_key(k) implies map_of(e2)[k] == m[k] by {
        let j = choose|j: int| 0 <= j < e2.len() && e2[j].0@ == k;
        assert(e2[j].0@ == k);
        if j != i {
            assert(e[j] == e2[j]);
        }
    }
    assert(map_of(e2) =~= m);
}

proof fn lemma_map_of_remove<V>(e: Seq<(String, Vec<V>)>, i: int)
    requires
        keys_distinct(e),
        0 <= i < e.len(),
    ensures
        keys_distinct(e.remove(i)),
        map_of(e.remove(i)) == map_of(e).remove(e[i].0@),
{
    let e2 = e.remove(i);
    let k0 = e[i].0@;
    assert forall|a: int, b: int| 0 <= a < e2.len() && 0 <= b < e2.len() && a != b implies #[trigger] e2[a].0@ != #[trigger] e2[b].0@ by {
        let a0 = if a < i { a } else { a + 1 };
        let b0 = if b < i { b } else { b + 1 };
        assert(e2[a] == e[a0]);
        assert(e2[b] == e[b0]);
    }
    lemma_map_of_lookup(e);
    lemma_map_of_lookup(e2);
    let m = map_of(e).remove(k0);
    assert forall|k: Seq<char>| #[trigger] map_of(e2).contains_key(k) <==> m.contains_key(k) by {
        if m.contains_key(k) {
            let j = choose|j: int| 0 <= j < e.len() && e[j].0@ == k;
            assert(j != i);
            let j2 = if j < i { j } else { j - 1 };
            assert(e2[j2] == e[j]);
        }
        if map_of(e2).contains_key(k) {
            let j = choose|j: int| 0 <= j < e2.len() && e2[j].0@ == k;
            let j0 = if j < i { j } else { j + 1 };
            assert(e2[j] == e[j0]);
            assert(j0 != i);
        }
    }
    assert forall|k: Seq<char>| #[trigger] map_of(e2).contains_key(k) implies map_of(e2)[k] == m[k] by {
        let j = choose|j: int| 0 <= j < e2.len() && e2[j].0@ == k;
        let j0 = if j < i { j } else { j + 1 };
        assert(e2[j] == e[j0]);
        assert(j0 != i);
    }
    assert(map_of(e2) =~= m);
}

/// Where the entry of `key` stands, if there is one.
fn find_in<V>(entries: &Vec<(String, Vec<V>)>, key: &String) -> (r: Option<usize>)
    ensures
        match r {
            Some(i) => i < entries@.len() && entries@[i as int].0@ == key@,
            None => forall|i: int| 0 <= i < entries@.len() ==> entries@[i].0@ != key@,
        },
{
    let mut i: usize = 0;
    while i < entries.len()
        invariant
            i <= entries@.len(),
            forall|j: int| 0 <= j < i ==> entries@[j].0@ != key@,
        decreases entries.len() - i,
    {
        if entries[i].0 == *key {
            return Some(i);
        }
        i = i + 1;
    }
    None
}

impl<V> LayoutStore<V> {
    #[verifier::type_invariant]
    spec fn inv(self) -> bool {
        keys_distinct(self.entries@)
    }

    /// A store with no profiles.
    pub fn new() -> (s: Self)
        ensures
            s@ == Map::<Seq<char>, Seq<V>>::empty(),
    {
        let s = LayoutStore { entries: Vec::new() };
        assert(s@ =~= Map::<Seq<char>, Seq<V>>::empty());
        s
    }

    /// The number of saved profiles.
    pub fn len(&self) -> (n: usize)
        ensures
            n == self@.len(),
            self@.dom().finite(),
    {
        proof {
            use_type_invariant(self);
            lemma_map_of_lookup(self.entries@);
        }
        self.entries.len()
    }

    /// Whether a profile is saved for `key`.
    pub fn contains(&self, key: &str) -> (b: bool)
        ensures
            b == self@.contains_key(key@),
    {
        proof {
            use_type_invariant(self);
            lemma_map_of_lookup(self.entries@);
        }
        let k = text::string_of(&text::chars_of(key));
        match find_in(&self.entries, &k) {
            Some(i) => {
                proof {
                    assert(map_of(self.entries@).contains_key(self.entries@[i as int].0@));
                }
                true
            },
            None => false,
        }
    }

    /// The profile saved for `key`, if any.
    pub fn get(&self, key: &str) -> (r: Option<&Vec<V>>)
        ensures
            match r {
                Some(v) => self@.contains_key(key@) && v@ == self@[key@],
                None => !self@.contains_key(key@),
            },
    {
        proof {
            use_type_invariant(self);
            lemma_map_of_lookup(self.entries@);
        }
        let k = text::string_of(&text::chars_of(key));
        match find_in(&self.entries, &k) {
            Some(i) => {
                proof {
                    assert(map_of(self.entries@).contains_key(self.entries@[i as int].0@));
                }
                Some(&self.entries[i].1)
            },
            None => None,
        }
    }

    /// Saves `value` as the profile of `key`, replacing any profile it had.
    pub fn insert(&mut self, key: String, value: Vec<V>)
        ensures
            final(self)@ == old(self)@.insert(key@, value@),
    {
        proof {
            use_type_invariant(&*self);
        }
        let found = find_in(&self.entries, &key);
        let mut entries: Vec<(String, Vec<V>)> = Vec::new();
        std::mem::swap(&mut entries, &mut self.entries);
        let ghost e0 = entries@;
        if let Some(i) = found {
            proof {
                lemma_map_of_update(e0, i as int, (key, value));
            }
            entries.set(i, (key, value));
        } else {
            proof {
                lemma_map_of_lookup(e0);
                lemma_map_of_push(e0, (key, value));
                assert(keys_distinct(e0.push((key, value))));
            }
            entries.push((key, value));
        }
        self.entries = entries;
        assert(map_of(e0) == old(self)@);
    }

    /// Deletes the profile of `key`, handing it back when there was one.
    pub fn remove(&mut self, key: &str) -> (r: Option<Vec<V>>)
        ensures
            final(self)@ == old(self)@.remove(key@),
            match r {
                Some(v) => old(self)@.contains_key(key@) && v@ == old(self)@[key@],
                None => !old(self)@.contains_key(key@),
            },
    {
        proof {
            use_type_invariant(&*self);
            lemma_map_of_lookup(self.entries@);
        }
        let k = text::string_of(&text::chars_of(key));
        match find_in(&self.entries, &k) {
            None => {
                assert(old(self)@.remove(key@) =~= old(self)@);
                None
            },
            Some(i) => {
                let mut entries: Vec<(String, Vec<V>)> = Vec::new();
                std::mem::swap(&mut entries, &mut self.entries);
                let ghost e0 = entries@;
                proof {
                    lemma_map_of_remove(e0, i as int);
                }
                let pair = entries.remove(i);
                let v = pair.1;
                assert(e0 == old(self).entries@);
                assert(v@ == e0[i as int].1@);
                assert(map_of(e0).contains_key(e0[i as int].0@));
                assert(old(self)@[key@] == e0[i as int].1@);
                self.entries = entries;
                Some(v)
            },
        }
    }

    /// Deletes every profile.
    pub fn clear(&mut self)
        ensures
            final(self)@ == Map::<Seq<char>, Seq<V>>::empty(),
    {
        self.entries = Vec::new();
        assert(map_of(self.entries@) =~= Map::<Seq<char>, Seq<V>>::empty());
    }

    /// Every profile with its fingerprint, each once, in no particular order.
    pub fn entries(&self) -> (r: &Vec<(String, Vec<V>)>)
        ensures
            r@.len() == self@.len(),
            forall|i: int| 0 <= i < r@.len() ==> #[trigger] self@.contains_key(r@[i].0@) && self@[r@[i].0@] == r@[i].1@,
            forall|k: Seq<char>| #[trigger] self@.contains_key(k) ==> exists|i: int| 0 <= i < r@.len() && r@[i].0@ == k,
            keys_distinct(r@),
    {
        proof {
            use_type_invariant(self);
            lemma_map_of_lookup(self.entries@);
        }
        &self.entries
    }
}

/// The number of icons that could not be moved, as the apply script writes
/// it on its standard output: the output, trimmed, read as a number; 0 when
/// it is not one.
pub fn failed_item_count(stdout: &str) -> (n: usize)
    ensures
        n as nat == match text::parse_usize_spec(text::trim(stdout@)) {
            Some(v) => v,
            None => 0,
        },
{
    let chars = text::chars_of(stdout);
    let trimmed = text::trim_chars(&chars);
    match text::parse_usize(&trimmed) {
        Some(v) => v,
        None => 0,
    }
}

} // verus!
