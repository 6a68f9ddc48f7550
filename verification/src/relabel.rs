//! Relabelings: finite mappings from channel names to channel names, kept
//! in ascending order of their keys.

use vstd::prelude::*;
use vstd::std_specs::cmp::PartialEqSpecImpl;
use crate::order::{
    lemma_text_lt_asymmetric, lemma_text_lt_connected, lemma_text_lt_irreflexive,
    lemma_text_lt_transitive, text_less, text_lt,
};

verus! {

/// The keys of `s` ascend strictly from each entry to every later one.
pub open spec fn ascending(s: Seq<(Seq<char>, Seq<char>)>) -> bool {
    forall|i: int, j: int| 0 <= i < j < s.len() ==> text_lt(#[trigger] s[i].0, #[trigger] s[j].0)
}

/// Some entry of `s` has the key `key`.
pub open spec fn has_key(s: Seq<(Seq<char>, Seq<char>)>, key: Seq<char>) -> bool {
    exists|i: int| 0 <= i < s.len() && (#[trigger] s[i]).0 == key
}

/// The entries of `s` after `key` has been mapped to `value`: those with a
/// smaller key, the new entry, then those with a greater key.
pub open spec fn with_entry(s: Seq<(Seq<char>, Seq<char>)>, key: Seq<char>, value: Seq<char>) -> Seq<
    (Seq<char>, Seq<char>),
> {
    s.filter(|e: (Seq<char>, Seq<char>)| text_lt(e.0, key)) + seq![(key, value)] + s.filter(
        |e: (Seq<char>, Seq<char>)| text_lt(key, e.0),
    )
}

/// A filter that every element passes keeps the sequence.
proof fn lemma_filter_all<A>(s: Seq<A>, p: spec_fn(A) -> bool)
    requires
        forall|j: int| 0 <= j < s.len() ==> p(#[trigger] s[j]),
    ensures
        s.filter(p) == s,
    decreases s.len(),
{
    reveal(Seq::filter);
    if s.len() > 0 {
        lemma_filter_all(s.drop_last(), p);
        assert(s.drop_last().push(s.last()) =~= s);
    }
}

/// A filter that no element passes leaves nothing.
proof fn lemma_filter_none<A>(s: Seq<A>, p: spec_fn(A) -> bool)
    requires
        forall|j: int| 0 <= j < s.len() ==> !p(#[trigger] s[j]),
    ensures
        s.filter(p) == Seq::<A>::empty(),
    decreases s.len(),
{
    reveal(Seq::filter);
    if s.len() > 0 {
        lemma_filter_none(s.drop_last(), p);
    }
}

/// A filter that exactly the first `at` elements pass keeps those.
proof fn lemma_filter_head<A>(s: Seq<A>, p: spec_fn(A) -> bool, at: int)
    requires
        0 <= at <= s.len(),
        forall|j: int| 0 <= j < at ==> p(#[trigger] s[j]),
        forall|j: int| at <= j < s.len() ==> !p(#[trigger] s[j]),
    ensures
        s.filter(p) == s.take(at),
{
    let head = s.take(at);
    let tail = s.skip(at);
    assert forall|j: int| 0 <= j < head.len() implies p(#[trigger] head[j]) by {
        assert(head[j] == s[j]);
    }
    assert forall|j: int| 0 <= j < tail.len() implies !p(#[trigger] tail[j]) by {
        assert(tail[j] == s[j + at]);
    }
    lemma_filter_all(head, p);
    lemma_filter_none(tail, p);
    Seq::filter_distributes_over_add(head, tail, p);
    assert(head + tail =~= s);
    assert(head + Seq::<A>::empty() =~= head);
}

/// A filter that exactly the elements from `at` on pass keeps those.
proof fn lemma_filter_tail<A>(s: Seq<A>, p: spec_fn(A) -> bool, at: int)
    requires
        0 <= at <= s.len(),
        forall|j: int| 0 <= j < at ==> !p(#[trigger] s[j]),
        forall|j: int| at <= j < s.len() ==> p(#[trigger] s[j]),
    ensures
        s.filter(p) == s.skip(at),
{
    let head = s.take(at);
    let tail = s.skip(at);
    assert forall|j: int| 0 <= j < head.len() implies !p(#[trigger] head[j]) by {
        assert(head[j] == s[j]);
    }
    assert forall|j: int| 0 <= j < tail.len() implies p(#[trigger] tail[j]) by {
        assert(tail[j] == s[j + at]);
    }
    lemma_filter_none(head, p);
    lemma_filter_all(tail, p);
    Seq::filter_distributes_over_add(head, tail, p);
    assert(head + tail =~= s);
    assert(Seq::<A>::empty() + tail =~= tail);
}

/// Two keys of which neither comes before the other are the same key.
proof fn lemma_same_key(a: Seq<char>, b: Seq<char>)
    requires
        !text_lt(a, b),
    ensures
        a == b <==> !text_lt(b, a),
{
    lemma_text_lt_irreflexive(a);
    if a != b {
        lemma_text_lt_connected(a, b);
    }
}

/// In an ascending sequence, where one key does not come before `key`, no
/// later one does.
proof fn lemma_none_below_after(s: Seq<(Seq<char>, Seq<char>)>, key: Seq<char>, at: int)
    requires
        ascending(s),
        0 <= at <= s.len(),
        at < s.len() ==> !text_lt(s[at].0, key),
    ensures
        forall|j: int| at <= j < s.len() ==> !text_lt(#[trigger] s[j].0, key),
{
    assert forall|j: int| at <= j < s.len() implies !text_lt(#[trigger] s[j].0, key) by {
        if j > at && text_lt(s[j].0, key) {
            assert(text_lt(s[at].0, s[j].0));
            lemma_text_lt_transitive(s[at].0, s[j].0, key);
        }
    }
}

/// In an ascending sequence no key occurs twice.
pub proof fn lemma_ascending_keys_distinct(s: Seq<(Seq<char>, Seq<char>)>, i: int, j: int)
    requires
        ascending(s),
        0 <= i < s.len(),
        0 <= j < s.len(),
        i != j,
    ensures
        s[i].0 != s[j].0,
{
    lemma_text_lt_irreflexive(s[i].0);
    if i < j {
        assert(text_lt(s[i].0, s[j].0));
    } else {
        assert(text_lt(s[j].0, s[i].0));
    }
}

/// The number of entries from `from` on whose key comes before `key`, added
/// to `from`: in an ascending sequence, the place of `key`.
pub open spec fn rank(s: Seq<(Seq<char>, Seq<char>)>, key: Seq<char>, from: int) -> int
    decreases s.len() - from,
{
    if 0 <= from < s.len() && text_lt(s[from].0, key) {
        rank(s, key, from + 1)
    } else {
        from
    }
}

/// The keys before the place of `key` come before it, and the key at that
/// place does not.
pub proof fn lemma_rank(s: Seq<(Seq<char>, Seq<char>)>, key: Seq<char>, from: int)
    requires
        0 <= from <= s.len(),
        forall|j: int| 0 <= j < from ==> text_lt(#[trigger] s[j].0, key),
    ensures
        from <= rank(s, key, from) <= s.len(),
        forall|j: int| 0 <= j < rank(s, key, from) ==> text_lt(#[trigger] s[j].0, key),
        rank(s, key, from) < s.len() ==> !text_lt(s[rank(s, key, from)].0, key),
    decreases s.len() - from,
{
    if from < s.len() && text_lt(s[from].0, key) {
        lemma_rank(s, key, from + 1);
    }
}

/// What `with_entry` is, by the place `at` of the key in an ascending
/// sequence: the entry is put there, in place of the one with that key if
/// there is one.
pub proof fn lemma_with_entry_at(
    s: Seq<(Seq<char>, Seq<char>)>,
    key: Seq<char>,
    value: Seq<char>,
    at: int,
)
    requires
        ascending(s),
        0 <= at <= s.len(),
        forall|j: int| 0 <= j < at ==> text_lt(#[trigger] s[j].0, key),
        at < s.len() ==> !text_lt(s[at].0, key),
    ensures
        at < s.len() && s[at].0 == key ==> with_entry(s, key, value) == s.update(at, (key, value)),
        !(at < s.len() && s[at].0 == key) ==> with_entry(s, key, value) == s.insert(
            at,
            (key, value),
        ),
        has_key(s, key) <==> at < s.len() && s[at].0 == key,
{
    let below = |e: (Seq<char>, Seq<char>)| text_lt(e.0, key);
    let above = |e: (Seq<char>, Seq<char>)| text_lt(key, e.0);
    lemma_none_below_after(s, key, at);
    lemma_filter_head(s, below, at);
    lemma_text_lt_irreflexive(key);
    assert forall|j: int| 0 <= j < at implies !above(#[trigger] s[j]) by {
        lemma_text_lt_asymmetric(s[j].0, key);
    }
    if at < s.len() && s[at].0 == key {
        assert forall|j: int| at + 1 <= j < s.len() implies above(#[trigger] s[j]) by {
            assert(text_lt(s[at].0, s[j].0));
        }
        lemma_filter_tail(s, above, at + 1);
        assert(with_entry(s, key, value) =~= s.update(at, (key, value)));
        assert(has_key(s, key));
    } else {
        assert forall|j: int| at <= j < s.len() implies above(#[trigger] s[j]) by {
            if s[j].0 == key {
                if j > at {
                    assert(text_lt(s[at].0, s[j].0));
                }
            } else {
                lemma_text_lt_connected(s[j].0, key);
            }
        }
        lemma_filter_tail(s, above, at);
        assert(with_entry(s, key, value) =~= s.insert(at, (key, value)));
        assert forall|j: int| 0 <= j < s.len() implies (#[trigger] s[j]).0 != key by {
            if j < at {
                assert(text_lt(s[j].0, key));
            } else {
                assert(above(s[j]));
            }
        }
    }
}

/// Mapping a key to a value keeps an ascending sequence ascending, and the
/// key is then present.
pub proof fn lemma_with_entry_ascending(
    s: Seq<(Seq<char>, Seq<char>)>,
    key: Seq<char>,
    value: Seq<char>,
)
    requires
        ascending(s),
    ensures
        ascending(with_entry(s, key, value)),
        has_key(with_entry(s, key, value), key),
{
    let at = rank(s, key, 0);
    lemma_rank(s, key, 0);
    lemma_with_entry_at(s, key, value, at);
    let r = with_entry(s, key, value);
    assert(r[at] == (key, value));
    if at < s.len() && s[at].0 == key {
        assert forall|i: int, j: int| 0 <= i < j < r.len() implies text_lt(
            #[trigger] r[i].0,
            #[trigger] r[j].0,
        ) by {
            assert(r[i].0 == s[i].0 && r[j].0 == s[j].0);
        }
    } else {
        lemma_none_below_after(s, key, at);
        assert forall|j: int| at <= j < s.len() implies text_lt(key, #[trigger] s[j].0) by {
            if s[j].0 == key {
                if j > at {
                    assert(text_lt(s[at].0, s[j].0));
                }
            } else {
                lemma_text_lt_connected(s[j].0, key);
            }
        }
        assert forall|i: int, j: int| 0 <= i < j < r.len() implies text_lt(
            #[trigger] r[i].0,
            #[trigger] r[j].0,
        ) by {
            if j < at {
                assert(r[i] == s[i] && r[j] == s[j]);
            } else if j == at {
                assert(r[i] == s[i]);
            } else if i < at {
                assert(r[i] == s[i] && r[j] == s[j - 1]);
                lemma_text_lt_transitive(r[i].0, key, r[j].0);
            } else if i == at {
                assert(r[j] == s[j - 1]);
            } else {
                assert(r[i] == s[i - 1] && r[j] == s[j - 1]);
            }
        }
    }
}

/// Mapping a key to a value changes nothing for the other keys: an entry
/// with another key is there afterwards if and only if it was there before.
pub proof fn lemma_with_entry_keeps_others(
    s: Seq<(Seq<char>, Seq<char>)>,
    key: Seq<char>,
    value: Seq<char>,
    other: (Seq<char>, Seq<char>),
)
    requires
        ascending(s),
        other.0 != key,
    ensures
        with_entry(s, key, value).contains(other) <==> s.contains(other),
{
    let at = rank(s, key, 0);
    lemma_rank(s, key, 0);
    lemma_with_entry_at(s, key, value, at);
    let r = with_entry(s, key, value);
    let replaced = at < s.len() && s[at].0 == key;
    if s.contains(other) {
        let i = choose|i: int| 0 <= i < s.len() && s[i] == other;
        if replaced || i < at {
            assert(r[i] == other);
        } else {
            assert(r[i + 1] == other);
        }
    }
    if r.contains(other) {
        let i = choose|i: int| 0 <= i < r.len() && r[i] == other;
        if replaced || i < at {
            assert(s[i] == other);
        } else {
            assert(s[i - 1] == other);
        }
    }
}

/// A relabeling: each of its keys, a channel name, is mapped to one channel
/// name. The entries are held in ascending order of their keys.
#[derive(Debug, Hash, Eq)]
pub struct Relabeling {
    entries: Vec<(String, String)>,
}

/// The texts of a sequence of entries.
spec fn pairs(entries: Seq<(String, String)>) -> Seq<(Seq<char>, Seq<char>)> {
    entries.map_values(|e: (String, String)| (e.0@, e.1@))
}

impl View for Relabeling {
    type V = Seq<(Seq<char>, Seq<char>)>;

    /// The entries as pairs of key and value, in ascending order of the keys.
    closed spec fn view(&self) -> Seq<(Seq<char>, Seq<char>)> {
        pairs(self.entries@)
    }
}

impl PartialEq for Relabeling {
    /// Two relabelings are equal when they map the same keys to the same
    /// values.
    fn eq(&self, other: &Relabeling) -> (r: bool) {
        let n = self.entries.len();
        if n != other.entries.len() {
            return false;
        }
        let mut i: usize = 0;
        while i < n
            invariant
                n == self.entries.len(),
                n == other.entries.len(),
                i <= n,
                forall|j: int| 0 <= j < i ==> self@[j] == other@[j],
            decreases n - i,
        {
            let a = &self.entries[i];
            let b = &other.entries[i];
            if !(a.0 == b.0 && a.1 == b.1) {
                assert(self@[i as int] != other@[i as int]);
                return false;
            }
            i += 1;
        }
        assert(self@ =~= other@);
        true
    }
}

impl PartialEqSpecImpl for Relabeling {
    open spec fn obeys_eq_spec() -> bool {
        true
    }

    open spec fn eq_spec(&self, other: &Relabeling) -> bool {
        self@ == other@
    }
}

impl Clone for Relabeling {
    /// Returns a relabeling with the same entries.
    fn clone(&self) -> (r: Relabeling)
        ensures
            r@ == self@,
    {
        proof {
            use_type_invariant(self);
        }
        let n = self.entries.len();
        let mut entries: Vec<(String, String)> = Vec::new();
        let mut i: usize = 0;
        while i < n
            invariant
                n == self.entries.len(),
                i <= n,
                entries@.len() == i,
                forall|j: int| 0 <= j < i ==> entries@[j].0@ == self.entries@[j].0@,
                forall|j: int| 0 <= j < i ==> entries@[j].1@ == self.entries@[j].1@,
            decreases n - i,
        {
            let e = &self.entries[i];
            entries.push((e.0.clone(), e.1.clone()));
            i += 1;
        }
        assert(pairs(entries@) =~= self@);
        Relabeling { entries }
    }
}

impl Relabeling {
    #[verifier::type_invariant]
    spec fn ordered(self) -> bool {
        ascending(self@)
    }

    /// Returns the relabeling that maps nothing.
    pub fn new() -> (r: Relabeling)
        ensures
            r@ == Seq::<(Seq<char>, Seq<char>)>::empty(),
    {
        let entries: Vec<(String, String)> = Vec::new();
        assert(pairs(entries@) =~= Seq::<(Seq<char>, Seq<char>)>::empty());
        Relabeling { entries }
    }

    /// Returns the number of entries.
    pub fn len(&self) -> (n: usize)
        ensures
            n == self@.len(),
            ascending(self@),
    {
        proof {
            use_type_invariant(self);
        }
        self.entries.len()
    }

    /// Returns the key and the value of the entry at `index`, counted in
    /// ascending order of the keys.
    pub fn entry(&self, index: usize) -> (r: (&String, &String))
        requires
            index < self@.len(),
        ensures
            (r.0@, r.1@) == self@[index as int],
    {
        let e = &self.entries[index];
        (&e.0, &e.1)
    }

    /// Returns the value that `key` is mapped to, if it is mapped.
    pub fn get(&self, key: &str) -> (r: Option<&String>)
        ensures
            match r {
                Some(v) => exists|i: int| 0 <= i < self@.len() && self@[i] == (key@, v@),
                None => !has_key(self@, key@),
            },
    {
        proof {
            use_type_invariant(self);
        }
        let n = self.entries.len();
        let mut i: usize = 0;
        while i < n && text_less(self.entries[i].0.as_str(), key)
            invariant
                n == self.entries.len(),
                i <= n,
                forall|j: int| 0 <= j < i ==> text_lt(#[trigger] self@[j].0, key@),
            decreases n - i,
        {
            i += 1;
        }
        proof {
            lemma_with_entry_at(self@, key@, key@, i as int);
            if i < n {
                lemma_same_key(self@[i as int].0, key@);
            }
        }
        if i < n && !text_less(key, self.entries[i].0.as_str()) {
            Some(&self.entries[i].1)
        } else {
            None
        }
    }

    /// Maps `key` to `value`. Returns the value that `key` was mapped to
    /// before, if it was mapped.
    pub fn insert(&mut self, key: String, value: String) -> (r: Option<String>)
        ensures
            final(self)@ == with_entry(old(self)@, key@, value@),
            match r {
                Some(v) => exists|i: int| 0 <= i < old(self)@.len() && old(self)@[i] == (key@, v@),
                None => !has_key(old(self)@, key@),
            },
    {
        proof {
            use_type_invariant(&*self);
        }
        let ghost before = self@;
        let mut entries: Vec<(String, String)> = Vec::new();
        std::mem::swap(&mut entries, &mut self.entries);
        let n = entries.len();
        let mut i: usize = 0;
        while i < n && text_less(entries[i].0.as_str(), key.as_str())
            invariant
                n == entries.len(),
                i <= n,
                before == pairs(entries@),
                forall|j: int| 0 <= j < i ==> text_lt(#[trigger] before[j].0, key@),
            decreases n - i,
        {
            i += 1;
        }
        proof {
            lemma_with_entry_at(before, key@, value@, i as int);
            lemma_with_entry_ascending(before, key@, value@);
            if i < n {
                lemma_same_key(before[i as int].0, key@);
            }
        }
        if i < n && !text_less(key.as_str(), entries[i].0.as_str()) {
            let (kept, previous) = entries.remove(i);
            entries.insert(i, (kept, value));
            assert(pairs(entries@) =~= before.update(i as int, (key@, value@)));
            self.entries = entries;
            Some(previous)
        } else {
            entries.insert(i, (key, value));
            assert(pairs(entries@) =~= before.insert(i as int, (key@, value@)));
            self.entries = entries;
            None
        }
    }
}

} // verus!
