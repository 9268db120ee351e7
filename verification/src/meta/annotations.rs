//! Annotations: a map from text to text that is kept in the order of its
//! keys, so that equal maps are written as equal bytes.

use crate::order::{before, lemma_before_is_total_order, precedes};
use vstd::prelude::*;
use vstd::string::*;

verus! {

/// A key and its value.
pub type Pair = (Seq<char>, Seq<char>);

/// Whether the keys rise strictly from each entry to the next, so that no
/// key occurs twice.
pub open spec fn keys_rise(s: Seq<Pair>) -> bool {
    forall|i: int, j: int| 0 <= i < j < s.len() ==> before(#[trigger] s[i].0, #[trigger] s[j].0)
}

/// The entries once `key` has the value `value`: the entry of `key` is
/// replaced if there is one; otherwise the new entry stands in front of the
/// first key that comes after `key`.
pub open spec fn with_entry(s: Seq<Pair>, key: Seq<char>, value: Seq<char>) -> Seq<Pair>
    decreases s.len(),
{
    if s.len() == 0 {
        seq![(key, value)]
    } else if s[0].0 == key {
        seq![(key, value)] + s.drop_first()
    } else if before(key, s[0].0) {
        seq![(key, value)] + s
    } else {
        seq![s[0]] + with_entry(s.drop_first(), key, value)
    }
}

/// The value of `key`, if it has one.
pub open spec fn value_of(s: Seq<Pair>, key: Seq<char>) -> Option<Seq<char>>
    decreases s.len(),
{
    if s.len() == 0 {
        None
    } else if s[0].0 == key {
        Some(s[0].1)
    } else {
        value_of(s.drop_first(), key)
    }
}

/// The entries of a vector of pairs, each by its texts.
pub open spec fn pairs(entries: Seq<(String, String)>) -> Seq<Pair> {
    Seq::new(entries.len(), |i: int| (entries[i].0@, entries[i].1@))
}

/// A map from text to text, held in the order of its keys.
#[derive(Debug, PartialEq)]
pub struct Annotations {
    entries: Vec<(String, String)>,
}

impl View for Annotations {
    type V = Seq<Pair>;

    closed spec fn view(&self) -> Seq<Pair> {
        pairs(self.entries@)
    }
}

impl Clone for Annotations {
    fn clone(&self) -> (a: Annotations)
        ensures
            a@ == self@,
    {
        proof {
            use_type_invariant(self);
        }
        let mut entries: Vec<(String, String)> = Vec::new();
        let mut i: usize = 0;
        while i < self.entries.len()
            invariant
                i <= self.entries.len(),
                pairs(entries@) == pairs(self.entries@).take(i as int),
            decreases self.entries.len() - i,
        {
            let ghost done = pairs(entries@);
            let key = self.entries[i].0.clone();
            let value = self.entries[i].1.clone();
            entries.push((key, value));
            assert(pairs(entries@) =~= done.push((key@, value@)));
            assert(pairs(self.entries@)[i as int] == (key@, value@));
            assert(pairs(entries@) =~= pairs(self.entries@).take(i as int + 1));
            i = i + 1;
        }
        assert(pairs(entries@) =~= pairs(self.entries@));
        Annotations { entries }
    }
}

impl Annotations {
    #[verifier::type_invariant]
    spec fn keys_in_order(&self) -> bool {
        keys_rise(pairs(self.entries@))
    }

    /// No annotations.
    pub fn new() -> (a: Annotations)
        ensures
            a@ == Seq::<Pair>::empty(),
    {
        let a = Annotations { entries: Vec::new() };
        assert(a@ =~= Seq::<Pair>::empty());
        a
    }

    /// How many keys have a value. The keys rise from each entry to the
    /// next, so none occurs twice and equal maps hold equal entries.
    pub fn len(&self) -> (n: usize)
        ensures
            n == self@.len(),
            keys_rise(self@),
    {
        proof {
            use_type_invariant(self);
        }
        self.entries.len()
    }

    /// The key at position `i` in the order of the keys.
    pub fn key(&self, i: usize) -> (k: &String)
        requires
            i < self@.len(),
        ensures
            k@ == self@[i as int].0,
    {
        &self.entries[i].0
    }

    /// The value at position `i` in the order of the keys.
    pub fn value(&self, i: usize) -> (v: &String)
        requires
            i < self@.len(),
        ensures
            v@ == self@[i as int].1,
    {
        &self.entries[i].1
    }

    /// These annotations with `value` as the value of `key`, in place of the
    /// one it had if it had one.
    pub fn with(self, key: String, value: String) -> (a: Annotations)
        ensures
            a@ == with_entry(self@, key@, value@),
    {
        proof {
            use_type_invariant(&self);
        }
        let ghost start = pairs(self.entries@);
        let mut entries = self.entries;
        let mut at: usize = 0;
        while at < entries.len() && precedes(entries[at].0.as_str(), key.as_str())
            invariant
                at <= entries.len(),
                pairs(entries@) == start,
                keys_rise(start),
                forall|k: int| 0 <= k < at ==> before(#[trigger] start[k].0, key@),
            decreases entries.len() - at,
        {
            at = at + 1;
        }
        proof {
            lemma_with_entry_at(start, key@, value@, at as int);
        }
        if at < entries.len() && entries[at].0 == key {
            entries.set(at, (key, value));
            proof {
                let after = pairs(entries@);
                assert(after =~= start.update(at as int, (key@, value@)));
                assert(start.skip(at as int)[0] == start[at as int]);
                assert(after =~= start.take(at as int) + (seq![(key@, value@)] + start.skip(
                    at as int,
                ).drop_first()));
                assert forall|i: int, j: int| 0 <= i < j < after.len() implies before(
                    #[trigger] after[i].0,
                    #[trigger] after[j].0,
                ) by {
                    assert(after[i].0 == start[i].0);
                    assert(after[j].0 == start[j].0);
                }
            }
        } else {
            entries.insert(at, (key, value));
            proof {
                let after = pairs(entries@);
                assert(after =~= start.insert(at as int, (key@, value@)));
                if at < start.len() {
                    assert(start.skip(at as int)[0] == start[at as int]);
                    lemma_before_is_total_order(key@, start[at as int].0, key@);
                    assert(before(key@, start[at as int].0));
                }
                assert(after =~= start.take(at as int) + (seq![(key@, value@)] + start.skip(
                    at as int,
                )));
                assert forall|i: int, j: int| 0 <= i < j < after.len() implies before(
                    #[trigger] after[i].0,
                    #[trigger] after[j].0,
                ) by {
                    if j < at {
                        assert(after[i] == start[i] && after[j] == start[j]);
                    } else if j == at {
                        assert(after[i] == start[i]);
                    } else if i < at {
                        assert(after[i] == start[i] && after[j] == start[j - 1]);
                    } else if i == at {
                        assert(after[j] == start[j - 1]);
                        if j - 1 > at {
                            assert(before(start[at as int].0, start[j - 1].0));
                            lemma_before_is_total_order(key@, start[at as int].0, start[j - 1].0);
                        }
                    } else {
                        assert(after[i] == start[i - 1] && after[j] == start[j - 1]);
                    }
                }
            }
        }
        Annotations { entries }
    }

    /// Gives `key` the value `value`, in place of the one it had if it had
    /// one.
    pub fn insert(&mut self, key: String, value: String)
        ensures
            final(self)@ == with_entry(old(self)@, key@, value@),
    {
        let mut taken = Annotations::new();
        core::mem::swap(self, &mut taken);
        *self = taken.with(key, value);
    }

    /// The value of `key`, if it has one.
    pub fn get(&self, key: &str) -> (value: Option<&String>)
        ensures
            value.is_some() == value_of(self@, key@).is_some(),
            value matches Some(v) ==> Some(v@) == value_of(self@, key@),
    {
        let wanted = String::from_str(key);
        let mut i: usize = 0;
        assert(self@.skip(0) =~= self@);
        while i < self.entries.len()
            invariant
                i <= self.entries.len(),
                wanted@ == key@,
                value_of(self@, key@) == value_of(self@.skip(i as int), key@),
            decreases self.entries.len() - i,
        {
            let ghost rest = self@.skip(i as int);
            assert(rest[0] == self@[i as int]);
            assert(rest.drop_first() =~= self@.skip(i as int + 1));
            if self.entries[i].0 == wanted {
                return Some(&self.entries[i].1);
            }
            i = i + 1;
        }
        assert(self@.skip(i as int).len() == 0);
        None
    }
}

/// Where the keys in front of position `at` come before `key` and the key
/// at `at` does not, the entry of `key` belongs at `at`.
pub proof fn lemma_with_entry_at(s: Seq<Pair>, key: Seq<char>, value: Seq<char>, at: int)
    requires
        0 <= at <= s.len(),
        keys_rise(s),
        forall|k: int| 0 <= k < at ==> before(#[trigger] s[k].0, key),
        at < s.len() ==> !before(s[at].0, key),
    ensures
        with_entry(s, key, value) == s.take(at) + with_entry(s.skip(at), key, value),
        at == s.len() ==> with_entry(s.skip(at), key, value) == seq![(key, value)],
        at < s.len() && s[at].0 == key ==> with_entry(s.skip(at), key, value) == seq![(key, value)]
            + s.skip(at).drop_first(),
        at < s.len() && s[at].0 != key ==> with_entry(s.skip(at), key, value) == seq![(key, value)]
            + s.skip(at),
    decreases at,
{
    if at == 0 {
        assert(s.skip(0) =~= s);
        assert(s.take(0) + with_entry(s, key, value) =~= with_entry(s, key, value));
        if s.len() > 0 && s[0].0 != key {
            lemma_before_is_total_order(key, s[0].0, key);
        }
    } else {
        let rest = s.drop_first();
        assert(before(s[0].0, key));
        lemma_before_is_total_order(key, s[0].0, key);
        assert(s[0].0 != key && !before(key, s[0].0));
        assert(with_entry(s, key, value) == seq![s[0]] + with_entry(rest, key, value));
        assert forall|i: int, j: int| 0 <= i < j < rest.len() implies before(
            #[trigger] rest[i].0,
            #[trigger] rest[j].0,
        ) by {
            assert(rest[i] == s[i + 1] && rest[j] == s[j + 1]);
        }
        assert forall|k: int| 0 <= k < at - 1 implies before(#[trigger] rest[k].0, key) by {
            assert(rest[k] == s[k + 1]);
        }
        if at < s.len() {
            assert(rest[at - 1] == s[at]);
        }
        lemma_with_entry_at(rest, key, value, at - 1);
        assert(rest.skip(at - 1) =~= s.skip(at));
        assert(s.take(at) =~= seq![s[0]] + rest.take(at - 1));
        assert(seq![s[0]] + (rest.take(at - 1) + with_entry(s.skip(at), key, value)) =~= s.take(at)
            + with_entry(s.skip(at), key, value));
    }
}

} // verus!
