//! An ordered key/value table: the result of reading the `key=value` lines
//! of a `.wl`-style file, where a later line for a key replaces an earlier one.

use vstd::prelude::*;
use crate::text::{chars_of, chars_eq, string_of};

verus! {

/// The map that an association list denotes: later pairs override earlier
/// ones.
pub open spec fn assoc(ks: Seq<Seq<char>>, vs: Seq<Seq<char>>) -> Map<Seq<char>, Seq<char>>
    decreases ks.len(),
{
    if ks.len() == 0 || vs.len() == 0 {
        Map::empty()
    } else {
        assoc(ks.drop_last(), vs.drop_last()).insert(ks.last(), vs.last())
    }
}

/// Looking a key up in a map, `None` when it is absent.
pub open spec fn map_get(m: Map<Seq<char>, Seq<char>>, k: Seq<char>) -> Option<Seq<char>> {
    if m.dom().contains(k) {
        Some(m[k])
    } else {
        None
    }
}

pub open spec fn unique_keys(ks: Seq<Seq<char>>) -> bool {
    forall|i: int, j: int| 0 <= i < ks.len() && 0 <= j < ks.len() && i != j ==> ks[i] != ks[j]
}

pub proof fn lemma_assoc_push(ks: Seq<Seq<char>>, vs: Seq<Seq<char>>, k: Seq<char>, v: Seq<char>)
    ensures
        assoc(ks.push(k), vs.push(v)) == assoc(ks, vs).insert(k, v) || ks.len() != vs.len(),
{
    if ks.len() == vs.len() {
        assert(ks.push(k).drop_last() == ks);
        assert(vs.push(v).drop_last() == vs);
    }
}

pub proof fn lemma_assoc_lookup(ks: Seq<Seq<char>>, vs: Seq<Seq<char>>, k: Seq<char>)
    requires
        ks.len() == vs.len(),
        unique_keys(ks),
    ensures
        assoc(ks, vs).dom().contains(k) <==> ks.contains(k),
        forall|i: int| 0 <= i < ks.len() && ks[i] == k ==> assoc(ks, vs)[k] == vs[i],
    decreases ks.len(),
{
    if ks.len() > 0 {
        let ks2 = ks.drop_last();
        let vs2 = vs.drop_last();
        assert(unique_keys(ks2));
        lemma_assoc_lookup(ks2, vs2, k);
        if ks2.contains(k) {
            let j = choose|j: int| 0 <= j < ks2.len() && ks2[j] == k;
            assert(ks[j] == k);
        }
        if ks.contains(k) && ks.last() != k {
            let j = choose|j: int| 0 <= j < ks.len() && ks[j] == k;
            assert(j != ks.len() - 1);
            assert(ks2[j] == k);
        }
        assert forall|i: int| 0 <= i < ks.len() && ks[i] == k implies assoc(ks, vs)[k] == vs[i] by {
            if i < ks.len() - 1 {
                assert(ks2[i] == k);
                assert(ks.last() != k);
            }
        }
    }
}

pub proof fn lemma_assoc_update(ks: Seq<Seq<char>>, vs: Seq<Seq<char>>, i: int, v: Seq<char>)
    requires
        ks.len() == vs.len(),
        unique_keys(ks),
        0 <= i < ks.len(),
    ensures
        assoc(ks, vs.update(i, v)) == assoc(ks, vs).insert(ks[i], v),
    decreases ks.len(),
{
    let ks2 = ks.drop_last();
    let vs2 = vs.drop_last();
    let vs_new = vs.update(i, v);
    if i == ks.len() - 1 {
        assert(vs_new.drop_last() == vs2);
        assert(assoc(ks, vs_new) =~= assoc(ks, vs).insert(ks[i], v));
    } else {
        assert(unique_keys(ks2));
        lemma_assoc_update(ks2, vs2, i, v);
        assert(vs_new.drop_last() == vs2.update(i, v));
        assert(ks.last() != ks[i]);
        assert(assoc(ks, vs_new) =~= assoc(ks, vs).insert(ks[i], v));
    }
}

/// A table from keys to values; each key occurs once.
pub struct FieldMap {
    keys: Vec<Vec<char>>,
    values: Vec<Vec<char>>,
}

impl FieldMap {
    /// Keys and values line up, and no key occurs twice.  Every `FieldMap`
    /// that this crate hands out satisfies it.
    pub closed spec fn wf(&self) -> bool {
        &&& self.keys.len() == self.values.len()
        &&& unique_keys(self.keys.deep_view())
    }

    /// The keys, in the order in which they were first inserted.
    pub closed spec fn key_seq(&self) -> Seq<Seq<char>> {
        self.keys.deep_view()
    }

    /// The values, parallel to `key_seq`.
    pub closed spec fn value_seq(&self) -> Seq<Seq<char>> {
        self.values.deep_view()
    }

    pub closed spec fn view(&self) -> Map<Seq<char>, Seq<char>> {
        assoc(self.keys.deep_view(), self.values.deep_view())
    }

    /// A well-formed table denotes the association of its keys with its
    /// values, its keys being distinct.
    pub proof fn lemma_shape(&self)
        requires
            self.wf(),
        ensures
            self.view() == assoc(self.key_seq(), self.value_seq()),
            unique_keys(self.key_seq()),
            self.key_seq().len() == self.value_seq().len(),
    {
    }

    pub fn new() -> (m: FieldMap)
        ensures
            m.wf(),
            m.view() == Map::<Seq<char>, Seq<char>>::empty(),
            m.key_seq().len() == 0,
    {
        let m = FieldMap { keys: Vec::new(), values: Vec::new() };
        assert(m.keys.deep_view() =~= Seq::<Seq<char>>::empty());
        m
    }

    /// Number of keys.  The view is the association of `key_seq` with
    /// `value_seq`, whose keys are distinct.
    pub fn len(&self) -> (n: usize)
        requires
            self.wf(),
        ensures
            n == self.key_seq().len(),
            n == self.value_seq().len(),
            unique_keys(self.key_seq()),
            self.view() == assoc(self.key_seq(), self.value_seq()),
    {
        self.keys.len()
    }

    fn index_of(&self, key: &[char]) -> (r: Option<usize>)
        requires
            self.wf(),
        ensures
            r matches Some(i) ==> i < self.keys.len() && self.keys.deep_view()[i as int] == key@,
            r is None ==> !self.keys.deep_view().contains(key@),
    {
        let mut i: usize = 0;
        while i < self.keys.len()
            invariant
                i <= self.keys.len(),
                forall|j: int| 0 <= j < i ==> self.keys.deep_view()[j] != key@,
            decreases self.keys.len() - i,
        {
            assert(self.keys.deep_view()[i as int] == self.keys@[i as int]@);
            if chars_eq(self.keys[i].as_slice(), key) {
                return Some(i);
            }
            i += 1;
        }
        None
    }

    /// The value stored for `key`.
    pub fn get_chars(&self, key: &[char]) -> (r: Option<Vec<char>>)
        requires
            self.wf(),
        ensures
            r.deep_view() == map_get(self.view(), key@),
    {
        proof {
            lemma_assoc_lookup(self.keys.deep_view(), self.values.deep_view(), key@);
        }
        match self.index_of(key) {
            Some(i) => {
                let v = self.values[i].clone();
                assert(v@ == self.values.deep_view()[i as int]);
                Some(v)
            },
            None => None,
        }
    }

    /// Whether `key` has a value.
    pub fn contains_chars(&self, key: &[char]) -> (r: bool)
        requires
            self.wf(),
        ensures
            r == self.view().dom().contains(key@),
    {
        proof {
            lemma_assoc_lookup(self.keys.deep_view(), self.values.deep_view(), key@);
        }
        self.index_of(key).is_some()
    }

    /// Sets the value of `key`, replacing any earlier one.
    pub fn insert_chars(&mut self, key: Vec<char>, value: Vec<char>)
        requires
            old(self).wf(),
        ensures
            final(self).wf(),
            final(self).view() == old(self).view().insert(key@, value@),
            final(self).key_seq() == (if old(self).key_seq().contains(key@) {
                old(self).key_seq()
            } else {
                old(self).key_seq().push(key@)
            }),
    {
        let ghost ks = self.keys.deep_view();
        let ghost vs = self.values.deep_view();
        let ghost kv = key@;
        let ghost vv = value@;
        match self.index_of(key.as_slice()) {
            Some(i) => {
                proof {
                    lemma_assoc_update(ks, vs, i as int, vv);
                }
                crate::text::set_chars(&mut self.values, i, value);
                assert(self.keys.deep_view() == ks);
            },
            None => {
                proof {
                    lemma_assoc_push(ks, vs, kv, vv);
                }
                crate::text::push_chars(&mut self.keys, key);
                crate::text::push_chars(&mut self.values, value);
                assert(unique_keys(self.keys.deep_view()));
            },
        }
    }

    /// The key at position `i` of `key_seq`.
    pub fn key_at(&self, i: usize) -> (k: Vec<char>)
        requires
            self.wf(),
            i < self.key_seq().len(),
        ensures
            k@ == self.key_seq()[i as int],
    {
        self.keys[i].clone()
    }

    /// The value at position `i` of `value_seq`.
    pub fn value_at(&self, i: usize) -> (v: Vec<char>)
        requires
            self.wf(),
            i < self.value_seq().len(),
        ensures
            v@ == self.value_seq()[i as int],
    {
        self.values[i].clone()
    }

    /// The value stored for `key`.
    pub fn get(&self, key: &str) -> (r: Option<String>)
        requires
            self.wf(),
        ensures
            r.deep_view() == map_get(self.view(), key@),
    {
        let k = chars_of(key);
        match self.get_chars(k.as_slice()) {
            Some(v) => Some(string_of(v.as_slice())),
            None => None,
        }
    }

    /// Whether `key` has a value.
    pub fn contains_key(&self, key: &str) -> (r: bool)
        requires
            self.wf(),
        ensures
            r == self.view().dom().contains(key@),
    {
        let k = chars_of(key);
        self.contains_chars(k.as_slice())
    }

    /// Sets the value of `key`, replacing any earlier one.
    pub fn insert(&mut self, key: &str, value: &str)
        requires
            old(self).wf(),
        ensures
            final(self).wf(),
            final(self).view() == old(self).view().insert(key@, value@),
    {
        let k = chars_of(key);
        let v = chars_of(value);
        self.insert_chars(k, v);
    }
}

} // verus!
