//! Keys with their values, as a code block or a transclusion carries them.

use crate::text::{borrow_text, clone_text, own_text, text_eq, text_str};
use std::borrow::Cow;
use vstd::prelude::*;

verus! {

/// A key and its value.
#[derive(Debug, PartialEq, Eq)]
pub struct Property<'a> {
    pub key: Cow<'a, str>,
    pub value: Cow<'a, str>,
}

impl<'a> Property<'a> {
    pub fn new(key: Cow<'a, str>, value: Cow<'a, str>) -> (r: Property<'a>)
        ensures
            r.key == key,
            r.value == value,
    {
        Property { key, value }
    }
}

/// The keys and values of a list of properties, as pairs of texts.
pub open spec fn properties_view<'a>(v: Seq<Property<'a>>) -> Seq<(Seq<char>, Seq<char>)> {
    v.map_values(|p: Property<'a>| (p.key@, p.value@))
}

/// The mapping that a list of pairs stands for: each key goes to the value
/// of its last occurrence.
pub open spec fn properties_map(v: Seq<(Seq<char>, Seq<char>)>) -> Map<Seq<char>, Seq<char>>
    decreases v.len(),
{
    if v.len() == 0 {
        Map::empty()
    } else {
        properties_map(v.drop_last()).insert(v.last().0, v.last().1)
    }
}

/// No key occurs twice.
pub open spec fn keys_unique(v: Seq<(Seq<char>, Seq<char>)>) -> bool {
    forall|i: int, j: int| 0 <= i < j < v.len() ==> (#[trigger] v[i]).0 != (#[trigger] v[j]).0
}

/// The keys of the mapping are the keys of the list.
pub proof fn lemma_properties_keys(v: Seq<(Seq<char>, Seq<char>)>, key: Seq<char>)
    ensures
        properties_map(v).contains_key(key) <==> exists|i: int|
            0 <= i < v.len() && (#[trigger] v[i]).0 == key,
    decreases v.len(),
{
    if v.len() > 0 {
        let w = v.drop_last();
        lemma_properties_keys(w, key);
        if properties_map(v).contains_key(key) {
            if v.last().0 == key {
                assert(v[v.len() - 1].0 == key);
            } else {
                let i = choose|i: int| 0 <= i < w.len() && (#[trigger] w[i]).0 == key;
                assert(v[i].0 == key);
            }
        }
        if exists|i: int| 0 <= i < v.len() && (#[trigger] v[i]).0 == key {
            let i = choose|i: int| 0 <= i < v.len() && (#[trigger] v[i]).0 == key;
            if i < w.len() {
                assert(w[i].0 == key);
            }
        }
    }
}

/// In a list without repeated keys, the mapping takes each key to the value
/// listed with it.
pub proof fn lemma_properties_value(v: Seq<(Seq<char>, Seq<char>)>, k: int)
    requires
        keys_unique(v),
        0 <= k < v.len(),
    ensures
        properties_map(v).contains_key(v[k].0),
        properties_map(v)[v[k].0] == v[k].1,
    decreases v.len(),
{
    let w = v.drop_last();
    if k < v.len() - 1 {
        assert forall|a: int, b: int| 0 <= a < b < w.len() implies (#[trigger] w[a]).0 != (
        #[trigger] w[b]).0 by {
            assert(v[a].0 != v[b].0);
        }
        lemma_properties_value(w, k);
        assert(v[k].0 != v[v.len() - 1].0);
    }
}

/// In a list without repeated keys, replacing the value of one entry changes
/// the mapping at its key alone.
pub proof fn lemma_properties_update(v: Seq<(Seq<char>, Seq<char>)>, k: int, value: Seq<char>)
    requires
        keys_unique(v),
        0 <= k < v.len(),
    ensures
        keys_unique(v.update(k, (v[k].0, value))),
        properties_map(v.update(k, (v[k].0, value))) == properties_map(v).insert(v[k].0, value),
    decreases v.len(),
{
    let w = v.update(k, (v[k].0, value));
    assert forall|a: int, b: int| 0 <= a < b < w.len() implies (#[trigger] w[a]).0 != (
    #[trigger] w[b]).0 by {
        assert(v[a].0 != v[b].0);
    }
    if k == v.len() - 1 {
        assert(w.drop_last() =~= v.drop_last());
        assert(properties_map(w) =~= properties_map(v).insert(v[k].0, value));
    } else {
        assert(w.drop_last() =~= v.drop_last().update(k, (v[k].0, value)));
        assert(keys_unique(v.drop_last())) by {
            assert forall|a: int, b: int| 0 <= a < b < v.drop_last().len() implies (
            #[trigger] v.drop_last()[a]).0 != (#[trigger] v.drop_last()[b]).0 by {
                assert(v[a].0 != v[b].0);
            }
        }
        lemma_properties_update(v.drop_last(), k, value);
        assert(v[k].0 != v.last().0);
        assert(w.last() == v.last());
        assert(properties_map(w) =~= properties_map(v).insert(v[k].0, value));
    }
}

/// Each of `entries` is one of `pairs`.
pub open spec fn drawn_from(
    entries: Seq<(Seq<char>, Seq<char>)>,
    pairs: Seq<(Seq<char>, Seq<char>)>,
) -> bool {
    forall|i: int| 0 <= i < entries.len() ==> pairs.contains(#[trigger] entries[i])
}

/// A mapping from keys to values, both text. It keeps its entries in the
/// order in which their keys first came, and no key twice. Two mappings are
/// equal under `==` when they take the same keys to the same values, in
/// whatever order.
#[derive(Debug, Eq)]
pub struct Metadata<'a> {
    entries: Vec<Property<'a>>,
}

impl<'a> View for Metadata<'a> {
    type V = Map<Seq<char>, Seq<char>>;

    closed spec fn view(&self) -> Map<Seq<char>, Seq<char>> {
        properties_map(properties_view(self.entries@))
    }
}

impl<'a> Metadata<'a> {
    #[verifier::type_invariant]
    closed spec fn inv(&self) -> bool {
        keys_unique(properties_view(self.entries@))
    }

    /// The entries in the order in which their keys first came.
    pub closed spec fn spec_entries(&self) -> Seq<(Seq<char>, Seq<char>)> {
        properties_view(self.entries@)
    }

    /// Whether every key and every value is held as borrowed text.
    pub closed spec fn text_borrowed(&self) -> bool {
        forall|i: int|
            0 <= i < self.entries@.len() ==> (#[trigger] self.entries@[i]).key is Borrowed
                && self.entries@[i].value is Borrowed
    }

    /// Whether every key and every value is held as owned text.
    pub closed spec fn text_owned(&self) -> bool {
        forall|i: int|
            0 <= i < self.entries@.len() ==> (#[trigger] self.entries@[i]).key is Owned
                && self.entries@[i].value is Owned
    }

    /// The mapping is that of its entries, and no key has two entries.
    pub proof fn lemma_entries(&self)
        ensures
            self@ == properties_map(self.spec_entries()),
    {
    }

    /// The mapping with no key.
    pub fn new() -> (r: Metadata<'a>)
        ensures
            r@ == Map::<Seq<char>, Seq<char>>::empty(),
            r.spec_entries().len() == 0,
            r.text_borrowed(),
            r.text_owned(),
    {
        let entries: Vec<Property<'a>> = Vec::new();
        assert(properties_view(entries@) =~= Seq::empty());
        Metadata { entries }
    }

    /// Number of keys.
    pub fn len(&self) -> (r: usize)
        ensures
            r == self.spec_entries().len(),
    {
        self.entries.len()
    }

    pub fn is_empty(&self) -> (r: bool)
        ensures
            r == (self.spec_entries().len() == 0),
            r == (self@ == Map::<Seq<char>, Seq<char>>::empty()),
    {
        proof {
            use_type_invariant(self);
            let v = properties_view(self.entries@);
            if v.len() > 0 {
                lemma_properties_value(v, 0);
                assert(!Map::<Seq<char>, Seq<char>>::empty().contains_key(v[0].0));
            }
        }
        self.entries.len() == 0
    }

    /// The key and the value of the `i`-th entry.
    pub fn entry(&self, i: usize) -> (r: (&str, &str))
        requires
            i < self.spec_entries().len(),
        ensures
            r.0@ == self.spec_entries()[i as int].0,
            r.1@ == self.spec_entries()[i as int].1,
            self@.contains_key(r.0@),
            self@[r.0@] == r.1@,
    {
        proof {
            use_type_invariant(self);
            lemma_properties_value(properties_view(self.entries@), i as int);
        }
        (text_str(&self.entries[i].key), text_str(&self.entries[i].value))
    }

    /// The `i`-th entry as it is held: its key and value are borrowed where
    /// the mapping holds borrowed text, and owned where it holds owned text.
    pub fn property(&self, i: usize) -> (r: &Property<'a>)
        requires
            i < self.spec_entries().len(),
        ensures
            r.key@ == self.spec_entries()[i as int].0,
            r.value@ == self.spec_entries()[i as int].1,
            self.text_borrowed() ==> r.key is Borrowed && r.value is Borrowed,
            self.text_owned() ==> r.key is Owned && r.value is Owned,
    {
        &self.entries[i]
    }

    /// The value under `key`, if there is one.
    pub fn get(&self, key: &str) -> (r: Option<&Cow<'a, str>>)
        ensures
            match r {
                Some(v) => {
                    &&& self@.contains_key(key@)
                    &&& self@[key@] == v@
                    &&& self.text_borrowed() ==> *v is Borrowed
                    &&& self.text_owned() ==> *v is Owned
                },
                None => !self@.contains_key(key@),
            },
    {
        proof {
            use_type_invariant(self);
        }
        let ghost v = properties_view(self.entries@);
        let mut i: usize = 0;
        while i < self.entries.len()
            invariant
                i <= self.entries@.len(),
                v == properties_view(self.entries@),
                keys_unique(v),
                forall|k: int| 0 <= k < i ==> (#[trigger] v[k]).0 != key@,
            decreases self.entries@.len() - i,
        {
            if text_eq(text_str(&self.entries[i].key), key) {
                proof {
                    lemma_properties_value(v, i as int);
                }
                return Some(&self.entries[i].value);
            }
            i += 1;
        }
        proof {
            lemma_properties_keys(v, key@);
        }
        None
    }

    /// Puts `value` under `key`, in place of what was there.
    pub fn insert(&mut self, key: Cow<'a, str>, value: Cow<'a, str>)
        ensures
            final(self)@ == old(self)@.insert(key@, value@),
            drawn_from(final(self).spec_entries(), old(self).spec_entries().push((key@, value@))),
            old(self).text_borrowed() && key is Borrowed && value is Borrowed
                ==> final(self).text_borrowed(),
            old(self).text_owned() && key is Owned && value is Owned ==> final(self).text_owned(),
    {
        proof {
            use_type_invariant(&*self);
        }
        let mut taken = Metadata::new();
        std::mem::swap(self, &mut taken);
        let mut entries = taken.entries;
        let ghost before = properties_view(entries@);
        let mut i: usize = 0;
        let n = entries.len();
        let mut found = false;
        while i < n && !found
            invariant
                n == entries@.len(),
                i <= n,
                entries@ == old(self).entries@,
                before == properties_view(entries@),
                keys_unique(before),
                !found ==> forall|k: int| 0 <= k < i ==> (#[trigger] entries@[k]).key@ != key@,
                found ==> i < n && entries@[i as int].key@ == key@,
            decreases n - i + (if found { 0int } else { 1int }),
        {
            if text_eq(text_str(&entries[i].key), text_str(&key)) {
                found = true;
            } else {
                i += 1;
            }
        }
        if found {
            entries[i] = Property { key, value };
            proof {
                let after = properties_view(entries@);
                assert(after =~= before.update(i as int, (key@, value@)));
                lemma_properties_update(before, i as int, value@);
                let given = before.push((key@, value@));
                assert forall|k: int| 0 <= k < after.len() implies given.contains(
                    #[trigger] after[k],
                ) by {
                    if k == i {
                        assert(given[before.len() as int] == after[k]);
                    } else {
                        assert(given[k] == after[k]);
                    }
                }
            }
        } else {
            entries.push(Property { key, value });
            proof {
                let after = properties_view(entries@);
                assert(after =~= before.push((key@, value@)));
                assert(after.drop_last() =~= before);
                assert forall|a: int, b: int| 0 <= a < b < after.len() implies (
                #[trigger] after[a]).0 != (#[trigger] after[b]).0 by {
                    if b < before.len() {
                        assert(before[a].0 != before[b].0);
                    } else {
                        assert(old(self).entries@[a].key@ != key@);
                    }
                }
                assert forall|k: int| 0 <= k < after.len() implies after.contains(
                    #[trigger] after[k],
                ) by {}
            }
        }
        *self = Metadata { entries };
    }

    /// The mapping that holds each pair of `pairs`; of two pairs with one
    /// key, the later one.
    pub fn from_pairs(pairs: Vec<Property<'a>>) -> (r: Metadata<'a>)
        ensures
            r@ == properties_map(properties_view(pairs@)),
            drawn_from(r.spec_entries(), properties_view(pairs@)),
    {
        let mut out = Metadata::new();
        let mut pairs = pairs;
        let ghost all = properties_view(pairs@);
        let mut rev: Vec<Property<'a>> = Vec::new();
        while pairs.len() > 0
            invariant
                properties_view(pairs@) == all.take(pairs@.len() as int),
                rev@.len() + pairs@.len() == all.len(),
                forall|k: int|
                    0 <= k < rev@.len() ==> (#[trigger] rev@[k]).key@ == all[all.len() - 1 - k].0
                        && rev@[k].value@ == all[all.len() - 1 - k].1,
            decreases pairs@.len(),
        {
            let ghost before = pairs@;
            let p = pairs.pop().unwrap();
            proof {
                assert(properties_view(before)[pairs@.len() as int] == (p.key@, p.value@));
                assert(properties_view(pairs@) =~= all.take(pairs@.len() as int));
            }
            rev.push(p);
        }
        proof {
            assert(all.take(0) =~= Seq::empty());
        }
        while rev.len() > 0
            invariant
                rev@.len() <= all.len(),
                out@ == properties_map(all.take(all.len() - rev@.len())),
                drawn_from(out.spec_entries(), all),
                forall|k: int|
                    0 <= k < rev@.len() ==> (#[trigger] rev@[k]).key@ == all[all.len() - 1 - k].0
                        && rev@[k].value@ == all[all.len() - 1 - k].1,
            decreases rev@.len(),
        {
            let ghost m = all.len() - rev@.len();
            let p = rev.pop().unwrap();
            proof {
                let t = all.take(m + 1);
                assert(t.drop_last() =~= all.take(m));
                assert(t.last() == all[m]);
            }
            let ghost had = out.spec_entries();
            out.insert(p.key, p.value);
            proof {
                let now = out.spec_entries();
                assert forall|k: int| 0 <= k < now.len() implies all.contains(#[trigger] now[k]) by {
                    let given = had.push(all[m]);
                    assert(given.contains(now[k]));
                    let j = choose|j: int| 0 <= j < given.len() && given[j] == now[k];
                    if j < had.len() {
                        assert(all.contains(had[j]));
                    }
                }
            }
        }
        proof {
            assert(all.take(all.len() as int) =~= all);
        }
        out
    }

    /// The same mapping with every key and value borrowed from this one.
    pub fn to_borrowed<'b>(&'b self) -> (r: Metadata<'b>)
        ensures
            r@ == self@,
            r.spec_entries() == self.spec_entries(),
            r.text_borrowed(),
    {
        proof {
            use_type_invariant(self);
        }
        let mut out: Vec<Property<'b>> = Vec::new();
        let mut i: usize = 0;
        while i < self.entries.len()
            invariant
                i <= self.entries@.len(),
                out@.len() == i,
                forall|k: int|
                    0 <= k < i ==> (#[trigger] out@[k]).key@ == self.entries@[k].key@
                        && out@[k].value@ == self.entries@[k].value@,
                forall|k: int|
                    0 <= k < i ==> (#[trigger] out@[k]).key is Borrowed && out@[k].value is Borrowed,
            decreases self.entries@.len() - i,
        {
            out.push(
                Property {
                    key: borrow_text(&self.entries[i].key),
                    value: borrow_text(&self.entries[i].value),
                },
            );
            i += 1;
        }
        assert(properties_view(out@) =~= properties_view(self.entries@));
        Metadata { entries: out }
    }

    /// A copy of the mapping that owns every key and value.
    pub fn owned_copy(&self) -> (r: Metadata<'static>)
        ensures
            r@ == self@,
            r.spec_entries() == self.spec_entries(),
            r.text_owned(),
    {
        proof {
            use_type_invariant(self);
        }
        let mut out: Vec<Property<'static>> = Vec::new();
        let mut i: usize = 0;
        while i < self.entries.len()
            invariant
                i <= self.entries@.len(),
                out@.len() == i,
                forall|k: int|
                    0 <= k < i ==> (#[trigger] out@[k]).key@ == self.entries@[k].key@
                        && out@[k].value@ == self.entries@[k].value@,
                forall|k: int|
                    0 <= k < i ==> (#[trigger] out@[k]).key is Owned && out@[k].value is Owned,
            decreases self.entries@.len() - i,
        {
            out.push(
                Property {
                    key: own_text(clone_text(&self.entries[i].key)),
                    value: own_text(clone_text(&self.entries[i].value)),
                },
            );
            i += 1;
        }
        assert(properties_view(out@) =~= properties_view(self.entries@));
        Metadata { entries: out }
    }

    /// The same mapping, owning every key and value.
    pub fn into_owned(self) -> (r: Metadata<'static>)
        ensures
            r@ == self@,
            r.spec_entries() == self.spec_entries(),
            r.text_owned(),
    {
        self.owned_copy()
    }

    /// Whether `other` takes every key of this mapping to the value that
    /// this mapping takes it to.
    pub fn is_within(&self, other: &Metadata<'_>) -> (r: bool)
        ensures
            r == self@.submap_of(other@),
    {
        proof {
            use_type_invariant(self);
        }
        let ghost v = properties_view(self.entries@);
        let mut i: usize = 0;
        while i < self.entries.len()
            invariant
                i <= self.entries@.len(),
                v == properties_view(self.entries@),
                keys_unique(v),
                forall|k: int|
                    0 <= k < i ==> other@.contains_key((#[trigger] v[k]).0) && other@[v[k].0]
                        == v[k].1,
            decreases self.entries@.len() - i,
        {
            proof {
                lemma_properties_value(v, i as int);
            }
            match other.get(text_str(&self.entries[i].key)) {
                Some(x) => {
                    if !text_eq(text_str(x), text_str(&self.entries[i].value)) {
                        return false;
                    }
                },
                None => {
                    return false;
                },
            }
            i += 1;
        }
        proof {
            assert forall|key: Seq<char>| #[trigger] self@.dom().contains(key) implies #[trigger] other@.dom().contains(key) && self@[key] == other@[key] by {
                lemma_properties_keys(v, key);
                let k = choose|k: int| 0 <= k < v.len() && (#[trigger] v[k]).0 == key;
                lemma_properties_value(v, k);
            }
        }
        true
    }

    /// Whether the two mappings take the same keys to the same values.
    pub fn same_as(&self, other: &Metadata<'_>) -> (r: bool)
        ensures
            r == (self@ == other@),
    {
        let a = self.is_within(other);
        let b = other.is_within(self);
        proof {
            if !(a && b) && self@ == other@ {
                assert(self@.submap_of(self@));
            }
            if a && b {
                let m1 = self@;
                let m2 = other@;
                assert(m1.submap_of(m2));
                assert(m2.submap_of(m1));
                assert forall|k: Seq<char>| m1.dom().contains(k) == m2.dom().contains(k) by {
                    if m1.dom().contains(k) {
                        assert(m2.dom().contains(k));
                    }
                    if m2.dom().contains(k) {
                        assert(m1.dom().contains(k));
                    }
                }
                assert(m1.dom() =~= m2.dom());
                assert(m1 =~= m2);
            }
        }
        a && b
    }
}

impl<'a> Clone for Metadata<'a> {
    fn clone(&self) -> (r: Self)
        ensures
            r@ == self@,
    {
        self.owned_copy()
    }
}

impl<'a> PartialEq for Metadata<'a> {
    fn eq(&self, other: &Self) -> (r: bool)
    {
        self.same_as(other)
    }
}

impl<'a> vstd::std_specs::cmp::PartialEqSpecImpl for Metadata<'a> {
    open spec fn obeys_eq_spec() -> bool {
        true
    }

    open spec fn eq_spec(&self, other: &Self) -> bool {
        self@ == other@
    }
}

} // verus!
