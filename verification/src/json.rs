//! A model of JSON documents that keeps what request signing reads.

use vstd::prelude::*;

use crate::text::str_eq;

verus! {

/// A JSON value.
#[derive(Debug)]
pub enum JsonValue {
    Null,
    Bool(bool),
    /// A number, held as the text that the JSON serializer writes for it.
    Number(String),
    String(String),
    Array(Vec<JsonValue>),
    Object(JsonObject),
}

/// A JSON object: entries in insertion order, no key twice.
#[derive(Debug)]
pub struct JsonObject {
    entries: Vec<(String, JsonValue)>,
}

/// No key occurs twice among `entries`.
pub open spec fn keys_distinct(entries: Seq<(Seq<char>, JsonValue)>) -> bool {
    forall|i: int, j: int|
        0 <= i < entries.len() && 0 <= j < entries.len() && i != j ==> entries[i].0 != entries[j].0
}

/// The map from keys to values that `entries` describe.
pub open spec fn entries_map(entries: Seq<(Seq<char>, JsonValue)>) -> Map<Seq<char>, JsonValue>
    decreases entries.len(),
{
    if entries.len() == 0 {
        Map::empty()
    } else {
        entries_map(entries.drop_last()).insert(entries.last().0, entries.last().1)
    }
}

impl View for JsonObject {
    type V = Seq<(Seq<char>, JsonValue)>;

    closed spec fn view(&self) -> Seq<(Seq<char>, JsonValue)> {
        self.entries@.map_values(|e: (String, JsonValue)| (e.0@, e.1))
    }
}

impl JsonObject {
    #[verifier::type_invariant]
    spec fn inv(self) -> bool {
        keys_distinct(self@)
    }

    /// The object as a map from keys to values.
    pub open spec fn as_map(self) -> Map<Seq<char>, JsonValue> {
        entries_map(self@)
    }

    /// An empty object.
    pub fn new() -> (obj: JsonObject)
        ensures
            obj@ == Seq::<(Seq<char>, JsonValue)>::empty(),
    {
        let obj = JsonObject { entries: Vec::new() };
        assert(obj@ =~= Seq::<(Seq<char>, JsonValue)>::empty());
        obj
    }

    /// The number of entries; no key occurs twice.
    pub fn len(&self) -> (n: usize)
        ensures
            n == self@.len(),
            keys_distinct(self@),
    {
        proof {
            use_type_invariant(self);
        }
        self.entries.len()
    }

    /// The entry at position `i`, in insertion order.
    pub fn entry(&self, i: usize) -> (e: (&String, &JsonValue))
        requires
            i < self@.len(),
        ensures
            e.0@ == self@[i as int].0,
            *e.1 == self@[i as int].1,
    {
        let e = &self.entries[i];
        (&e.0, &e.1)
    }

    /// Sets the value of `key`, returning the value it replaced. A new key goes
    /// last; an existing key keeps its place.
    pub fn insert(&mut self, key: String, value: JsonValue) -> (old_value: Option<JsonValue>)
        ensures
            final(self).as_map() == old(self).as_map().insert(key@, value),
            old(self).as_map().contains_key(key@) ==> old_value == Some(old(self).as_map()[key@]),
            !old(self).as_map().contains_key(key@) ==> old_value is None,
            (exists|i: int|
                0 <= i < old(self)@.len() && old(self)@[i].0 == key@ && final(self)@ == old(
                    self,
                )@.update(i, (key@, value))) || (!old(self).as_map().contains_key(key@)
                && final(self)@ == old(self)@.push((key@, value))),
    {
        proof {
            use_type_invariant(&*self);
            lemma_entries_map_dom(self@);
        }
        let ghost before = self@;
        let n = self.entries.len();
        let mut i: usize = 0;
        while i < n
            invariant
                i <= n,
                n == self.entries@.len(),
                self@ == before,
                before == old(self)@,
                keys_distinct(before),
                forall|j: int| 0 <= j < i ==> before[j].0 != key@,
            decreases n - i,
        {
            if str_eq(self.entries[i].0.as_str(), key.as_str()) {
                proof {
                    lemma_entries_map_value(before, i as int);
                    lemma_entries_map_update(before, i as int, value);
                }
                let mut entries = Vec::new();
                std::mem::swap(&mut entries, &mut self.entries);
                let old_entry = entries.remove(i);
                entries.insert(i, (key, value));
                proof {
                    let after = entries@.map_values(|e: (String, JsonValue)| (e.0@, e.1));
                    assert(after =~= before.update(i as int, (key@, value)));
                    assert(keys_distinct(after));
                }
                self.entries = entries;
                assert(self@ =~= before.update(i as int, (key@, value)));
                return Some(old_entry.1);
            }
            i += 1;
        }
        let mut entries = Vec::new();
        std::mem::swap(&mut entries, &mut self.entries);
        entries.push((key, value));
        proof {
            let after = entries@.map_values(|e: (String, JsonValue)| (e.0@, e.1));
            assert(after =~= before.push((key@, value)));
            assert(keys_distinct(after));
        }
        self.entries = entries;
        assert(self@ =~= before.push((key@, value)));
        assert(self@.drop_last() =~= before);
        None
    }
}

/// The keys of `entries_map(s)` are exactly the keys that `s` lists.
pub proof fn lemma_entries_map_dom(s: Seq<(Seq<char>, JsonValue)>)
    ensures
        entries_map(s).dom().finite(),
        forall|k: Seq<char>|
            #![trigger entries_map(s).dom().contains(k)]
            entries_map(s).dom().contains(k) <==> exists|i: int| 0 <= i < s.len() && s[i].0 == k,
    decreases s.len(),
{
    if s.len() > 0 {
        let p = s.drop_last();
        lemma_entries_map_dom(p);
        assert forall|k: Seq<char>| entries_map(s).dom().contains(k) <==> exists|i: int|
            0 <= i < s.len() && s[i].0 == k by {
            if entries_map(s).dom().contains(k) && k != s.last().0 {
                let i = choose|i: int| 0 <= i < p.len() && p[i].0 == k;
                assert(s[i] == p[i]);
            }
            if exists|i: int| 0 <= i < s.len() && s[i].0 == k {
                let i = choose|i: int| 0 <= i < s.len() && s[i].0 == k;
                if i < s.len() - 1 {
                    assert(p[i] == s[i]);
                }
            }
        }
    }
}

/// With distinct keys, each listed key maps to its listed value.
pub proof fn lemma_entries_map_value(s: Seq<(Seq<char>, JsonValue)>, i: int)
    requires
        keys_distinct(s),
        0 <= i < s.len(),
    ensures
        entries_map(s).contains_key(s[i].0),
        entries_map(s)[s[i].0] == s[i].1,
    decreases s.len(),
{
    if i < s.len() - 1 {
        let p = s.drop_last();
        assert(keys_distinct(p));
        assert(p[i] == s[i]);
        lemma_entries_map_value(p, i);
    }
}

/// Replacing the value of a listed key updates the map at that key.
pub proof fn lemma_entries_map_update(s: Seq<(Seq<char>, JsonValue)>, i: int, v: JsonValue)
    requires
        keys_distinct(s),
        0 <= i < s.len(),
    ensures
        entries_map(s.update(i, (s[i].0, v))) == entries_map(s).insert(s[i].0, v),
    decreases s.len(),
{
    let k = s[i].0;
    let t = s.update(i, (k, v));
    let p = s.drop_last();
    if i == s.len() - 1 {
        assert(t.drop_last() =~= p);
        assert(entries_map(t) =~= entries_map(s).insert(k, v));
    } else {
        assert(keys_distinct(p));
        assert(p[i] == s[i]);
        lemma_entries_map_update(p, i, v);
        assert(t.drop_last() =~= p.update(i, (k, v)));
        assert(t.last() == s.last());
        assert(s.last().0 != k);
        assert(entries_map(t) =~= entries_map(s).insert(k, v));
    }
}


/// Two entry lists with the same entries, in whatever order, describe the
/// same map.
pub proof fn lemma_entry_order_irrelevant(s1: Seq<(Seq<char>, JsonValue)>, s2: Seq<(Seq<char>, JsonValue)>)
    requires
        keys_distinct(s1),
        keys_distinct(s2),
        forall|e: (Seq<char>, JsonValue)| s1.contains(e) <==> s2.contains(e),
    ensures
        entries_map(s1) == entries_map(s2),
{
    lemma_entries_map_dom(s1);
    lemma_entries_map_dom(s2);
    let m1 = entries_map(s1);
    let m2 = entries_map(s2);
    assert forall|k: Seq<char>| m1.dom().contains(k) <==> m2.dom().contains(k) by {
        if m1.dom().contains(k) {
            let i = choose|i: int| 0 <= i < s1.len() && s1[i].0 == k;
            assert(s1.contains(s1[i]));
            let j = choose|j: int| 0 <= j < s2.len() && s2[j] == s1[i];
            assert(s2[j].0 == k);
        }
        if m2.dom().contains(k) {
            let j = choose|j: int| 0 <= j < s2.len() && s2[j].0 == k;
            assert(s2.contains(s2[j]));
            let i = choose|i: int| 0 <= i < s1.len() && s1[i] == s2[j];
            assert(s1[i].0 == k);
        }
    }
    assert forall|k: Seq<char>| m1.dom().contains(k) implies m1[k] == m2[k] by {
        let i = choose|i: int| 0 <= i < s1.len() && s1[i].0 == k;
        assert(s1.contains(s1[i]));
        let j = choose|j: int| 0 <= j < s2.len() && s2[j] == s1[i];
        lemma_entries_map_value(s1, i);
        lemma_entries_map_value(s2, j);
    }
    assert(m1.dom() =~= m2.dom());
    assert(m1 =~= m2);
}

} // verus!
