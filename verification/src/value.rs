//! The values that a message carries, and the key/value collection of a message.
use vstd::prelude::*;

use crate::text::str_eq;

verus! {

/// Either a vector of bytes or a single integer.
#[derive(Debug)]
pub enum Value {
    Integer(i32),
    Data(Vec<u8>),
}

/// What a `Value` stands for.
pub enum ValueModel {
    Integer(i32),
    Data(Seq<u8>),
}

impl View for Value {
    type V = ValueModel;

    open spec fn view(&self) -> ValueModel {
        match self {
            Value::Integer(i) => ValueModel::Integer(*i),
            Value::Data(d) => ValueModel::Data(d@),
        }
    }
}

impl Value {
    /// The integer held by an `Integer` value.
    pub fn integer(&self) -> (r: &i32)
        requires
            self is Integer,
        ensures
            *r == self->Integer_0,
    {
        match self {
            Value::Integer(i) => i,
            Value::Data(_) => {
                proof {
                    assert(false);
                }
                unreached()
            },
        }
    }

    /// The bytes held by a `Data` value.
    pub fn data(&self) -> (r: &Vec<u8>)
        requires
            self is Data,
        ensures
            r@ == self->Data_0@,
    {
        match self {
            Value::Data(d) => d,
            Value::Integer(_) => {
                proof {
                    assert(false);
                }
                unreached()
            },
        }
    }
}

impl Value {
    /// The UTF-8 bytes of `s`, as a `Data` value.
    pub fn from_text(s: &str) -> (r: Value)
        ensures
            r@ == ValueModel::Data(vstd::utf8::encode_utf8(s@)),
    {
        Value::Data(vstd::slice::slice_to_vec(s.as_bytes()))
    }
}

impl From<i32> for Value {
    fn from(i: i32) -> (r: Value) {
        Value::Integer(i)
    }
}

impl vstd::std_specs::convert::FromSpecImpl<i32> for Value {
    open spec fn obeys_from_spec() -> bool {
        true
    }

    open spec fn from_spec(i: i32) -> Value {
        Value::Integer(i)
    }
}

impl From<Vec<u8>> for Value {
    fn from(v: Vec<u8>) -> (r: Value) {
        Value::Data(v)
    }
}

impl vstd::std_specs::convert::FromSpecImpl<Vec<u8>> for Value {
    open spec fn obeys_from_spec() -> bool {
        true
    }

    open spec fn from_spec(v: Vec<u8>) -> Value {
        Value::Data(v)
    }
}

/// One key and its value, as the model sees them.
pub type EntryModel = (Seq<char>, ValueModel);

/// No key occurs twice.
pub open spec fn distinct_keys(es: Seq<EntryModel>) -> bool {
    forall|i: int, j: int| 0 <= i < es.len() && 0 <= j < es.len() && i != j ==> es[i].0 != es[j].0
}

/// Some entry has key `k`.
pub open spec fn has_key(es: Seq<EntryModel>, k: Seq<char>) -> bool {
    exists|i: int| 0 <= i < es.len() && #[trigger] es[i].0 == k
}

/// The position of the entry with key `k` (meaningful where `has_key`).
pub open spec fn key_index(es: Seq<EntryModel>, k: Seq<char>) -> int {
    choose|i: int| 0 <= i < es.len() && #[trigger] es[i].0 == k
}

/// The value stored under `k`, if any.
pub open spec fn lookup(es: Seq<EntryModel>, k: Seq<char>) -> Option<ValueModel> {
    if has_key(es, k) {
        Some(es[key_index(es, k)].1)
    } else {
        None
    }
}

/// Storing `v` under `k`: an existing entry with that key has its value replaced
/// in place, otherwise the entry is added at the end.
pub open spec fn insert_entry(es: Seq<EntryModel>, k: Seq<char>, v: ValueModel) -> Seq<EntryModel> {
    if has_key(es, k) {
        es.update(key_index(es, k), (k, v))
    } else {
        es.push((k, v))
    }
}

/// Inserting keeps keys distinct.
pub proof fn lemma_insert_distinct(es: Seq<EntryModel>, k: Seq<char>, v: ValueModel)
    requires
        distinct_keys(es),
    ensures
        distinct_keys(insert_entry(es, k, v)),
        has_key(insert_entry(es, k, v), k),
        insert_entry(es, k, v).len() > 0,
{
    let r = insert_entry(es, k, v);
    if has_key(es, k) {
        let p = key_index(es, k);
        assert(r[p].0 == k);
    } else {
        assert(r[es.len() as int].0 == k);
    }
}

/// In a collection with distinct keys, the entry at `i` is the one `lookup` finds.
pub proof fn lemma_lookup_at(es: Seq<EntryModel>, i: int)
    requires
        distinct_keys(es),
        0 <= i < es.len(),
    ensures
        has_key(es, es[i].0),
        key_index(es, es[i].0) == i,
        lookup(es, es[i].0) == Some(es[i].1),
{
    assert(es[i].0 == es[i].0);
}

/// Reading a key after storing a value under it gives that value; every other
/// key keeps what it had; the collection grows by one exactly where the key is new.
pub proof fn law_insert_then_lookup(es: Seq<EntryModel>, k: Seq<char>, v: ValueModel, other: Seq<char>)
    requires
        distinct_keys(es),
    ensures
        lookup(insert_entry(es, k, v), k) == Some(v),
        other != k ==> lookup(insert_entry(es, k, v), other) == lookup(es, other),
        insert_entry(es, k, v).len() == es.len() + if has_key(es, k) {
            0int
        } else {
            1int
        },
{
    let r = insert_entry(es, k, v);
    lemma_insert_distinct(es, k, v);
    let p = if has_key(es, k) {
        key_index(es, k)
    } else {
        es.len() as int
    };
    assert(r[p] == (k, v));
    lemma_lookup_at(r, p);
    if other != k {
        if has_key(es, other) {
            let q = key_index(es, other);
            assert(r[q] == es[q]);
            lemma_lookup_at(r, q);
        } else {
            if has_key(r, other) {
                let q = key_index(r, other);
                if q != p {
                    assert(r[q] == es[q]);
                }
            }
        }
    }
}

/// The data of a message: keys with their values, each key at most once,
/// kept in the order in which the keys were first inserted.
#[derive(Debug)]
pub struct MessageData {
    entries: Vec<(String, Value)>,
}

impl View for MessageData {
    type V = Seq<EntryModel>;

    closed spec fn view(&self) -> Seq<EntryModel> {
        self.entries@.map_values(|e: (String, Value)| (e.0@, e.1@))
    }
}

impl MessageData {
    #[verifier::type_invariant]
    closed spec fn keys_distinct(&self) -> bool {
        distinct_keys(self@)
    }

    /// An empty collection.
    pub fn new() -> (r: MessageData)
        ensures
            r@ == Seq::<EntryModel>::empty(),
    {
        let r = MessageData { entries: Vec::new() };
        assert(r@ =~= Seq::<EntryModel>::empty());
        r
    }

    /// The number of entries.
    pub fn len(&self) -> (r: usize)
        ensures
            r == self@.len(),
            distinct_keys(self@),
    {
        proof {
            use_type_invariant(self);
        }
        self.entries.len()
    }

    /// Whether there are no entries.
    pub fn is_empty(&self) -> (r: bool)
        ensures
            r == (self@.len() == 0),
    {
        self.entries.len() == 0
    }

    /// The entry at position `i`, in insertion order.
    pub fn entry(&self, i: usize) -> (r: (&String, &Value))
        requires
            i < self@.len(),
        ensures
            (r.0@, r.1@) == self@[i as int],
            distinct_keys(self@),
    {
        proof {
            use_type_invariant(self);
        }
        let e = &self.entries[i];
        (&e.0, &e.1)
    }

    /// The position of the entry with key `key`, if there is one.
    fn position(&self, key: &str) -> (r: Option<usize>)
        ensures
            r is None <==> !has_key(self@, key@),
            r matches Some(i) ==> i < self@.len() && self@[i as int].0 == key@ && key_index(self@, key@)
                == i,
    {
        proof {
            use_type_invariant(self);
        }
        let n = self.entries.len();
        for i in 0..n
            invariant
                n == self@.len(),
                n == self.entries@.len(),
                distinct_keys(self@),
                forall|j: int| 0 <= j < i ==> self@[j].0 != key@,
        {
            if str_eq(self.entries[i].0.as_str(), key) {
                proof {
                    assert(self@[i as int].0 == key@);
                    lemma_lookup_at(self@, i as int);
                }
                return Some(i);
            }
        }
        None
    }

    /// Whether some entry has key `key`.
    pub fn contains_key(&self, key: &str) -> (r: bool)
        ensures
            r == has_key(self@, key@),
    {
        self.position(key).is_some()
    }

    /// The value stored under `key`, if any.
    pub fn get(&self, key: &str) -> (r: Option<&Value>)
        ensures
            r is None <==> !has_key(self@, key@),
            r matches Some(v) ==> lookup(self@, key@) == Some(v@),
    {
        match self.position(key) {
            Some(i) => Some(&self.entries[i].1),
            None => None,
        }
    }

    /// Stores `value` under `key`; returns the value that was stored there before, if any.
    pub fn insert(&mut self, key: String, value: Value) -> (r: Option<Value>)
        ensures
            final(self)@ == insert_entry(old(self)@, key@, value@),
            r is None <==> !has_key(old(self)@, key@),
            r matches Some(v) ==> lookup(old(self)@, key@) == Some(v@),
    {
        proof {
            use_type_invariant(&*self);
        }
        let ghost old_view = self@;
        let pos = self.position(key.as_str());
        let mut es: Vec<(String, Value)> = Vec::new();
        std::mem::swap(&mut es, &mut self.entries);
        let ghost k = key@;
        let ghost v = value@;
        let r = match pos {
            Some(i) => {
                let old_entry = es.remove(i);
                es.insert(i, (key, value));
                Some(old_entry.1)
            },
            None => {
                es.push((key, value));
                None
            },
        };
        proof {
            let nv = es@.map_values(|e: (String, Value)| (e.0@, e.1@));
            assert(nv =~= insert_entry(old_view, k, v));
            lemma_insert_distinct(old_view, k, v);
        }
        self.entries = es;
        r
    }
}

} // verus!
