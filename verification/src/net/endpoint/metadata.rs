//! Keys and values of the metadata that filters attach to a packet.

use vstd::prelude::*;

use crate::text::{bytes_eq, str_eq};

verus! {

/// The name under which a metadata value is stored.
#[derive(Debug)]
pub struct Key {
    name: String,
}

impl View for Key {
    type V = Seq<char>;

    closed spec fn view(&self) -> Seq<char> {
        self.name@
    }
}

impl Key {
    /// The key with the given name.
    pub fn new(name: String) -> (key: Key)
        ensures
            key@ == name@,
    {
        Key { name }
    }

    /// The key with the given constant name.
    pub fn from_static(name: &'static str) -> (key: Key)
        ensures
            key@ == name@,
    {
        Key { name: name.to_owned() }
    }

    /// The name of this key.
    pub fn as_str(&self) -> (name: &str)
        ensures
            name@ == self@,
    {
        self.name.as_str()
    }

    /// The name of this key, as an owned string.
    pub fn to_string(&self) -> (name: String)
        ensures
            name@ == self@,
    {
        self.name.clone()
    }
}

impl Clone for Key {
    fn clone(&self) -> (copy: Key)
        ensures
            copy@ == self@,
    {
        Key { name: self.name.clone() }
    }
}

impl PartialEq for Key {
    fn eq(&self, other: &Key) -> (same: bool) {
        str_eq(self.name.as_str(), other.name.as_str())
    }
}

impl Eq for Key {}

impl vstd::std_specs::cmp::PartialEqSpecImpl for Key {
    open spec fn obeys_eq_spec() -> bool {
        true
    }

    open spec fn eq_spec(&self, other: &Key) -> bool {
        self@ == other@
    }
}

impl From<&str> for Key {
    fn from(name: &str) -> (key: Key)
        ensures
            key@ == name@,
    {
        Key { name: name.to_owned() }
    }
}

impl vstd::std_specs::convert::FromSpecImpl<&str> for Key {
    open spec fn obeys_from_spec() -> bool {
        false
    }

    open spec fn from_spec(name: &str) -> Key {
        choose|key: Key| key@ == name@
    }
}

/// A metadata value.
#[derive(Debug)]
pub enum Value {
    Bool(bool),
    Number(u64),
    String(String),
    Bytes(Vec<u8>),
}

/// What a metadata value holds.
pub ghost enum ValueView {
    Bool(bool),
    Number(u64),
    String(Seq<char>),
    Bytes(Seq<u8>),
}

impl View for Value {
    type V = ValueView;

    open spec fn view(&self) -> ValueView {
        match self {
            Value::Bool(b) => ValueView::Bool(*b),
            Value::Number(n) => ValueView::Number(*n),
            Value::String(s) => ValueView::String(s@),
            Value::Bytes(b) => ValueView::Bytes(b@),
        }
    }
}

impl Clone for Value {
    fn clone(&self) -> (copy: Value)
        ensures
            copy@ == self@,
    {
        match self {
            Value::Bool(b) => Value::Bool(*b),
            Value::Number(n) => Value::Number(*n),
            Value::String(s) => Value::String(s.clone()),
            Value::Bytes(b) => Value::Bytes(vstd::slice::slice_to_vec(b.as_slice())),
        }
    }
}

impl PartialEq for Value {
    fn eq(&self, other: &Value) -> (same: bool) {
        match (self, other) {
            (Value::Bool(a), Value::Bool(b)) => *a == *b,
            (Value::Number(a), Value::Number(b)) => *a == *b,
            (Value::String(a), Value::String(b)) => str_eq(a.as_str(), b.as_str()),
            (Value::Bytes(a), Value::Bytes(b)) => bytes_eq(a.as_slice(), b.as_slice()),
            _ => false,
        }
    }
}

impl Eq for Value {}

impl vstd::std_specs::cmp::PartialEqSpecImpl for Value {
    open spec fn obeys_eq_spec() -> bool {
        true
    }

    open spec fn eq_spec(&self, other: &Value) -> bool {
        self@ == other@
    }
}

/// No two entries stand under the same key.
spec fn distinct_keys(entries: Seq<(Key, Value)>) -> bool {
    forall|i: int, j: int| 0 <= i < j < entries.len() ==> entries[i].0@ != entries[j].0@
}

/// The metadata of one packet: at most one value under each key.
#[derive(Debug)]
pub struct DynamicMetadata {
    entries: Vec<(Key, Value)>,
}

impl View for DynamicMetadata {
    type V = Map<Seq<char>, ValueView>;

    closed spec fn view(&self) -> Map<Seq<char>, ValueView> {
        Map::new(
            |name: Seq<char>| self.position(name) is Some,
            |name: Seq<char>| self.entries@[self.position(name).unwrap()].1@,
        )
    }
}

impl DynamicMetadata {
    #[verifier::type_invariant]
    spec fn keys_are_distinct(&self) -> bool {
        distinct_keys(self.entries@)
    }

    /// Where the entry with this name stands, if there is one.
    spec fn position(&self, name: Seq<char>) -> Option<int> {
        if exists|i: int| 0 <= i < self.entries@.len() && self.entries@[i].0@ == name {
            Some(choose|i: int| 0 <= i < self.entries@.len() && self.entries@[i].0@ == name)
        } else {
            None
        }
    }

    /// Metadata without any entry.
    pub fn new() -> (metadata: DynamicMetadata)
        ensures
            metadata@ == Map::<Seq<char>, ValueView>::empty(),
    {
        let metadata = DynamicMetadata { entries: Vec::new() };
        assert(metadata@ =~= Map::<Seq<char>, ValueView>::empty());
        metadata
    }

    /// The value stored under `key`, if there is one.
    pub fn get(&self, key: &Key) -> (found: Option<&Value>)
        ensures
            match found {
                Some(value) => self@.contains_key(key@) && self@[key@] == value@,
                None => !self@.contains_key(key@),
            },
    {
        proof {
            use_type_invariant(self);
        }
        let mut i: usize = 0;
        while i < self.entries.len()
            invariant
                distinct_keys(self.entries@),
                i <= self.entries@.len(),
                forall|j: int| 0 <= j < i ==> self.entries@[j].0@ != key@,
            decreases self.entries@.len() - i,
        {
            if self.entries[i].0.eq(key) {
                return Some(&self.entries[i].1);
            }
            i += 1;
        }
        None
    }

    /// Stores `value` under `key` and returns the value that was stored under
    /// it before, if there was one.
    pub fn insert(&mut self, key: Key, value: Value) -> (previous: Option<Value>)
        ensures
            final(self)@ == old(self)@.insert(key@, value@),
            match previous {
                Some(before) => old(self)@.contains_key(key@) && old(self)@[key@] == before@,
                None => !old(self)@.contains_key(key@),
            },
    {
        proof {
            use_type_invariant(&*self);
        }
        let mut entries: Vec<(Key, Value)> = Vec::new();
        core::mem::swap(&mut self.entries, &mut entries);
        let mut i: usize = 0;
        while i < entries.len()
            invariant
                distinct_keys(entries@),
                entries == old(self).entries,
                i <= entries@.len(),
                forall|j: int| 0 <= j < i ==> entries@[j].0@ != key@,
            decreases entries@.len() - i,
        {
            if entries[i].0.eq(&key) {
                let before = entries[i].1.clone();
                entries.set(i, (key, value));
                self.entries = entries;
                assert(self@ =~= old(self)@.insert(key@, value@)) by {
                    assert forall|name: Seq<char>| #[trigger]
                        self@.contains_key(name) == old(self)@.insert(key@, value@).contains_key(
                            name,
                        ) by {
                        if old(self).position(name) is Some {
                            let at = old(self).position(name).unwrap();
                            assert(self.entries@[at].0@ == name);
                        }
                        if self.position(name) is Some {
                            let at = self.position(name).unwrap();
                            assert(old(self).entries@[at].0@ == name);
                        }
                    }
                }
                return Some(before);
            }
            i += 1;
        }
        entries.push((key, value));
        self.entries = entries;
        assert(self@ =~= old(self)@.insert(key@, value@)) by {
            let last = self.entries@.len() - 1;
            assert(self.entries@[last].0@ == key@);
            assert forall|name: Seq<char>| #[trigger]
                self@.contains_key(name) == old(self)@.insert(key@, value@).contains_key(
                    name,
                ) by {
                if old(self).position(name) is Some {
                    let at = old(self).position(name).unwrap();
                    assert(self.entries@[at].0@ == name);
                }
                if self.position(name) is Some {
                    let at = self.position(name).unwrap();
                    if at != last {
                        assert(old(self).entries@[at].0@ == name);
                    }
                }
            }
        }
        None
    }
}

} // verus!
