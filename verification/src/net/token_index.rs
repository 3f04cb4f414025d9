//! An index from token to the addresses to forward to: a hash table whose
//! buckets are searched for the very token.

use std::collections::HashMap;

use vstd::prelude::*;

use crate::net::address::{EndpointAddress, EndpointAddressView};
use crate::net::endpoint::addresses_view;
use crate::text::bytes_eq;

verus! {

broadcast use vstd::std_specs::hash::group_hash_axioms;

/// One step of the hash: the byte is mixed into the hash so far.
pub open spec fn mixed(hash: u64, byte: u8) -> u64 {
    (hash ^ (byte as u64)).wrapping_mul(0x0000_0100_0000_01b3)
}

/// The hash of a token, by which its bucket is found: every byte in turn is
/// mixed into a start value.
pub open spec fn token_hash(token: Seq<u8>) -> u64
    decreases token.len(),
{
    if token.len() == 0 {
        0xcbf2_9ce4_8422_2325
    } else {
        mixed(token_hash(token.drop_last()), token.last())
    }
}

/// The hash of `token`.
pub fn hash_token(token: &[u8]) -> (hash: u64)
    ensures
        hash == token_hash(token@),
{
    let mut hash: u64 = 0xcbf2_9ce4_8422_2325;
    let mut i: usize = 0;
    assert(token@.take(0) =~= Seq::<u8>::empty());
    while i < token.len()
        invariant
            i <= token@.len(),
            hash == token_hash(token@.take(i as int)),
        decreases token@.len() - i,
    {
        assert(token@.take(i + 1).drop_last() =~= token@.take(i as int));
        hash = (hash ^ (token[i] as u64)).wrapping_mul(0x0000_0100_0000_01b3);
        i += 1;
    }
    assert(token@.take(i as int) =~= token@);
    hash
}

/// What a bucket gives for each token: of two entries with the same token the
/// later one counts.
spec fn bucket_map(entries: Seq<(Vec<u8>, Vec<EndpointAddress>)>) -> Map<
    Seq<u8>,
    Seq<EndpointAddressView>,
>
    decreases entries.len(),
{
    if entries.len() == 0 {
        Map::empty()
    } else {
        bucket_map(entries.drop_last()).insert(
            entries.last().0@,
            addresses_view(entries.last().1@),
        )
    }
}

/// A token that no entry holds is not in the bucket.
proof fn lemma_bucket_lacks(entries: Seq<(Vec<u8>, Vec<EndpointAddress>)>, token: Seq<u8>)
    requires
        forall|i: int| 0 <= i < entries.len() ==> entries[i].0@ != token,
    ensures
        !bucket_map(entries).contains_key(token),
    decreases entries.len(),
{
    if entries.len() > 0 {
        lemma_bucket_lacks(entries.drop_last(), token);
    }
}

/// The last entry that holds a token gives the bucket's addresses for it.
proof fn lemma_bucket_holds(
    entries: Seq<(Vec<u8>, Vec<EndpointAddress>)>,
    token: Seq<u8>,
    at: int,
)
    requires
        0 <= at < entries.len(),
        entries[at].0@ == token,
        forall|i: int| at < i < entries.len() ==> entries[i].0@ != token,
    ensures
        bucket_map(entries).contains_key(token),
        bucket_map(entries)[token] == addresses_view(entries[at].1@),
    decreases entries.len(),
{
    if at < entries.len() - 1 {
        lemma_bucket_holds(entries.drop_last(), token, at);
    }
}

/// A new entry in the place of the last entry for its token gives what the
/// bucket gave, but for that token the new addresses.
proof fn lemma_bucket_update(
    entries: Seq<(Vec<u8>, Vec<EndpointAddress>)>,
    at: int,
    entry: (Vec<u8>, Vec<EndpointAddress>),
)
    requires
        0 <= at < entries.len(),
        entries[at].0@ == entry.0@,
        forall|i: int| at < i < entries.len() ==> entries[i].0@ != entry.0@,
    ensures
        bucket_map(entries.update(at, entry)) == bucket_map(entries).insert(
            entry.0@,
            addresses_view(entry.1@),
        ),
    decreases entries.len(),
{
    let updated = entries.update(at, entry);
    if at == entries.len() - 1 {
        assert(updated.drop_last() =~= entries.drop_last());
        assert(bucket_map(updated) =~= bucket_map(entries).insert(
            entry.0@,
            addresses_view(entry.1@),
        ));
    } else {
        lemma_bucket_update(entries.drop_last(), at, entry);
        assert(updated.drop_last() =~= entries.drop_last().update(at, entry));
        assert(updated.last() == entries.last());
        assert(bucket_map(updated) =~= bucket_map(entries).insert(
            entry.0@,
            addresses_view(entry.1@),
        ));
    }
}

/// The place of the last entry for `token`, if there is one.
fn find_entry(entries: &Vec<(Vec<u8>, Vec<EndpointAddress>)>, token: &[u8]) -> (found: Option<
    usize,
>)
    ensures
        match found {
            Some(at) => {
                &&& at < entries@.len()
                &&& entries@[at as int].0@ == token@
                &&& forall|i: int| at < i < entries@.len() ==> entries@[i].0@ != token@
                &&& bucket_map(entries@).contains_key(token@)
                &&& bucket_map(entries@)[token@] == addresses_view(entries@[at as int].1@)
            },
            None => !bucket_map(entries@).contains_key(token@),
        },
{
    let mut i: usize = entries.len();
    while i > 0
        invariant
            i <= entries@.len(),
            forall|j: int| i <= j < entries@.len() ==> entries@[j].0@ != token@,
        decreases i,
    {
        i -= 1;
        if bytes_eq(entries[i].0.as_slice(), token) {
            proof {
                lemma_bucket_holds(entries@, token@, i as int);
            }
            return Some(i);
        }
    }
    proof {
        lemma_bucket_lacks(entries@, token@);
    }
    None
}

/// An index from token to a list of addresses.
#[derive(Debug)]
pub struct TokenIndex {
    buckets: HashMap<u64, Vec<(Vec<u8>, Vec<EndpointAddress>)>>,
}

impl View for TokenIndex {
    type V = Map<Seq<u8>, Seq<EndpointAddressView>>;

    closed spec fn view(&self) -> Map<Seq<u8>, Seq<EndpointAddressView>> {
        Map::new(
            |token: Seq<u8>| self.bucket_of(token).contains_key(token),
            |token: Seq<u8>| self.bucket_of(token)[token],
        )
    }
}

impl TokenIndex {
    /// What the bucket in which `token` belongs gives for each token.
    spec fn bucket_of(&self, token: Seq<u8>) -> Map<Seq<u8>, Seq<EndpointAddressView>> {
        if self.buckets@.contains_key(token_hash(token)) {
            bucket_map(self.buckets@[token_hash(token)]@)
        } else {
            Map::empty()
        }
    }

    /// An index without any entry.
    pub fn new() -> (index: TokenIndex)
        ensures
            index@ == Map::<Seq<u8>, Seq<EndpointAddressView>>::empty(),
    {
        let index = TokenIndex { buckets: HashMap::new() };
        assert(index@ =~= Map::<Seq<u8>, Seq<EndpointAddressView>>::empty());
        index
    }

    /// The addresses that the index holds for `token`, if it holds any
    /// entry for it: the entry is found by the hash of the token and by the
    /// token itself.
    pub fn get(&self, token: &[u8]) -> (found: Option<&Vec<EndpointAddress>>)
        ensures
            match found {
                Some(addresses) => self@.contains_key(token@) && self@[token@] == addresses_view(
                    addresses@,
                ),
                None => !self@.contains_key(token@),
            },
    {
        let hash = hash_token(token);
        match self.buckets.get(&hash) {
            Some(bucket) => match find_entry(bucket, token) {
                Some(at) => Some(&bucket[at].1),
                None => None,
            },
            None => None,
        }
    }

    /// Makes `addresses` the addresses that the index holds for `token`.
    pub fn insert(&mut self, token: Vec<u8>, addresses: Vec<EndpointAddress>)
        ensures
            final(self)@ == old(self)@.insert(token@, addresses_view(addresses@)),
    {
        let hash = hash_token(token.as_slice());
        let ghost key = token@;
        let ghost value = addresses_view(addresses@);
        let mut bucket = match self.buckets.remove(&hash) {
            Some(bucket) => bucket,
            None => Vec::new(),
        };
        let ghost before = bucket@;
        assert(bucket_map(before) == old(self).bucket_of(key));
        match find_entry(&bucket, token.as_slice()) {
            Some(at) => {
                proof {
                    lemma_bucket_update(before, at as int, (token, addresses));
                }
                bucket.set(at, (token, addresses));
            },
            None => {
                bucket.push((token, addresses));
                assert(bucket@.drop_last() =~= before);
            },
        }
        assert(bucket_map(bucket@) == bucket_map(before).insert(key, value));
        self.buckets.insert(hash, bucket);
        assert(self@ =~= old(self)@.insert(key, value)) by {
            assert forall|other: Seq<u8>| #[trigger]
                self.bucket_of(other) == if token_hash(other) == hash {
                    old(self).bucket_of(other).insert(key, value)
                } else {
                    old(self).bucket_of(other)
                } by {
                if token_hash(other) == hash {
                    assert(old(self).bucket_of(other) == old(self).bucket_of(key));
                }
            }
        }
    }
}

} // verus!
