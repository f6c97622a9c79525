//! A set of names, found again by their hash.

use crate::paths::is_same_bytes;
use std::collections::HashMap;
use vstd::prelude::*;

verus! {

/// The modulus of the hash: the prime 2 to the power of 61, less one.
pub const HASH_MODULUS: u64 = 0x1fff_ffff_ffff_ffff;

/// The factor by which the hash moves on for each byte.
pub const HASH_FACTOR: u64 = 257;

/// The hash of a name: its bytes as the digits of a number, modulo a prime.
pub open spec fn hash_of(name: Seq<u8>) -> u64
    decreases name.len(),
{
    if name.len() == 0 {
        0
    } else {
        ((hash_of(name.drop_last()) as int * HASH_FACTOR + name.last() + 1) % (
        HASH_MODULUS as int)) as u64
    }
}

/// The hash of a name, see [`hash_of`].
pub fn hash(name: &[u8]) -> (h: u64)
    ensures
        h == hash_of(name@),
{
    let mut h: u64 = 0;
    let mut i: usize = 0;
    while i < name.len()
        invariant
            i <= name.len(),
            h == hash_of(name@.take(i as int)),
            h < HASH_MODULUS,
        decreases name.len() - i,
    {
        assert(name@.take(i + 1).drop_last() =~= name@.take(i as int));
        let wide: u128 = h as u128 * HASH_FACTOR as u128 + name[i] as u128 + 1;
        h = (wide % HASH_MODULUS as u128) as u64;
        i = i + 1;
    }
    assert(name@.take(name.len() as int) =~= name@);
    h
}

/// `name` is one of `bucket`.
pub open spec fn holds(bucket: Seq<Vec<u8>>, name: Seq<u8>) -> bool {
    exists|i: int| 0 <= i < bucket.len() && (#[trigger] bucket[i])@ == name
}

/// A set of names. Names with the same hash share a bucket.
#[derive(Debug)]
pub struct StemSet {
    buckets: HashMap<u64, Vec<Vec<u8>>>,
}

impl View for StemSet {
    type V = Set<Seq<u8>>;

    closed spec fn view(&self) -> Set<Seq<u8>> {
        Set::new(
            |name: Seq<u8>|
                self.buckets@.contains_key(hash_of(name)) && holds(
                    self.buckets@[hash_of(name)]@,
                    name,
                ),
        )
    }
}

impl StemSet {
    /// The empty set.
    pub fn new() -> (set: StemSet)
        ensures
            set@ == Set::<Seq<u8>>::empty(),
    {
        let set = StemSet { buckets: HashMap::new() };
        assert(set@ =~= Set::<Seq<u8>>::empty());
        set
    }

    /// Whether `name` is in the set.
    pub fn contains(&self, name: &[u8]) -> (b: bool)
        ensures
            b == self@.contains(name@),
    {
        broadcast use vstd::std_specs::hash::group_hash_axioms;

        let h = hash(name);
        match self.buckets.get(&h) {
            None => false,
            Some(bucket) => {
                let mut i: usize = 0;
                while i < bucket.len()
                    invariant
                        i <= bucket.len(),
                        h == hash_of(name@),
                        self.buckets@.contains_key(h),
                        self.buckets@[h] == *bucket,
                        forall|j: int| 0 <= j < i ==> (#[trigger] bucket@[j])@ != name@,
                    decreases bucket.len() - i,
                {
                    if is_same_bytes(bucket[i].as_slice(), name) {
                        assert(bucket@[i as int]@ == name@);
                        assert(holds(bucket@, name@));
                        return true;
                    }
                    i = i + 1;
                }
                false
            },
        }
    }

    /// Puts `name` into the set.
    pub fn insert(&mut self, name: Vec<u8>)
        ensures
            final(self)@ == old(self)@.insert(name@),
    {
        broadcast use vstd::std_specs::hash::group_hash_axioms;

        let h = hash(name.as_slice());
        let ghost before = self.buckets@;
        let mut bucket = match self.buckets.remove(&h) {
            Some(bucket) => bucket,
            None => Vec::new(),
        };
        let ghost was = bucket@;
        bucket.push(name);
        let ghost is = bucket@;
        self.buckets.insert(h, bucket);
        proof {
            assert(before.contains_key(h) ==> was == before[h]@);
            assert(!before.contains_key(h) ==> was.len() == 0);
            assert forall|other: Seq<u8>| holds(is, other) <==> (holds(was, other) || other
                == name@) by {
                if holds(is, other) {
                    let i = choose|i: int| 0 <= i < is.len() && (#[trigger] is[i])@ == other;
                    if i < was.len() {
                        assert(was[i]@ == other);
                    }
                }
                if holds(was, other) {
                    let i = choose|i: int| 0 <= i < was.len() && (#[trigger] was[i])@ == other;
                    assert(is[i]@ == other);
                }
                if other == name@ {
                    assert(is[was.len() as int]@ == other);
                }
            }
            assert(self@ =~= old(self)@.insert(name@));
        }
    }
}

} // verus!
