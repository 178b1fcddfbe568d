//! The table of display names of controlled-vocabulary terms.
//!
//! The table maps the bytes of an accession to a display name.  It is kept
//! as hash buckets over a hash of the key bytes, each bucket a short list
//! that is searched in order.

use std::collections::HashMap;
use vstd::prelude::*;
use vstd::std_specs::hash::*;
use vstd::string::StringSliceAdditionalSpecFns;
use crate::text::bytes_eq;

verus! {

broadcast use group_hash_axioms;

/// One entry of the table.
pub struct CvEntry {
    /// The bytes of the accession.
    pub key: Vec<u8>,
    /// The display name.
    pub name: String,
}

/// The hash of a key: a polynomial over its bytes, kept below 64 bits.
pub open spec fn key_hash(s: Seq<u8>) -> u64
    decreases s.len(),
{
    if s.len() == 0 {
        0
    } else {
        ((key_hash(s.drop_last()) % 0x1_0000_0000_0000) * 31 + s.last() as u64) as u64
    }
}

/// The index of the first entry with the given key, or -1.
pub open spec fn first_match(entries: Seq<CvEntry>, key: Seq<u8>) -> int
    decreases entries.len(),
{
    if entries.len() == 0 {
        -1
    } else {
        let before = first_match(entries.drop_last(), key);
        if before >= 0 {
            before
        } else if entries.last().key@ == key {
            entries.len() - 1
        } else {
            -1
        }
    }
}

/// `first_match` is in range and points at an entry with the key.
pub proof fn lemma_first_match(entries: Seq<CvEntry>, key: Seq<u8>)
    ensures
        -1 <= first_match(entries, key) < entries.len(),
        first_match(entries, key) >= 0 ==> entries[first_match(entries, key)].key@ == key,
    decreases entries.len(),
{
    if entries.len() > 0 {
        lemma_first_match(entries.drop_last(), key);
    }
}

/// Changing the name of an entry leaves every first match where it was.
proof fn lemma_first_match_renamed(
    before: Seq<CvEntry>,
    after: Seq<CvEntry>,
    at: int,
    key: Seq<u8>,
)
    requires
        0 <= at < before.len(),
        after.len() == before.len(),
        after[at].key@ == before[at].key@,
        forall|j: int| 0 <= j < before.len() && j != at ==> after[j] == before[j],
    ensures
        first_match(after, key) == first_match(before, key),
    decreases before.len(),
{
    if before.len() - 1 > at {
        lemma_first_match_renamed(before.drop_last(), after.drop_last(), at, key);
    } else {
        assert(at == before.len() - 1);
        assert(after.drop_last() =~= before.drop_last());
    }
}

/// The table of display names.
pub struct CvTable {
    buckets: HashMap<u64, Vec<CvEntry>>,
}

impl CvTable {
    /// The entries filed under the hash `h`.
    pub closed spec fn bucket(&self, h: u64) -> Seq<CvEntry> {
        if self.buckets@.contains_key(h) {
            self.buckets@[h]@
        } else {
            Seq::empty()
        }
    }

    /// The display name filed under `key`, where there is one.
    pub closed spec fn name_of(&self, key: Seq<u8>) -> Option<Seq<char>> {
        let entries = self.bucket(key_hash(key));
        let i = first_match(entries, key);
        if i >= 0 {
            Some(entries[i].name@)
        } else {
            None
        }
    }

    /// Makes an empty table.
    pub fn new() -> (t: CvTable)
        ensures
            t@ == Map::<Seq<u8>, Seq<char>>::empty(),
    {
        let t = CvTable { buckets: HashMap::new() };
        assert(t@ =~= Map::<Seq<u8>, Seq<char>>::empty());
        t
    }

    /// Computes the hash of a key.
    fn hash(key: &[u8]) -> (h: u64)
        ensures
            h == key_hash(key@),
    {
        let mut h: u64 = 0;
        let mut i: usize = 0;
        while i < key.len()
            invariant
                i <= key@.len(),
                h == key_hash(key@.take(i as int)),
            decreases key@.len() - i,
        {
            proof {
                assert(key@.take(i + 1).drop_last() =~= key@.take(i as int));
            }
            h = (h % 0x1_0000_0000_0000) * 31 + key[i] as u64;
            i = i + 1;
        }
        assert(key@.take(i as int) =~= key@);
        h
    }

    /// Finds the first entry of `entries` with the given key.
    fn position(entries: &Vec<CvEntry>, key: &[u8]) -> (r: Option<usize>)
        ensures
            match r {
                Some(i) => first_match(entries@, key@) == i,
                None => first_match(entries@, key@) == -1,
            },
    {
        let mut i: usize = 0;
        while i < entries.len()
            invariant
                i <= entries@.len(),
                first_match(entries@.take(i as int), key@) == -1,
            decreases entries@.len() - i,
        {
            proof {
                assert(entries@.take(i + 1).drop_last() =~= entries@.take(i as int));
            }
            if bytes_eq(entries[i].key.as_slice(), key) {
                proof {
                    lemma_match_in_prefix(entries@, key@, i as int + 1);
                }
                return Some(i);
            }
            i = i + 1;
        }
        assert(entries@.take(i as int) =~= entries@);
        None
    }

    /// Looks up the display name filed under the bytes of an accession.
    pub fn lookup(&self, key: &[u8]) -> (r: Option<&String>)
        ensures
            match r {
                Some(name) => self@.contains_key(key@) && self@[key@] == name@,
                None => !self@.contains_key(key@),
            },
    {
        let h = Self::hash(key);
        match self.buckets.get(&h) {
            None => None,
            Some(entries) => {
                proof {
                    lemma_first_match(entries@, key@);
                }
                match Self::position(entries, key) {
                    None => None,
                    Some(i) => Some(&entries[i].name),
                }
            },
        }
    }

    /// Files `name` under the accession `key`, in place of any name that
    /// was filed under it before.
    pub fn insert(&mut self, key: &str, name: String)
        ensures
            final(self)@ == old(self)@.insert(key.spec_bytes(), name@),
    {
        let kb = key.as_bytes();
        let h = Self::hash(kb);
        let ghost before = self.bucket(h);
        let mut entries: Vec<CvEntry> = match self.buckets.remove(&h) {
            Some(v) => v,
            None => Vec::new(),
        };
        assert(entries@ =~= before);
        proof {
            lemma_first_match(entries@, kb@);
        }
        match Self::position(&entries, kb) {
            Some(i) => {
                let mut copy: Vec<u8> = Vec::new();
                copy.extend_from_slice(kb);
                assert(copy@ =~= kb@);
                entries[i] = CvEntry { key: copy, name };
                proof {
                    assert forall|k: Seq<u8>| first_match(entries@, k) == first_match(
                        before,
                        k,
                    ) by {
                        lemma_first_match_renamed(before, entries@, i as int, k);
                    }
                }
            },
            None => {
                let mut copy: Vec<u8> = Vec::new();
                copy.extend_from_slice(kb);
                assert(copy@ =~= kb@);
                entries.push(CvEntry { key: copy, name });
                proof {
                    assert(entries@.drop_last() =~= before);
                }
            },
        }
        let ghost filed = entries@;
        self.buckets.insert(h, entries);
        proof {
            let want = old(self)@.insert(key.spec_bytes(), name@);
            assert forall|k: Seq<u8>| self.name_of(k) == (if k == kb@ {
                Some(name@)
            } else {
                old(self).name_of(k)
            }) by {
                if key_hash(k) == h {
                    assert(self.bucket(h) == filed);
                    lemma_first_match(before, k);
                    lemma_first_match(filed, k);
                } else {
                    assert(self.bucket(key_hash(k)) == old(self).bucket(key_hash(k)));
                }
            }
            assert(self@ =~= want);
        }
    }
}

impl View for CvTable {
    type V = Map<Seq<u8>, Seq<char>>;

    /// The table as a map from accession bytes to display names.
    closed spec fn view(&self) -> Map<Seq<u8>, Seq<char>> {
        Map::new(|k: Seq<u8>| self.name_of(k) is Some, |k: Seq<u8>| self.name_of(k).unwrap())
    }
}

/// Once a prefix of the entries holds the key, the first match in the
/// whole is the first match in that prefix.
proof fn lemma_match_in_prefix(entries: Seq<CvEntry>, key: Seq<u8>, n: int)
    requires
        0 <= n <= entries.len(),
        first_match(entries.take(n), key) >= 0,
    ensures
        first_match(entries, key) == first_match(entries.take(n), key),
    decreases entries.len() - n,
{
    if n < entries.len() {
        assert(entries.take(n + 1).drop_last() =~= entries.take(n));
        lemma_match_in_prefix(entries, key, n + 1);
    } else {
        assert(entries.take(n) =~= entries);
    }
}

} // verus!
