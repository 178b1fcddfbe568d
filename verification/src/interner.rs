//! Tables of numbers and of texts in which every value stands once.

use std::collections::HashMap;
use vstd::prelude::*;
use vstd::std_specs::hash::*;
use crate::cv_table::key_hash;
use crate::text::bytes_eq;

verus! {

broadcast use group_hash_axioms;

/// The index of the first entry of `table` that equals `x`, from place
/// `i` on, or -1.
pub open spec fn index_in<T>(table: Seq<T>, x: T, i: int) -> int
    decreases table.len() - i,
{
    if i < 0 || i >= table.len() {
        -1
    } else if table[i] == x {
        i
    } else {
        index_in(table, x, i + 1)
    }
}

/// `index_in` is -1 where no entry from `i` on equals `x`, else the index
/// of the first that does.
pub proof fn lemma_index_in<T>(table: Seq<T>, x: T, i: int)
    requires
        0 <= i,
    ensures
        index_in(table, x, i) >= -1,
        index_in(table, x, i) == -1 <==> forall|k: int| i <= k < table.len() ==> table[k] != x,
        index_in(table, x, i) >= 0 ==> i <= index_in(table, x, i) < table.len() && table[index_in(
            table,
            x,
            i,
        )] == x,
    decreases table.len() - i,
{
    if i < table.len() && table[i] != x {
        lemma_index_in(table, x, i + 1);
        if index_in(table, x, i) == -1 {
            assert forall|k: int| i <= k < table.len() implies table[k] != x by {
                if k > i {
                }
            }
        }
    }
}

/// The table after `x` has been interned: as it was where `x` stands in
/// it, else with `x` added at the end.
pub open spec fn interned<T>(table: Seq<T>, x: T) -> Seq<T> {
    if index_in(table, x, 0) >= 0 {
        table
    } else {
        table.push(x)
    }
}

/// The index under which `x` stands once it has been interned.
pub open spec fn interned_at<T>(table: Seq<T>, x: T) -> int {
    if index_in(table, x, 0) >= 0 {
        index_in(table, x, 0)
    } else {
        table.len() as int
    }
}

/// Whether no value stands twice in the table.
pub open spec fn distinct<T>(table: Seq<T>) -> bool {
    forall|i: int, j: int| 0 <= i < j < table.len() ==> table[i] != table[j]
}

/// Interning keeps a table free of repetitions, and the value stands at
/// the index that interning gives.
pub proof fn lemma_interned<T>(table: Seq<T>, x: T)
    requires
        distinct(table),
    ensures
        distinct(interned(table, x)),
        0 <= interned_at(table, x) < interned(table, x).len(),
        interned(table, x)[interned_at(table, x)] == x,
        forall|k: int| 0 <= k < table.len() ==> interned(table, x)[k] == table[k],
{
    lemma_index_in(table, x, 0);
    let after = interned(table, x);
    assert forall|i: int, j: int| 0 <= i < j < after.len() implies after[i] != after[j] by {
        if j < table.len() {
            assert(table[i] != table[j]);
        } else {
            assert(table[i] != x);
        }
    }
}

/// A table of numbers in which every number stands once.
pub struct NumberTable {
    values: Vec<u64>,
    index: HashMap<u64, u32>,
}

impl NumberTable {
    /// The numbers in the order in which they were first interned.
    pub closed spec fn numbers(&self) -> Seq<u64> {
        self.values@
    }

    /// Borrows the numbers of the table.
    pub fn as_slice(&self) -> (r: &[u64])
        ensures
            r@ == self.numbers(),
    {
        self.values.as_slice()
    }

    /// A table that is in order holds no number twice and no more numbers
    /// than 32 bits count.
    pub proof fn lemma_wf(&self)
        requires
            self.wf(),
        ensures
            distinct(self.numbers()),
            self.numbers().len() <= u32::MAX,
    {
    }

    /// Whether the index knows exactly the numbers of the table.
    pub closed spec fn wf(&self) -> bool {
        &&& self.values@.len() <= u32::MAX
        &&& distinct(self.values@)
        &&& forall|i: int|
            0 <= i < self.values@.len() ==> self.index@.contains_key(#[trigger] self.values@[i])
                && self.index@[self.values@[i]] == i
        &&& forall|x: u64|
            self.index@.contains_key(x) ==> 0 <= #[trigger] self.index@[x] < self.values@.len()
                && self.values@[self.index@[x] as int] == x
    }

    /// Makes an empty table.
    pub fn new() -> (t: NumberTable)
        ensures
            t.wf(),
            t.numbers() == Seq::<u64>::empty(),
    {
        NumberTable { values: Vec::new(), index: HashMap::new() }
    }

    /// Interns a number and returns its index; `None` where the table is
    /// full.
    pub fn intern(&mut self, x: u64) -> (r: Option<u32>)
        requires
            old(self).wf(),
        ensures
            final(self).wf(),
            match r {
                Some(i) => final(self).numbers() == interned(old(self).numbers(), x) && i
                    == interned_at(old(self).numbers(), x),
                None => final(self).numbers() == old(self).numbers() && interned(
                    old(self).numbers(),
                    x,
                ).len() > u32::MAX,
            },
    {
        proof {
            lemma_index_in(self.values@, x, 0);
            lemma_interned(self.values@, x);
        }
        match self.index.get(&x) {
            Some(i) => {
                let i = *i;
                proof {
                    let at = index_in(self.values@, x, 0);
                    assert(self.values@[i as int] == x);
                    if at != i {
                        if at < i {
                            assert(self.values@[at] != self.values@[i as int]);
                        } else {
                            assert(self.values@[i as int] != self.values@[at]);
                        }
                    }
                }
                Some(i)
            },
            None => {
                proof {
                    if index_in(self.values@, x, 0) >= 0 {
                        assert(self.index@.contains_key(self.values@[index_in(self.values@, x, 0)]));
                    }
                }
                let n = self.values.len();
                if n >= u32::MAX as usize {
                    return None;
                }
                self.values.push(x);
                self.index.insert(x, n as u32);
                proof {
                    assert forall|i: int| 0 <= i < self.values@.len() implies self.index@.contains_key(
                        #[trigger] self.values@[i],
                    ) && self.index@[self.values@[i]] == i by {
                        if i < n {
                            assert(self.values@[i] == old(self).values@[i]);
                        }
                    }
                }
                Some(n as u32)
            },
        }
    }
}

/// A table of texts in which every text stands once.
pub struct TextTable {
    values: Vec<Vec<u8>>,
    buckets: HashMap<u64, Vec<u32>>,
}

/// The texts of a table as byte sequences.
pub open spec fn texts_view(v: Seq<Vec<u8>>) -> Seq<Seq<u8>> {
    Seq::new(v.len(), |i: int| v[i]@)
}

impl TextTable {
    /// The texts in the order in which they were first interned.
    pub closed spec fn texts(&self) -> Seq<Seq<u8>> {
        texts_view(self.values@)
    }

    /// Borrows the texts of the table.
    pub fn as_slice(&self) -> (r: &[Vec<u8>])
        ensures
            texts_view(r@) == self.texts(),
    {
        self.values.as_slice()
    }

    /// A table that is in order holds no text twice and no more texts
    /// than 32 bits count.
    pub proof fn lemma_wf(&self)
        requires
            self.wf(),
        ensures
            distinct(self.texts()),
            self.texts().len() <= u32::MAX,
    {
    }

    /// The indices filed under the hash `h`.
    pub closed spec fn bucket(&self, h: u64) -> Seq<u32> {
        if self.buckets@.contains_key(h) {
            self.buckets@[h]@
        } else {
            Seq::empty()
        }
    }

    /// Whether every text of the table is filed under its hash, and
    /// nothing else is filed.
    pub closed spec fn wf(&self) -> bool {
        &&& self.values@.len() <= u32::MAX
        &&& distinct(self.texts())
        &&& forall|i: int|
            0 <= i < self.values@.len() ==> self.bucket(
                key_hash(#[trigger] self.values@[i]@),
            ).contains(i as u32)
        &&& forall|h: u64, k: int|
            0 <= k < self.bucket(h).len() ==> (#[trigger] self.bucket(h)[k]) < self.values@.len()
    }

    /// Makes an empty table.
    pub fn new() -> (t: TextTable)
        ensures
            t.wf(),
            t.texts() == Seq::<Seq<u8>>::empty(),
    {
        let t = TextTable { values: Vec::new(), buckets: HashMap::new() };
        assert(t.texts() =~= Seq::<Seq<u8>>::empty());
        t
    }

    /// Computes the hash of a text.
    fn hash(key: &[u8]) -> (h: u64)
        ensures
            h == key_hash(key@),
    {
        let mut h: u64 = 0;
        let mut i: usize = 0;
        while i < key.len()
            invariant
                i <= key@.len(),
                h == key_hash(key@.take(i as int)),
            decreases key@.len() - i,
        {
            proof {
                assert(key@.take(i + 1).drop_last() =~= key@.take(i as int));
            }
            h = (h % 0x1_0000_0000_0000) * 31 + key[i] as u64;
            i = i + 1;
        }
        assert(key@.take(i as int) =~= key@);
        h
    }

    /// Interns a text and returns its index; `None` where the table is
    /// full.
    pub fn intern(&mut self, x: &[u8]) -> (r: Option<u32>)
        requires
            old(self).wf(),
        ensures
            final(self).wf(),
            match r {
                Some(i) => final(self).texts() == interned(old(self).texts(), x@) && i
                    == interned_at(old(self).texts(), x@),
                None => final(self).texts() == old(self).texts() && interned(
                    old(self).texts(),
                    x@,
                ).len() > u32::MAX,
            },
    {
        let ghost before = self.texts();
        proof {
            lemma_index_in(before, x@, 0);
            lemma_interned(before, x@);
        }
        let h = Self::hash(x);
        let ghost filed = self.bucket(h);
        let mut ids: Vec<u32> = match self.buckets.remove(&h) {
            Some(v) => v,
            None => Vec::new(),
        };
        assert(ids@ =~= filed);
        let mut k: usize = 0;
        let mut found: Option<u32> = None;
        while k < ids.len() && found.is_none()
            invariant
                k <= ids@.len(),
                ids@ == filed,
                before == texts_view(self.values@),
                forall|j: int| 0 <= j < filed.len() ==> (#[trigger] filed[j]) < self.values@.len(),
                found is None ==> forall|j: int|
                    0 <= j < k ==> before[(#[trigger] filed[j]) as int] != x@,
                found matches Some(i) ==> i < self.values@.len() && before[i as int] == x@,
            decreases ids@.len() - k, (if found is None { 1int } else { 0int }),
        {
            let i = ids[k];
            assert(before[i as int] == self.values@[i as int]@);
            if bytes_eq(self.values[i as usize].as_slice(), x) {
                found = Some(i);
            } else {
                k = k + 1;
            }
        }
        match found {
            Some(i) => {
                self.buckets.insert(h, ids);
                proof {
                    let at = index_in(before, x@, 0);
                    if at != i {
                        if at < i {
                            assert(before[at] != before[i as int]);
                        } else {
                            assert(before[i as int] != before[at]);
                        }
                    }
                    assert forall|g: u64| #[trigger] self.bucket(g) == old(self).bucket(g) by {}
                }
                Some(i)
            },
            None => {
                proof {
                    let at = index_in(before, x@, 0);
                    if at >= 0 {
                        assert(old(self).values@[at]@ == x@);
                        assert(old(self).bucket(key_hash(old(self).values@[at]@)).contains(
                            at as u32,
                        ));
                        let j = choose|j: int| 0 <= j < filed.len() && filed[j] == at as u32;
                        assert(before[filed[j] as int] != x@);
                    }
                }
                let n = self.values.len();
                if n >= u32::MAX as usize {
                    self.buckets.insert(h, ids);
                    proof {
                        assert forall|g: u64| #[trigger] self.bucket(g) == old(self).bucket(g) by {}
                    }
                    return None;
                }
                let mut copy: Vec<u8> = Vec::new();
                copy.extend_from_slice(x);
                assert(copy@ =~= x@);
                self.values.push(copy);
                ids.push(n as u32);
                self.buckets.insert(h, ids);
                proof {
                    assert(self.texts() =~= before.push(x@));
                    assert forall|g: u64| g != h implies #[trigger] self.bucket(g) == old(
                        self,
                    ).bucket(g) by {}
                    assert(self.bucket(h) == filed.push(n as u32));
                    assert forall|i: int| 0 <= i < self.values@.len() implies self.bucket(
                        key_hash(#[trigger] self.values@[i]@),
                    ).contains(i as u32) by {
                        let g = key_hash(self.values@[i]@);
                        if i < n {
                            assert(self.values@[i] == old(self).values@[i]);
                            assert(old(self).bucket(g).contains(i as u32));
                            if g == h {
                                let j = choose|j: int| 0 <= j < filed.len() && filed[j] == i as u32;
                                assert(filed.push(n as u32)[j] == i as u32);
                            }
                        } else {
                            assert(g == h);
                            assert(filed.push(n as u32)[filed.len() as int] == n as u32);
                        }
                    }
                    assert forall|g: u64, k: int| 0 <= k < self.bucket(g).len() implies (
                    #[trigger] self.bucket(g)[k]) < self.values@.len() by {
                        if g == h {
                            if k < filed.len() {
                                assert(filed.push(n as u32)[k] == filed[k]);
                            }
                        } else {
                            assert(self.bucket(g)[k] == old(self).bucket(g)[k]);
                        }
                    }
                }
                Some(n as u32)
            },
        }
    }
}

} // verus!
