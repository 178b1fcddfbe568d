//! Indices over metadata records: which elements lie under which parent.

use std::collections::{HashMap, HashSet};
use vstd::prelude::*;
use vstd::std_specs::hash::*;
use crate::metadatum::{lemma_code_is_injective, Metadatum, MetadatumModel, TagId};

verus! {

broadcast use group_hash_axioms;

/// The key of a parent and a kind of element: the parent in the upper
/// bits and the code of the kind in the lowest eight.
pub open spec fn parent_tag_key(parent_id: u32, tag: TagId) -> u64 {
    (parent_id as u64 * 256 + tag.spec_code() as u64) as u64
}

/// Different pairs of parent and kind have different keys.
pub proof fn lemma_key_is_injective(pa: u32, ta: TagId, pb: u32, tb: TagId)
    ensures
        parent_tag_key(pa, ta) == parent_tag_key(pb, tb) <==> pa == pb && ta == tb,
{
    lemma_code_is_injective(ta, tb);
}

/// Returns the key of a parent and a kind of element.
pub fn key_parent_tag(parent_id: u32, tag: TagId) -> (k: u64)
    ensures
        k == parent_tag_key(parent_id, tag),
{
    (parent_id as u64) * 256 + tag.code() as u64
}

/// The owners of the records that lie under `parent` and are of kind
/// `tag`, in the order of the records.
pub open spec fn ids_in(metadata: Seq<MetadatumModel>, parent: u32, tag: TagId) -> Seq<u32>
    decreases metadata.len(),
{
    if metadata.len() == 0 {
        Seq::empty()
    } else {
        let rest = ids_in(metadata.drop_last(), parent, tag);
        let m = metadata.last();
        if m.parent_index == parent && m.tag_id == tag {
            rest.push(m.owner_id)
        } else {
            rest
        }
    }
}

/// The owners of the records that lie under `parent`, in the order of the
/// records.
pub open spec fn children_in(metadata: Seq<MetadatumModel>, parent: u32) -> Seq<u32>
    decreases metadata.len(),
{
    if metadata.len() == 0 {
        Seq::empty()
    } else {
        let rest = children_in(metadata.drop_last(), parent);
        let m = metadata.last();
        if m.parent_index == parent {
            rest.push(m.owner_id)
        } else {
            rest
        }
    }
}

/// The owners of the records of kind `tag`, each once, in the order in
/// which they first occur.
pub open spec fn unique_owners(metadata: Seq<MetadatumModel>, tag: TagId) -> Seq<u32>
    decreases metadata.len(),
{
    if metadata.len() == 0 {
        Seq::empty()
    } else {
        let rest = unique_owners(metadata.drop_last(), tag);
        let m = metadata.last();
        if m.tag_id == tag && !rest.contains(m.owner_id) {
            rest.push(m.owner_id)
        } else {
            rest
        }
    }
}

/// The contents of a slice of records.
pub open spec fn records_view(metadata: Seq<Metadatum>) -> Seq<MetadatumModel> {
    Seq::new(metadata.len(), |i: int| metadata[i].deep_view())
}

/// Taking one more record adds its content at the end.
pub proof fn lemma_records_view_take(metadata: Seq<Metadatum>, i: int)
    requires
        0 <= i < metadata.len(),
    ensures
        records_view(metadata).take(i + 1).drop_last() == records_view(metadata).take(i),
        records_view(metadata).take(i + 1).last() == metadata[i].deep_view(),
{
    assert(records_view(metadata).take(i + 1).drop_last() =~= records_view(metadata).take(i));
}

/// Returns the owners of the records of kind `tag`, each once, in the
/// order in which they first occur.
pub fn ordered_unique_owner_ids(metadata: &[Metadatum], tag: TagId) -> (out: Vec<u32>)
    ensures
        out@ == unique_owners(records_view(metadata@), tag),
{
    let mut out: Vec<u32> = Vec::new();
    let mut seen: HashSet<u32> = HashSet::new();
    let ghost all = records_view(metadata@);
    let mut i: usize = 0;
    while i < metadata.len()
        invariant
            i <= metadata@.len(),
            all == records_view(metadata@),
            out@ == unique_owners(all.take(i as int), tag),
            forall|x: u32| seen@.contains(x) <==> out@.contains(x),
        decreases metadata@.len() - i,
    {
        let m = &metadata[i];
        proof {
            lemma_records_view_take(metadata@, i as int);
        }
        if m.tag_id == tag && seen.insert(m.owner_id) {
            let ghost before = out@;
            out.push(m.owner_id);
            proof {
                assert forall|x: u32| seen@.contains(x) <==> out@.contains(x) by {
                    if before.contains(x) {
                        let j = choose|j: int| 0 <= j < before.len() && before[j] == x;
                        assert(out@[j] == x);
                    }
                    if x == m.owner_id {
                        assert(out@[out@.len() - 1] == x);
                    }
                    if out@.contains(x) && x != m.owner_id {
                        let j = choose|j: int| 0 <= j < out@.len() && out@[j] == x;
                        assert(before[j] == x);
                    }
                }
            }
        }
        i = i + 1;
    }
    assert(all.take(i as int) =~= all);
    out
}

/// The index of the children of every element.
pub struct ChildIndex {
    ids_by_parent_tag: HashMap<u64, Vec<u32>>,
    children_by_parent: HashMap<u32, Vec<u32>>,
}

/// The list filed under `k`, or the empty list.
pub open spec fn listed<K>(m: Map<K, Vec<u32>>, k: K) -> Seq<u32> {
    if m.contains_key(k) {
        m[k]@
    } else {
        Seq::empty()
    }
}

impl ChildIndex {
    /// The children of `parent_id` that are of kind `tag`.
    pub closed spec fn spec_ids(&self, parent_id: u32, tag: TagId) -> Seq<u32> {
        listed(self.ids_by_parent_tag@, parent_tag_key(parent_id, tag))
    }

    /// The children of `parent_id`.
    pub closed spec fn spec_children(&self, parent_id: u32) -> Seq<u32> {
        listed(self.children_by_parent@, parent_id)
    }

    /// Whether this is the index of the given records.
    pub open spec fn indexes(&self, metadata: Seq<MetadatumModel>) -> bool {
        &&& forall|p: u32, t: TagId| #[trigger] self.spec_ids(p, t) == ids_in(metadata, p, t)
        &&& forall|p: u32| #[trigger] self.spec_children(p) == children_in(metadata, p)
    }

    /// Builds the index of the given records.
    pub fn new(metadata: &[Metadatum]) -> (r: ChildIndex)
        ensures
            r.indexes(records_view(metadata@)),
    {
        let mut ids_by_parent_tag: HashMap<u64, Vec<u32>> = HashMap::new();
        let mut children_by_parent: HashMap<u32, Vec<u32>> = HashMap::new();
        let ghost all = records_view(metadata@);
        let mut i: usize = 0;
        while i < metadata.len()
            invariant
                i <= metadata@.len(),
                all == records_view(metadata@),
                forall|p: u32, t: TagId|
                    listed(ids_by_parent_tag@, #[trigger] parent_tag_key(p, t)) == ids_in(
                        all.take(i as int),
                        p,
                        t,
                    ),
                forall|p: u32|
                    #[trigger] listed(children_by_parent@, p) == children_in(
                        all.take(i as int),
                        p,
                    ),
            decreases metadata@.len() - i,
        {
            let m = &metadata[i];
            proof {
                lemma_records_view_take(metadata@, i as int);
            }
            let key = key_parent_tag(m.parent_index, m.tag_id);
            let ghost old_ids = ids_by_parent_tag@;
            let mut ids = match ids_by_parent_tag.remove(&key) {
                Some(v) => v,
                None => Vec::new(),
            };
            assert(ids@ =~= listed(old_ids, key));
            ids.push(m.owner_id);
            ids_by_parent_tag.insert(key, ids);
            let ghost old_children = children_by_parent@;
            let mut children = match children_by_parent.remove(&m.parent_index) {
                Some(v) => v,
                None => Vec::new(),
            };
            assert(children@ =~= listed(old_children, m.parent_index));
            children.push(m.owner_id);
            children_by_parent.insert(m.parent_index, children);
            proof {
                assert forall|p: u32, t: TagId|
                    listed(ids_by_parent_tag@, #[trigger] parent_tag_key(p, t)) == ids_in(
                        all.take(i + 1),
                        p,
                        t,
                    ) by {
                    lemma_key_is_injective(p, t, m.parent_index, m.tag_id);
                    assert(listed(old_ids, parent_tag_key(p, t)) == ids_in(
                        all.take(i as int),
                        p,
                        t,
                    ));
                }
                assert forall|p: u32|
                    #[trigger] listed(children_by_parent@, p) == children_in(
                        all.take(i + 1),
                        p,
                    ) by {
                    assert(listed(old_children, p) == children_in(all.take(i as int), p));
                }
            }
            i = i + 1;
        }
        assert(all.take(i as int) =~= all);
        ChildIndex { ids_by_parent_tag, children_by_parent }
    }

    /// Returns the children of `parent_id` that are of kind `tag`.
    pub fn ids(&self, parent_id: u32, tag: TagId) -> (r: &[u32])
        ensures
            r@ == self.spec_ids(parent_id, tag),
    {
        let key = key_parent_tag(parent_id, tag);
        match self.ids_by_parent_tag.get(&key) {
            Some(v) => v.as_slice(),
            None => {
                let nothing: &[u32] = &[];
                assert(nothing@ =~= Seq::<u32>::empty());
                nothing
            },
        }
    }

    /// Returns the first child of `parent_id` that is of kind `tag`.
    pub fn first_id(&self, parent_id: u32, tag: TagId) -> (r: Option<u32>)
        ensures
            r == (if self.spec_ids(parent_id, tag).len() > 0 {
                Some(self.spec_ids(parent_id, tag)[0])
            } else {
                None
            }),
    {
        let ids = self.ids(parent_id, tag);
        if ids.len() > 0 {
            Some(ids[0])
        } else {
            None
        }
    }

    /// Returns the children of `parent_id`.
    pub fn children(&self, parent_id: u32) -> (r: &[u32])
        ensures
            r@ == self.spec_children(parent_id),
    {
        match self.children_by_parent.get(&parent_id) {
            Some(v) => v.as_slice(),
            None => {
                let nothing: &[u32] = &[];
                assert(nothing@ =~= Seq::<u32>::empty());
                nothing
            },
        }
    }
}

} // verus!
