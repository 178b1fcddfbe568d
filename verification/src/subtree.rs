//! The elements that lie under an element, however deep.

use std::collections::{HashMap, HashSet};
use vstd::prelude::*;
use vstd::std_specs::hash::*;
use crate::child_index::listed;

verus! {

broadcast use group_hash_axioms;

/// Whether `x` is reached from `root` in exactly `n` steps from a parent
/// to one of its children.
pub open spec fn reached_in(m: Map<u32, Vec<u32>>, root: u32, x: u32, n: nat) -> bool
    decreases n,
{
    if n == 0 {
        x == root
    } else {
        exists|p: u32| reached_in(m, root, p, (n - 1) as nat) && #[trigger] listed(m, p).contains(x)
    }
}

/// The element `root` and all that lies under it.
pub open spec fn subtree(m: Map<u32, Vec<u32>>, root: u32) -> Set<u32> {
    Set::new(|x: u32| exists|n: nat| reached_in(m, root, x, n))
}

/// A set that holds `root` and every child of each of its elements holds
/// all that is reached from `root`.
pub proof fn lemma_closed_set_holds_all(m: Map<u32, Vec<u32>>, root: u32, s: Set<u32>, x: u32, n: nat)
    requires
        s.contains(root),
        forall|p: u32, c: u32| s.contains(p) && #[trigger] listed(m, p).contains(c) ==> s.contains(c),
        reached_in(m, root, x, n),
    ensures
        s.contains(x),
    decreases n,
{
    if n > 0 {
        let p = choose|p: u32|
            reached_in(m, root, p, (n - 1) as nat) && #[trigger] listed(m, p).contains(x);
        lemma_closed_set_holds_all(m, root, s, p, (n - 1) as nat);
    }
}

/// A child of an element of the subtree is in the subtree.
pub proof fn lemma_child_in_subtree(m: Map<u32, Vec<u32>>, root: u32, p: u32, c: u32)
    requires
        subtree(m, root).contains(p),
        listed(m, p).contains(c),
    ensures
        subtree(m, root).contains(c),
{
    let n = choose|n: nat| reached_in(m, root, p, n);
    assert(reached_in(m, root, c, n + 1));
}

/// Collects `root_id` and every element under it: its children, their
/// children, and so on.  An element that is its own descendant is
/// collected once.
pub fn collect_subtree_owner_ids(root_id: u32, children_by_parent: &HashMap<u32, Vec<u32>>) -> (out:
    HashSet<u32>)
    ensures
        out@ == subtree(children_by_parent@, root_id),
{
    let ghost m = children_by_parent@;
    let ghost all = Set::<u32>::full();
    let mut out: HashSet<u32> = HashSet::new();
    let mut stack: Vec<u32> = Vec::new();
    stack.push(root_id);
    proof {
        <u32 as vstd::set_lib::FiniteFull>::full_properties();
        assert(reached_in(m, root_id, root_id, 0));
        assert(stack@[0] == root_id);
    }
    while stack.len() > 0
        invariant
            m == children_by_parent@,
            all == Set::<u32>::full(),
            all.finite(),
            out@.contains(root_id) || stack@.contains(root_id),
            forall|x: u32| out@.contains(x) ==> subtree(m, root_id).contains(x),
            forall|k: int| 0 <= k < stack@.len() ==> subtree(m, root_id).contains(#[trigger] stack@[k]),
            forall|p: u32, c: u32|
                out@.contains(p) && #[trigger] listed(m, p).contains(c) ==> out@.contains(c)
                    || stack@.contains(c),
        decreases all.difference(out@).len(), stack@.len(),
    {
        let ghost before = stack@;
        let ghost done = out@;
        let id = stack.pop().unwrap();
        assert(forall|x: u32| before.contains(x) ==> x == id || stack@.contains(x)) by {
            assert forall|x: u32| before.contains(x) implies x == id || stack@.contains(x) by {
                let k = choose|k: int| 0 <= k < before.len() && before[k] == x;
                if k < before.len() - 1 {
                    assert(stack@[k] == x);
                }
            }
        }
        assert(subtree(m, root_id).contains(id)) by {
            assert(before[before.len() - 1] == id);
        }
        if out.insert(id) {
            proof {
                assert(all.difference(out@) =~= all.difference(done).remove(id));
                assert(all.difference(done).contains(id));
                vstd::set::axiom_set_difference_finite(all, done);
                vstd::set::axiom_set_remove_len(all.difference(done), id);
            }
            match children_by_parent.get(&id) {
                Some(children) => {
                    let ghost base = stack@;
                    let mut j: usize = 0;
                    while j < children.len()
                        invariant
                            j <= children@.len(),
                            children@ == listed(m, id),
                            stack@ == base + children@.take(j as int),
                            forall|k: int|
                                0 <= k < stack@.len() ==> subtree(m, root_id).contains(
                                    #[trigger] stack@[k],
                                ),
                            subtree(m, root_id).contains(id),
                            out@ == done.insert(id),
                            all.difference(out@).len() < all.difference(done).len(),
                        decreases children@.len() - j,
                    {
                        proof {
                            assert(children@.contains(children@[j as int]));
                            lemma_child_in_subtree(m, root_id, id, children@[j as int]);
                        }
                        stack.push(children[j]);
                        assert(stack@ =~= base + children@.take(j + 1));
                        j = j + 1;
                    }
                    proof {
                        assert(children@.take(j as int) =~= children@);
                        assert forall|x: u32| base.contains(x) implies stack@.contains(x) by {
                            let k = choose|k: int| 0 <= k < base.len() && base[k] == x;
                            assert(stack@[k] == x);
                        }
                        assert forall|c: u32| #[trigger] listed(m, id).contains(c) implies stack@.contains(
                            c,
                        ) by {
                            let k = choose|k: int| 0 <= k < children@.len() && children@[k] == c;
                            assert(stack@[base.len() + k] == c);
                        }
                    }
                },
                None => {
                    assert(listed(m, id) =~= Seq::<u32>::empty());
                },
            }
        } else {
            assert(out@ =~= done);
        }
    }
    proof {
        assert forall|x: u32| subtree(m, root_id).contains(x) implies out@.contains(x) by {
            let n = choose|n: nat| reached_in(m, root_id, x, n);
            lemma_closed_set_holds_all(m, root_id, out@, x, n);
        }
        assert(out@ =~= subtree(m, root_id));
    }
    out
}

} // verus!
