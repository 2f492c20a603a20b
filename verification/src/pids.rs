//! Sets of process ids.
use std::collections::HashSet;
use vstd::prelude::*;

verus! {

broadcast use vstd::std_specs::hash::group_hash_axioms;

/// Does `order` list every member of `set`, each exactly once?
pub open spec fn lists(order: Seq<u32>, set: Set<u32>) -> bool {
    &&& order.no_duplicates()
    &&& order.to_set() == set
}

/// The members of a set, in an order that is not fixed.
pub fn members(set: &HashSet<u32>) -> (r: Vec<u32>)
    ensures
        lists(r@, set@),
{
    let mut out: Vec<u32> = Vec::new();
    proof {
        assert forall|s: Seq<&u32>| s.len() == 0 implies #[trigger] s.unref().to_set()
            == out@.to_set() by {
            assert(s.unref() =~= out@);
        }
    }
    for pid in it: set.iter()
        invariant
            it.seq().unref().to_set() == set@,
            it.seq().no_duplicates(),
            out@ == it.seq().unref().take(it.index() as int),
            it.index() == it.seq().len() ==> lists(out@, set@),
    {
        out.push(*pid);
        proof {
            assert(out@ =~= it.seq().unref().take(it.index() + 1));
            assert(it.index() + 1 == it.seq().len() ==> out@ =~= it.seq().unref());
        }
    }
    out
}

/// A set with the same members.
pub fn copy_of(set: &HashSet<u32>) -> (r: HashSet<u32>)
    ensures
        r@ == set@,
{
    let pids = members(set);
    let mut out: HashSet<u32> = HashSet::new();
    let mut i: usize = 0;
    proof {
        assert(out@ =~= pids@.take(0).to_set());
    }
    while i < pids.len()
        invariant
            i <= pids@.len(),
            out@ == pids@.take(i as int).to_set(),
        decreases pids@.len() - i,
    {
        out.insert(pids[i]);
        i = i + 1;
        proof {
            let before = pids@.take(i - 1);
            let after = pids@.take(i as int);
            assert(after =~= before.push(pids@[i - 1]));
            assert forall|p: u32| after.to_set().contains(p) == before.to_set().insert(
                pids@[i - 1],
            ).contains(p) by {
                if before.contains(p) {
                    let k = choose|k: int| 0 <= k < before.len() && before[k] == p;
                    assert(after[k] == p);
                }
                assert(after[i - 1] == pids@[i - 1]);
            }
            assert(after.to_set() =~= before.to_set().insert(pids@[i - 1]));
        }
    }
    proof {
        assert(pids@.take(pids@.len() as int) =~= pids@);
    }
    out
}

/// The members of a set, and some more.
pub fn with_all(set: &HashSet<u32>, more: &Vec<u32>) -> (r: HashSet<u32>)
    ensures
        r@ == set@.union(more@.to_set()),
{
    let mut out = copy_of(set);
    let mut i: usize = 0;
    proof {
        assert(set@.union(more@.take(0).to_set()) =~= set@);
    }
    while i < more.len()
        invariant
            i <= more@.len(),
            out@ == set@.union(more@.take(i as int).to_set()),
        decreases more@.len() - i,
    {
        out.insert(more[i]);
        proof {
            let some = more@.take(i as int);
            let longer = more@.take(i + 1);
            assert(longer =~= some.push(more@[i as int]));
            assert forall|pid: u32| longer.to_set().contains(pid) <==> some.to_set().contains(pid)
                || pid == more@[i as int] by {
                if some.contains(pid) {
                    let k = some.index_of(pid);
                    assert(longer[k] == pid);
                }
                assert(longer[i as int] == more@[i as int]);
            }
            assert(out@ =~= set@.union(longer.to_set()));
        }
        i = i + 1;
    }
    proof {
        assert(more@.take(i as int) =~= more@);
    }
    out
}

/// A list of a set holds the members of the set and nothing else, as many as there are.
pub proof fn law_lists_hold_the_members(order: Seq<u32>, set: Set<u32>, pid: u32)
    requires
        lists(order, set),
    ensures
        order.contains(pid) <==> set.contains(pid),
        order.len() == set.len(),
        set.finite(),
{
    order.unique_seq_to_set();
    assert(order.to_set().contains(pid) <==> order.contains(pid));
}

} // verus!
