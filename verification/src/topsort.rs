//! Sorting the process list by CPU usage, highest first.

use crate::snapshot::CpuProcess;
use vstd::prelude::*;
use vstd::seq_lib::group_to_multiset_ensures;

verus! {

/// The sequence is ordered by CPU usage, highest first.
pub open spec fn sorted_desc(s: Seq<CpuProcess>) -> bool {
    forall|i: int, j: int| 0 <= i <= j < s.len() ==> s[i].cpu >= s[j].cpu
}

/// Sort the process list in place, highest CPU usage first. The result is
/// a permutation of the input; ties keep no particular order.
pub fn sort_top_desc(v: &mut Vec<CpuProcess>)
    ensures
        sorted_desc(final (v)@),
        final (v)@.to_multiset() == old(v)@.to_multiset(),
        final (v)@.len() == old(v)@.len(),
{
    let ghost orig = v@;
    let n = v.len();
    if n <= 1 {
        return ;
    }
    let mut i: usize = 1;
    while i < n
        invariant
            1 <= i <= n,
            n == v@.len(),
            v@.to_multiset() == orig.to_multiset(),
            orig.len() == v@.len(),
            sorted_desc(v@.subrange(0, i as int)),
        decreases n - i,
    {
        let mut j: usize = i;
        proof {
            assert forall|a: int, b: int|
                0 <= a < b <= i as int && b != j as int implies v@[a].cpu >= v@[b].cpu by {
                assert(v@.subrange(0, i as int)[a] == v@[a]);
                assert(v@.subrange(0, i as int)[b] == v@[b]);
            }
        }
        while j >= 1 && v[j - 1].cpu < v[j].cpu
            invariant
                0 <= j <= i < n,
                n == v@.len(),
                v@.to_multiset() == orig.to_multiset(),
                orig.len() == v@.len(),
                forall|a: int, b: int|
                    0 <= a < b <= i as int && b != j as int ==> v@[a].cpu >= v@[b].cpu,
            decreases j,
        {
            let ghost before = v@;
            let x = v.remove(j - 1);
            v.insert(j, x);
            proof {
                broadcast use group_to_multiset_ensures;

                assert(v@ =~= before.update(j - 1, before[j as int]).update(
                    j as int,
                    before[j - 1],
                ));
                assert(before.remove(j - 1).to_multiset() =~= before.to_multiset().remove(
                    before[j - 1],
                ));
                assert(v@.to_multiset() =~= before.to_multiset().remove(before[j - 1]).insert(
                    before[j - 1],
                ));
                assert(before.contains(before[j - 1]));
                assert(v@.to_multiset() =~= before.to_multiset());
            }
            j = j - 1;
        }
        proof {
            assert forall|a: int, b: int| 0 <= a <= b < i as int + 1 implies v@[a].cpu
                >= v@[b].cpu by {
                if a < b && b == j as int {
                    assert(j >= 1);
                    assert(v@[j - 1].cpu >= v@[j as int].cpu);
                    if a < j - 1 {
                        assert(v@[a].cpu >= v@[j - 1].cpu);
                    }
                }
            }
            assert(sorted_desc(v@.subrange(0, i as int + 1)));
        }
        i = i + 1;
    }
    proof {
        assert(v@.subrange(0, n as int) =~= v@);
    }
}

} // verus!
