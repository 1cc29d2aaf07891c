//! Choosing among root nodes: which of two roots of one writer is kept, and which writers'
//! tips make up the effective branch set.

use vstd::prelude::*;
use crate::version_vector::{vv_eq, vv_lt, VersionVector, VvOrder};

verus! {

/// Size of a root hash in bytes.
pub const HASH_SIZE: usize = 32;

/// What the choice between roots looks at: the version vector and the hash of the root.
pub struct RootSummary {
    pub vv: VersionVector,
    pub hash: [u8; HASH_SIZE],
}

/// `a` comes after `b` in lexicographic order.
pub open spec fn bytes_gt(a: Seq<u8>, b: Seq<u8>) -> bool {
    exists|i: int|
        0 <= i < a.len() && i < b.len() && a.subrange(0, i) == b.subrange(0, i) && a[i] > b[i]
}

/// Whether hash `a` comes after hash `b` in lexicographic order.
pub fn hash_greater(a: &[u8; HASH_SIZE], b: &[u8; HASH_SIZE]) -> (r: bool)
    ensures
        r == bytes_gt(a@, b@),
{
    let mut i: usize = 0;
    while i < HASH_SIZE
        invariant
            i <= HASH_SIZE,
            a@.len() == HASH_SIZE,
            b@.len() == HASH_SIZE,
            a@.subrange(0, i as int) == b@.subrange(0, i as int),
        decreases HASH_SIZE - i,
    {
        if a[i] != b[i] {
            let r = a[i] > b[i];
            proof {
                if !r {
                    assert forall|k: int|
                        0 <= k < a@.len() && k < b@.len() && a@.subrange(0, k) == b@.subrange(0, k)
                            implies !(a@[k] > b@[k]) by {
                        if k < i {
                            assert(a@.subrange(0, i as int)[k] == b@.subrange(0, i as int)[k]);
                        } else if k > i {
                            assert(a@.subrange(0, k)[i as int] == b@.subrange(0, k)[i as int]);
                        }
                    }
                }
            }
            return r;
        }
        i = i + 1;
        assert(a@.subrange(0, i as int) =~= a@.subrange(0, i - 1).push(a@[i - 1]));
        assert(b@.subrange(0, i as int) =~= b@.subrange(0, i - 1).push(b@[i - 1]));
    }
    proof {
        assert(a@ =~= b@) by {
            assert(a@ =~= a@.subrange(0, HASH_SIZE as int));
            assert(b@ =~= b@.subrange(0, HASH_SIZE as int));
        }
    }
    false
}

/// The rule for two roots of the same writer: the incoming root replaces the current one
/// when its version vector is higher, or equal with a larger hash.
pub open spec fn replaces(current: RootSummary, incoming: RootSummary) -> bool {
    vv_lt(current.vv, incoming.vv) || (vv_eq(current.vv, incoming.vv) && bytes_gt(
        incoming.hash@,
        current.hash@,
    ))
}

/// Whether `incoming` replaces `current` as the root of their writer; see `replaces`.
pub fn keep_incoming(current: &RootSummary, incoming: &RootSummary) -> (r: bool)
    requires
        current.vv.wf(),
        incoming.vv.wf(),
    ensures
        r == replaces(*current, *incoming),
{
    match current.vv.compare(&incoming.vv) {
        VvOrder::Less => true,
        VvOrder::Equal => hash_greater(&incoming.hash, &current.hash),
        _ => false,
    }
}

/// Of two roots of one writer whose version vectors are ordered and differ, the rule keeps
/// the one with the strictly greater version vector.
pub proof fn lemma_tip_strictly_greater(current: RootSummary, incoming: RootSummary)
    requires
        vv_lt(current.vv, incoming.vv) || vv_lt(incoming.vv, current.vv),
    ensures
        replaces(current, incoming) ==> vv_lt(current.vv, incoming.vv),
        !replaces(current, incoming) ==> vv_lt(incoming.vv, current.vv),
{
    if vv_lt(incoming.vv, current.vv) {
        let w = choose|w: Seq<u8>| !(current.vv.spec_get(w) <= incoming.vv.spec_get(w));
        assert(!vv_eq(current.vv, incoming.vv)) by {
            assert(current.vv.spec_get(w) != incoming.vv.spec_get(w));
        }
    }
}

/// Which tips belong to the effective branch set: those whose version vector is below
/// no other tip's.
pub fn effective_branches(tips: &Vec<RootSummary>) -> (r: Vec<bool>)
    requires
        forall|i: int| 0 <= i < tips@.len() ==> #[trigger] tips@[i].vv.wf(),
    ensures
        r@.len() == tips@.len(),
        forall|i: int|
            0 <= i < r@.len() ==> (#[trigger] r@[i] <==> forall|j: int|
                0 <= j < tips@.len() && j != i ==> !vv_lt(tips@[i].vv, #[trigger] tips@[j].vv)),
{
    let mut r: Vec<bool> = Vec::new();
    let mut i: usize = 0;
    while i < tips.len()
        invariant
            i <= tips@.len(),
            forall|k: int| 0 <= k < tips@.len() ==> #[trigger] tips@[k].vv.wf(),
            r@.len() == i,
            forall|k: int|
                0 <= k < i ==> (#[trigger] r@[k] <==> forall|j: int|
                    0 <= j < tips@.len() && j != k ==> !vv_lt(tips@[k].vv, #[trigger] tips@[j].vv)),
        decreases tips@.len() - i,
    {
        let mut dominated = false;
        let mut j: usize = 0;
        while j < tips.len()
            invariant
                i < tips@.len(),
                j <= tips@.len(),
                forall|k: int| 0 <= k < tips@.len() ==> #[trigger] tips@[k].vv.wf(),
                dominated == exists|m: int|
                    0 <= m < j && m != i && vv_lt(tips@[i as int].vv, #[trigger] tips@[m].vv),
            decreases tips@.len() - j,
        {
            if j != i {
                let below = tips[i].vv.le(&tips[j].vv);
                let above = tips[j].vv.le(&tips[i].vv);
                if below && !above {
                    dominated = true;
                }
            }
            j = j + 1;
        }
        r.push(!dominated);
        i = i + 1;
    }
    r
}

/// Whether a root of writer `writer` may be pruned: it is not that writer's latest root,
/// and the tip of some other writer has a counter for `writer` at least as high as the
/// root's own.
pub fn may_prune(root: &RootSummary, writer: &[u8], is_latest: bool, other_tips: &Vec<RootSummary>) -> (r: bool)
    requires
        root.vv.wf(),
        forall|i: int| 0 <= i < other_tips@.len() ==> #[trigger] other_tips@[i].vv.wf(),
    ensures
        r == (!is_latest && exists|j: int|
            0 <= j < other_tips@.len() && #[trigger] other_tips@[j].vv.spec_get(writer@)
                >= root.vv.spec_get(writer@)),
{
    let own = root.vv.get(writer);
    let mut found = false;
    let mut j: usize = 0;
    while j < other_tips.len()
        invariant
            j <= other_tips@.len(),
            own == root.vv.spec_get(writer@),
            forall|i: int| 0 <= i < other_tips@.len() ==> #[trigger] other_tips@[i].vv.wf(),
            found == exists|k: int| 0 <= k < j && #[trigger] other_tips@[k].vv.spec_get(writer@) >= own,
        decreases other_tips@.len() - j,
    {
        if other_tips[j].vv.get(writer) >= own {
            found = true;
        }
        j = j + 1;
    }
    !is_latest && found
}

/// Index of the root that the keep rule leaves as tip after the roots of one writer arrive
/// in the order of `roots`.
pub open spec fn tip_index(roots: Seq<RootSummary>) -> int
    decreases roots.len(),
{
    if roots.len() <= 1 {
        0
    } else {
        let t = tip_index(roots.drop_last());
        if replaces(roots[t], roots.last()) {
            roots.len() - 1
        } else {
            t
        }
    }
}

proof fn lemma_vv_lt_transitive(a: VersionVector, b: VersionVector, c: VersionVector)
    requires
        vv_lt(a, b),
        vv_lt(b, c),
    ensures
        vv_lt(a, c),
{
    let w = choose|w: Seq<u8>| !(b.spec_get(w) <= a.spec_get(w));
    assert(a.spec_get(w) <= b.spec_get(w) && b.spec_get(w) <= c.spec_get(w));
    assert(!(c.spec_get(w) <= a.spec_get(w)));
}

/// Whatever order a writer's roots arrive in, the tip the keep rule leaves has a version
/// vector strictly above that of every other root of the writer, provided their version
/// vectors are pairwise ordered and different, as the roots of one writer are (roots with
/// equal version vectors are told apart by hash and left out here).
pub proof fn lemma_tip_above_all(roots: Seq<RootSummary>)
    requires
        roots.len() >= 1,
        forall|i: int, j: int|
            0 <= i < roots.len() && 0 <= j < roots.len() && i != j ==> vv_lt(#[trigger] roots[i].vv, #[trigger] roots[j].vv)
                || vv_lt(roots[j].vv, roots[i].vv),
    ensures
        0 <= tip_index(roots) < roots.len(),
        forall|j: int| 0 <= j < roots.len() && j != tip_index(roots) ==> vv_lt(#[trigger] roots[j].vv, roots[tip_index(roots)].vv),
    decreases roots.len(),
{
    if roots.len() > 1 {
        let prefix = roots.drop_last();
        assert forall|i: int, j: int|
            0 <= i < prefix.len() && 0 <= j < prefix.len() && i != j implies vv_lt(#[trigger] prefix[i].vv, #[trigger] prefix[j].vv)
                || vv_lt(prefix[j].vv, prefix[i].vv) by {
            assert(prefix[i] == roots[i] && prefix[j] == roots[j]);
        }
        lemma_tip_above_all(prefix);
        let t = tip_index(prefix);
        let n = roots.len() - 1;
        assert(roots[t] == prefix[t]);
        assert(vv_lt(roots[t].vv, roots[n].vv) || vv_lt(roots[n].vv, roots[t].vv));
        lemma_tip_strictly_greater(roots[t], roots[n]);
        if replaces(roots[t], roots[n]) {
            assert forall|j: int| 0 <= j < roots.len() && j != n implies vv_lt(#[trigger] roots[j].vv, roots[n].vv) by {
                if j != t {
                    assert(roots[j] == prefix[j]);
                    lemma_vv_lt_transitive(roots[j].vv, roots[t].vv, roots[n].vv);
                }
            }
        } else {
            assert forall|j: int| 0 <= j < roots.len() && j != t implies vv_lt(#[trigger] roots[j].vv, roots[t].vv) by {
                if j != n {
                    assert(roots[j] == prefix[j]);
                }
            }
        }
    }
}

} // verus!
