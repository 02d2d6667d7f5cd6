//! Segments that tile a file: every byte belongs to exactly one of them.
use vstd::prelude::*;

use crate::part::Part;

verus! {

/// Byte `b` belongs to the range of part `p`.
pub open spec fn holds(p: Part, b: int) -> bool {
    p.from <= b <= p.to
}

/// Two parts have no byte in common.
pub open spec fn apart(p: Part, q: Part) -> bool {
    p.to < q.from || q.to < p.from
}

/// Every part is well formed, has at least one byte, and ends inside the file.
pub open spec fn inside(parts: Seq<Part>, size: int) -> bool {
    forall|i: int|
        0 <= i < parts.len() ==> (#[trigger] parts[i]).wf() && parts[i].from <= parts[i].to
            && parts[i].to < size
}

/// No two parts have a byte in common.
pub open spec fn disjoint(parts: Seq<Part>) -> bool {
    forall|i: int, j: int|
        0 <= i < parts.len() && 0 <= j < parts.len() && i != j ==> apart(
            #[trigger] parts[i],
            #[trigger] parts[j],
        )
}

/// Byte `b` belongs to some part.
pub open spec fn covered(parts: Seq<Part>, b: int) -> bool {
    exists|i: int| 0 <= i < parts.len() && holds(#[trigger] parts[i], b)
}

/// The parts tile a file of `size` bytes: they lie inside it, have no byte in common,
/// and leave no byte out.
pub open spec fn tiles(parts: Seq<Part>, size: int) -> bool {
    &&& inside(parts, size)
    &&& disjoint(parts)
    &&& forall|b: int| 0 <= b < size ==> #[trigger] covered(parts, b)
}

/// The parts after part `i` has been split and its back half put at the end.
pub open spec fn after_split(parts: Seq<Part>, i: int) -> Seq<Part> {
    parts.update(i, parts[i].front_half()).push(parts[i].back_half())
}

/// A split cuts a range in two: the halves follow each other, together they are the
/// whole range, what has been read and what is claimed stays in the front half, and
/// nothing of the back half has been read.
pub proof fn law_split_cuts_in_two(p: Part, min_delta: int)
    requires
        p.wf(),
        p.can_split(min_delta),
    ensures
        p.front_half().wf(),
        p.back_half().wf(),
        p.front_half().from == p.from,
        p.back_half().from == p.front_half().to + 1,
        p.back_half().to == p.to,
        p.front_half().from <= p.front_half().to,
        p.back_half().from <= p.back_half().to,
        p.front_half().current == p.current,
        p.front_half().safe_zone == p.safe_zone,
        p.safe_zone <= p.front_half().to,
        p.front_half().allowed() == p.allowed(),
        p.back_half().current == p.back_half().from,
        p.back_half().allowed() == 0,
{
}

/// Splitting a part keeps the tiling.
pub proof fn law_split_keeps_tiling(parts: Seq<Part>, size: int, i: int, min_delta: int)
    requires
        tiles(parts, size),
        0 <= i < parts.len(),
        parts[i].can_split(min_delta),
    ensures
        tiles(after_split(parts, i), size),
{
    let next = after_split(parts, i);
    let n = parts.len() as int;
    law_split_cuts_in_two(parts[i], min_delta);
    assert forall|k: int| 0 <= k < n && k != i implies next[k] == parts[k] by {}
    assert(next[i] == parts[i].front_half());
    assert(next[n] == parts[i].back_half());
    assert forall|j: int, k: int|
        0 <= j < next.len() && 0 <= k < next.len() && j != k implies apart(
        #[trigger] next[j],
        #[trigger] next[k],
    ) by {
        let pj = if j == n {
            i
        } else {
            j
        };
        let pk = if k == n {
            i
        } else {
            k
        };
        if pj != pk {
            assert(apart(parts[pj], parts[pk]));
        }
    }
    assert forall|b: int| 0 <= b < size implies #[trigger] covered(next, b) by {
        assert(covered(parts, b));
        let k = choose|k: int| 0 <= k < parts.len() && holds(#[trigger] parts[k], b);
        if k != i {
            assert(holds(next[k], b));
        } else if b <= parts[i].front_half().to {
            assert(holds(next[i], b));
        } else {
            assert(holds(next[n], b));
        }
    }
}

/// Replacing a part by one with the same range keeps the tiling: reading and claiming
/// bytes move no boundary.
pub proof fn law_same_range_keeps_tiling(parts: Seq<Part>, size: int, i: int, p: Part)
    requires
        tiles(parts, size),
        0 <= i < parts.len(),
        p.wf(),
        p.from == parts[i].from,
        p.to == parts[i].to,
    ensures
        tiles(parts.update(i, p), size),
{
    let next = parts.update(i, p);
    assert forall|j: int, k: int|
        0 <= j < next.len() && 0 <= k < next.len() && j != k implies apart(
        #[trigger] next[j],
        #[trigger] next[k],
    ) by {
        assert(apart(parts[j], parts[k]));
    }
    assert forall|b: int| 0 <= b < size implies #[trigger] covered(next, b) by {
        assert(covered(parts, b));
        let k = choose|k: int| 0 <= k < parts.len() && holds(#[trigger] parts[k], b);
        assert(holds(next[k], b));
    }
}

/// Parts with equal ranges, one by one, tile the same file.
pub proof fn lemma_equal_ranges_tile(parts: Seq<Part>, others: Seq<Part>, size: int)
    requires
        tiles(parts, size),
        others.len() == parts.len(),
        forall|i: int|
            0 <= i < parts.len() ==> (#[trigger] others[i]).wf() && others[i].from
                == parts[i].from && others[i].to == parts[i].to,
    ensures
        tiles(others, size),
{
    assert forall|j: int, k: int|
        0 <= j < others.len() && 0 <= k < others.len() && j != k implies apart(
        #[trigger] others[j],
        #[trigger] others[k],
    ) by {
        assert(apart(parts[j], parts[k]));
    }
    assert forall|b: int| 0 <= b < size implies #[trigger] covered(others, b) by {
        assert(covered(parts, b));
        let k = choose|k: int| 0 <= k < parts.len() && holds(#[trigger] parts[k], b);
        assert(holds(others[k], b));
    }
}

/// A split changes one part and adds one at the end; all others stay as they are.
pub proof fn law_split_touches_one_part(parts: Seq<Part>, i: int, k: int)
    requires
        0 <= i < parts.len(),
        0 <= k < parts.len(),
    ensures
        after_split(parts, i).len() == parts.len() + 1,
        k != i ==> after_split(parts, i)[k] == parts[k],
        after_split(parts, i)[i] == parts[i].front_half(),
        after_split(parts, i).last() == parts[i].back_half(),
{
}

} // verus!
