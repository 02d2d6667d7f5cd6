//! How many bytes the parts of a download have read.
use vstd::prelude::*;
use vstd::set_lib::{lemma_int_range, lemma_set_disjoint_lens, set_int_range};

use crate::part::Part;
use crate::tiling::{
    after_split, apart, covered, disjoint, holds, inside, law_split_cuts_in_two, tiles,
};

verus! {

/// How many bytes the parts have read.
pub open spec fn bytes_read(parts: Seq<Part>) -> int
    decreases parts.len(),
{
    if parts.len() == 0 {
        0
    } else {
        bytes_read(parts.drop_last()) + parts.last().current - parts.last().from
    }
}

/// How many bytes the ranges of the parts have.
pub open spec fn bytes_held(parts: Seq<Part>) -> int
    decreases parts.len(),
{
    if parts.len() == 0 {
        0
    } else {
        bytes_held(parts.drop_last()) + parts.last().to - parts.last().from + 1
    }
}

/// When one part is replaced, the bytes read change by what it has read more.
pub proof fn lemma_read_update(parts: Seq<Part>, i: int, p: Part)
    requires
        0 <= i < parts.len(),
    ensures
        bytes_read(parts.update(i, p)) == bytes_read(parts) - (parts[i].current - parts[i].from)
            + p.current - p.from,
    decreases parts.len(),
{
    let next = parts.update(i, p);
    if i == parts.len() - 1 {
        assert(next.drop_last() =~= parts.drop_last());
    } else {
        assert(next.drop_last() =~= parts.drop_last().update(i, p));
        lemma_read_update(parts.drop_last(), i, p);
    }
}

/// Splitting reads nothing.
pub proof fn law_split_reads_nothing(parts: Seq<Part>, i: int, min_delta: int)
    requires
        0 <= i < parts.len(),
        parts[i].wf(),
        parts[i].can_split(min_delta),
    ensures
        bytes_read(after_split(parts, i)) == bytes_read(parts),
{
    law_split_cuts_in_two(parts[i], min_delta);
    lemma_read_update(parts, i, parts[i].front_half());
    let next = after_split(parts, i);
    assert(next.drop_last() =~= parts.update(i, parts[i].front_half()));
}

/// Parts inside a file have read no more than they hold, and as much only if all of them
/// are complete; and they are no more than they have bytes.
pub proof fn lemma_read_is_held(parts: Seq<Part>, size: int)
    requires
        inside(parts, size),
    ensures
        0 <= bytes_read(parts) <= bytes_held(parts),
        bytes_read(parts) == bytes_held(parts) <==> forall|i: int|
            0 <= i < parts.len() ==> (#[trigger] parts[i]).spec_done(),
        parts.len() <= bytes_held(parts),
    decreases parts.len(),
{
    if parts.len() > 0 {
        let front = parts.drop_last();
        let p = parts[parts.len() - 1];
        assert(p.wf() && p.from <= p.to);
        assert(inside(front, size)) by {
            assert forall|i: int| 0 <= i < front.len() implies (#[trigger] front[i]).wf()
                && front[i].from <= front[i].to && front[i].to < size by {
                assert(front[i] == parts[i]);
            }
        }
        lemma_read_is_held(front, size);
        if bytes_read(parts) == bytes_held(parts) {
            assert forall|i: int| 0 <= i < parts.len() implies (
            #[trigger] parts[i]).spec_done() by {
                if i < front.len() {
                    assert(front[i].spec_done());
                }
            }
        }
        if forall|i: int| 0 <= i < parts.len() ==> (#[trigger] parts[i]).spec_done() {
            assert forall|i: int| 0 <= i < front.len() implies (
            #[trigger] front[i]).spec_done() by {
                assert(parts[i].spec_done());
            }
            assert(p.spec_done());
        }
    }
}

/// The bytes that belong to some part.
spec fn byte_set(parts: Seq<Part>) -> Set<int> {
    Set::new(|b: int| covered(parts, b))
}

/// As many bytes belong to parts without a common byte as the parts hold.
proof fn lemma_byte_set(parts: Seq<Part>, size: int)
    requires
        inside(parts, size),
        disjoint(parts),
    ensures
        byte_set(parts).finite(),
        byte_set(parts).len() == bytes_held(parts),
    decreases parts.len(),
{
    if parts.len() == 0 {
        assert(byte_set(parts) =~= Set::empty());
    } else {
        let front = parts.drop_last();
        let last = parts.len() - 1;
        let p = parts[last];
        assert(p.wf() && p.from <= p.to);
        assert forall|i: int| 0 <= i < front.len() implies (#[trigger] front[i]).wf()
            && front[i].from <= front[i].to && front[i].to < size by {
            assert(front[i] == parts[i]);
        }
        assert forall|i: int, j: int|
            0 <= i < front.len() && 0 <= j < front.len() && i != j implies apart(
            #[trigger] front[i],
            #[trigger] front[j],
        ) by {
            assert(apart(parts[i], parts[j]));
        }
        lemma_byte_set(front, size);
        let own = set_int_range(p.from as int, p.to + 1);
        lemma_int_range(p.from as int, p.to + 1);
        let both = byte_set(front) + own;
        assert forall|b: int| byte_set(parts).contains(b) == both.contains(b) by {
            if covered(parts, b) {
                let k = choose|k: int| 0 <= k < parts.len() && holds(#[trigger] parts[k], b);
                if k < last {
                    assert(holds(front[k], b));
                    assert(covered(front, b));
                }
            }
            if covered(front, b) {
                let k = choose|k: int| 0 <= k < front.len() && holds(#[trigger] front[k], b);
                assert(holds(parts[k], b));
            }
            if own.contains(b) {
                assert(holds(parts[last], b));
            }
        }
        assert(byte_set(parts) =~= both);
        assert(byte_set(front).disjoint(own)) by {
            assert forall|b: int| byte_set(front).contains(b) implies !own.contains(b) by {
                let k = choose|k: int| 0 <= k < front.len() && holds(#[trigger] front[k], b);
                assert(apart(parts[k], parts[last]));
            }
        }
        lemma_set_disjoint_lens(byte_set(front), own);
    }
}

/// Parts that tile a file hold as many bytes as the file has.
pub proof fn law_tiles_hold_the_file(parts: Seq<Part>, size: int)
    requires
        tiles(parts, size),
        size >= 0,
    ensures
        bytes_held(parts) == size,
{
    lemma_byte_set(parts, size);
    lemma_int_range(0, size);
    assert forall|b: int| byte_set(parts).contains(b) == set_int_range(0, size).contains(b) by {
        if covered(parts, b) {
            let k = choose|k: int| 0 <= k < parts.len() && holds(#[trigger] parts[k], b);
            assert(parts[k].wf() && parts[k].to < size);
        }
        if 0 <= b < size {
            assert(covered(parts, b));
        }
    }
    assert(byte_set(parts) =~= set_int_range(0, size));
}

/// A download never reads more than the file has; it has read as much exactly when every
/// part is complete.
pub proof fn law_all_is_read_when_complete(parts: Seq<Part>, size: int)
    requires
        tiles(parts, size),
        size >= 0,
    ensures
        0 <= bytes_read(parts) <= size,
        bytes_read(parts) == size <==> forall|i: int|
            0 <= i < parts.len() ==> (#[trigger] parts[i]).spec_done(),
        parts.len() <= size,
{
    law_tiles_hold_the_file(parts, size);
    lemma_read_is_held(parts, size);
}

} // verus!
