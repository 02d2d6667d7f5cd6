//! The even split that a fresh download starts from.
use vstd::prelude::*;

use crate::part::{max_int, min_int};

verus! {

/// The number of ranges: as many as allowed, but no more than there are blocks of
/// `min_part_size` bytes (the last block may be short).
pub open spec fn range_count(size: int, min_part_size: int, max_part_count: int) -> int {
    let min_size = max_int(min_part_size, 1);
    min_int(max_int(max_part_count, 1), (size + min_size - 1) / min_size)
}

/// Where range `i` of `count` starts: the remainder of the division goes to the first
/// ranges, one byte each.
pub open spec fn range_start(size: int, count: int, i: int) -> int {
    i * (size / count) + min_int(i, size % count)
}

/// Range `i` of `count` as a closed interval.
pub open spec fn range_at(size: int, count: int, i: int) -> (i64, i64) {
    (range_start(size, count, i) as i64, (range_start(size, count, i + 1) - 1) as i64)
}

/// The even split of `[0, size)` into `count` closed intervals.
pub open spec fn even_ranges(size: int, count: int) -> Seq<(i64, i64)> {
    Seq::new(count as nat, |i: int| range_at(size, count, i))
}

/// Each range is nonempty and the ranges follow each other without a gap.
pub open spec fn contiguous(ranges: Seq<(i64, i64)>) -> bool {
    &&& forall|i: int| 0 <= i < ranges.len() ==> (#[trigger] ranges[i]).0 <= ranges[i].1
    &&& forall|i: int, j: int|
        0 <= i < ranges.len() && j == i + 1 && j < ranges.len() ==> (#[trigger] ranges[j]).0 == (
        #[trigger] ranges[i]).1 + 1
}

/// There is at least one range, and no more ranges than bytes.
proof fn lemma_range_count(size: int, min_part_size: int, max_part_count: int)
    requires
        size > 0,
    ensures
        1 <= range_count(size, min_part_size, max_part_count) <= size,
{
    let m = max_int(min_part_size, 1);
    assert(1 <= (size + m - 1) / m <= size) by (nonlinear_arith)
        requires
            size > 0,
            m >= 1,
    ;
}

/// The number of blocks, counted without the sum of the two sizes.
proof fn lemma_block_count(size: int, m: int)
    requires
        size > 0,
        m >= 1,
    ensures
        (size + m - 1) / m == (size - 1) / m + 1,
        0 <= (size - 1) / m < size,
{
    assert((size - 1 + m) / m == (size - 1) / m + 1) by (nonlinear_arith)
        requires
            m >= 1,
    ;
    assert(0 <= (size - 1) / m <= size - 1) by (nonlinear_arith)
        requires
            size > 0,
            m >= 1,
    ;
}

/// The starts are spaced by the quotient, or one more while the remainder lasts; they
/// begin at zero and end at `size`.
proof fn lemma_range_starts(size: int, count: int)
    requires
        1 <= count <= size,
    ensures
        size / count >= 1,
        range_start(size, count, 0) == 0,
        range_start(size, count, count) == size,
        forall|i: int|
            0 <= i < count ==> #[trigger] range_start(size, count, i + 1) == range_start(
                size,
                count,
                i,
            ) + size / count + (if i < size % count {
                1int
            } else {
                0int
            }),
        forall|i: int| 0 <= i <= count ==> 0 <= #[trigger] range_start(size, count, i) <= size,
{
    let ideal = size / count;
    assert(ideal >= 1) by (nonlinear_arith)
        requires
            1 <= count <= size,
            ideal == size / count,
    ;
    assert(count * ideal + size % count == size && 0 <= size % count < count)
        by (nonlinear_arith)
        requires
            1 <= count,
            ideal == size / count,
    ;
    assert forall|i: int| 0 <= i < count implies #[trigger] range_start(size, count, i + 1)
        == range_start(size, count, i) + ideal + (if i < size % count {
        1int
    } else {
        0int
    }) by {
        assert((i + 1) * ideal == i * ideal + ideal) by (nonlinear_arith);
    }
    assert forall|i: int| 0 <= i <= count implies 0 <= #[trigger] range_start(size, count, i)
        <= size by {
        assert(0 <= i * ideal <= count * ideal) by (nonlinear_arith)
            requires
                0 <= i <= count,
                ideal >= 1,
        ;
    }
}

/// The even split begins at byte 0, ends at the last byte and leaves no gap, and no
/// two of its ranges differ by more than one byte in length.
pub proof fn law_even_split_covers(size: i64, min_part_size: i64, max_part_count: usize)
    requires
        size > 0,
    ensures
        ({
            let count = range_count(size as int, min_part_size as int, max_part_count as int);
            let ranges = even_ranges(size as int, count);
            &&& ranges.len() == count
            &&& 1 <= ranges.len() <= max_int(max_part_count as int, 1)
            &&& ranges[0].0 == 0
            &&& ranges[ranges.len() - 1].1 == size - 1
            &&& contiguous(ranges)
            &&& forall|i: int, j: int|
                0 <= i < ranges.len() && 0 <= j < ranges.len() ==> (#[trigger] ranges[i]).1
                    - ranges[i].0 <= (#[trigger] ranges[j]).1 - ranges[j].0 + 1
        }),
{
    let size = size as int;
    let count = range_count(size, min_part_size as int, max_part_count as int);
    lemma_range_count(size, min_part_size as int, max_part_count as int);
    lemma_range_starts(size, count);
    let ranges = even_ranges(size, count);
    assert forall|i: int| 0 <= i < count implies (#[trigger] ranges[i]).0 == range_start(
        size,
        count,
        i,
    ) && ranges[i].1 == range_start(size, count, i + 1) - 1 by {
        assert(0 <= range_start(size, count, i) <= size);
        assert(0 <= range_start(size, count, i + 1) <= size);
        assert(range_start(size, count, i + 1) >= range_start(size, count, i) + 1);
    }
    assert(ranges[count - 1].1 == range_start(size, count, (count - 1) + 1) - 1);
}

/// Cuts `[0, size)` into ranges (closed intervals) that are as even as possible.
///
/// The number of ranges is bounded by `min_part_size` and by `max_part_count`. The
/// remainder goes to the first ranges, so lengths differ by at most one byte.
pub fn split_to_range(size: i64, min_part_size: i64, max_part_count: usize) -> (ranges: Vec<
    (i64, i64),
>)
    ensures
        size <= 0 ==> ranges@.len() == 0,
        size > 0 ==> ranges@ == even_ranges(
            size as int,
            range_count(size as int, min_part_size as int, max_part_count as int),
        ),
{
    if size <= 0 {
        return Vec::new();
    }
    let min_part_size: i64 = if min_part_size >= 1 { min_part_size } else { 1 };
    let max_part_count: usize = if max_part_count >= 1 { max_part_count } else { 1 };

    // how many blocks of the minimum size there are; the last one may be short
    let full: i64 = (size - 1) / min_part_size;
    proof {
        lemma_block_count(size as int, min_part_size as int);
        lemma_range_count(size as int, min_part_size as int, max_part_count as int);
    }
    let min_parts: i64 = full + 1;
    let actual: i64 = if max_part_count as u64 <= min_parts as u64 {
        max_part_count as i64
    } else {
        min_parts
    };
    let ghost count = range_count(size as int, min_part_size as int, max_part_count as int);
    proof {
        assert(actual == count);
        lemma_range_starts(size as int, count);
    }

    let ideal: i64 = size / actual;
    let rem: i64 = size % actual;

    let mut ranges: Vec<(i64, i64)> = Vec::new();
    let mut start: i64 = 0;
    let mut i: i64 = 0;
    while i < actual
        invariant
            0 <= i <= actual,
            actual == count,
            1 <= count <= size,
            ideal == size as int / count,
            ideal >= 1,
            rem == size as int % count,
            start == range_start(size as int, count, i as int),
            ranges@.len() == i,
            ranges@ =~= even_ranges(size as int, count).take(i as int),
            forall|k: int|
                0 <= k < count ==> #[trigger] range_start(size as int, count, k + 1)
                    == range_start(size as int, count, k) + size as int / count + (if k < size
                    as int % count {
                    1int
                } else {
                    0int
                }),
            forall|k: int|
                0 <= k <= count ==> 0 <= #[trigger] range_start(size as int, count, k) <= size,
        decreases actual - i,
    {
        assert(range_start(size as int, count, i + 1) <= size);
        let mut length: i64 = ideal;
        if i < rem {
            length = length + 1;
        }
        let end: i64 = start + length - 1;
        assert(even_ranges(size as int, count)[i as int] == (start, end));
        ranges.push((start, end));
        start = end + 1;
        i = i + 1;
    }
    ranges
}

/// There are as many ranges as allowed, as long as none has to be smaller than the
/// smallest size: with one range less, the smallest size would not cover the file, and
/// where fewer than allowed are made, they are as many as it takes to cover it.
pub proof fn law_number_of_ranges(size: i64, min_part_size: i64, max_part_count: usize)
    requires
        size > 0,
    ensures
        ({
            let n = range_count(size as int, min_part_size as int, max_part_count as int);
            let smallest = if min_part_size < 1 {
                1int
            } else {
                min_part_size as int
            };
            &&& n >= 1
            &&& n <= max_part_count || n == 1
            &&& (n - 1) * smallest < size
            &&& n < max_part_count ==> n * smallest >= size
            &&& even_ranges(size as int, n).len() == n
        }),
{
    let m = if min_part_size < 1 {
        1int
    } else {
        min_part_size as int
    };
    let size = size as int;
    lemma_range_count(size, min_part_size as int, max_part_count as int);
    let n = range_count(size, min_part_size as int, max_part_count as int);
    let blocks = (size + m - 1) / m;
    assert(blocks * m >= size && (blocks - 1) * m < size) by (nonlinear_arith)
        requires
            blocks == (size + m - 1) / m,
            m >= 1,
    ;
    assert((n - 1) * m <= (blocks - 1) * m) by (nonlinear_arith)
        requires
            n <= blocks,
            m >= 1,
    ;
}

/// The remainder goes to the first ranges: no range is shorter than a later one, and none
/// is longer by more than one byte.
pub proof fn law_longer_ranges_come_first(
    size: i64,
    min_part_size: i64,
    max_part_count: usize,
    i: int,
    j: int,
)
    requires
        size > 0,
        0 <= i <= j < range_count(size as int, min_part_size as int, max_part_count as int),
    ensures
        ({
            let ranges = even_ranges(
                size as int,
                range_count(size as int, min_part_size as int, max_part_count as int),
            );
            0 <= (ranges[i].1 - ranges[i].0) - (ranges[j].1 - ranges[j].0) <= 1
        }),
{
    let size = size as int;
    let count = range_count(size, min_part_size as int, max_part_count as int);
    lemma_range_count(size, min_part_size as int, max_part_count as int);
    lemma_range_starts(size, count);
    let ranges = even_ranges(size, count);
    assert forall|k: int| 0 <= k < count implies (#[trigger] ranges[k]).1 - ranges[k].0
        == range_start(size, count, k + 1) - 1 - range_start(size, count, k) by {
        assert(0 <= range_start(size, count, k) <= size);
        assert(0 <= range_start(size, count, k + 1) <= size);
        assert(range_start(size, count, k + 1) >= range_start(size, count, k) + 1);
    }
    assert(ranges[i].1 - ranges[i].0 == range_start(size, count, i + 1) - 1 - range_start(
        size,
        count,
        i,
    ));
    assert(ranges[j].1 - ranges[j].0 == range_start(size, count, j + 1) - 1 - range_start(
        size,
        count,
        j,
    ));
}

} // verus!
