//! A download segment and its safe zone.
use vstd::prelude::*;

verus! {

/// How far the safe zone moves at a time, and the smallest unclaimed remainder
/// that may still be split off (1 MiB).
pub const SAFETY_STEP: i64 = 1048576;

/// The smaller of two integers.
pub open spec fn min_int(a: int, b: int) -> int {
    if a <= b {
        a
    } else {
        b
    }
}

/// The larger of two integers.
pub open spec fn max_int(a: int, b: int) -> int {
    if a >= b {
        a
    } else {
        b
    }
}

/// A download task for the closed byte range `[from, to]`.
///
/// Bytes are only read up to `safe_zone`, which moves forward as the download
/// proceeds. Whatever lies beyond it is unclaimed: it can be handed to a new part
/// without ever touching a range that is being read.
#[derive(Debug, Clone, Copy)]
pub struct Part {
    pub from: i64,
    pub to: i64,
    pub current: i64,
    pub safe_zone: i64,
}

impl Part {
    /// The part lies inside a file, has read nothing before `from`, and has read
    /// nothing beyond the safe zone, which itself stays inside the part.
    pub open spec fn wf(self) -> bool {
        &&& 0 <= self.from <= self.current
        &&& self.current <= self.safe_zone + 1
        &&& self.safe_zone <= self.to < i64::MAX
    }

    /// The part is well formed, or it is complete, claims all it has, and its numbers
    /// are small enough to compute with.
    pub open spec fn sound(self) -> bool {
        self.wf() || (self.spec_done() && i64::MIN <= self.unclaimed() <= 0)
    }

    /// The part that covers `[from, to]` with nothing read and nothing claimed.
    pub open spec fn spec_new(from: i64, to: i64) -> Part {
        Part { from, to, current: from, safe_zone: (from - 1) as i64 }
    }

    /// The part that covers `[from, to]` and resumes at `current`.
    pub open spec fn spec_new_with(from: i64, to: i64, current: i64) -> Part {
        if current > from {
            Part { from, to, current, safe_zone: (current - 1) as i64 }
        } else {
            Part::spec_new(from, to)
        }
    }

    /// All bytes of the range have been read.
    pub open spec fn spec_done(self) -> bool {
        self.current > self.to
    }

    /// How many bytes of the range have not been read.
    pub open spec fn remaining(self) -> int {
        self.to - self.current + 1
    }

    /// How many bytes may be read before the safe zone has to move.
    pub open spec fn allowed(self) -> int {
        max_int(self.safe_zone + 1 - self.current, 0)
    }

    /// Where the safe zone stands after one step: a step (or what is left, if that is
    /// less) further, but not beyond the end of the range.
    pub open spec fn next_safe_zone(self) -> int {
        min_int(self.safe_zone + min_int(self.remaining(), SAFETY_STEP as int), self.to as int)
    }

    /// The safe zone has room to move.
    pub open spec fn can_extend(self) -> bool {
        self.remaining() > 0 && self.next_safe_zone() != self.safe_zone
    }

    /// The part after its safe zone has moved one step, or the part itself if it cannot.
    pub open spec fn extended(self) -> Part {
        if self.can_extend() {
            Part { safe_zone: self.next_safe_zone() as i64, ..self }
        } else {
            self
        }
    }

    /// The computations of one safe zone step stay inside `i64`.
    pub open spec fn extend_fits(self) -> bool {
        &&& i64::MIN <= self.to - self.current
        &&& self.remaining() <= i64::MAX
        &&& self.remaining() > 0 ==> self.safe_zone + min_int(
            self.remaining(),
            SAFETY_STEP as int,
        ) <= i64::MAX
    }

    /// The computations of asking for `want` bytes stay inside `i64`, and so do those of
    /// the step where less may be read.
    pub open spec fn read_fits(self, want: int) -> bool {
        &&& self.safe_zone < i64::MAX
        &&& i64::MIN <= self.safe_zone + 1 - self.current <= i64::MAX
        &&& self.allowed() < want ==> {
            &&& self.extend_fits()
            &&& self.extended().safe_zone < i64::MAX
            &&& i64::MIN <= self.extended().safe_zone + 1 - self.current <= i64::MAX
        }
    }

    /// The computations of finding out what to do next with the part stay inside `i64`.
    pub open spec fn next_fits(self) -> bool {
        !self.spec_done() ==> {
            &&& self.safe_zone < i64::MAX
            &&& i64::MIN <= self.safe_zone + 1 - self.current <= i64::MAX
            &&& self.allowed() == 0 ==> self.extend_fits()
        }
    }

    /// How many bytes lie beyond the safe zone.
    pub open spec fn unclaimed(self) -> int {
        self.to - self.safe_zone
    }

    /// The unclaimed bytes are enough for a split at `min_delta`.
    pub open spec fn can_split(self, min_delta: int) -> bool {
        self.unclaimed() >= max_int(min_delta, SAFETY_STEP as int)
    }

    /// The last byte of the front half: the safe zone plus half of the unclaimed bytes,
    /// rounded up.
    pub open spec fn split_point(self) -> int {
        self.safe_zone + (self.unclaimed() + 1) / 2
    }

    /// The front half of a split.
    pub open spec fn front_half(self) -> Part {
        Part { to: self.split_point() as i64, ..self }
    }

    /// The back half of a split.
    pub open spec fn back_half(self) -> Part {
        Part::spec_new((self.split_point() + 1) as i64, self.to)
    }

    pub fn new(from: i64, to: i64) -> (p: Self)
        requires
            from > i64::MIN,
        ensures
            p == Part::spec_new(from, to),
            0 <= from <= to + 1 && to < i64::MAX ==> p.wf(),
    {
        Part { from, to, current: from, safe_zone: from - 1 }
    }

    /// For resuming: takes along how far the part had come.
    pub fn new_with(from: i64, to: i64, current: i64) -> (p: Self)
        requires
            from > i64::MIN,
        ensures
            p == Part::spec_new_with(from, to, current),
            0 <= from <= to + 1 && current <= to + 1 && to < i64::MAX ==> p.wf(),
    {
        let mut p = Part::new(from, to);
        if current > from {
            p.current = current;
            p.safe_zone = current - 1;
        }
        p
    }

    pub fn done(&self) -> (b: bool)
        ensures
            b == self.spec_done(),
    {
        self.current > self.to
    }

    pub fn advance(&mut self, n: i64)
        requires
            i64::MIN <= old(self).current + n <= i64::MAX,
        ensures
            *final(self) == (Part { current: (old(self).current + n) as i64, ..*old(self) }),
            old(self).wf() && 0 <= n <= old(self).allowed() ==> final(self).wf(),
    {
        self.current = self.current + n;
    }

    /// Moves the safe zone one step; returns whether it moved.
    pub fn extend_safe_zone(&mut self) -> (moved: bool)
        requires
            old(self).extend_fits(),
        ensures
            moved == old(self).can_extend(),
            *final(self) == old(self).extended(),
            old(self).wf() ==> final(self).wf(),
            // a part that has read all it was allowed to, and is not done, gets at least
            // one byte and at most one step
            old(self).wf() && old(self).allowed() == 0 && !old(self).spec_done() ==> moved && 1
                <= final(self).allowed() <= SAFETY_STEP,
    {
        let remaining: i64 = self.to - self.current + 1;
        if remaining <= 0 {
            return false;
        }
        let step: i64 = if remaining <= SAFETY_STEP { remaining } else { SAFETY_STEP };
        let old_zone: i64 = self.safe_zone;
        let ahead: i64 = old_zone + step;
        let zone: i64 = if ahead <= self.to { ahead } else { self.to };
        if zone == old_zone {
            return false;
        }
        self.safe_zone = zone;
        true
    }

    /// How many bytes may be read now; moves the safe zone when that is less than wanted.
    pub fn how_much_can_read(&mut self, want: i64) -> (n: i64)
        requires
            old(self).read_fits(want as int),
        ensures
            n == final(self).allowed(),
            *final(self) == (if old(self).allowed() < want {
                old(self).extended()
            } else {
                *old(self)
            }),
            old(self).wf() ==> final(self).wf(),
    {
        let gap: i64 = self.safe_zone + 1 - self.current;
        let mut rem: i64 = if gap >= 0 { gap } else { 0 };
        if rem < want && self.extend_safe_zone() {
            let gap: i64 = self.safe_zone + 1 - self.current;
            rem = if gap >= 0 { gap } else { 0 };
        }
        rem
    }

    /// How many bytes are unclaimed and can be split off.
    pub fn splittable_delta(&self) -> (d: i64)
        requires
            i64::MIN <= self.unclaimed() <= i64::MAX,
        ensures
            d == max_int(self.unclaimed(), 0),
    {
        let d: i64 = self.to - self.safe_zone;
        if d >= 0 { d } else { 0 }
    }

    /// Splits only when at least `min_delta` bytes are unclaimed; returns the new back half.
    pub fn split_at_least(&mut self, min_delta: i64) -> (np: Option<Part>)
        requires
            i64::MIN <= old(self).unclaimed() <= i64::MAX,
        ensures
            np is Some <==> old(self).can_split(min_delta as int),
            np matches Some(back) ==> {
                &&& back == old(self).back_half()
                &&& *final(self) == old(self).front_half()
            },
            np is None ==> *final(self) == *old(self),
            old(self).wf() ==> final(self).wf(),
            old(self).wf() && np is Some ==> np->0.wf(),
    {
        let min_delta: i64 = if min_delta >= SAFETY_STEP { min_delta } else { SAFETY_STEP };
        if self.to - self.safe_zone < min_delta {
            return None;
        }
        let delta: i64 = self.to - self.safe_zone;
        let mid: i64 = self.safe_zone + delta / 2 + delta % 2;
        if mid + 1 > self.to {
            return None;
        }
        let np = Part::new(mid + 1, self.to);
        self.to = mid;
        Some(np)
    }
}

// ---------------------------------------------------------------- laws

/// The larger of two integers is one of them, and no smaller than either; likewise the
/// smaller one.
pub proof fn law_larger_and_smaller(a: int, b: int)
    ensures
        max_int(a, b) >= a && max_int(a, b) >= b && (max_int(a, b) == a || max_int(a, b) == b),
        min_int(a, b) <= a && min_int(a, b) <= b && (min_int(a, b) == a || min_int(a, b) == b),
{
}

/// A new part has its range and stands at its start, or where it had come to; nothing
/// beyond that is claimed.
pub proof fn law_new_part(from: i64, to: i64, current: i64)
    requires
        from > i64::MIN,
    ensures
        ({
            let p = Part::spec_new_with(from, to, current);
            &&& p.from == from
            &&& p.to == to
            &&& p.current >= from
            &&& p.current == from || p.current == current
            &&& p.current >= current
            &&& p.safe_zone == p.current - 1
            &&& current <= from ==> Part::spec_new(from, to) == p
        }),
        Part::spec_new(from, to).from == from,
        Part::spec_new(from, to).to == to,
        Part::spec_new(from, to).current == from,
        Part::spec_new(from, to).safe_zone == from - 1,
{
}

/// What is left of a part, what it may read, and what can be split off: everything from
/// the position to the end of the range, of that what lies up to the safe zone, and what
/// lies beyond it. A part is complete when its position has passed its end.
pub proof fn law_stretches_of_a_part(p: Part)
    requires
        p.wf(),
    ensures
        p.remaining() == p.to + 1 - p.current,
        p.allowed() == p.safe_zone + 1 - p.current,
        p.unclaimed() == p.to - p.safe_zone,
        p.allowed() + p.unclaimed() == p.remaining(),
        p.spec_done() <==> p.current == p.to + 1,
        p.spec_done() <==> p.remaining() == 0,
{
}

/// The safe zone moves only forward and never past the end: by a mebibyte, or by what is
/// left to read if that is less, or to the end if that is nearer. Nothing else moves.
pub proof fn law_safe_zone_moves_by_steps(p: Part)
    requires
        p.wf(),
    ensures
        ({
            let q = p.extended();
            let left = p.to + 1 - p.current;
            &&& q.from == p.from && q.to == p.to && q.current == p.current
            &&& p.safe_zone <= q.safe_zone <= p.to
            &&& q.safe_zone - p.safe_zone <= 1048576
            &&& left > 0 && p.safe_zone + left <= p.to && left <= 1048576 ==> q.safe_zone
                == p.safe_zone + left
            &&& left > 1048576 && p.safe_zone + 1048576 <= p.to ==> q.safe_zone == p.safe_zone
                + 1048576
            &&& left > 0 && p.safe_zone + 1048576 > p.to && p.safe_zone + left > p.to
                ==> q.safe_zone == p.to
            &&& p.can_extend() <==> q.safe_zone != p.safe_zone
            &&& left > 0 && p.safe_zone < p.to ==> p.can_extend()
        }),
{
}

/// A part is split exactly when it has at least as many unclaimed bytes as is asked, and
/// at least a mebibyte of them. The two halves share the unclaimed bytes evenly; an odd
/// one stays in front. What was read or claimed stays as it is.
pub proof fn law_split_halves_what_is_unclaimed(p: Part, min_delta: int)
    requires
        p.wf(),
    ensures
        p.can_split(min_delta) <==> p.to - p.safe_zone >= min_delta && p.to - p.safe_zone
            >= 1048576,
        p.can_split(min_delta) ==> {
            let (f, b) = (p.front_half(), p.back_half());
            let (kept, given) = (f.to - p.safe_zone, b.to - b.from + 1);
            &&& kept + given == p.to - p.safe_zone
            &&& kept == given || kept == given + 1
            &&& f.from == p.from && f.current == p.current && f.safe_zone == p.safe_zone
            &&& b.from == f.to + 1 && b.to == p.to && b.current == b.from && b.safe_zone == b.from
                - 1
        },
{
}

} // verus!
