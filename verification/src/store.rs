//! The resume record: what is kept of an interrupted download, and when it may be used.
use vstd::prelude::*;
use vstd::string::*;

use crate::client::ProbeInfo;
use crate::content::{faithful, law_same_progress_is_faithful, Files};
use crate::part::{min_int, Part};
use crate::session::{open_positions, SessionView};
use crate::split::{
    even_ranges, law_even_split_covers, law_longer_ranges_come_first, law_number_of_ranges,
    range_count, split_to_range,
};
use crate::text::same_text;
use crate::tiling::{apart, covered, holds, lemma_equal_ranges_tile, tiles};

verus! {

/// The progress of one part.
#[derive(Debug, Clone, Copy)]
pub struct PartState {
    pub from: i64,
    pub to: i64,
    pub current: i64,
}

/// The record of an interrupted download.
#[derive(Debug, Clone)]
pub struct ResumeState {
    pub version: u32,
    pub url: String,
    pub total: i64,
    pub etag: String,
    pub last_modified: String,
    pub parts: Vec<PartState>,
}

/// The name of the record's file.
pub const STATE_FILE_NAME: &'static str = "state.json";

// ---------------------------------------------------------------- writing

/// What is recorded of a part: a position behind the end counts as the end.
pub open spec fn recorded(p: Part) -> PartState {
    PartState {
        from: p.from,
        to: p.to,
        current: if p.current > p.to {
            (p.to + 1) as i64
        } else {
            p.current
        },
    }
}

/// What is recorded of all parts.
pub open spec fn all_recorded(parts: Seq<Part>) -> Seq<PartState> {
    parts.map_values(|p: Part| recorded(p))
}

/// Makes the record of a download.
pub fn snapshot(
    url: &str,
    total: i64,
    etag: &str,
    last_modified: &str,
    parts: &[Part],
) -> (st: ResumeState)
    ensures
        st.version == 1,
        st.url@ == url@,
        st.total == total,
        st.etag@ == etag@,
        st.last_modified@ == last_modified@,
        st.parts@ == all_recorded(parts@),
{
    let mut states: Vec<PartState> = Vec::new();
    let mut i: usize = 0;
    while i < parts.len()
        invariant
            i <= parts@.len(),
            states@ =~= all_recorded(parts@.take(i as int)),
        decreases parts@.len() - i,
    {
        let p = parts[i];
        let mut cur: i64 = p.current;
        if cur > p.to {
            cur = p.to + 1;
        }
        states.push(PartState { from: p.from, to: p.to, current: cur });
        assert(parts@.take(i + 1) =~= parts@.take(i as int).push(parts@[i as int]));
        i = i + 1;
    }
    assert(parts@.take(parts@.len() as int) =~= parts@);
    ResumeState {
        version: 1,
        url: url.to_owned(),
        total,
        etag: etag.to_owned(),
        last_modified: last_modified.to_owned(),
        parts: states,
    }
}

// ---------------------------------------------------------------- checking

/// The record is one of this download: same address, same file on the server.
pub open spec fn record_matches(st: ResumeState, url: Seq<char>, info: ProbeInfo) -> bool {
    &&& st.version == 1
    &&& st.url@ == url
    &&& st.total == info.size
    &&& st.etag@ == info.etag@
    &&& st.last_modified@ == info.last_modified@
    &&& st.parts@.len() > 0
}

/// Whether the record is one of this download.
pub fn resume_matches(st: &ResumeState, url: &str, info: &ProbeInfo) -> (b: bool)
    ensures
        b == record_matches(*st, url@, *info),
{
    st.version == 1 && same_text(st.url.as_str(), url) && st.total == info.size && same_text(
        st.etag.as_str(),
        info.etag.as_str(),
    ) && same_text(st.last_modified.as_str(), info.last_modified.as_str()) && st.parts.len() > 0
}

impl PartState {
    /// How many bytes the temporary file of the part has to hold.
    pub open spec fn needed(self) -> int {
        if self.current > self.to {
            self.to - self.from + 1
        } else {
            self.current - self.from
        }
    }

    /// The computation of the needed bytes stays inside `i64`.
    pub open spec fn fits(self) -> bool {
        &&& i64::MIN <= self.current - self.from <= i64::MAX
        &&& self.current > self.to ==> i64::MIN <= self.to - self.from && self.to - self.from
            < i64::MAX
    }

    /// Whether the needed bytes can be computed.
    pub fn is_countable(&self) -> (b: bool)
        ensures
            b == self.fits(),
    {
        self.current.checked_sub(self.from).is_some() && (self.current <= self.to || (
        match self.to.checked_sub(self.from) {
            Some(d) => d < i64::MAX,
            None => false,
        }))
    }

    /// How many bytes the temporary file of the part has to hold.
    pub fn bytes_needed(&self) -> (n: i64)
        requires
            self.fits(),
        ensures
            n == self.needed(),
    {
        let mut need: i64 = self.current - self.from;
        if self.current > self.to {
            need = self.to - self.from + 1;
        }
        need
    }

    /// A temporary file of length `len` (`None`: there is none) holds what is needed.
    pub open spec fn served_by(self, len: Option<i64>) -> bool {
        self.needed() <= 0 || (len matches Some(n) && n >= self.needed())
    }
}

/// Every part has a temporary file that is long enough.
pub open spec fn all_served(states: Seq<PartState>, lens: Seq<Option<i64>>) -> bool {
    forall|i: int| 0 <= i < states.len() ==> (#[trigger] states[i]).served_by(lens[i])
}

/// Whether the temporary files are still there and long enough; `lens` are their
/// lengths, in the order of the parts.
pub fn part_files_usable(states: &[PartState], lens: &[Option<i64>]) -> (b: bool)
    requires
        lens@.len() == states@.len(),
        forall|i: int| 0 <= i < states@.len() ==> (#[trigger] states@[i]).fits(),
    ensures
        b == all_served(states@, lens@),
{
    let mut i: usize = 0;
    while i < states.len()
        invariant
            i <= states@.len(),
            lens@.len() == states@.len(),
            forall|j: int| 0 <= j < states@.len() ==> (#[trigger] states@[j]).fits(),
            forall|j: int| 0 <= j < i ==> (#[trigger] states@[j]).served_by(lens@[j]),
        decreases states@.len() - i,
    {
        let need: i64 = states[i].bytes_needed();
        if need > 0 {
            match lens[i] {
                Some(n) => {
                    if n < need {
                        assert(!states@[i as int].served_by(lens@[i as int]));
                        return false;
                    }
                },
                None => {
                    assert(!states@[i as int].served_by(lens@[i as int]));
                    return false;
                },
            }
        }
        i = i + 1;
    }
    true
}

// ---------------------------------------------------------------- reading

/// The recorded part lies inside the file and does not stand before its start.
pub open spec fn admissible(ps: PartState, size: int) -> bool {
    0 <= ps.from <= ps.current && ps.to < size
}

/// The part that goes on where the recorded one stood.
pub open spec fn revived(ps: PartState) -> Part {
    Part::spec_new_with(ps.from, ps.to, min_int(ps.current as int, ps.to + 1) as i64)
}

/// The parts of a record that can go on, in order.
pub open spec fn restored(states: Seq<PartState>, size: int) -> Seq<Part>
    decreases states.len(),
{
    if states.len() == 0 {
        Seq::empty()
    } else if admissible(states.last(), size) {
        restored(states.drop_last(), size).push(revived(states.last()))
    } else {
        restored(states.drop_last(), size)
    }
}

/// The parts that go on are well formed, or complete.
pub proof fn law_restored_parts_are_sound(states: Seq<PartState>, size: i64)
    requires
        forall|i: int| 0 <= i < states.len() ==> (#[trigger] states[i]).fits(),
    ensures
        forall|i: int|
            0 <= i < restored(states, size as int).len() ==> (#[trigger] restored(
                states,
                size as int,
            )[i]).sound(),
    decreases states.len(),
{
    if states.len() > 0 {
        let front = states.drop_last();
        assert forall|i: int| 0 <= i < front.len() implies (#[trigger] front[i]).fits() by {
            assert(front[i] == states[i]);
        }
        law_restored_parts_are_sound(front, size);
        let ps = states.last();
        assert(states[states.len() - 1].fits());
        if admissible(ps, size as int) {
            assert(revived(ps).sound());
        }
        let all = restored(states, size as int);
        assert forall|i: int| 0 <= i < all.len() implies (#[trigger] all[i]).sound() by {
            if i < restored(front, size as int).len() {
                assert(restored(front, size as int)[i].sound());
            }
        }
    }
}

/// Makes the parts of a record go on.
pub fn restore(states: &[PartState], size: i64) -> (parts: Vec<Part>)
    ensures
        parts@ == restored(states@, size as int),
{
    let mut parts: Vec<Part> = Vec::new();
    let mut i: usize = 0;
    while i < states.len()
        invariant
            i <= states@.len(),
            parts@ == restored(states@.take(i as int), size as int),
        decreases states@.len() - i,
    {
        let ps = states[i];
        assert(states@.take(i + 1).drop_last() =~= states@.take(i as int));
        assert(states@.take(i + 1).last() == ps);
        i = i + 1;
        if ps.from < 0 || ps.to >= size || ps.current < ps.from {
            continue ;
        }
        let end: i64 = ps.to + 1;
        let cur: i64 = if ps.current <= end { ps.current } else { end };
        parts.push(Part::new_with(ps.from, ps.to, cur));
    }
    assert(states@.take(states@.len() as int) =~= states@);
    parts
}

/// The parts of a fresh start: an even split, or one part if the file is small.
pub open spec fn fresh(size: int, min_part_size: int, count: int) -> Seq<Part> {
    let ranges = if size > min_part_size {
        even_ranges(size, range_count(size, min_part_size, count))
    } else {
        seq![(0i64, (size - 1) as i64)]
    };
    ranges.map_values(|r: (i64, i64)| Part::spec_new(r.0, r.1))
}

/// In a row of ranges, every range but the last ends before every later one starts.
proof fn lemma_in_order(ranges: Seq<(i64, i64)>, i: int, j: int)
    requires
        crate::split::contiguous(ranges),
        0 <= i < j < ranges.len(),
    ensures
        ranges[i].1 < ranges[j].0,
    decreases j - i,
{
    assert(ranges[j].0 == ranges[j - 1].1 + 1);
    if i < j - 1 {
        lemma_in_order(ranges, i, j - 1);
        assert(ranges[j - 1].0 <= ranges[j - 1].1);
    }
}

/// In a row of ranges from the first byte on, every byte up to the end of a range
/// belongs to it or to one before it.
proof fn lemma_row_covers(ranges: Seq<(i64, i64)>, k: int, b: int) -> (i: int)
    requires
        crate::split::contiguous(ranges),
        0 <= k < ranges.len(),
        ranges[0].0 == 0,
        0 <= b <= ranges[k].1,
    ensures
        0 <= i <= k,
        ranges[i].0 <= b <= ranges[i].1,
    decreases k,
{
    if ranges[k].0 <= b {
        k
    } else {
        assert(ranges[k].0 == ranges[k - 1].1 + 1);
        lemma_row_covers(ranges, k - 1, b)
    }
}

/// The parts of a fresh start tile the file, and none of them has read anything.
pub proof fn law_fresh_parts_tile(size: i64, min_part_size: i64, count: usize)
    requires
        size > 0,
    ensures
        tiles(fresh(size as int, min_part_size as int, count as int), size as int),
        fresh(size as int, min_part_size as int, count as int).len() > 0,
        forall|i: int|
            0 <= i < fresh(size as int, min_part_size as int, count as int).len() ==> {
                let p = #[trigger] fresh(size as int, min_part_size as int, count as int)[i];
                p.current == p.from && !p.spec_done()
            },
{
    let ranges = if size > min_part_size {
        even_ranges(size as int, range_count(size as int, min_part_size as int, count as int))
    } else {
        seq![(0i64, (size - 1) as i64)]
    };
    law_even_split_covers(size, min_part_size, count);
    let parts = fresh(size as int, min_part_size as int, count as int);
    let last = ranges.len() - 1;
    assert(ranges[0].0 == 0 && ranges[last].1 == size - 1 && crate::split::contiguous(ranges));
    assert forall|i: int| 0 <= i < parts.len() implies (#[trigger] parts[i]).wf() && parts[i].from
        <= parts[i].to && parts[i].to < size by {
        assert(ranges[i].0 <= ranges[i].1);
        if i > 0 {
            lemma_in_order(ranges, 0, i);
            assert(ranges[0].0 <= ranges[0].1);
        }
        if i < last {
            lemma_in_order(ranges, i, last);
            assert(ranges[last].0 <= ranges[last].1);
        }
    }
    assert forall|i: int, j: int|
        0 <= i < parts.len() && 0 <= j < parts.len() && i != j implies apart(
        #[trigger] parts[i],
        #[trigger] parts[j],
    ) by {
        if i < j {
            lemma_in_order(ranges, i, j);
        } else {
            lemma_in_order(ranges, j, i);
        }
    }
    assert forall|b: int| 0 <= b < size implies #[trigger] covered(parts, b) by {
        let i = lemma_row_covers(ranges, last, b);
        assert(holds(parts[i], b));
    }
}

/// Makes the parts of a fresh start.
pub fn fresh_parts(size: i64, min_part_size: i64, count: usize) -> (parts: Vec<Part>)
    requires
        size > 0,
    ensures
        parts@ == fresh(size as int, min_part_size as int, count as int),
{
    let ranges: Vec<(i64, i64)> = if size > min_part_size {
        split_to_range(size, min_part_size, count)
    } else {
        let mut one: Vec<(i64, i64)> = Vec::new();
        one.push((0, size - 1));
        one
    };
    let ghost all = if size > min_part_size {
        even_ranges(size as int, range_count(size as int, min_part_size as int, count as int))
    } else {
        seq![(0i64, (size - 1) as i64)]
    };
    assert(ranges@ =~= all);
    assert forall|j: int| 0 <= j < all.len() implies (#[trigger] all[j]).0 > i64::MIN by {
        law_fresh_parts_tile(size, min_part_size, count);
        let parts = fresh(size as int, min_part_size as int, count as int);
        assert(parts[j].wf());
    }
    let mut parts: Vec<Part> = Vec::new();
    let mut i: usize = 0;
    while i < ranges.len()
        invariant
            i <= ranges@.len(),
            ranges@ == all,
            parts@.len() == i,
            forall|j: int|
                0 <= j < i ==> #[trigger] parts@[j] == Part::spec_new(all[j].0, all[j].1),
            forall|j: int| 0 <= j < all.len() ==> (#[trigger] all[j]).0 > i64::MIN,
        decreases ranges@.len() - i,
    {
        let r = ranges[i];
        parts.push(Part::new(r.0, r.1));
        i = i + 1;
    }
    assert(parts@ =~= fresh(size as int, min_part_size as int, count as int));
    parts
}

// ---------------------------------------------------------------- choosing

/// What a download starts with.
#[derive(Debug)]
pub struct Prepared {
    pub parts: Vec<Part>,
    /// the parts come from a record, and their temporary files are kept
    pub resumed: bool,
    /// there was a record, and it does not belong to what the server has now
    pub stale: bool,
}

/// The record belongs to this download and its temporary files are usable.
pub open spec fn usable_record(
    st: ResumeState,
    lens: Seq<Option<i64>>,
    url: Seq<char>,
    info: ProbeInfo,
) -> bool {
    record_matches(st, url, info) && all_served(st.parts@, lens)
}

/// The download goes on from the record that was found.
pub open spec fn goes_on(
    saved: Option<ResumeState>,
    lens: Seq<Option<i64>>,
    url: Seq<char>,
    info: ProbeInfo,
) -> bool {
    saved matches Some(st) && usable_record(st, lens, url, info) && restored(
        st.parts@,
        info.size as int,
    ).len() > 0
}

/// The numbers of a record can be computed with, as far as it belongs to this download;
/// `lens` are the lengths of the temporary files of its parts.
pub open spec fn record_fits(
    saved: Option<ResumeState>,
    lens: Seq<Option<i64>>,
    url: Seq<char>,
    info: ProbeInfo,
) -> bool {
    saved matches Some(st) ==> record_matches(st, url, info) ==> lens.len() == st.parts@.len()
        && forall|i: int| 0 <= i < st.parts@.len() ==> (#[trigger] st.parts@[i]).fits()
}

/// A record that was found, if there is one, as a value.
pub open spec fn found_record(saved: Option<&ResumeState>) -> Option<ResumeState> {
    match saved {
        Some(st) => Some(*st),
        None => None,
    }
}

/// The parts that a download starts with: those of the record, or fresh ones.
pub open spec fn prepared_parts(
    saved: Option<ResumeState>,
    lens: Seq<Option<i64>>,
    url: Seq<char>,
    info: ProbeInfo,
    min_part_size: int,
    count: int,
) -> Seq<Part> {
    if goes_on(saved, lens, url, info) {
        restored(saved->0.parts@, info.size as int)
    } else {
        fresh(info.size as int, min_part_size, count)
    }
}

/// Decides between going on and starting afresh. `saved` is the record that was found,
/// and `lens` are the lengths of the temporary files of its parts, which matter only if
/// the record belongs to this download. Only a fresh start splits the file.
pub fn prepare_parts(
    saved: Option<&ResumeState>,
    lens: &[Option<i64>],
    url: &str,
    info: &ProbeInfo,
    min_part_size: i64,
    count: usize,
) -> (r: Prepared)
    requires
        record_fits(found_record(saved), lens@, url@, *info),
        !goes_on(found_record(saved), lens@, url@, *info) ==> info.size > 0,
    ensures
        r.resumed == goes_on(found_record(saved), lens@, url@, *info),
        r.parts@ == prepared_parts(
            found_record(saved),
            lens@,
            url@,
            *info,
            min_part_size as int,
            count as int,
        ),
        r.stale <==> (saved matches Some(st) && !usable_record(*st, lens@, url@, *info)),
        r.parts@.len() > 0,
        forall|i: int| 0 <= i < r.parts@.len() ==> (#[trigger] r.parts@[i]).sound(),
        !r.resumed ==> tiles(r.parts@, info.size as int),
{
    let mut stale: bool = false;
    if let Some(st) = saved {
        if resume_matches(st, url, info) && part_files_usable(st.parts.as_slice(), lens) {
            let parts = restore(st.parts.as_slice(), info.size);
            proof {
                law_restored_parts_are_sound(st.parts@, info.size);
            }
            if parts.len() > 0 {
                return Prepared { parts, resumed: true, stale: false };
            }
        } else {
            stale = true;
        }
    }
    proof {
        law_fresh_parts_tile(info.size, min_part_size, count);
    }
    Prepared { parts: fresh_parts(info.size, min_part_size, count), resumed: false, stale }
}

// ---------------------------------------------------------------- laws

/// What was recorded goes on where it stood: every part comes back with its range and
/// its position.
pub proof fn law_record_restores_progress(parts: Seq<Part>, size: int)
    requires
        tiles(parts, size),
    ensures
        restored(all_recorded(parts), size).len() == parts.len(),
        forall|i: int|
            0 <= i < parts.len() ==> {
                let p = #[trigger] restored(all_recorded(parts), size)[i];
                &&& p.wf()
                &&& p.from == parts[i].from
                &&& p.to == parts[i].to
                &&& p.current == parts[i].current
            },
{
    let n = parts.len() as int;
    lemma_restore_prefix(parts, size, n);
    assert(parts.take(n) =~= parts);
}

proof fn lemma_restore_prefix(parts: Seq<Part>, size: int, n: int)
    requires
        tiles(parts, size),
        0 <= n <= parts.len(),
    ensures
        restored(all_recorded(parts.take(n)), size) =~= Seq::new(
            n as nat,
            |i: int| revived(recorded(parts[i])),
        ),
        forall|i: int|
            0 <= i < n ==> {
                let p = #[trigger] restored(all_recorded(parts.take(n)), size)[i];
                &&& p.wf()
                &&& p.from == parts[i].from
                &&& p.to == parts[i].to
                &&& p.current == parts[i].current
            },
    decreases n,
{
    if n > 0 {
        lemma_restore_prefix(parts, size, n - 1);
        let all = all_recorded(parts.take(n));
        assert(all.drop_last() =~= all_recorded(parts.take(n - 1)));
        let p = parts[n - 1];
        assert(p.wf() && p.from <= p.to && p.to < size);
        assert(all.last() == recorded(p));
        assert(admissible(all.last(), size));
    } else {
        assert(all_recorded(parts.take(0)) =~= Seq::empty());
    }
}

/// A download that goes on from its own record covers the whole file again, and the
/// temporary files still hold what its parts have read.
pub proof fn law_resumed_download_is_sound(parts: Seq<Part>, files: Files, data: Seq<u8>)
    requires
        tiles(parts, data.len() as int),
        faithful(parts, files, data),
    ensures
        tiles(restored(all_recorded(parts), data.len() as int), data.len() as int),
        faithful(restored(all_recorded(parts), data.len() as int), files, data),
{
    let again = restored(all_recorded(parts), data.len() as int);
    law_record_restores_progress(parts, data.len() as int);
    lemma_equal_ranges_tile(parts, again, data.len() as int);
    law_same_progress_is_faithful(parts, again, files, data);
}

/// A record of faithful temporary files finds them long enough.
pub proof fn law_own_files_are_usable(
    parts: Seq<Part>,
    files: Files,
    data: Seq<u8>,
    lens: Seq<Option<i64>>,
)
    requires
        tiles(parts, data.len() as int),
        faithful(parts, files, data),
        lens.len() == parts.len(),
        forall|i: int|
            0 <= i < parts.len() ==> #[trigger] lens[i] == (if files.contains_key(
                parts[i].from as int,
            ) {
                Some(files[parts[i].from as int].len() as i64)
            } else {
                None
            }),
        forall|k: int| #[trigger] files.contains_key(k) ==> files[k].len() <= i64::MAX,
    ensures
        all_served(all_recorded(parts), lens),
{
    let states = all_recorded(parts);
    assert forall|i: int| 0 <= i < states.len() implies (#[trigger] states[i]).served_by(
        lens[i],
    ) by {
        let p = parts[i];
        assert(p.wf() && p.from <= p.to);
        assert(crate::content::stored(p, files, data));
        assert(states[i] == recorded(p));
        assert(lens[i] == (if files.contains_key(p.from as int) {
            Some(files[p.from as int].len() as i64)
        } else {
            None
        }));
    }
}

/// A file that changed on the server is never put together with what is left of the old
/// one: a record with another size, tag or date is not used.
pub proof fn law_changed_file_is_not_resumed(
    st: ResumeState,
    lens: Seq<Option<i64>>,
    url: Seq<char>,
    info: ProbeInfo,
)
    requires
        st.total != info.size || st.etag@ != info.etag@ || st.last_modified@
            != info.last_modified@,
    ensures
        !usable_record(st, lens, url, info),
{
}

proof fn lemma_all_admissible(states: Seq<PartState>, size: int)
    requires
        forall|i: int| 0 <= i < states.len() ==> admissible(#[trigger] states[i], size),
    ensures
        restored(states, size) == states.map_values(|ps: PartState| revived(ps)),
    decreases states.len(),
{
    let all = states.map_values(|ps: PartState| revived(ps));
    if states.len() > 0 {
        let front = states.drop_last();
        assert forall|i: int| 0 <= i < front.len() implies admissible(
            #[trigger] front[i],
            size,
        ) by {
            assert(front[i] == states[i]);
        }
        lemma_all_admissible(front, size);
        assert(admissible(states[states.len() - 1], size));
        assert(restored(states, size) =~= all);
    } else {
        assert(restored(states, size) =~= all);
    }
}

/// What a record in good order leads to. If address, size, tag and date agree and the
/// temporary files are there, every part goes on from its position, and those that are
/// not complete wait in order. If any of the four differs, the download starts afresh,
/// with parts that tile the file, have read nothing, and all wait.
pub proof fn law_record_decides(
    st: ResumeState,
    lens: Seq<Option<i64>>,
    url: Seq<char>,
    info: ProbeInfo,
    min_part_size: i64,
    count: usize,
)
    requires
        st.version == 1,
        st.parts@.len() > 0,
        forall|i: int|
            0 <= i < st.parts@.len() ==> admissible(#[trigger] st.parts@[i], info.size as int)
                && st.parts@[i].from <= st.parts@[i].to,
        lens.len() == st.parts@.len(),
        all_served(st.parts@, lens),
    ensures
        record_fits(Some(st), lens, url, info),
        info.size > 0,
        ({
            let agrees = st.url@ == url && st.total == info.size && st.etag@ == info.etag@
                && st.last_modified@ == info.last_modified@;
            let parts = prepared_parts(
                Some(st),
                lens,
                url,
                info,
                min_part_size as int,
                count as int,
            );
            let queue = SessionView::start(info.size as int, parts).queue;
            &&& goes_on(Some(st), lens, url, info) == agrees
            &&& agrees ==> {
                &&& parts == st.parts@.map_values(|ps: PartState| revived(ps))
                &&& queue == open_positions(parts)
            }
            &&& !agrees ==> {
                &&& tiles(parts, info.size as int)
                &&& forall|i: int|
                    0 <= i < parts.len() ==> (#[trigger] parts[i]).current == parts[i].from
                        && !parts[i].spec_done()
                &&& queue == Seq::new(parts.len(), |i: int| i as usize)
            }
        }),
{
    assert(admissible(st.parts@[0], info.size as int) && st.parts@[0].from <= st.parts@[0].to);
    assert forall|i: int| 0 <= i < st.parts@.len() implies (#[trigger] st.parts@[i]).fits() by {
        assert(admissible(st.parts@[i], info.size as int));
    }
    lemma_all_admissible(st.parts@, info.size as int);
    law_fresh_parts_tile(info.size, min_part_size, count);
    let anew = fresh(info.size as int, min_part_size as int, count as int);
    lemma_all_wait(anew);
}

proof fn lemma_all_wait(parts: Seq<Part>)
    requires
        forall|i: int| 0 <= i < parts.len() ==> !(#[trigger] parts[i]).spec_done(),
    ensures
        open_positions(parts) == Seq::new(parts.len(), |i: int| i as usize),
    decreases parts.len(),
{
    let all = Seq::new(parts.len(), |i: int| i as usize);
    if parts.len() > 0 {
        let front = parts.drop_last();
        assert forall|i: int| 0 <= i < front.len() implies !(#[trigger] front[i]).spec_done() by {
            assert(front[i] == parts[i]);
        }
        lemma_all_wait(front);
        assert(!parts[parts.len() - 1].spec_done());
    }
    assert(open_positions(parts) =~= all);
}

/// Temporary files are usable exactly when every part that has read at least one byte has
/// a file that is at least as long as what was read. How far a part has come is its
/// position, or the end of its range if the position lies behind that.
pub proof fn law_usable_files_hold_what_was_read(states: Seq<PartState>, lens: Seq<Option<i64>>)
    ensures
        all_served(states, lens) <==> forall|i: int|
            0 <= i < states.len() ==> {
                let ps = #[trigger] states[i];
                let end = if ps.current > ps.to {
                    ps.to + 1
                } else {
                    ps.current as int
                };
                end <= ps.from || (lens[i] matches Some(n) && n >= end - ps.from)
            },
{
    if all_served(states, lens) {
        assert forall|i: int| 0 <= i < states.len() implies {
            let ps = #[trigger] states[i];
            let end = if ps.current > ps.to {
                ps.to + 1
            } else {
                ps.current as int
            };
            end <= ps.from || (lens[i] matches Some(n) && n >= end - ps.from)
        } by {
            assert(states[i].served_by(lens[i]));
        }
    }
}

/// A record is used only if, for every part that has read at least one byte, a temporary
/// file is there that holds at least as many bytes as were read. A file that is missing or
/// too short means a fresh start from the first byte, with parts that have read nothing.
pub proof fn law_record_without_its_files_is_not_used(
    st: ResumeState,
    lens: Seq<Option<i64>>,
    url: Seq<char>,
    info: ProbeInfo,
    min_part_size: i64,
    count: usize,
    i: int,
)
    requires
        0 <= i < st.parts@.len(),
    ensures
        ({
            let ps = st.parts@[i];
            let end = if ps.current > ps.to {
                ps.to + 1
            } else {
                ps.current as int
            };
            let there = end <= ps.from || (lens[i] matches Some(n) && n >= end - ps.from);
            let parts = prepared_parts(
                Some(st),
                lens,
                url,
                info,
                min_part_size as int,
                count as int,
            );
            &&& goes_on(Some(st), lens, url, info) ==> there
            &&& !there && info.size > 0 ==> tiles(parts, info.size as int) && forall|k: int|
                0 <= k < parts.len() ==> (#[trigger] parts[k]).current == parts[k].from
        }),
{
    law_usable_files_hold_what_was_read(st.parts@, lens);
    if info.size > 0 {
        law_fresh_parts_tile(info.size, min_part_size, count);
        let anew = fresh(info.size as int, min_part_size as int, count as int);
        assert forall|k: int| 0 <= k < anew.len() implies (#[trigger] anew[k]).current
            == anew[k].from by {
            assert(fresh(info.size as int, min_part_size as int, count as int)[k].current
                == anew[k].from);
        }
    }
}

/// A record belongs to a download exactly when it is of the first version, lists at least
/// one part, and has the same address, size, tag and date.
pub proof fn law_record_belongs(st: ResumeState, url: Seq<char>, info: ProbeInfo)
    ensures
        record_matches(st, url, info) <==> st.version == 1 && st.parts@.len() > 0 && st.url@ == url
            && st.total == info.size && st.etag@ == info.etag@ && st.last_modified@
            == info.last_modified@,
{
}

/// Without a record there is nothing to go on from; with one, the download goes on only
/// if the record belongs to it, its files are usable, and some part of it can go on.
pub proof fn law_going_on_needs_a_record(
    st: ResumeState,
    lens: Seq<Option<i64>>,
    url: Seq<char>,
    info: ProbeInfo,
)
    ensures
        !goes_on(None, lens, url, info),
        goes_on(Some(st), lens, url, info) <==> record_matches(st, url, info) && all_served(
            st.parts@,
            lens,
        ) && exists|i: int|
            0 <= i < st.parts@.len() && 0 <= (#[trigger] st.parts@[i]).from <= st.parts@[i].current
                && st.parts@[i].to < info.size,
{
    lemma_some_restored(st.parts@, info.size as int);
}

proof fn lemma_some_restored(states: Seq<PartState>, size: int)
    ensures
        restored(states, size).len() > 0 <==> exists|i: int|
            0 <= i < states.len() && 0 <= (#[trigger] states[i]).from <= states[i].current
                && states[i].to < size,
    decreases states.len(),
{
    if states.len() > 0 {
        let front = states.drop_last();
        lemma_some_restored(front, size);
        if exists|i: int|
            0 <= i < states.len() && 0 <= (#[trigger] states[i]).from <= states[i].current
                && states[i].to < size {
            let i = choose|i: int|
                0 <= i < states.len() && 0 <= (#[trigger] states[i]).from <= states[i].current
                    && states[i].to < size;
            if i < front.len() {
                assert(front[i] == states[i]);
            }
        }
        if restored(front, size).len() > 0 {
            let i = choose|i: int|
                0 <= i < front.len() && 0 <= (#[trigger] front[i]).from <= front[i].current
                    && front[i].to < size;
            assert(states[i] == front[i]);
        }
        if restored(states, size).len() > 0 && restored(front, size).len() == 0 {
            let last = states.len() - 1;
            assert(0 <= states[last].from <= states[last].current && states[last].to < size);
        }
    }
}

/// A recorded part goes on with its range where it stood, or at its end if it had come
/// further; what lies behind that is not claimed. One that starts before the file, ends
/// behind it, or stands before its own start is left out, and the others keep their order.
pub proof fn law_recorded_parts_go_on(states: Seq<PartState>, ps: PartState, size: int)
    requires
        size <= i64::MAX,
    ensures
        restored(Seq::empty(), size).len() == 0,
        ps.from < 0 || ps.to >= size || ps.current < ps.from ==> restored(states.push(ps), size)
            == restored(states, size),
        0 <= ps.from <= ps.current && ps.to < size ==> {
            let all = restored(states.push(ps), size);
            let p = all.last();
            &&& all.drop_last() == restored(states, size)
            &&& p.from == ps.from
            &&& p.to == ps.to
            &&& ps.from <= ps.to + 1 ==> p.current == (if ps.current > ps.to {
                ps.to + 1
            } else {
                ps.current as int
            })
            &&& ps.from > ps.to + 1 ==> p.current == ps.from
            &&& p.safe_zone == p.current - 1
        },
{
    assert(states.push(ps).drop_last() =~= states);
    if 0 <= ps.from <= ps.current && ps.to < size {
        assert(restored(states.push(ps), size).drop_last() =~= restored(states, size));
    }
}

/// A record keeps of every part, in order, its range and its position; a position behind
/// the end is kept as the end.
pub proof fn law_record_keeps_every_part(parts: Seq<Part>, i: int)
    requires
        0 <= i < parts.len(),
    ensures
        all_recorded(parts).len() == parts.len(),
        all_recorded(parts)[i].from == parts[i].from,
        all_recorded(parts)[i].to == parts[i].to,
        all_recorded(parts)[i].current == (if parts[i].current > parts[i].to {
            parts[i].to + 1
        } else {
            parts[i].current as int
        }),
{
}

/// A fresh start makes as many parts as it may have connections, but none for less than
/// the smallest size: a part more would be too many for that. A file that is no larger
/// than that is one part.
pub proof fn law_number_of_fresh_parts(size: i64, min_part_size: i64, count: usize)
    requires
        size > 0,
    ensures
        ({
            let n = fresh(size as int, min_part_size as int, count as int).len();
            let smallest = if min_part_size < 1 {
                1int
            } else {
                min_part_size as int
            };
            &&& size <= min_part_size ==> n == 1
            &&& n >= 1
            &&& n <= count || n == 1
            &&& (n - 1) * smallest < size
            &&& n < count ==> n * smallest >= size
        }),
{
    law_number_of_ranges(size, min_part_size, count);
    if size <= min_part_size {
        assert(0 * min_part_size < size && 1 * min_part_size >= size);
    }
}

/// The computations on a recorded part stay inside `i64` exactly when its position and,
/// if it is complete, its length can be computed.
pub proof fn law_countable_parts(ps: PartState)
    ensures
        ps.fits() <==> i64::MIN <= ps.current - ps.from <= i64::MAX && (ps.current <= ps.to || (
        i64::MIN <= ps.to - ps.from && ps.to - ps.from + 1 <= i64::MAX)),
        ps.needed() == (if ps.current > ps.to {
            ps.to - ps.from + 1
        } else {
            ps.current - ps.from
        }),
{
}

/// The parts of a fresh start follow each other from the first byte to the last, have read
/// nothing, and differ by no more than one byte in length; the longer ones come first.
pub proof fn law_fresh_parts_are_even(size: i64, min_part_size: i64, count: usize, i: int, j: int)
    requires
        size > 0,
        0 <= i < j < fresh(size as int, min_part_size as int, count as int).len(),
    ensures
        ({
            let parts = fresh(size as int, min_part_size as int, count as int);
            &&& parts[0].from == 0
            &&& parts.last().to == size - 1
            &&& j == i + 1 ==> parts[j].from == parts[i].to + 1
            &&& 0 <= (parts[i].to - parts[i].from) - (parts[j].to - parts[j].from) <= 1
            &&& parts[i].current == parts[i].from && parts[i].safe_zone == parts[i].from - 1
        }),
{
    law_even_split_covers(size, min_part_size, count);
    law_fresh_parts_tile(size, min_part_size, count);
    law_longer_ranges_come_first(size, min_part_size, count, i, j);
    let parts = fresh(size as int, min_part_size as int, count as int);
    let ranges = even_ranges(
        size as int,
        range_count(size as int, min_part_size as int, count as int),
    );
    assert(size > min_part_size);
    assert(parts[i].wf() && parts[j].wf() && parts[0].wf());
    assert(parts[i] == Part::spec_new(ranges[i].0, ranges[i].1));
    assert(parts[j] == Part::spec_new(ranges[j].0, ranges[j].1));
    assert(parts[0] == Part::spec_new(ranges[0].0, ranges[0].1));
    let last = ranges.len() - 1;
    assert(parts[last] == Part::spec_new(ranges[last].0, ranges[last].1));
}

/// A record can be used if it belongs to the download and its files are usable; the name
/// of its file is fixed.
pub proof fn law_usable_records(
    st: ResumeState,
    lens: Seq<Option<i64>>,
    url: Seq<char>,
    info: ProbeInfo,
)
    ensures
        usable_record(st, lens, url, info) <==> record_matches(st, url, info) && all_served(
            st.parts@,
            lens,
        ),
        STATE_FILE_NAME@ == "state.json"@,
{
}

} // verus!
