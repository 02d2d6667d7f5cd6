//! Downloads in parts, with all that can happen to them: workers come and go, connections
//! deliver and break, records are saved, and a download is interrupted and goes on, any
//! number of times.
use vstd::prelude::*;

use crate::assemble::{pieces, sorted_stably};
use crate::client::ProbeInfo;
use crate::content::{
    assembled, faithful, law_fresh_parts_are_faithful, law_new_file_keeps_faithful,
    law_same_progress_is_faithful, stored, written, Files,
};
use crate::errors::{Error, ErrorKind};
use crate::part::Part;
use crate::pump::{in_step, law_chunk_keeps_step, law_pump_starts_in_step, part_after_next, Pump};
use crate::progress::{
    bytes_read, law_all_is_read_when_complete, law_split_reads_nothing, lemma_read_is_held,
    lemma_read_update,
};
use crate::session::{
    best_to_split, busy, fit_for, law_best_is_the_largest, law_ending_keeps_order,
    law_finished_session_gives_the_source, law_hiring_keeps_faithful, law_hiring_keeps_order,
    law_idle_session_is_complete, law_moving_on_keeps_order, law_session_starts_in_order,
    law_worker_keeps_faithful, Phase, SessionView,
};
use crate::split::law_even_split_covers;
use crate::store::{
    all_recorded, fresh, goes_on, law_fresh_parts_tile, law_own_files_are_usable,
    law_record_restores_progress, law_resumed_download_is_sound, record_matches, restored,
    PartState, ResumeState,
};
use crate::tiling::{apart, covered, tiles};

verus! {

/// A connection: its pump, the byte at which it was opened, and what it has delivered.
pub struct Conn {
    pub pump: Pump,
    pub start: int,
    pub got: Seq<u8>,
}

/// A download and everything that belongs to it.
pub struct World {
    pub s: SessionView,
    /// the temporary files
    pub files: Files,
    /// the connections, by part
    pub conns: Map<int, Conn>,
    /// the parts of the record that was last saved; empty if there is none
    pub record: Seq<PartState>,
    /// some worker of this session ended because it was canceled
    pub canceled: bool,
    /// the bytes that were counted in this session
    pub counted: int,
    /// the bytes that had been read before this session
    pub had: int,
}

/// What can happen.
pub enum Event {
    /// a worker is hired
    Hire { min_part_size: int },
    /// the temporary file of a part is created
    Create { i: int, file: Seq<u8> },
    /// a connection is opened where a part stands
    Open { i: int, pump: Pump },
    /// a connection delivers
    Deliver { i: int, chunk: Vec<u8> },
    /// a pump is asked what to do next
    Next { i: int, canceled: bool, paused: bool, now: u64 },
    /// a pump begins a new watch window
    Rewind { i: int, now: u64 },
    /// a pump writes pending bytes
    Write { i: int, n: int },
    /// a worker ends
    End { i: int, result: Result<(), Error> },
    /// the record is saved
    Save,
    /// the download was interrupted, in whatever state, and goes on from its record
    Resume,
    /// the download starts afresh
    Restart { min_part_size: i64, count: usize },
}

impl World {
    /// A download at its fresh start.
    pub open spec fn begin(total: int, min_part_size: i64, count: usize) -> World {
        World {
            s: SessionView::start(total, fresh(total, min_part_size as int, count as int)),
            files: Map::empty(),
            conns: Map::empty(),
            record: Seq::empty(),
            canceled: false,
            counted: 0,
            had: 0,
        }
    }

    /// Part `i` has a worker with a connection.
    pub open spec fn connected(self, i: int) -> bool {
        self.s.is_active(i) && self.conns.contains_key(i)
    }

    /// The event can happen. A connection delivers the source from where it was opened;
    /// that is what the server is for.
    pub open spec fn allows(self, e: Event, data: Seq<u8>) -> bool {
        match e {
            Event::Hire { min_part_size } => self.s.has_work(min_part_size) && (self.s.queue.len()
                == 0 ==> self.s.parts.len() < usize::MAX),
            Event::Create { i, file } => self.s.is_active(i) && !self.files.contains_key(
                self.s.parts[i].from as int,
            ),
            Event::Open { i, pump } => {
                &&& self.s.is_active(i)
                &&& self.files.contains_key(self.s.parts[i].from as int)
                &&& pump.wf()
                &&& pump.pending@.len() == 0
            },
            Event::Deliver { i, chunk } => {
                let at = self.conns[i].start + self.conns[i].got.len();
                &&& self.connected(i)
                &&& self.conns[i].pump.off == self.conns[i].pump.pending@.len()
                &&& at + chunk@.len() <= data.len()
                &&& chunk@ == data.subrange(at, at + chunk@.len())
            },
            Event::Next { i, .. } => self.connected(i),
            Event::Rewind { i, .. } => self.connected(i),
            Event::Write { i, n } => {
                &&& self.connected(i)
                &&& 0 <= n <= self.conns[i].pump.writable(self.s.parts[i])
                &&& self.conns[i].pump.window_bytes + n <= i64::MAX
            },
            Event::End { i, result } => self.s.is_active(i) && (result is Ok
                ==> self.s.parts[i].spec_done()),
            Event::Save => true,
            Event::Resume => self.record.len() > 0,
            Event::Restart { .. } => true,
        }
    }

    /// The world after an event.
    pub open spec fn after(self, e: Event) -> World {
        match e {
            Event::Hire { min_part_size } => World { s: self.s.hired(min_part_size), ..self },
            Event::Create { i, file } => World {
                files: self.files.insert(self.s.parts[i].from as int, file),
                ..self
            },
            Event::Open { i, pump } => World {
                conns: self.conns.insert(
                    i,
                    Conn { pump, start: self.s.parts[i].current as int, got: Seq::empty() },
                ),
                ..self
            },
            Event::Deliver { i, chunk } => {
                let c = self.conns[i];
                World {
                    conns: self.conns.insert(
                        i,
                        Conn { pump: c.pump.after_chunk(chunk), got: c.got + chunk@, ..c },
                    ),
                    ..self
                }
            },
            Event::Next { i, canceled, paused, now } => {
                let c = self.conns[i];
                World {
                    s: self.s.with_part(i, part_after_next(self.s.parts[i], canceled, paused)),
                    conns: self.conns.insert(
                        i,
                        Conn { pump: c.pump.after_next(canceled, paused, now), ..c },
                    ),
                    ..self
                }
            },
            Event::Rewind { i, now } => {
                let c = self.conns[i];
                World {
                    conns: self.conns.insert(i, Conn { pump: c.pump.rewound(now), ..c }),
                    ..self
                }
            },
            Event::Write { i, n } => {
                let c = self.conns[i];
                let p = self.s.parts[i];
                let bytes = c.pump.pending@.subrange(c.pump.off as int, c.pump.off + n);
                World {
                    s: self.s.with_part(i, Part { current: (p.current + n) as i64, ..p }),
                    files: self.files.insert(
                        p.from as int,
                        written(self.files[p.from as int], p.current - p.from, bytes),
                    ),
                    conns: self.conns.insert(i, Conn { pump: c.pump.after_write(n), ..c }),
                    counted: self.counted + n,
                    ..self
                }
            },
            Event::End { i, result } => World {
                s: self.s.after_worker(i, result),
                conns: self.conns.remove(i),
                canceled: self.canceled || (result is Err && result->Err_0.kind
                    == ErrorKind::Canceled),
                ..self
            },
            Event::Save => World { record: all_recorded(self.s.parts), ..self },
            Event::Resume => World {
                s: SessionView::start(self.s.total, restored(self.record, self.s.total)),
                conns: Map::empty(),
                canceled: false,
                counted: 0,
                had: bytes_read(restored(self.record, self.s.total)),
                ..self
            },
            Event::Restart { min_part_size, count } => World::begin(
                self.s.total,
                min_part_size,
                count,
            ),
        }
    }

    /// The session is in order and covers the source; the temporary files hold what was
    /// read; no failure is forgotten; what is counted is what was read in this session; the
    /// connections are in step with the source; and the record, however old, can still be
    /// gone on from.
    pub open spec fn keeps_faith(self, data: Seq<u8>) -> bool {
        &&& self.s.wf()
        &&& self.s.covers()
        &&& self.s.total == data.len()
        &&& faithful(self.s.parts, self.files, data)
        &&& !self.canceled ==> self.s.accounted()
        &&& self.counted == bytes_read(self.s.parts) - self.had
        &&& self.had >= 0
        &&& forall|i: int| #[trigger]
            self.conns.contains_key(i) ==> conn_in_step(self.conns[i], self.s, i, self.files, data)
        &&& self.record.len() > 0 ==> record_holds(self.record, self.s, self.files, data)
    }

    /// The download is over, and well: nothing waits, no worker is left, none failed and
    /// none was canceled.
    pub open spec fn is_finished(self) -> bool {
        self.s.is_idle() && self.s.first_err is None && !self.canceled
    }
}

/// The connection of part `i` has delivered the source from where it was opened, and the
/// part has come as far as what was written of that.
pub open spec fn conn_in_step(
    c: Conn,
    s: SessionView,
    i: int,
    files: Files,
    data: Seq<u8>,
) -> bool {
    &&& s.is_active(i)
    &&& files.contains_key(s.parts[i].from as int)
    &&& in_step(c.pump, s.parts[i], c.start, c.got)
    &&& 0 <= c.start
    &&& c.start + c.got.len() <= data.len()
    &&& c.got == data.subrange(c.start, c.start + c.got.len())
}

/// Some part starts where `r` does and has come at least as far.
pub open spec fn overtaken(r: Part, parts: Seq<Part>) -> bool {
    exists|j: int|
        0 <= j < parts.len() && (#[trigger] parts[j]).from == r.from && parts[j].current
            >= r.current
}

/// The record covers the source, the temporary files hold what it says was read, and the
/// parts have not fallen behind it.
pub open spec fn record_holds(
    record: Seq<PartState>,
    s: SessionView,
    files: Files,
    data: Seq<u8>,
) -> bool {
    let parts = restored(record, s.total);
    &&& record.len() <= usize::MAX
    &&& tiles(parts, s.total)
    &&& faithful(parts, files, data)
    &&& forall|k: int| 0 <= k < parts.len() ==> overtaken(#[trigger] parts[k], s.parts)
}

// ---------------------------------------------------------------- one event

/// Parts that have come at least as far as the old ones have still overtaken a record.
proof fn lemma_still_overtaken(
    record: Seq<PartState>,
    total: int,
    old_parts: Seq<Part>,
    parts: Seq<Part>,
)
    requires
        forall|k: int|
            0 <= k < restored(record, total).len() ==> overtaken(
                #[trigger] restored(record, total)[k],
                old_parts,
            ),
        parts.len() >= old_parts.len(),
        forall|j: int|
            0 <= j < old_parts.len() ==> (#[trigger] parts[j]).from == old_parts[j].from
                && parts[j].current >= old_parts[j].current,
    ensures
        forall|k: int|
            0 <= k < restored(record, total).len() ==> overtaken(
                #[trigger] restored(record, total)[k],
                parts,
            ),
{
    let rp = restored(record, total);
    assert forall|k: int| 0 <= k < rp.len() implies overtaken(#[trigger] rp[k], parts) by {
        assert(overtaken(rp[k], old_parts));
        let j = choose|j: int|
            0 <= j < old_parts.len() && (#[trigger] old_parts[j]).from == rp[k].from
                && old_parts[j].current >= rp[k].current;
        assert(parts[j].from == rp[k].from);
    }
}

proof fn lemma_hire(w: World, data: Seq<u8>, min_part_size: int)
    requires
        w.keeps_faith(data),
        w.allows(Event::Hire { min_part_size }, data),
    ensures
        w.after(Event::Hire { min_part_size }).keeps_faith(data),
{
    let next = w.after(Event::Hire { min_part_size });
    law_hiring_keeps_order(w.s, min_part_size);
    law_hiring_keeps_faithful(w.s, w.files, data, min_part_size);
    law_best_is_the_largest(w.s.parts, min_part_size);
    if w.s.queue.len() == 0 {
        let b = best_to_split(w.s.parts, min_part_size)->0;
        assert(w.s.parts[b].wf());
        law_split_reads_nothing(w.s.parts, b, min_part_size);
    }
    assert forall|j: int| 0 <= j < w.s.parts.len() implies (#[trigger] next.s.parts[j]).from
        == w.s.parts[j].from && next.s.parts[j].current == w.s.parts[j].current by {}
    if w.record.len() > 0 {
        lemma_still_overtaken(w.record, w.s.total, w.s.parts, next.s.parts);
    }
    assert forall|i: int| #[trigger] next.conns.contains_key(i) implies conn_in_step(
        next.conns[i],
        next.s,
        i,
        next.files,
        data,
    ) by {
        assert(conn_in_step(w.conns[i], w.s, i, w.files, data));
        assert(next.s.parts[i].current == w.s.parts[i].current);
        if w.s.queue.len() > 0 {
            assert(w.s.phases[w.s.queue[0] as int] == Phase::Waiting);
        }
    }
    if next.s.abandoned() {
        let k = choose|k: int|
            0 <= k < next.s.phases.len() && #[trigger] next.s.phases[k] == Phase::Left;
        assert(w.s.phases[k] == Phase::Left);
    }
}

proof fn lemma_create(w: World, data: Seq<u8>, i: int, file: Seq<u8>)
    requires
        w.keeps_faith(data),
        w.allows(Event::Create { i, file }, data),
    ensures
        w.after(Event::Create { i, file }).keeps_faith(data),
{
    let next = w.after(Event::Create { i, file });
    law_new_file_keeps_faithful(w.s.parts, w.files, data, i, file);
    assert forall|k: int| #[trigger] next.conns.contains_key(k) implies conn_in_step(
        next.conns[k],
        next.s,
        k,
        next.files,
        data,
    ) by {
        assert(conn_in_step(w.conns[k], w.s, k, w.files, data));
    }
    if w.record.len() > 0 {
        let rp = restored(w.record, w.s.total);
        assert forall|k: int| 0 <= k < rp.len() implies stored(
            #[trigger] rp[k],
            next.files,
            data,
        ) by {
            assert(stored(rp[k], w.files, data));
        }
    }
}

/// A change to the pump of part `i`, and to the part inside its range without reading.
proof fn lemma_pump_event(w: World, data: Seq<u8>, next: World, i: int, p: Part)
    requires
        w.keeps_faith(data),
        w.s.is_active(i),
        p.wf(),
        p.from == w.s.parts[i].from,
        p.to == w.s.parts[i].to,
        p.current == w.s.parts[i].current,
        next.s == w.s.with_part(i, p),
        next.files == w.files,
        next.record == w.record,
        next.canceled == w.canceled,
        next.counted == w.counted,
        next.had == w.had,
        next.conns == w.conns.insert(i, next.conns[i]),
        conn_in_step(next.conns[i], next.s, i, w.files, data),
    ensures
        next.keeps_faith(data),
{
    law_moving_on_keeps_order(w.s, i, p);
    lemma_read_update(w.s.parts, i, p);
    law_same_progress_is_faithful(w.s.parts, next.s.parts, w.files, data);
    if w.record.len() > 0 {
        lemma_still_overtaken(w.record, w.s.total, w.s.parts, next.s.parts);
    }
    assert forall|k: int| #[trigger] next.conns.contains_key(k) implies conn_in_step(
        next.conns[k],
        next.s,
        k,
        next.files,
        data,
    ) by {
        if k != i {
            assert(conn_in_step(w.conns[k], w.s, k, w.files, data));
        }
    }
    if next.s.abandoned() {
        assert(w.s.abandoned());
    }
}

proof fn lemma_write(w: World, data: Seq<u8>, i: int, n: int)
    requires
        w.keeps_faith(data),
        w.allows(Event::Write { i, n }, data),
    ensures
        w.after(Event::Write { i, n }).keeps_faith(data),
{
    let next = w.after(Event::Write { i, n });
    let c = w.conns[i];
    let p = w.s.parts[i];
    let q = Part { current: (p.current + n) as i64, ..p };
    let bytes = c.pump.pending@.subrange(c.pump.off as int, c.pump.off + n);
    let file = w.files[p.from as int];
    let off = p.current - p.from;
    let file2 = written(file, off, bytes);
    assert(conn_in_step(c, w.s, i, w.files, data));
    assert(fit_for(p, w.s.phases[i]));
    law_worker_keeps_faithful(w.s, i, c.pump, n, c.start, c.got, w.files, data);
    law_moving_on_keeps_order(w.s, i, q);
    lemma_read_update(w.s.parts, i, q);
    assert forall|k: int| #[trigger] next.conns.contains_key(k) implies conn_in_step(
        next.conns[k],
        next.s,
        k,
        next.files,
        data,
    ) by {
        if k != i {
            assert(conn_in_step(w.conns[k], w.s, k, w.files, data));
        }
    }
    if w.record.len() > 0 {
        let rp = restored(w.record, w.s.total);
        lemma_still_overtaken(w.record, w.s.total, w.s.parts, next.s.parts);
        assert forall|k: int| 0 <= k < rp.len() implies stored(
            #[trigger] rp[k],
            next.files,
            data,
        ) by {
            let r = rp[k];
            assert(stored(r, w.files, data));
            assert(r.wf());
            if r.from == p.from && r.current != r.from {
                assert(overtaken(r, w.s.parts));
                let j = choose|j: int|
                    0 <= j < w.s.parts.len() && (#[trigger] w.s.parts[j]).from == r.from
                        && w.s.parts[j].current >= r.current;
                if j != i {
                    assert(apart(w.s.parts[j], w.s.parts[i]));
                    assert(w.s.parts[j].from <= w.s.parts[j].to);
                }
                assert(p.current >= r.current);
                assert(stored(p, w.files, data));
                let len = r.current - r.from;
                assert(file2.take(len) =~= file.take(len));
            }
        }
    }
    if next.s.abandoned() {
        assert(w.s.abandoned());
    }
}

proof fn lemma_end(w: World, data: Seq<u8>, i: int, result: Result<(), Error>)
    requires
        w.keeps_faith(data),
        w.allows(Event::End { i, result }, data),
    ensures
        w.after(Event::End { i, result }).keeps_faith(data),
{
    let next = w.after(Event::End { i, result });
    law_ending_keeps_order(w.s, i, result);
    assert forall|k: int| #[trigger] next.conns.contains_key(k) implies conn_in_step(
        next.conns[k],
        next.s,
        k,
        next.files,
        data,
    ) by {
        assert(w.conns.contains_key(k));
        assert(conn_in_step(w.conns[k], w.s, k, w.files, data));
    }
    if !next.canceled && next.s.abandoned() && result is Ok {
        let k = choose|k: int|
            0 <= k < next.s.phases.len() && #[trigger] next.s.phases[k] == Phase::Left;
        assert(w.s.phases[k] == Phase::Left);
    }
}

/// No part is restored that was not recorded.
proof fn lemma_restored_len(states: Seq<PartState>, size: int)
    ensures
        restored(states, size).len() <= states.len(),
    decreases states.len(),
{
    if states.len() > 0 {
        lemma_restored_len(states.drop_last(), size);
    }
}

/// Parts that stand at their start have read nothing.
proof fn lemma_nothing_read(parts: Seq<Part>)
    requires
        forall|i: int| 0 <= i < parts.len() ==> (#[trigger] parts[i]).current == parts[i].from,
    ensures
        bytes_read(parts) == 0,
    decreases parts.len(),
{
    if parts.len() > 0 {
        let front = parts.drop_last();
        assert forall|i: int| 0 <= i < front.len() implies (#[trigger] front[i]).current
            == front[i].from by {
            assert(front[i] == parts[i]);
        }
        lemma_nothing_read(front);
        assert(parts[parts.len() - 1].current == parts[parts.len() - 1].from);
    }
}

/// A session that starts with parts that tile the source keeps faith.
proof fn lemma_start(w: World, data: Seq<u8>, parts: Seq<Part>)
    requires
        tiles(parts, data.len() as int),
        parts.len() <= usize::MAX,
        w.s == SessionView::start(data.len() as int, parts),
        faithful(parts, w.files, data),
        w.conns == Map::<int, Conn>::empty(),
        w.counted == 0,
        w.had == bytes_read(parts),
        w.record.len() > 0 ==> record_holds(w.record, w.s, w.files, data),
    ensures
        w.keeps_faith(data),
{
    assert forall|i: int| 0 <= i < parts.len() implies (#[trigger] parts[i]).sound() by {
        assert(parts[i].wf());
    }
    law_session_starts_in_order(data.len() as int, parts);
    lemma_read_is_held(parts, data.len() as int);
    if w.s.abandoned() {
        let k = choose|k: int|
            0 <= k < w.s.phases.len() && #[trigger] w.s.phases[k] == Phase::Left;
        assert(w.s.phases[k] != Phase::Left);
    }
}

/// A download keeps faith from its fresh start on.
pub proof fn law_fresh_start_keeps_faith(data: Seq<u8>, min_part_size: i64, count: usize)
    requires
        0 < data.len() <= i64::MAX,
    ensures
        World::begin(data.len() as int, min_part_size, count).keeps_faith(data),
{
    let w = World::begin(data.len() as int, min_part_size, count);
    let size = data.len() as i64;
    let parts = fresh(size as int, min_part_size as int, count as int);
    law_fresh_parts_tile(size, min_part_size, count);
    law_even_split_covers(size, min_part_size, count);
    assert forall|i: int| 0 <= i < parts.len() implies (#[trigger] parts[i]).current
        == parts[i].from by {
        assert(fresh(size as int, min_part_size as int, count as int)[i].current == parts[i].from);
    }
    law_fresh_parts_are_faithful(parts, w.files, data);
    lemma_nothing_read(parts);
    lemma_start(w, data, parts);
}

/// Whatever happens to a download, it keeps faith.
pub proof fn law_every_event_keeps_faith(w: World, e: Event, data: Seq<u8>)
    requires
        w.keeps_faith(data),
        w.allows(e, data),
        0 < data.len() <= i64::MAX,
    ensures
        w.after(e).keeps_faith(data),
{
    let next = w.after(e);
    match e {
        Event::Hire { min_part_size } => {
            lemma_hire(w, data, min_part_size);
        },
        Event::Create { i, file } => {
            lemma_create(w, data, i, file);
        },
        Event::Open { i, pump } => {
            let p = w.s.parts[i];
            assert(fit_for(p, w.s.phases[i]));
            law_pump_starts_in_step(pump, p);
            assert(next.conns[i].got =~= data.subrange(p.current as int, p.current as int));
            assert(w.s.with_part(i, p).parts =~= w.s.parts);
            assert(p.current <= data.len()) by {
                assert(p.wf() && p.to < data.len());
            }
            lemma_pump_event(w, data, next, i, p);
        },
        Event::Deliver { i, chunk } => {
            let c = w.conns[i];
            let p = w.s.parts[i];
            assert(conn_in_step(c, w.s, i, w.files, data));
            assert(fit_for(p, w.s.phases[i]));
            law_chunk_keeps_step(c.pump, p, c.start, c.got, chunk);
            assert(next.conns[i].got =~= data.subrange(
                c.start,
                c.start + next.conns[i].got.len(),
            ));
            assert(w.s.with_part(i, p).parts =~= w.s.parts);
            lemma_pump_event(w, data, next, i, p);
        },
        Event::Next { i, canceled, paused, now } => {
            let c = w.conns[i];
            let p = w.s.parts[i];
            assert(conn_in_step(c, w.s, i, w.files, data));
            assert(fit_for(p, w.s.phases[i]));
            lemma_pump_event(w, data, next, i, part_after_next(p, canceled, paused));
        },
        Event::Rewind { i, now } => {
            let c = w.conns[i];
            let p = w.s.parts[i];
            assert(conn_in_step(c, w.s, i, w.files, data));
            assert(fit_for(p, w.s.phases[i]));
            assert(w.s.with_part(i, p).parts =~= w.s.parts);
            lemma_pump_event(w, data, next, i, p);
        },
        Event::Write { i, n } => {
            lemma_write(w, data, i, n);
        },
        Event::End { i, result } => {
            lemma_end(w, data, i, result);
        },
        Event::Save => {
            law_record_restores_progress(w.s.parts, w.s.total);
            law_resumed_download_is_sound(w.s.parts, w.files, data);
            let rp = restored(next.record, w.s.total);
            assert forall|k: int| 0 <= k < rp.len() implies overtaken(
                #[trigger] rp[k],
                w.s.parts,
            ) by {
                assert(w.s.parts[k].from == rp[k].from);
            }
        },
        Event::Resume => {
            let rp = restored(w.record, w.s.total);
            lemma_restored_len(w.record, w.s.total);
            assert forall|k: int| 0 <= k < rp.len() implies overtaken(#[trigger] rp[k], rp) by {}
            lemma_start(next, data, rp);
        },
        Event::Restart { min_part_size, count } => {
            law_fresh_start_keeps_faith(data, min_part_size, count);
        },
    }
}

// ---------------------------------------------------------------- whole histories

/// Where events lead, one after the other; `None` if one of them cannot happen.
pub open spec fn history(w: World, events: Seq<Event>, data: Seq<u8>) -> Option<World>
    decreases events.len(),
{
    if events.len() == 0 {
        Some(w)
    } else {
        match history(w, events.drop_last(), data) {
            None => None,
            Some(v) => if v.allows(events.last(), data) {
                Some(v.after(events.last()))
            } else {
                None
            },
        }
    }
}

/// A download keeps faith through every history.
pub proof fn law_every_history_keeps_faith(w: World, events: Seq<Event>, data: Seq<u8>)
    requires
        w.keeps_faith(data),
        0 < data.len() <= i64::MAX,
    ensures
        history(w, events, data) matches Some(v) ==> v.keeps_faith(data),
    decreases events.len(),
{
    if events.len() > 0 {
        law_every_history_keeps_faith(w, events.drop_last(), data);
        if let Some(v) = history(w, events.drop_last(), data) {
            if v.allows(events.last(), data) {
                law_every_event_keeps_faith(v, events.last(), data);
            }
        }
    }
}

/// However often a download in parts is interrupted and goes on from its record, and
/// whatever happens in between: when it is finished, what is put together is the source,
/// byte for byte.
pub proof fn law_every_finished_download_in_parts_is_the_source(
    data: Seq<u8>,
    min_part_size: i64,
    count: usize,
    events: Seq<Event>,
    v: Seq<(i64, i64)>,
)
    requires
        0 < data.len() <= i64::MAX,
    ensures
        history(World::begin(data.len() as int, min_part_size, count), events, data) matches Some(
            w,
        ) ==> w.is_finished() && sorted_stably(pieces(w.s.parts), v) ==> assembled(v, w.files)
            == data,
{
    let w0 = World::begin(data.len() as int, min_part_size, count);
    law_fresh_start_keeps_faith(data, min_part_size, count);
    law_every_history_keeps_faith(w0, events, data);
    if let Some(w) = history(w0, events, data) {
        if w.is_finished() && sorted_stably(pieces(w.s.parts), v) {
            law_finished_session_gives_the_source(w.s, w.files, data, v);
        }
    }
}

/// A download in parts that was canceled at any point and is asked for again goes on from what
/// was saved, if the server still has the same file; and when the second one is
/// finished, what is put together is the source, byte for byte.
pub proof fn law_canceled_download_goes_on_to_the_source(
    data: Seq<u8>,
    min_part_size: i64,
    count: usize,
    first: Seq<Event>,
    st: ResumeState,
    lens: Seq<Option<i64>>,
    url: Seq<char>,
    info: ProbeInfo,
    second: Seq<Event>,
    v: Seq<(i64, i64)>,
)
    requires
        0 < data.len() <= i64::MAX,
    ensures
        history(World::begin(data.len() as int, min_part_size, count), first, data) matches Some(
            w1,
        ) ==> {
            let saved = w1.after(Event::Save);
            let w2 = saved.after(Event::Resume);
            // the record that was saved, and the files as they lie there
            &&& (record_matches(st, url, info) && info.size == data.len() && st.parts@
                == saved.record && lens_of(lens, w1.s.parts, w1.files)) ==> {
                &&& goes_on(Some(st), lens, url, info)
                &&& w2.s == SessionView::start(
                    info.size as int,
                    restored(st.parts@, info.size as int),
                )
            }
            &&& w2.files == w1.files
            &&& history(w2, second, data) matches Some(w3) ==> w3.is_finished() && sorted_stably(
                pieces(w3.s.parts),
                v,
            ) ==> assembled(v, w3.files) == data
        },
{
    let w0 = World::begin(data.len() as int, min_part_size, count);
    law_fresh_start_keeps_faith(data, min_part_size, count);
    law_every_history_keeps_faith(w0, first, data);
    if let Some(w1) = history(w0, first, data) {
        let saved = w1.after(Event::Save);
        let w2 = saved.after(Event::Resume);
        law_every_event_keeps_faith(w1, Event::Save, data);
        law_record_restores_progress(w1.s.parts, w1.s.total);
        assert(w1.s.parts.len() > 0) by {
            assert(covered(w1.s.parts, 0));
        }
        law_every_event_keeps_faith(saved, Event::Resume, data);
        if st.parts@ == saved.record && lens_of(lens, w1.s.parts, w1.files) {
            law_own_files_are_usable(w1.s.parts, w1.files, data, lens);
        }
        law_every_history_keeps_faith(w2, second, data);
        if let Some(w3) = history(w2, second, data) {
            if w3.is_finished() && sorted_stably(pieces(w3.s.parts), v) {
                law_finished_session_gives_the_source(w3.s, w3.files, data, v);
            }
        }
    }
}

/// The lengths of the temporary files of parts, in order.
pub open spec fn lens_of(lens: Seq<Option<i64>>, parts: Seq<Part>, files: Files) -> bool {
    &&& lens.len() == parts.len()
    &&& forall|i: int|
        0 <= i < parts.len() ==> #[trigger] lens[i] == (if files.contains_key(
            parts[i].from as int,
        ) {
            Some(files[parts[i].from as int].len() as i64)
        } else {
            None
        })
    &&& forall|k: int| #[trigger] files.contains_key(k) ==> files[k].len() <= i64::MAX
}

// ---------------------------------------------------------------- counting

/// The counter of a session and the bytes that had been read before it are together what
/// the parts have read: never more than the file has, and as much exactly when every part
/// is complete. So a finished download that started afresh has counted the whole file.
pub proof fn law_counter_tells_what_was_read(w: World, data: Seq<u8>)
    requires
        w.keeps_faith(data),
    ensures
        w.counted + w.had == bytes_read(w.s.parts) <= data.len(),
        w.counted + w.had == data.len() <==> forall|i: int|
            0 <= i < w.s.parts.len() ==> (#[trigger] w.s.parts[i]).spec_done(),
        w.is_finished() ==> w.counted == data.len() - w.had,
{
    law_all_is_read_when_complete(w.s.parts, w.s.total);
    if w.is_finished() {
        law_idle_session_is_complete(w.s);
    }
}

// ---------------------------------------------------------------- coming to an end

/// How often something still has to happen to a part in this phase: it gets a worker, and
/// the worker ends.
pub open spec fn burden(phase: Phase) -> int {
    match phase {
        Phase::Waiting => 2,
        Phase::Active => 1,
        Phase::Finished | Phase::Left => 0,
    }
}

/// The burdens of all parts.
pub open spec fn burdens(phases: Seq<Phase>) -> int
    decreases phases.len(),
{
    if phases.len() == 0 {
        0
    } else {
        burdens(phases.drop_last()) + burden(phases.last())
    }
}

proof fn lemma_burdens_update(phases: Seq<Phase>, i: int, p: Phase)
    requires
        0 <= i < phases.len(),
    ensures
        burdens(phases.update(i, p)) == burdens(phases) - burden(phases[i]) + burden(p),
    decreases phases.len(),
{
    let next = phases.update(i, p);
    if i == phases.len() - 1 {
        assert(next.drop_last() =~= phases.drop_last());
    } else {
        assert(next.drop_last() =~= phases.drop_last().update(i, p));
        lemma_burdens_update(phases.drop_last(), i, p);
    }
}

proof fn lemma_burdens_nonnegative(phases: Seq<Phase>)
    ensures
        burdens(phases) >= 0,
        forall|i: int| 0 <= i < phases.len() ==> burdens(phases) >= burden(#[trigger] phases[i]),
    decreases phases.len(),
{
    if phases.len() > 0 {
        let front = phases.drop_last();
        lemma_burdens_nonnegative(front);
        assert forall|i: int| 0 <= i < phases.len() implies burdens(phases) >= burden(
            #[trigger] phases[i],
        ) by {
            if i < front.len() {
                assert(front[i] == phases[i]);
            }
        }
    }
}

/// If a worker is counted, there is one.
proof fn lemma_somebody_busy(phases: Seq<Phase>) -> (i: int)
    requires
        busy(phases) > 0,
    ensures
        0 <= i < phases.len(),
        phases[i] == Phase::Active,
    decreases phases.len(),
{
    if phases.last() == Phase::Active {
        phases.len() - 1
    } else {
        lemma_somebody_busy(phases.drop_last())
    }
}

impl World {
    /// How much is left to do at most: the bytes that were not read, what has to happen to
    /// the parts, and the parts that could still be split off.
    pub open spec fn work_left(self) -> int {
        self.s.total - bytes_read(self.s.parts) + burdens(self.s.phases) + 2 * (self.s.total
            - self.s.parts.len())
    }
}

/// How much an event does of the work that is left.
pub open spec fn work_of(e: Event) -> int {
    match e {
        Event::Hire { .. } => 1,
        Event::Write { n, .. } => n,
        Event::End { .. } => 1,
        _ => 0,
    }
}

/// The download begins anew, or goes on from its record.
pub open spec fn starts_session(e: Event) -> bool {
    e is Resume || e is Restart
}

/// Every worker that is hired, every byte that is written and every worker that ends makes
/// the work that is left less; nothing that happens in a session makes it more.
pub proof fn law_work_gets_less(w: World, e: Event, data: Seq<u8>)
    requires
        w.keeps_faith(data),
        w.allows(e, data),
        !starts_session(e),
    ensures
        w.work_left() >= 0,
        w.after(e).work_left() == w.work_left() - work_of(e),
{
    law_work_is_bounded(w, data);
    let next = w.after(e);
    match e {
        Event::Hire { min_part_size } => {
            if w.s.queue.len() > 0 {
                assert(w.s.phases[w.s.queue[0] as int] == Phase::Waiting);
                lemma_burdens_update(w.s.phases, w.s.queue[0] as int, Phase::Active);
            } else {
                law_best_is_the_largest(w.s.parts, min_part_size);
                let b = best_to_split(w.s.parts, min_part_size)->0;
                assert(w.s.parts[b].wf());
                law_split_reads_nothing(w.s.parts, b, min_part_size);
                assert(next.s.phases.drop_last() =~= w.s.phases);
            }
        },
        Event::Next { i, canceled, paused, .. } => {
            lemma_read_update(w.s.parts, i, part_after_next(w.s.parts[i], canceled, paused));
        },
        Event::Write { i, n } => {
            let p = w.s.parts[i];
            assert(fit_for(p, w.s.phases[i]));
            lemma_read_update(w.s.parts, i, Part { current: (p.current + n) as i64, ..p });
        },
        Event::End { i, result } => {
            lemma_burdens_update(w.s.phases, i, next.s.phases[i]);
        },
        _ => {},
    }
}

/// The work that is left is never less than nothing; when nothing is left, nothing waits
/// and no worker is active.
pub proof fn law_work_is_bounded(w: World, data: Seq<u8>)
    requires
        w.keeps_faith(data),
    ensures
        w.work_left() >= 0,
        w.work_left() == 0 ==> w.s.is_idle(),
{
    law_all_is_read_when_complete(w.s.parts, w.s.total);
    lemma_burdens_nonnegative(w.s.phases);
    if w.s.queue.len() > 0 {
        assert(w.s.phases[w.s.queue[0] as int] == Phase::Waiting);
    } else if w.s.running > 0 {
        let i = lemma_somebody_busy(w.s.phases);
    }
}

/// How much all events do of the work that is left.
pub open spec fn work_done(events: Seq<Event>) -> int
    decreases events.len(),
{
    if events.len() == 0 {
        0
    } else {
        work_done(events.drop_last()) + work_of(events.last())
    }
}

/// A session cannot go on forever: however long its history is, workers are hired, bytes
/// are written and workers end no more often than its start allows.
pub proof fn law_session_comes_to_an_end(w: World, events: Seq<Event>, data: Seq<u8>)
    requires
        w.keeps_faith(data),
        0 < data.len() <= i64::MAX,
        forall|k: int| 0 <= k < events.len() ==> !starts_session(#[trigger] events[k]),
    ensures
        history(w, events, data) matches Some(v) ==> v.work_left() >= 0 && work_done(events)
            == w.work_left() - v.work_left(),
    decreases events.len(),
{
    if events.len() == 0 {
        law_work_is_bounded(w, data);
    } else {
        let front = events.drop_last();
        assert forall|k: int| 0 <= k < front.len() implies !starts_session(#[trigger] front[k]) by {
            assert(front[k] == events[k]);
        }
        assert(!starts_session(events[events.len() - 1]));
        law_session_comes_to_an_end(w, front, data);
        law_every_history_keeps_faith(w, front, data);
        if let Some(v) = history(w, front, data) {
            if v.allows(events.last(), data) {
                law_work_gets_less(v, events.last(), data);
                law_every_event_keeps_faith(v, events.last(), data);
                law_work_is_bounded(v.after(events.last()), data);
            }
        }
    }
}

/// A session never gets stuck: while it is not idle, a part waits and can be handed out,
/// or a worker is active.
pub proof fn law_session_never_gets_stuck(w: World, data: Seq<u8>, min_part_size: int)
    requires
        w.keeps_faith(data),
        !w.s.is_idle(),
    ensures
        w.s.queue.len() > 0 ==> w.allows(Event::Hire { min_part_size }, data),
        w.s.queue.len() > 0 || exists|i: int| w.s.is_active(i),
{
    if w.s.queue.len() == 0 {
        let i = lemma_somebody_busy(w.s.phases);
        assert(w.s.is_active(i));
    }
}

/// An active worker never gets stuck: a complete part ends well; for any other one the
/// file can be created and a connection opened, and over a connection at least one more
/// byte can be fetched, or is there to be written.
pub proof fn law_worker_never_gets_stuck(
    w: World,
    data: Seq<u8>,
    i: int,
    file: Seq<u8>,
    pump: Pump,
    ok: (),
)
    requires
        w.keeps_faith(data),
        w.s.is_active(i),
        pump.wf(),
        pump.pending@.len() == 0,
    ensures
        ({
            let p = w.s.parts[i];
            let c = w.conns[i];
            &&& p.spec_done() ==> w.allows(Event::End { i, result: Ok(ok) }, data)
            &&& !w.files.contains_key(p.from as int) ==> w.allows(
                Event::Create { i, file },
                data,
            )
            &&& w.files.contains_key(p.from as int) ==> w.allows(Event::Open { i, pump }, data)
            &&& w.connected(i) && !p.spec_done() && p.allowed() > 0 ==> {
                ||| c.pump.writable(p) > 0
                ||| c.pump.unwritten().len() == 0 && c.start + c.got.len() < data.len()
            }
        }),
{
    let p = w.s.parts[i];
    assert(fit_for(p, w.s.phases[i]));
    assert(p.to < data.len());
    if w.connected(i) {
        let c = w.conns[i];
        assert(conn_in_step(c, w.s, i, w.files, data));
        assert(c.got.skip(p.current - c.start).len() == c.pump.unwritten().len());
    }
}

} // verus!
