//! Who works on what: the parts of a download, the queue, and the workers.
use std::collections::VecDeque;
use vstd::prelude::*;

use crate::assemble::{pieces, sorted_stably};
use crate::content::{
    assembled, faithful, law_assembled_file_is_the_source, law_split_keeps_faithful,
    law_write_keeps_faithful, written, Files,
};
use crate::errors::{Error, ErrorKind};
use crate::part::{max_int, Part, SAFETY_STEP};
use crate::pump::{in_step, law_write_is_next_bytes, part_after_next, Pump, PumpStep};
use crate::tiling::{after_split, law_same_range_keeps_tiling, law_split_keeps_tiling, tiles};

verus! {

/// How far the work on a part has come.
#[derive(Debug, Clone, Copy, PartialEq, Eq, Structural)]
pub enum Phase {
    /// in the queue
    Waiting,
    /// a worker is on it
    Active,
    /// complete
    Finished,
    /// its worker gave up
    Left,
}

/// The work of one download.
#[derive(Debug)]
pub struct Session {
    /// the size of the file
    pub total: i64,
    pub parts: Vec<Part>,
    /// the phase of each part
    pub phases: Vec<Phase>,
    /// the positions of the waiting parts
    pub queue: VecDeque<usize>,
    /// how many workers are active
    pub running: usize,
    /// the first error that was not a cancellation
    pub first_err: Option<Error>,
    /// the workers have been told to stop
    pub stopped: bool,
}

/// How a session ends.
#[derive(Debug)]
pub enum Verdict {
    Failed(Error),
    Canceled,
    Complete,
}

/// The work of one download as mathematical values.
#[verifier::ext_equal]
pub struct SessionView {
    pub total: int,
    pub parts: Seq<Part>,
    pub phases: Seq<Phase>,
    pub queue: Seq<usize>,
    pub running: int,
    pub first_err: Option<Error>,
    pub stopped: bool,
}

impl View for Session {
    type V = SessionView;

    open spec fn view(&self) -> SessionView {
        SessionView {
            total: self.total as int,
            parts: self.parts@,
            phases: self.phases@,
            queue: self.queue@,
            running: self.running as int,
            first_err: self.first_err,
            stopped: self.stopped,
        }
    }
}

/// How many workers are active.
pub open spec fn busy(phases: Seq<Phase>) -> nat
    decreases phases.len(),
{
    if phases.len() == 0 {
        0
    } else {
        busy(phases.drop_last()) + (if phases.last() == Phase::Active {
            1nat
        } else {
            0nat
        })
    }
}

/// The positions of the parts that are not complete, in order.
pub open spec fn open_positions(parts: Seq<Part>) -> Seq<usize>
    decreases parts.len(),
{
    if parts.len() == 0 {
        Seq::empty()
    } else if parts.last().spec_done() {
        open_positions(parts.drop_last())
    } else {
        open_positions(parts.drop_last()).push((parts.len() - 1) as usize)
    }
}

/// The phases at the start: what is complete is finished, everything else waits.
pub open spec fn first_phases(parts: Seq<Part>) -> Seq<Phase> {
    parts.map_values(
        |p: Part|
            if p.spec_done() {
                Phase::Finished
            } else {
                Phase::Waiting
            },
    )
}

/// How many unclaimed bytes a part must have for a split.
pub open spec fn split_minimum(min_part_size: int) -> int {
    max_int(min_part_size, SAFETY_STEP as int)
}

/// The part to split: the first one of those with the most unclaimed bytes, if these
/// are enough for a split.
pub open spec fn best_to_split(parts: Seq<Part>, min_part_size: int) -> Option<int>
    decreases parts.len(),
{
    if parts.len() == 0 {
        None
    } else {
        let last = parts.len() - 1;
        match best_to_split(parts.drop_last(), min_part_size) {
            Some(b) => if parts[last].unclaimed() > parts[b].unclaimed() {
                Some(last)
            } else {
                Some(b)
            },
            None => if parts[last].unclaimed() >= split_minimum(min_part_size) {
                Some(last)
            } else {
                None
            },
        }
    }
}

/// A part and its phase go together: every part is sound, a finished one is complete,
/// and every other one is well formed.
pub open spec fn fit_for(p: Part, phase: Phase) -> bool {
    &&& p.sound()
    &&& phase == Phase::Finished ==> p.spec_done()
    &&& phase != Phase::Finished ==> p.wf()
}

/// The queue holds the positions of the waiting parts, each once.
pub open spec fn lists_waiting(queue: Seq<usize>, phases: Seq<Phase>) -> bool {
    &&& forall|k: int|
        0 <= k < queue.len() ==> (#[trigger] queue[k]) < phases.len() && phases[queue[k] as int]
            == Phase::Waiting
    &&& forall|k: int, l: int|
        0 <= k < l < queue.len() ==> #[trigger] queue[k] != #[trigger] queue[l]
    &&& forall|i: int|
        0 <= i < phases.len() && #[trigger] phases[i] == Phase::Waiting ==> queue.contains(
            i as usize,
        )
}

impl SessionView {
    /// The session at its start.
    pub open spec fn start(total: int, parts: Seq<Part>) -> SessionView {
        SessionView {
            total,
            parts,
            phases: first_phases(parts),
            queue: open_positions(parts),
            running: 0,
            first_err: None,
            stopped: false,
        }
    }

    /// Parts and phases go together, the queue holds the waiting parts, and the workers
    /// are counted.
    pub open spec fn wf(self) -> bool {
        &&& self.phases.len() == self.parts.len() <= usize::MAX
        &&& forall|i: int|
            0 <= i < self.parts.len() ==> fit_for(#[trigger] self.parts[i], self.phases[i])
        &&& lists_waiting(self.queue, self.phases)
        &&& self.running == busy(self.phases)
    }

    /// The parts tile the file.
    pub open spec fn covers(self) -> bool {
        tiles(self.parts, self.total)
    }

    /// A worker is on part `i`.
    pub open spec fn is_active(self, i: int) -> bool {
        0 <= i < self.phases.len() && self.phases[i] == Phase::Active
    }

    /// Some worker gave up its part.
    pub open spec fn abandoned(self) -> bool {
        exists|i: int| 0 <= i < self.phases.len() && #[trigger] self.phases[i] == Phase::Left
    }

    /// A part was given up only for an error that is kept.
    pub open spec fn accounted(self) -> bool {
        self.abandoned() ==> self.first_err is Some
    }

    /// No worker is active and nothing waits.
    pub open spec fn is_idle(self) -> bool {
        self.running == 0 && self.queue.len() == 0
    }

    /// There is nothing more to wait for: the download was canceled or failed, or it has
    /// neither work nor workers.
    pub open spec fn stops(self, canceled: bool) -> bool {
        canceled || self.stopped || self.first_err is Some || self.is_idle()
    }

    /// How the session ends: an error comes first, then a cancellation.
    pub open spec fn verdict_for(self, canceled: bool) -> Verdict {
        match self.first_err {
            Some(e) => Verdict::Failed(e),
            None => if self.stopped || canceled {
                Verdict::Canceled
            } else {
                Verdict::Complete
            },
        }
    }

    /// The session with part `i` replaced.
    pub open spec fn with_part(self, i: int, p: Part) -> SessionView {
        SessionView { parts: self.parts.update(i, p), ..self }
    }

    /// Something is left to hand out: a part that waits, or one to split.
    pub open spec fn has_work(self, min_part_size: int) -> bool {
        self.queue.len() > 0 || best_to_split(self.parts, min_part_size) is Some
    }

    /// The part that the next worker gets.
    pub open spec fn next_job(self) -> int {
        if self.queue.len() > 0 {
            self.queue[0] as int
        } else {
            self.parts.len() as int
        }
    }

    /// The session after one more worker was hired: for the first part that waits, or for
    /// the back half of the best one to split.
    pub open spec fn hired(self, min_part_size: int) -> SessionView {
        if self.queue.len() > 0 {
            SessionView {
                queue: self.queue.drop_first(),
                phases: self.phases.update(self.queue[0] as int, Phase::Active),
                running: self.running + 1,
                ..self
            }
        } else {
            SessionView {
                parts: after_split(self.parts, best_to_split(self.parts, min_part_size)->0),
                phases: self.phases.push(Phase::Active),
                running: self.running + 1,
                ..self
            }
        }
    }

    /// The session after workers were hired up to the target, as far as there is work.
    pub open spec fn staffed(self, target: int, min_part_size: int) -> SessionView
        decreases target - self.running,
    {
        if self.running < target && self.has_work(min_part_size) {
            self.hired(min_part_size).staffed(target, min_part_size)
        } else {
            self
        }
    }

    /// The parts that the new workers got, in order.
    pub open spec fn jobs(self, target: int, min_part_size: int) -> Seq<int>
        decreases target - self.running,
    {
        if self.running < target && self.has_work(min_part_size) {
            seq![self.next_job()] + self.hired(min_part_size).jobs(target, min_part_size)
        } else {
            Seq::empty()
        }
    }

    /// The session after the worker of part `i` ended. The first error that is not a
    /// cancellation is kept, and makes the others stop.
    pub open spec fn after_worker(self, i: int, result: Result<(), Error>) -> SessionView {
        let failed = result is Err && result->Err_0.kind != ErrorKind::Canceled;
        SessionView {
            running: self.running - 1,
            phases: self.phases.update(
                i,
                if result is Ok {
                    Phase::Finished
                } else {
                    Phase::Left
                },
            ),
            stopped: self.stopped || failed,
            first_err: if self.first_err is None && failed {
                Some(result->Err_0)
            } else {
                self.first_err
            },
            ..self
        }
    }
}

impl Session {
    /// Starts with the given parts; those that are not complete wait in order.
    pub fn new(total: i64, parts: Vec<Part>) -> (s: Session)
        requires
            forall|i: int| 0 <= i < parts@.len() ==> (#[trigger] parts@[i]).sound(),
        ensures
            s@ == SessionView::start(total as int, parts@),
            s@.wf(),
    {
        let mut phases: Vec<Phase> = Vec::new();
        let mut queue: VecDeque<usize> = VecDeque::new();
        let mut i: usize = 0;
        let n: usize = parts.len();
        while i < n
            invariant
                n == parts@.len(),
                i <= n,
                phases@ =~= first_phases(parts@.take(i as int)),
                queue@ == open_positions(parts@.take(i as int)),
            decreases n - i,
        {
            assert(parts@.take(i + 1) =~= parts@.take(i as int).push(parts@[i as int]));
            assert(parts@.take(i + 1).drop_last() =~= parts@.take(i as int));
            if parts[i].done() {
                phases.push(Phase::Finished);
            } else {
                phases.push(Phase::Waiting);
                queue.push_back(i);
            }
            i = i + 1;
        }
        assert(parts@.take(parts@.len() as int) =~= parts@);
        proof {
            law_session_starts_in_order(total as int, parts@);
        }
        Session { total, parts, phases, queue, running: 0, first_err: None, stopped: false }
    }

    /// Looks for the part to split.
    fn find_best(&self, min_part_size: i64) -> (r: Option<usize>)
        requires
            forall|j: int| 0 <= j < self.parts@.len() ==> (#[trigger] self.parts@[j]).sound(),
        ensures
            r is Some <==> best_to_split(self.parts@, min_part_size as int) is Some,
            r matches Some(b) ==> best_to_split(self.parts@, min_part_size as int) == Some(
                b as int,
            ) && b < self.parts@.len() && self.parts@[b as int].unclaimed() >= split_minimum(
                min_part_size as int,
            ),
    {
        let min_delta: i64 = if min_part_size >= SAFETY_STEP { min_part_size } else { SAFETY_STEP };
        let mut best: Option<usize> = None;
        let mut best_delta: i64 = 0;
        let mut i: usize = 0;
        while i < self.parts.len()
            invariant
                i <= self.parts@.len(),
                min_delta == split_minimum(min_part_size as int),
                forall|j: int| 0 <= j < self.parts@.len() ==> (#[trigger] self.parts@[j]).sound(),
                match best {
                    Some(b) => {
                        &&& best_to_split(self.parts@.take(i as int), min_part_size as int)
                            == Some(b as int)
                        &&& b < i
                        &&& best_delta == self.parts@[b as int].unclaimed()
                        &&& best_delta >= min_delta
                    },
                    None => best_delta == 0 && best_to_split(
                        self.parts@.take(i as int),
                        min_part_size as int,
                    ) is None,
                },
            decreases self.parts@.len() - i,
        {
            assert(self.parts@.take(i + 1).drop_last() =~= self.parts@.take(i as int));
            assert(self.parts@[i as int].sound());
            let d: i64 = self.parts[i].splittable_delta();
            if d >= min_delta && d > best_delta {
                best_delta = d;
                best = Some(i);
            }
            i = i + 1;
        }
        assert(self.parts@.take(self.parts@.len() as int) =~= self.parts@);
        best
    }

    /// Puts a worker on the next part: the first one that waits, or the back half of the
    /// one with the most unclaimed bytes. `None` when there are workers enough or
    /// nothing is left to hand out.
    pub fn hire(&mut self, target: usize, min_part_size: i64) -> (r: Option<usize>)
        requires
            old(self)@.wf(),
        ensures
            final(self)@.wf(),
            old(self)@.covers() ==> final(self)@.covers(),
            r is Some <==> old(self)@.running < target && old(self)@.has_work(
                min_part_size as int,
            ),
            r is None ==> final(self)@ == old(self)@,
            r matches Some(i) ==> {
                &&& i == old(self)@.next_job()
                &&& final(self)@ == old(self)@.hired(min_part_size as int)
                &&& final(self)@.is_active(i as int)
            },
    {
        if self.running >= target {
            return None;
        }
        let ghost before = self@;
        let waiting = if self.queue.len() > 0 { self.queue.pop_front() } else { None };
        match waiting {
            Some(i) => {
                assert(before.queue[0] == i);
                proof {
                    law_hiring_keeps_order(before, min_part_size as int);
                    lemma_busy_bound(before.hired(min_part_size as int).phases);
                }
                self.phases.set(i, Phase::Active);
                self.running = self.running + 1;
                assert(self@ =~= before.hired(min_part_size as int));
                Some(i)
            },
            None => {
                assert forall|j: int| 0 <= j < self.parts@.len() implies (
                #[trigger] self.parts@[j]).sound() by {
                    assert(fit_for(self.parts@[j], self.phases@[j]));
                }
                match self.find_best(min_part_size) {
                    None => None,
                    Some(b) => {
                        let min_delta: i64 = if min_part_size >= SAFETY_STEP {
                            min_part_size
                        } else {
                            SAFETY_STEP
                        };
                        assert(fit_for(before.parts[b as int], before.phases[b as int]));
                        let mut front = self.parts[b];
                        match front.split_at_least(min_delta) {
                            None => None,
                            Some(back) => {
                                let at: usize = self.parts.len();
                                self.parts.set(b, front);
                                self.parts.push(back);
                                self.phases.push(Phase::Active);
                                let n: usize = self.phases.len();
                                proof {
                                    law_hiring_keeps_order(before, min_part_size as int);
                                    lemma_busy_bound(self.phases@);
                                    assert(self.phases@.drop_last() =~= before.phases);
                                }
                                self.running = self.running + 1;
                                assert(self@ =~= before.hired(min_part_size as int));
                                Some(at)
                            },
                        }
                    },
                }
            },
        }
    }

    /// Hires workers up to the target, as far as there is work; returns the parts that
    /// they got.
    pub fn staff(&mut self, target: usize, min_part_size: i64) -> (jobs: Vec<usize>)
        requires
            old(self)@.wf(),
        ensures
            final(self)@.wf(),
            old(self)@.covers() ==> final(self)@.covers(),
            final(self)@ == old(self)@.staffed(target as int, min_part_size as int),
            jobs@.map_values(|i: usize| i as int) == old(self)@.jobs(
                target as int,
                min_part_size as int,
            ),
            final(self)@.running >= target || !final(self)@.has_work(min_part_size as int),
    {
        let ghost before = self@;
        let mut jobs: Vec<usize> = Vec::new();
        loop
            invariant_except_break
                self@.wf(),
                before.covers() ==> self@.covers(),
                self@.staffed(target as int, min_part_size as int) == before.staffed(
                    target as int,
                    min_part_size as int,
                ),
                jobs@.map_values(|i: usize| i as int) + self@.jobs(
                    target as int,
                    min_part_size as int,
                ) =~= before.jobs(target as int, min_part_size as int),
            ensures
                self@.wf(),
                before.covers() ==> self@.covers(),
                self@ == before.staffed(target as int, min_part_size as int),
                jobs@.map_values(|i: usize| i as int) =~= before.jobs(
                    target as int,
                    min_part_size as int,
                ),
                self@.running >= target || !self@.has_work(min_part_size as int),
            decreases target - self@.running,
        {
            let ghost now = self@;
            let ghost got = jobs@;
            match self.hire(target, min_part_size) {
                Some(i) => {
                    jobs.push(i);
                    assert(jobs@.map_values(|i: usize| i as int) =~= got.map_values(
                        |i: usize| i as int,
                    ).push(i as int));
                },
                None => {
                    break ;
                },
            }
        }
        jobs
    }

    /// Asks the pump of part `i` what to do next.
    pub fn pump_next(
        &mut self,
        i: usize,
        pump: &mut Pump,
        canceled: bool,
        paused: bool,
        now: u64,
    ) -> (step: PumpStep)
        requires
            old(self)@.wf(),
            old(self)@.is_active(i as int),
            old(pump).wf(),
        ensures
            final(self)@.wf(),
            old(self)@.covers() ==> final(self)@.covers(),
            final(self)@ == old(self)@.with_part(
                i as int,
                part_after_next(old(self)@.parts[i as int], canceled, paused),
            ),
            final(pump).wf(),
            *final(pump) == old(pump).after_next(canceled, paused, now),
            old(pump).next_is(old(self)@.parts[i as int], canceled, paused, step),
    {
        assert(fit_for(self.parts@[i as int], self.phases@[i as int]));
        let mut part = self.parts[i];
        let step = pump.next(&mut part, canceled, paused, now);
        self.replace(i, part);
        step
    }

    /// Notes that the pump of part `i` wrote its next `n` pending bytes.
    pub fn pump_wrote(&mut self, i: usize, pump: &mut Pump, n: usize)
        requires
            old(self)@.wf(),
            old(self)@.is_active(i as int),
            old(pump).wf(),
            n <= old(pump).writable(old(self)@.parts[i as int]),
            old(pump).window_bytes + n <= i64::MAX,
        ensures
            final(self)@.wf(),
            old(self)@.covers() ==> final(self)@.covers(),
            final(self)@ == old(self)@.with_part(
                i as int,
                Part {
                    current: (old(self)@.parts[i as int].current + n) as i64,
                    ..old(self)@.parts[i as int]
                },
            ),
            final(pump).wf(),
            *final(pump) == old(pump).after_write(n as int),
    {
        assert(fit_for(self.parts@[i as int], self.phases@[i as int]));
        let mut part = self.parts[i];
        pump.wrote(&mut part, n);
        self.replace(i, part);
    }

    /// Puts back a part that has moved on inside its range.
    fn replace(&mut self, i: usize, part: Part)
        requires
            old(self)@.wf(),
            old(self)@.is_active(i as int),
            part.wf(),
            part.from == old(self)@.parts[i as int].from,
            part.to == old(self)@.parts[i as int].to,
        ensures
            final(self)@.wf(),
            old(self)@.covers() ==> final(self)@.covers(),
            final(self)@ == old(self)@.with_part(i as int, part),
    {
        let ghost before = self@;
        self.parts.set(i, part);
        proof {
            law_moving_on_keeps_order(before, i as int, part);
            assert(self@ =~= before.with_part(i as int, part));
        }
    }

    /// Takes note of how the worker of part `i` ended.
    pub fn worker_done(&mut self, i: usize, result: Result<(), Error>)
        requires
            old(self)@.wf(),
            old(self)@.is_active(i as int),
            result is Ok ==> old(self)@.parts[i as int].spec_done(),
        ensures
            final(self)@.wf(),
            final(self)@ == old(self)@.after_worker(i as int, result),
            old(self)@.covers() ==> final(self)@.covers(),
    {
        proof {
            law_ending_keeps_order(self@, i as int, result);
        }
        let phase = if result.is_ok() { Phase::Finished } else { Phase::Left };
        self.phases.set(i, phase);
        self.running = self.running - 1;
        if let Err(e) = result {
            if e.kind != ErrorKind::Canceled {
                if self.first_err.is_none() {
                    self.first_err = Some(e);
                }
                self.stopped = true;
            }
        }
    }

    /// Whether no more workers are to be hired: the download was canceled, by the host
    /// or because of an error.
    pub fn must_stop(&mut self, canceled: bool) -> (b: bool)
        ensures
            b == (old(self).stopped || canceled || old(self).first_err is Some),
            final(self)@ == (SessionView {
                stopped: old(self).stopped || (!canceled && old(self).first_err is Some),
                ..old(self)@
            }),
    {
        if self.stopped || canceled {
            return true;
        }
        if self.first_err.is_some() {
            self.stopped = true;
            return true;
        }
        false
    }

    /// Whether no worker is active and nothing waits.
    pub fn idle(&self) -> (b: bool)
        ensures
            b == self@.is_idle(),
    {
        self.running == 0 && self.queue.len() == 0
    }

    /// How the session ends: an error comes first, then a cancellation.
    pub fn verdict(&mut self, canceled: bool) -> (v: Verdict)
        ensures
            v == old(self)@.verdict_for(canceled),
            final(self)@ == (SessionView { first_err: None, ..old(self)@ }),
    {
        match self.first_err.take() {
            Some(e) => Verdict::Failed(e),
            None => {
                if self.stopped || canceled {
                    Verdict::Canceled
                } else {
                    Verdict::Complete
                }
            },
        }
    }
}

// ---------------------------------------------------------------- counting workers

proof fn lemma_busy_update(phases: Seq<Phase>, i: int, p: Phase)
    requires
        0 <= i < phases.len(),
    ensures
        busy(phases.update(i, p)) + (if phases[i] == Phase::Active {
            1nat
        } else {
            0nat
        }) == busy(phases) + (if p == Phase::Active {
            1nat
        } else {
            0nat
        }),
    decreases phases.len(),
{
    let next = phases.update(i, p);
    if i == phases.len() - 1 {
        assert(next.drop_last() =~= phases.drop_last());
    } else {
        assert(next.drop_last() =~= phases.drop_last().update(i, p));
        lemma_busy_update(phases.drop_last(), i, p);
    }
}

proof fn lemma_busy_bound(phases: Seq<Phase>)
    ensures
        busy(phases) <= phases.len(),
    decreases phases.len(),
{
    if phases.len() > 0 {
        lemma_busy_bound(phases.drop_last());
    }
}

proof fn lemma_nobody_busy(phases: Seq<Phase>, i: int)
    requires
        busy(phases) == 0,
        0 <= i < phases.len(),
    ensures
        phases[i] != Phase::Active,
    decreases phases.len(),
{
    if i < phases.len() - 1 {
        lemma_nobody_busy(phases.drop_last(), i);
    }
}

/// Taking the first waiting part out of the queue and making it active keeps the
/// queue complete.
proof fn lemma_pop_lists_waiting(queue: Seq<usize>, phases: Seq<Phase>)
    requires
        lists_waiting(queue, phases),
        queue.len() > 0,
        phases.len() <= usize::MAX,
    ensures
        lists_waiting(queue.drop_first(), phases.update(queue[0] as int, Phase::Active)),
{
    let rest = queue.drop_first();
    let next = phases.update(queue[0] as int, Phase::Active);
    assert forall|k: int| 0 <= k < rest.len() implies (#[trigger] rest[k]) < next.len()
        && next[rest[k] as int] == Phase::Waiting by {
        assert(rest[k] == queue[k + 1]);
        assert(queue[0] != queue[k + 1]);
    }
    assert forall|k: int, l: int| 0 <= k < l < rest.len() implies #[trigger] rest[k]
        != #[trigger] rest[l] by {
        assert(queue[k + 1] != queue[l + 1]);
    }
    assert forall|i: int|
        0 <= i < next.len() && #[trigger] next[i] == Phase::Waiting implies rest.contains(
        i as usize,
    ) by {
        assert(phases[i] == Phase::Waiting);
        let k = choose|k: int| 0 <= k < queue.len() && queue[k] == i as usize;
        assert(rest[k - 1] == i as usize);
    }
}

/// Splitting a part and making its back half active keeps parts and phases together.
proof fn lemma_split_keeps_wf(before: SessionView, after: SessionView, b: int)
    requires
        before.wf(),
        0 <= b < before.parts.len() < usize::MAX,
        before.parts[b].can_split(0),
        after.parts == after_split(before.parts, b),
        after.phases == before.phases.push(Phase::Active),
        after.queue == before.queue,
        after.running == before.running + 1,
    ensures
        after.wf(),
{
    assert(fit_for(before.parts[b], before.phases[b]));
    assert(after.phases.drop_last() =~= before.phases);
    assert forall|k: int| 0 <= k < after.parts.len() implies fit_for(
        #[trigger] after.parts[k],
        after.phases[k],
    ) by {
        if k < before.parts.len() {
            assert(fit_for(before.parts[k], before.phases[k]));
        }
    }
    assert forall|k: int|
        0 <= k < after.phases.len() && #[trigger] after.phases[k]
            == Phase::Waiting implies after.queue.contains(k as usize) by {
        assert(before.phases[k] == Phase::Waiting);
    }
}

// ---------------------------------------------------------------- laws

/// A session of sound parts starts in order.
pub proof fn law_session_starts_in_order(total: int, parts: Seq<Part>)
    requires
        parts.len() <= usize::MAX,
        forall|i: int| 0 <= i < parts.len() ==> (#[trigger] parts[i]).sound(),
    ensures
        SessionView::start(total, parts).wf(),
{
    lemma_start_lists_waiting(parts);
    let s = SessionView::start(total, parts);
    assert forall|i: int| 0 <= i < parts.len() implies fit_for(
        #[trigger] s.parts[i],
        s.phases[i],
    ) by {
        assert(parts[i].sound());
    }
}

proof fn lemma_start_lists_waiting(parts: Seq<Part>)
    requires
        parts.len() <= usize::MAX,
    ensures
        lists_waiting(open_positions(parts), first_phases(parts)),
        busy(first_phases(parts)) == 0,
    decreases parts.len(),
{
    let phases = first_phases(parts);
    let queue = open_positions(parts);
    if parts.len() > 0 {
        let front = parts.drop_last();
        let last = parts.len() - 1;
        lemma_start_lists_waiting(front);
        let (phases0, queue0) = (first_phases(front), open_positions(front));
        assert(phases.drop_last() =~= phases0);
        assert forall|j: int| 0 <= j < last implies #[trigger] phases[j] == phases0[j] by {}
        assert forall|k: int| 0 <= k < queue0.len() implies #[trigger] queue[k] == queue0[k]
            && queue0[k] < last by {}
        assert forall|i: int|
            0 <= i < phases.len() && #[trigger] phases[i] == Phase::Waiting implies queue.contains(
            i as usize,
        ) by {
            if i < last {
                assert(phases0[i] == Phase::Waiting);
                let k = choose|k: int| 0 <= k < queue0.len() && queue0[k] == i as usize;
                assert(queue[k] == i as usize);
            } else {
                assert(queue[queue.len() - 1] == i as usize);
            }
        }
    }
}

/// Hiring keeps the session in order, and the file covered.
pub proof fn law_hiring_keeps_order(s: SessionView, min_part_size: int)
    requires
        s.wf(),
        s.has_work(min_part_size),
        s.queue.len() == 0 ==> s.parts.len() < usize::MAX,
    ensures
        s.hired(min_part_size).wf(),
        s.hired(min_part_size).is_active(s.next_job()),
        s.covers() ==> s.hired(min_part_size).covers(),
{
    let next = s.hired(min_part_size);
    if s.queue.len() > 0 {
        let i = s.queue[0] as int;
        lemma_busy_update(s.phases, i, Phase::Active);
        lemma_pop_lists_waiting(s.queue, s.phases);
        assert forall|k: int| 0 <= k < next.parts.len() implies fit_for(
            #[trigger] next.parts[k],
            next.phases[k],
        ) by {
            assert(fit_for(s.parts[k], s.phases[k]));
        }
    } else {
        law_best_is_the_largest(s.parts, min_part_size);
        let b = best_to_split(s.parts, min_part_size)->0;
        lemma_split_keeps_wf(s, next, b);
        if s.covers() {
            law_split_keeps_tiling(s.parts, s.total, b, min_part_size);
        }
    }
}

/// Hiring neither stops a session nor makes it fail.
pub proof fn lemma_staffing_fails_nobody(s: SessionView, target: int, min_part_size: int)
    ensures
        s.staffed(target, min_part_size).stopped == s.stopped,
        s.staffed(target, min_part_size).first_err == s.first_err,
    decreases target - s.running,
{
    if s.running < target && s.has_work(min_part_size) {
        lemma_staffing_fails_nobody(s.hired(min_part_size), target, min_part_size);
    }
}

/// A part that moves on inside its range keeps the session in order, and the file
/// covered.
pub proof fn law_moving_on_keeps_order(s: SessionView, i: int, p: Part)
    requires
        s.wf(),
        s.is_active(i),
        p.wf(),
        p.from == s.parts[i].from,
        p.to == s.parts[i].to,
    ensures
        s.with_part(i, p).wf(),
        s.covers() ==> s.with_part(i, p).covers(),
{
    if s.covers() {
        law_same_range_keeps_tiling(s.parts, s.total, i, p);
    }
    let next = s.with_part(i, p);
    assert forall|k: int| 0 <= k < next.parts.len() implies fit_for(
        #[trigger] next.parts[k],
        next.phases[k],
    ) by {
        assert(fit_for(s.parts[k], s.phases[k]));
    }
}

/// The end of a worker keeps the session in order.
pub proof fn law_ending_keeps_order(s: SessionView, i: int, result: Result<(), Error>)
    requires
        s.wf(),
        s.is_active(i),
        result is Ok ==> s.parts[i].spec_done(),
    ensures
        s.after_worker(i, result).wf(),
        s.running > 0,
{
    let next = s.after_worker(i, result);
    lemma_busy_update(s.phases, i, next.phases[i]);
    assert forall|k: int| 0 <= k < next.parts.len() implies fit_for(
        #[trigger] next.parts[k],
        next.phases[k],
    ) by {
        assert(fit_for(s.parts[k], s.phases[k]));
    }
    assert forall|k: int|
        0 <= k < next.phases.len() && #[trigger] next.phases[k]
            == Phase::Waiting implies next.queue.contains(k as usize) by {
        assert(s.phases[k] == Phase::Waiting);
    }
}

/// The part to split has the most unclaimed bytes, enough for a split, and is the first
/// of those; there is none only if no part has enough.
pub proof fn law_best_is_the_largest(parts: Seq<Part>, min_part_size: int)
    ensures
        match best_to_split(parts, min_part_size) {
            Some(b) => {
                &&& 0 <= b < parts.len()
                &&& parts[b].unclaimed() >= split_minimum(min_part_size)
                &&& forall|j: int|
                    0 <= j < parts.len() ==> (#[trigger] parts[j]).unclaimed()
                        <= parts[b].unclaimed()
                &&& forall|j: int|
                    0 <= j < b ==> (#[trigger] parts[j]).unclaimed() < parts[b].unclaimed()
            },
            None => forall|j: int|
                0 <= j < parts.len() ==> (#[trigger] parts[j]).unclaimed() < split_minimum(
                    min_part_size,
                ),
        },
    decreases parts.len(),
{
    if parts.len() > 0 {
        let front = parts.drop_last();
        law_best_is_the_largest(front, min_part_size);
        assert forall|j: int| 0 <= j < front.len() implies #[trigger] parts[j] == front[j] by {}
    }
}

/// Hiring disturbs no file: what the temporary files hold stays right for every part.
pub proof fn law_hiring_keeps_faithful(
    s: SessionView,
    files: Files,
    data: Seq<u8>,
    min_part_size: int,
)
    requires
        s.wf(),
        s.covers(),
        s.total == data.len(),
        s.has_work(min_part_size),
        faithful(s.parts, files, data),
    ensures
        s.hired(min_part_size).covers(),
        faithful(s.hired(min_part_size).parts, files, data),
{
    if s.queue.len() == 0 {
        law_best_is_the_largest(s.parts, min_part_size);
        let b = best_to_split(s.parts, min_part_size)->0;
        law_split_keeps_tiling(s.parts, s.total, b, min_part_size);
        law_split_keeps_faithful(s.parts, files, data, b, min_part_size);
    }
}

/// A worker whose connection delivers the source from where its part stood writes what
/// belongs there: after each write, the temporary files still hold what was read, and
/// the pump is in step.
pub proof fn law_worker_keeps_faithful(
    s: SessionView,
    i: int,
    pump: Pump,
    n: int,
    start: int,
    got: Seq<u8>,
    files: Files,
    data: Seq<u8>,
)
    requires
        s.wf(),
        s.covers(),
        s.total == data.len(),
        s.is_active(i),
        faithful(s.parts, files, data),
        files.contains_key(s.parts[i].from as int),
        in_step(pump, s.parts[i], start, got),
        0 <= start,
        start + got.len() <= data.len(),
        got == data.subrange(start, start + got.len()),
        0 <= n <= pump.writable(s.parts[i]),
        pump.window_bytes + n <= i64::MAX,
    ensures
        ({
            let p = s.parts[i];
            let q = Part { current: (p.current + n) as i64, ..p };
            let bytes = pump.pending@.subrange(pump.off as int, pump.off + n);
            let file = written(files[p.from as int], p.current - p.from, bytes);
            &&& faithful(s.with_part(i, q).parts, files.insert(p.from as int, file), data)
            &&& in_step(pump.after_write(n), q, start, got)
        }),
{
    let p = s.parts[i];
    assert(fit_for(p, s.phases[i]));
    let bytes = pump.pending@.subrange(pump.off as int, pump.off + n);
    let len = pump.pending.len();
    assert(pump.off + n <= len);
    law_write_is_next_bytes(pump, p, start, got, n);
    assert(bytes =~= data.subrange(p.current as int, p.current + n));
    law_write_keeps_faithful(s.parts, files, data, i, bytes);
}

/// No failure is forgotten: from the start on, and whatever the workers do, a part is
/// given up only for an error that is kept, as long as no worker was canceled.
pub proof fn law_no_failure_is_forgotten(
    s: SessionView,
    total: int,
    parts: Seq<Part>,
    min_part_size: int,
    i: int,
    p: Part,
    result: Result<(), Error>,
)
    requires
        s.wf(),
        s.accounted(),
        s.is_active(i),
        !(result is Err && result->Err_0.kind == ErrorKind::Canceled),
    ensures
        SessionView::start(total, parts).accounted(),
        s.has_work(min_part_size) ==> s.hired(min_part_size).accounted(),
        s.with_part(i, p).accounted(),
        s.after_worker(i, result).accounted(),
{
    if s.has_work(min_part_size) && s.hired(min_part_size).abandoned() {
        let next = s.hired(min_part_size);
        let k = choose|k: int|
            0 <= k < next.phases.len() && #[trigger] next.phases[k] == Phase::Left;
        assert(s.phases[k] == Phase::Left);
    }
    if s.after_worker(i, result).abandoned() && result is Ok {
        let next = s.after_worker(i, result);
        let k = choose|k: int|
            0 <= k < next.phases.len() && #[trigger] next.phases[k] == Phase::Left;
        assert(s.phases[k] == Phase::Left);
    }
}

/// When nothing waits, no worker is active and none gave up, every part is complete.
pub proof fn law_idle_session_is_complete(s: SessionView)
    requires
        s.wf(),
        s.is_idle(),
        !s.abandoned(),
    ensures
        forall|i: int| 0 <= i < s.parts.len() ==> (#[trigger] s.parts[i]).spec_done(),
{
    assert forall|i: int| 0 <= i < s.parts.len() implies (#[trigger] s.parts[i]).spec_done() by {
        assert(fit_for(s.parts[i], s.phases[i]));
        lemma_nobody_busy(s.phases, i);
        if s.phases[i] == Phase::Waiting {
            assert(s.queue.contains(i as usize));
        }
    }
}

/// A download whose parts tile the file, whose temporary files hold what was read, and
/// that has neither work nor workers nor an error assembles to the source, byte for
/// byte.
pub proof fn law_finished_session_gives_the_source(
    s: SessionView,
    files: Files,
    data: Seq<u8>,
    v: Seq<(i64, i64)>,
)
    requires
        s.wf(),
        s.covers(),
        s.total == data.len(),
        s.is_idle(),
        s.accounted(),
        s.first_err is None,
        faithful(s.parts, files, data),
        sorted_stably(pieces(s.parts), v),
    ensures
        assembled(v, files) == data,
{
    law_idle_session_is_complete(s);
    law_assembled_file_is_the_source(s.parts, files, data, v);
}

// ---------------------------------------------------------------- laws on single steps

/// A session starts with everything that is not complete waiting, in order, and nobody at
/// work.
pub proof fn law_session_starts_with_what_is_open(total: int, parts: Seq<Part>, i: int)
    requires
        parts.len() <= usize::MAX,
        0 <= i < parts.len(),
    ensures
        ({
            let s = SessionView::start(total, parts);
            &&& s.total == total && s.parts == parts
            &&& s.running == 0 && s.first_err is None && !s.stopped
            &&& s.phases.len() == parts.len()
            &&& parts[i].current > parts[i].to ==> s.phases[i] == Phase::Finished
                && !s.queue.contains(i as usize)
            &&& parts[i].current <= parts[i].to ==> s.phases[i] == Phase::Waiting
                && s.queue.contains(i as usize)
            &&& forall|k: int, l: int|
                0 <= k < l < s.queue.len() ==> #[trigger] s.queue[k] < #[trigger] s.queue[l]
        }),
{
    lemma_open_positions(parts);
    lemma_start_lists_waiting(parts);
    let s = SessionView::start(total, parts);
    if parts[i].current > parts[i].to && s.queue.contains(i as usize) {
        let k = choose|k: int| 0 <= k < s.queue.len() && s.queue[k] == i as usize;
        assert(s.phases[s.queue[k] as int] == Phase::Waiting);
    }
}

proof fn lemma_open_positions(parts: Seq<Part>)
    requires
        parts.len() <= usize::MAX,
    ensures
        forall|k: int|
            0 <= k < open_positions(parts).len() ==> #[trigger] open_positions(parts)[k]
                < parts.len(),
        forall|k: int, l: int|
            0 <= k < l < open_positions(parts).len() ==> #[trigger] open_positions(parts)[k]
                < #[trigger] open_positions(parts)[l],
    decreases parts.len(),
{
    if parts.len() > 0 {
        lemma_open_positions(parts.drop_last());
        let (all, some) = (open_positions(parts), open_positions(parts.drop_last()));
        assert forall|k: int| 0 <= k < all.len() implies #[trigger] all[k] < parts.len() by {
            if k < some.len() {
                assert(all[k] == some[k]);
            }
        }
        assert forall|k: int, l: int| 0 <= k < l < all.len() implies #[trigger] all[k]
            < #[trigger] all[l] by {
            assert(all[k] == some[k]);
            if l < some.len() {
                assert(all[l] == some[l]);
            }
        }
    }
}

/// The next worker gets the part that has waited longest; only when none waits, the part
/// with the most unclaimed bytes gives up its back half, if it has enough of them.
pub proof fn law_hiring_takes_the_first(s: SessionView, min_part_size: int, i: int)
    requires
        s.wf(),
        0 <= i < s.phases.len(),
    ensures
        ({
            let next = s.hired(min_part_size);
            &&& s.queue.len() > 0 ==> {
                &&& s.has_work(min_part_size)
                &&& s.next_job() == s.queue[0]
                &&& next.queue == s.queue.subrange(1, s.queue.len() as int)
                &&& next.parts == s.parts
                &&& next.phases.len() == s.phases.len()
                &&& next.phases[s.next_job()] == Phase::Active
                &&& i != s.next_job() ==> next.phases[i] == s.phases[i]
            }
            &&& s.queue.len() == 0 ==> {
                &&& s.has_work(min_part_size) <==> exists|k: int|
                    0 <= k < s.parts.len() && (#[trigger] s.parts[k]).to - s.parts[k].safe_zone
                        >= min_part_size && s.parts[k].to - s.parts[k].safe_zone >= 1048576
                &&& s.has_work(min_part_size) ==> {
                    &&& s.next_job() == s.parts.len()
                    &&& next.queue == s.queue
                    &&& next.parts.len() == s.parts.len() + 1
                    &&& next.phases.len() == s.phases.len() + 1
                    &&& next.phases.last() == Phase::Active
                    &&& next.phases[i] == s.phases[i]
                }
            }
            &&& next.running == s.running + 1
            &&& next.total == s.total && next.first_err == s.first_err && next.stopped == s.stopped
        }),
{
    let next = s.hired(min_part_size);
    law_best_is_the_largest(s.parts, min_part_size);
    if s.queue.len() > 0 {
        assert(next.queue =~= s.queue.subrange(1, s.queue.len() as int));
        assert(s.phases[s.queue[0] as int] == Phase::Waiting);
    } else {
        match best_to_split(s.parts, min_part_size) {
            Some(b) => {
                assert(s.parts[b].to - s.parts[b].safe_zone >= 1048576);
            },
            None => {
                assert forall|k: int|
                    0 <= k < s.parts.len() implies !((#[trigger] s.parts[k]).to
                    - s.parts[k].safe_zone >= min_part_size && s.parts[k].to
                    - s.parts[k].safe_zone >= 1048576) by {
                    assert(s.parts[k].unclaimed() < split_minimum(min_part_size));
                }
            },
        }
    }
}

/// The part that is split is the first of those with the most unclaimed bytes.
pub proof fn law_largest_part_is_split(s: SessionView, min_part_size: int, k: int)
    requires
        s.queue.len() == 0,
        s.has_work(min_part_size),
        0 <= k < s.parts.len(),
    ensures
        ({
            let b = best_to_split(s.parts, min_part_size)->0;
            let most = s.parts[b].to - s.parts[b].safe_zone;
            &&& 0 <= b < s.parts.len()
            &&& s.parts[k].to - s.parts[k].safe_zone <= most
            &&& k < b ==> s.parts[k].to - s.parts[k].safe_zone < most
            &&& most >= min_part_size && most >= 1048576
            &&& s.hired(min_part_size).parts[b] == s.parts[b].front_half()
            &&& s.hired(min_part_size).parts.last() == s.parts[b].back_half()
            &&& k != b ==> s.hired(min_part_size).parts[k] == s.parts[k]
        }),
{
    law_best_is_the_largest(s.parts, min_part_size);
}

/// New workers get the parts that wait, in their order, and then the parts that are split
/// off; there are as many as are missing, as far as there is work.
pub proof fn law_jobs_are_handed_out_in_order(s: SessionView, target: int, min_part_size: int)
    requires
        s.wf(),
        s.parts.len() + max_int(target - s.running, 0) <= usize::MAX,
    ensures
        ({
            let jobs = s.jobs(target, min_part_size);
            let next = s.staffed(target, min_part_size);
            &&& next.running == s.running + jobs.len()
            &&& jobs.len() > 0 ==> next.running <= target
            &&& next.running < target ==> !next.has_work(min_part_size)
            &&& forall|k: int|
                0 <= k < jobs.len() ==> #[trigger] jobs[k] == (if k < s.queue.len() {
                    s.queue[k] as int
                } else {
                    s.parts.len() + k - s.queue.len()
                })
            &&& forall|k: int| 0 <= k < jobs.len() ==> next.is_active(#[trigger] jobs[k])
            &&& forall|i: int| s.is_active(i) ==> #[trigger] next.is_active(i)
            &&& jobs.len() <= s.queue.len() ==> next.parts == s.parts
        }),
    decreases target - s.running,
{
    if s.running < target && s.has_work(min_part_size) {
        let h = s.hired(min_part_size);
        law_hiring_keeps_order(s, min_part_size);
        law_jobs_are_handed_out_in_order(h, target, min_part_size);
        let jobs = s.jobs(target, min_part_size);
        let rest = h.jobs(target, min_part_size);
        let next = s.staffed(target, min_part_size);
        assert(jobs =~= seq![s.next_job()] + rest);
        assert forall|k: int| 0 <= k < jobs.len() implies #[trigger] jobs[k] == (if k
            < s.queue.len() {
            s.queue[k] as int
        } else {
            s.parts.len() + k - s.queue.len()
        }) by {
            if k > 0 {
                assert(jobs[k] == rest[k - 1]);
            }
        }
        assert forall|k: int| 0 <= k < jobs.len() implies next.is_active(#[trigger] jobs[k]) by {
            if k > 0 {
                assert(jobs[k] == rest[k - 1]);
            } else {
                assert(h.is_active(s.next_job()));
            }
        }
        assert forall|i: int| s.is_active(i) implies #[trigger] next.is_active(i) by {
            if s.queue.len() > 0 {
                assert(s.phases[s.queue[0] as int] == Phase::Waiting);
            }
            assert(h.is_active(i));
        }
    }
}

/// A worker that ends well leaves its part finished, and any other one leaves it to
/// itself; one worker fewer is at work, and nothing happens to the other parts. An error
/// that is no cancellation stops the others, and the first such error is kept.
pub proof fn law_end_of_a_worker(s: SessionView, i: int, result: Result<(), Error>, k: int)
    requires
        0 <= i < s.phases.len(),
        0 <= k < s.phases.len(),
    ensures
        ({
            let next = s.after_worker(i, result);
            &&& next.running == s.running - 1
            &&& next.parts == s.parts && next.queue == s.queue && next.total == s.total
            &&& next.phases.len() == s.phases.len()
            &&& k != i ==> next.phases[k] == s.phases[k]
            &&& result is Ok ==> next.phases[i] == Phase::Finished && next.stopped == s.stopped
                && next.first_err == s.first_err
            &&& result matches Err(e) ==> {
                &&& next.phases[i] == Phase::Left
                &&& e.kind == ErrorKind::Canceled ==> next.stopped == s.stopped && next.first_err
                    == s.first_err
                &&& e.kind != ErrorKind::Canceled ==> next.stopped && next.first_err is Some
                &&& e.kind != ErrorKind::Canceled && s.first_err is None ==> next.first_err
                    == Some(e)
                &&& s.first_err is Some ==> next.first_err == s.first_err
            }
        }),
{
}

/// A session ends with its error if there is one; otherwise it was canceled if it was
/// told to stop, and is complete if it was not. It goes on exactly as long as it was not
/// told to stop, has no error, and has workers or parts that wait.
pub proof fn law_end_of_a_session(s: SessionView, canceled: bool)
    ensures
        s.first_err matches Some(e) ==> s.verdict_for(canceled) == Verdict::Failed(e),
        s.first_err is None && (s.stopped || canceled) ==> s.verdict_for(canceled) is Canceled,
        s.first_err is None && !s.stopped && !canceled ==> s.verdict_for(canceled) is Complete,
        s.stops(canceled) <==> !(!canceled && !s.stopped && s.first_err is None && (s.running != 0
            || s.queue.len() > 0)),
        s.is_idle() <==> s.running == 0 && s.queue.len() == 0,
{
}

} // verus!
