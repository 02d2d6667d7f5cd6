//! Moving bytes from a connection into a segment's file.
use vstd::prelude::*;

use crate::errors::{retryable, Error, ErrorKind, ErrorView};
use crate::part::{min_int, Part, SAFETY_STEP};

verus! {

/// How long a connection is watched before its speed is judged: five seconds, in
/// nanoseconds.
pub const SLOW_WINDOW: u64 = 5000000000;

/// A connection with this much left or less (256 KiB) is not worth reopening.
pub const SLOW_REMAINING_MIN: i64 = 262144;

/// What to do next with a connection.
#[derive(Debug)]
pub enum PumpStep {
    /// The range is complete.
    Finish,
    /// Give the connection up.
    Fail(Error),
    /// Paused: wait a moment, then ask again.
    Rest,
    /// Something changed: ask again.
    Again,
    /// Read the next chunk from the connection.
    Fetch,
    /// Write the next `n` pending bytes.
    Write { n: usize },
}

/// What came out of reading a connection.
#[derive(Debug)]
pub enum Chunk {
    Data(Vec<u8>),
    End,
    Broken(String),
}

/// How the speed of a connection compares with the marks that matter.
#[derive(Debug, Clone, Copy)]
pub struct RateTest {
    /// slower than a connection that is as good as dead
    pub stuck: bool,
    /// the average connection is fast enough to speak of a fair share
    pub fair_share: bool,
    /// clearly slower than the average connection
    pub below_share: bool,
    /// slower than the smallest amount expected in the window
    pub below_floor: bool,
}

impl RateTest {
    /// Dead, or starved while the others do well.
    pub open spec fn is_slow(self) -> bool {
        self.stuck || (self.fair_share && self.below_share && self.below_floor)
    }
}

/// The part after its pump was asked what to do next: a part that may read nothing more
/// moves its safe zone.
pub open spec fn part_after_next(part: Part, canceled: bool, paused: bool) -> Part {
    if !canceled && !paused && !part.spec_done() && part.allowed() == 0 {
        part.extended()
    } else {
        part
    }
}

/// One connection that feeds one part.
#[derive(Debug)]
pub struct Pump {
    /// the last chunk received
    pub pending: Vec<u8>,
    /// how much of it has been written
    pub off: usize,
    /// when the current watch window began, in nanoseconds
    pub window_start: u64,
    /// how many bytes were written in the window
    pub window_bytes: i64,
    /// whether a slow connection is reopened
    pub watch_slow: bool,
}

impl Pump {
    /// No more bytes are marked as written than there are.
    pub open spec fn wf(self) -> bool {
        self.off <= self.pending@.len()
    }

    /// The bytes that were received and not yet written.
    pub open spec fn unwritten(self) -> Seq<u8> {
        self.pending@.skip(self.off as int)
    }

    /// How many pending bytes may be written into the part now.
    pub open spec fn writable(self, part: Part) -> int {
        min_int(self.pending@.len() - self.off, part.allowed())
    }

    /// The pump with a fresh watch window.
    pub open spec fn rewound(self, now: u64) -> Pump {
        Pump { window_start: now, window_bytes: 0, ..self }
    }

    /// The pump after `n` bytes were written.
    pub open spec fn after_write(self, n: int) -> Pump {
        Pump {
            off: (self.off + n) as usize,
            window_bytes: (self.window_bytes + n) as i64,
            ..self
        }
    }

    /// The pump after a chunk was received.
    pub open spec fn after_chunk(self, data: Vec<u8>) -> Pump {
        Pump { pending: data, off: 0, ..self }
    }

    /// The pump after it was asked what to do next: while paused, the time does not count.
    pub open spec fn after_next(self, canceled: bool, paused: bool, now: u64) -> Pump {
        if !canceled && paused {
            self.rewound(now)
        } else {
            self
        }
    }

    /// `step` is what is due for the part.
    pub open spec fn next_is(
        self,
        part: Part,
        canceled: bool,
        paused: bool,
        step: PumpStep,
    ) -> bool {
        if canceled {
            step matches PumpStep::Fail(e) && e@ == ErrorView::canceled()
        } else if paused {
            step is Rest
        } else if part.spec_done() {
            step is Finish
        } else if part.allowed() == 0 {
            if part.can_extend() {
                step is Again
            } else {
                step matches PumpStep::Fail(e) && e@ == ErrorView::retryable(
                    "part"@,
                    "无法推进安全区"@,
                )
            }
        } else if self.off == self.pending@.len() {
            step is Fetch
        } else {
            step matches PumpStep::Write { n } && n == self.writable(part) && n > 0
        }
    }

    /// The watch window is over.
    pub open spec fn window_over(self, now: u64) -> bool {
        self.watch_slow && now - self.window_start >= SLOW_WINDOW
    }

    pub fn new(now: u64, watch_slow: bool) -> (p: Self)
        ensures
            p.wf(),
            p.pending@.len() == 0,
            p.off == 0,
            p.window_start == now,
            p.window_bytes == 0,
            p.watch_slow == watch_slow,
    {
        Pump { pending: Vec::new(), off: 0, window_start: now, window_bytes: 0, watch_slow }
    }

    /// Decides what to do next.
    pub fn next(&mut self, part: &mut Part, canceled: bool, paused: bool, now: u64) -> (step:
        PumpStep)
        requires
            old(self).wf(),
            old(part).next_fits(),
        ensures
            final(self).wf(),
            old(part).wf() ==> final(part).wf(),
            *final(self) == old(self).after_next(canceled, paused, now),
            *final(part) == part_after_next(*old(part), canceled, paused),
            old(self).next_is(*old(part), canceled, paused, step),
    {
        if canceled {
            return PumpStep::Fail(Error::canceled());
        }
        if paused {
            // the connection stays open; the time does not count
            self.window_start = now;
            self.window_bytes = 0;
            return PumpStep::Rest;
        }
        if part.current > part.to {
            return PumpStep::Finish;
        }
        let allowed: i64 = part.safe_zone + 1 - part.current;
        if allowed <= 0 {
            if part.extend_safe_zone() {
                return PumpStep::Again;
            }
            return PumpStep::Fail(retryable("part", "无法推进安全区".to_owned()));
        }
        if self.off >= self.pending.len() {
            return PumpStep::Fetch;
        }
        self.write_step(part)
    }

    /// The write that is due when bytes are pending.
    fn write_step(&self, part: &Part) -> (step: PumpStep)
        requires
            self.wf(),
            part.safe_zone < i64::MAX,
            i64::MIN <= part.safe_zone + 1 - part.current <= i64::MAX,
        ensures
            self.writable(*part) > 0 ==> (step matches PumpStep::Write { n } && n
                == self.writable(*part)),
            self.writable(*part) <= 0 ==> step is Again,
    {
        let allowed: i64 = part.safe_zone + 1 - part.current;
        let avail: usize = self.pending.len() - self.off;
        if allowed <= 0 || avail == 0 {
            return PumpStep::Again;
        }
        if avail as u64 <= allowed as u64 {
            PumpStep::Write { n: avail }
        } else {
            PumpStep::Write { n: allowed as usize }
        }
    }

    /// Takes what came out of reading the connection and decides what to do with it.
    pub fn received(&mut self, part: &Part, chunk: Chunk) -> (step: PumpStep)
        requires
            old(self).wf(),
            part.safe_zone < i64::MAX,
            i64::MIN <= part.safe_zone + 1 - part.current <= i64::MAX,
        ensures
            final(self).wf(),
            match chunk {
                Chunk::Data(data) => {
                    &&& *final(self) == old(self).after_chunk(data)
                    &&& final(self).writable(*part) > 0 ==> (step matches PumpStep::Write { n }
                        && n == final(self).writable(*part))
                    &&& final(self).writable(*part) <= 0 ==> step is Again
                },
                Chunk::End => {
                    &&& *final(self) == *old(self)
                    &&& part.spec_done() ==> step is Finish
                    &&& !part.spec_done() ==> (step matches PumpStep::Fail(e) && e@
                        == ErrorView::retryable("read"@, "连接提前结束"@))
                },
                Chunk::Broken(message) => {
                    &&& *final(self) == *old(self)
                    &&& step matches PumpStep::Fail(e) && e@ == ErrorView::retryable(
                        "read"@,
                        message@,
                    )
                },
            },
    {
        match chunk {
            Chunk::Data(data) => {
                self.pending = data;
                self.off = 0;
                self.write_step(part)
            },
            Chunk::End => {
                if part.done() {
                    PumpStep::Finish
                } else {
                    PumpStep::Fail(retryable("read", "连接提前结束".to_owned()))
                }
            },
            Chunk::Broken(message) => PumpStep::Fail(retryable("read", message)),
        }
    }

    /// Notes that the next `n` pending bytes were written into the part's file.
    pub fn wrote(&mut self, part: &mut Part, n: usize)
        requires
            old(self).off + n <= old(self).pending@.len(),
            old(part).current + n <= i64::MAX,
            old(self).window_bytes + n <= i64::MAX,
        ensures
            final(self).wf(),
            *final(self) == old(self).after_write(n as int),
            *final(part) == (Part { current: (old(part).current + n) as i64, ..*old(part) }),
            old(part).wf() && n <= old(part).allowed() ==> final(part).wf(),
    {
        let have: usize = self.pending.len();
        assert(self.off + n <= have);
        self.off = self.off + n;
        self.window_bytes = (self.window_bytes as i128 + n as i128) as i64;
        part.current = (part.current as i128 + n as i128) as i64;
    }

    /// Whether the speed of the connection is to be judged now.
    pub fn judge_now(&self, now: u64) -> (b: bool)
        ensures
            b == self.window_over(now),
    {
        self.watch_slow && now >= self.window_start && now - self.window_start >= SLOW_WINDOW
    }

    /// Judges the connection at the end of a watch window: `Some` gives it up as too
    /// slow; otherwise a fresh window begins.
    pub fn judge(&mut self, part: &Part, now: u64, test: RateTest) -> (verdict: Option<Error>)
        requires
            i64::MIN <= part.to - part.current,
            part.remaining() <= i64::MAX,
        ensures
            verdict is Some <==> old(self).window_over(now) && part.remaining()
                > SLOW_REMAINING_MIN && test.is_slow(),
            verdict matches Some(e) ==> e@ == ErrorView::slow() && *final(self) == *old(self),
            verdict is None ==> *final(self) == (if old(self).window_over(now) {
                old(self).rewound(now)
            } else {
                *old(self)
            }),
            old(self).wf() ==> final(self).wf(),
    {
        if !self.judge_now(now) {
            return None;
        }
        let remaining: i64 = part.to - part.current + 1;
        if remaining > SLOW_REMAINING_MIN && (test.stuck || (test.fair_share && test.below_share
            && test.below_floor)) {
            return Some(Error::slow());
        }
        self.window_start = now;
        self.window_bytes = 0;
        None
    }
}

// ---------------------------------------------------------------- laws

/// The pump began at byte `start`, has received `got` since, and the part has come as
/// far as the bytes that are no longer pending.
pub open spec fn in_step(pump: Pump, part: Part, start: int, got: Seq<u8>) -> bool {
    &&& pump.wf()
    &&& 0 <= part.current - start <= got.len()
    &&& got.skip(part.current - start) == pump.unwritten()
}

/// A pump starts in step with its part.
pub proof fn law_pump_starts_in_step(pump: Pump, part: Part)
    requires
        pump.wf(),
        pump.pending@.len() == 0,
    ensures
        in_step(pump, part, part.current as int, Seq::empty()),
{
    assert(Seq::<u8>::empty().skip(0) =~= pump.unwritten());
}

/// A chunk that arrives when nothing is pending keeps the pump in step.
pub proof fn law_chunk_keeps_step(pump: Pump, part: Part, start: int, got: Seq<u8>, data: Vec<u8>)
    requires
        in_step(pump, part, start, got),
        pump.off == pump.pending@.len(),
    ensures
        in_step(pump.after_chunk(data), part, start, got + data@),
{
    let at = part.current - start;
    assert(got.skip(at).len() == 0);
    assert((got + data@).skip(at) =~= data@.skip(0));
}

/// The bytes that a pump writes are the next ones that the connection delivered, in
/// order, none left out and none twice, and the pump stays in step.
pub proof fn law_write_is_next_bytes(pump: Pump, part: Part, start: int, got: Seq<u8>, n: int)
    requires
        in_step(pump, part, start, got),
        0 <= n <= pump.pending@.len() - pump.off,
        part.current + n <= i64::MAX,
        pump.window_bytes + n <= i64::MAX,
        pump.off + n <= usize::MAX,
    ensures
        pump.pending@.subrange(pump.off as int, pump.off + n) == got.subrange(
            part.current - start,
            part.current - start + n,
        ),
        in_step(
            pump.after_write(n),
            Part { current: (part.current + n) as i64, ..part },
            start,
            got,
        ),
{
    let at = part.current - start;
    let rest = pump.unwritten();
    assert(got.skip(at).len() == rest.len());
    assert(pump.pending@.subrange(pump.off as int, pump.off + n) =~= rest.take(n));
    assert(got.subrange(at, at + n) =~= got.skip(at).take(n));
    assert(got.skip(at + n) =~= got.skip(at).skip(n));
    assert(pump.after_write(n).unwritten() =~= rest.skip(n));
}

/// A part that only reads what it is allowed to, and moves its safe zone only when
/// nothing is allowed any more, is never allowed more than one safety step at a time.
pub open spec fn paced(part: Part) -> bool {
    part.wf() && part.allowed() <= SAFETY_STEP
}

/// The bytes written at a time never exceed one safety step: starting, reading,
/// moving the safe zone when it is used up, and splitting all keep to that.
pub proof fn law_writes_are_paced(part: Part, n: int, min_delta: int)
    requires
        paced(part),
    ensures
        part.allowed() == 0 ==> paced(part.extended()),
        0 <= n <= part.allowed() ==> paced(Part { current: (part.current + n) as i64, ..part }),
        part.can_split(min_delta) ==> paced(part.front_half()) && paced(part.back_half()),
{
}

/// A pump whose part is not complete always gets on: unless it is canceled or paused,
/// it moves the safe zone so that bytes may be read, fetches, or writes at least one
/// byte, and never fails.
pub proof fn law_open_part_gets_on(pump: Pump, part: Part, step: PumpStep)
    requires
        pump.wf(),
        part.wf(),
        !part.spec_done(),
        pump.next_is(part, false, false, step),
    ensures
        match step {
            PumpStep::Again => part.allowed() == 0 && part_after_next(part, false, false).allowed()
                > 0,
            PumpStep::Fetch => part.allowed() > 0 && pump.unwritten().len() == 0,
            PumpStep::Write { n } => 0 < n <= part.remaining(),
            PumpStep::Finish | PumpStep::Fail(_) | PumpStep::Rest => false,
        },
{
}

/// A connection that has delivered all that its part still needs, and of which nothing
/// is pending, has completed the part; its end is no failure.
pub proof fn law_full_delivery_completes(pump: Pump, part: Part, start: int, got: Seq<u8>)
    requires
        in_step(pump, part, start, got),
        pump.unwritten().len() == 0,
        start + got.len() > part.to,
    ensures
        part.spec_done(),
{
    assert(got.skip(part.current - start).len() == 0);
}

/// What is done with a connection: a cancellation comes before everything else, then a
/// pause, then the end of the range. A part that may read nothing more has its safe zone
/// moved; with bytes pending, as many are written as there are and as may be read; and
/// without, more are fetched.
pub proof fn law_pump_decides(
    pump: Pump,
    part: Part,
    canceled: bool,
    paused: bool,
    now: u64,
    step: PumpStep,
)
    requires
        pump.wf(),
        part.wf(),
        pump.next_is(part, canceled, paused, step),
    ensures
        ({
            let (q, p) = (part_after_next(part, canceled, paused), pump.after_next(
                canceled,
                paused,
                now,
            ));
            let left = pump.pending@.len() - pump.off;
            let room = part.safe_zone + 1 - part.current;
            &&& p.pending == pump.pending && p.off == pump.off && p.watch_slow == pump.watch_slow
            &&& q.from == part.from && q.to == part.to && q.current == part.current
            &&& canceled ==> (step matches PumpStep::Fail(e) && e.kind == ErrorKind::Canceled) && p
                == pump && q == part
            &&& !canceled && paused ==> step is Rest && q == part && p.window_start == now
                && p.window_bytes == 0
            &&& !canceled && !paused ==> {
                &&& p == pump
                &&& part.current > part.to ==> step is Finish && q == part
                &&& part.current <= part.to && room <= 0 ==> step is Again && q.safe_zone
                    > part.safe_zone
                &&& part.current <= part.to && room > 0 ==> q == part && {
                    &&& left == 0 ==> step is Fetch
                    &&& 0 < left <= room ==> (step matches PumpStep::Write { n } && n == left)
                    &&& left > room ==> (step matches PumpStep::Write { n } && n == room)
                }
            }
        }),
{
}

/// Writing moves the pump along its bytes and counts them; a new chunk takes the place of
/// the old one and starts from its beginning; a new window starts from nothing.
pub proof fn law_pump_moves_along(pump: Pump, n: int, data: Vec<u8>, now: u64)
    requires
        0 <= n <= pump.pending@.len() - pump.off,
        pump.pending@.len() <= usize::MAX,
        i64::MIN <= pump.window_bytes + n <= i64::MAX,
    ensures
        pump.after_write(n).pending == pump.pending,
        pump.after_write(n).off == pump.off + n,
        pump.after_write(n).window_bytes == pump.window_bytes + n,
        pump.after_write(n).window_start == pump.window_start,
        pump.after_write(n).watch_slow == pump.watch_slow,
        pump.after_chunk(data).pending == data,
        pump.after_chunk(data).off == 0,
        pump.after_chunk(data).window_bytes == pump.window_bytes,
        pump.after_chunk(data).window_start == pump.window_start,
        pump.after_chunk(data).watch_slow == pump.watch_slow,
        pump.rewound(now).window_start == now,
        pump.rewound(now).window_bytes == 0,
        pump.rewound(now).pending == pump.pending,
        pump.rewound(now).off == pump.off,
        pump.rewound(now).watch_slow == pump.watch_slow,
{
}

/// A connection is judged only while it is watched, and only after five seconds. It is
/// slow if it is as good as dead, or if the others get a fair share that it stays clearly
/// below, less than the least that is expected. With 256 kibibytes or less to go it is
/// never given up.
pub proof fn law_slow_connections(pump: Pump, now: u64, test: RateTest)
    ensures
        pump.window_over(now) <==> pump.watch_slow && now >= pump.window_start + 5000000000,
        test.stuck ==> test.is_slow(),
        !test.stuck && !test.fair_share ==> !test.is_slow(),
        !test.stuck && !test.below_share ==> !test.is_slow(),
        !test.stuck && !test.below_floor ==> !test.is_slow(),
        test.fair_share && test.below_share && test.below_floor ==> test.is_slow(),
        SLOW_REMAINING_MIN == 256 * 1024,
{
}

} // verus!
