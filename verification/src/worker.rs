//! Attempts and connections: when to try again, where to go on, when to give up.
use vstd::prelude::*;
use vstd::string::*;

use crate::errors::{fatal, retryable, Error, ErrorKind, ErrorView, ERR_TOO_MANY_FAILURES};
use crate::part::{max_int, Part};
use crate::pump::{Chunk, Pump};

verus! {

// ---------------------------------------------------------------- attempts

/// The attempts at one piece of work: a first one and a number of retries.
#[derive(Debug)]
pub struct Retry {
    /// what is being tried, for the message of the last failure
    pub op: &'static str,
    pub max_retries: usize,
    /// the current attempt, counted from zero
    pub attempt: usize,
    /// all attempts are used up
    pub exhausted: bool,
    /// how the last attempt failed
    pub last_err: Option<Error>,
}

/// What to do before an attempt.
#[derive(Debug)]
pub enum RetryStep {
    /// Give up.
    Stop(Error),
    /// Try; wait before that if it is a retry.
    Try { wait: bool },
}

/// What an attempt leads to.
#[derive(Debug)]
pub enum AfterAttempt {
    Over(Result<(), Error>),
    Again,
}

/// The error after the last retry.
pub open spec fn used_up(op: Seq<char>, last: Option<Error>) -> ErrorView {
    ErrorView::fatal(
        op,
        ERR_TOO_MANY_FAILURES@ + ": "@ + (match last {
            Some(e) => e@.text(),
            None => Seq::empty(),
        }),
    )
}

impl Retry {
    pub open spec fn wf(self) -> bool {
        self.attempt <= self.max_retries
    }

    /// How many attempts may still be made, the current one included.
    pub open spec fn attempts_left(self) -> int {
        if self.exhausted {
            0
        } else {
            self.max_retries - self.attempt + 1
        }
    }

    pub fn new(op: &'static str, max_retries: usize) -> (r: Self)
        ensures
            r.wf(),
            r.op@ == op@,
            r.max_retries == max_retries,
            r.attempt == 0,
            !r.exhausted,
            r.last_err is None,
            r.attempts_left() == max_retries + 1,
    {
        Retry { op, max_retries, attempt: 0, exhausted: false, last_err: None }
    }

    /// Decides what to do before the next attempt: when all are used up, that is the
    /// error; otherwise a cancellation comes before everything else.
    pub fn begin(&self, canceled: bool) -> (step: RetryStep)
        requires
            self.wf(),
        ensures
            match step {
                RetryStep::Stop(e) => if self.attempts_left() == 0 {
                    e@ == used_up(self.op@, self.last_err)
                } else {
                    canceled && e@ == ErrorView::canceled()
                },
                RetryStep::Try { wait } => self.attempts_left() > 0 && !canceled && wait == (
                self.attempt > 0),
            },
    {
        if self.exhausted {
            let mut message = ERR_TOO_MANY_FAILURES.to_owned();
            message.append(": ");
            match &self.last_err {
                Some(e) => {
                    let text = e.to_string();
                    message.append(text.as_str());
                },
                None => {},
            }
            assert(message@ =~= used_up(self.op@, self.last_err).message);
            return RetryStep::Stop(fatal(self.op, message));
        }
        if canceled {
            return RetryStep::Stop(Error::canceled());
        }
        RetryStep::Try { wait: self.attempt > 0 }
    }

    /// Takes the result of an attempt: only a retryable error leads to another one.
    pub fn finish(&mut self, result: Result<(), Error>) -> (next: AfterAttempt)
        requires
            old(self).wf(),
            !old(self).exhausted,
        ensures
            final(self).wf(),
            final(self).op == old(self).op,
            final(self).max_retries == old(self).max_retries,
            if result is Err && result->Err_0.kind == ErrorKind::Retryable {
                &&& next is Again
                &&& final(self).last_err == Some(result->Err_0)
                &&& final(self).attempts_left() == old(self).attempts_left() - 1
                &&& !final(self).exhausted ==> final(self).attempt == old(self).attempt + 1
            } else {
                &&& next == AfterAttempt::Over(result)
                &&& *final(self) == *old(self)
            },
    {
        match result {
            Ok(u) => AfterAttempt::Over(Ok(u)),
            Err(e) => {
                if e.is_retryable() {
                    self.last_err = Some(e);
                    if self.attempt == self.max_retries {
                        self.exhausted = true;
                    } else {
                        self.attempt = self.attempt + 1;
                    }
                    AfterAttempt::Again
                } else {
                    AfterAttempt::Over(Err(e))
                }
            },
        }
    }
}

/// The result of an attempt at a part: a connection that ended in good order before the
/// part was complete counts as a failure.
pub open spec fn part_result(done: bool, result: Result<(), Error>, r: Result<(), Error>) -> bool {
    if result is Ok && !done {
        r matches Err(e) && e@ == ErrorView::retryable("part"@, "连接提前结束"@)
    } else {
        r == result
    }
}

/// Decides what an attempt at a part came to.
pub fn part_attempt(done: bool, result: Result<(), Error>) -> (r: Result<(), Error>)
    ensures
        part_result(done, result, r),
{
    match result {
        Ok(u) => {
            if done {
                Ok(u)
            } else {
                Err(retryable("part", "连接提前结束".to_owned()))
            }
        },
        Err(e) => Err(e),
    }
}

// ---------------------------------------------------------------- connections

/// How often a slow connection is reopened within one attempt.
pub const MAX_SLOW_RECONNECTS: usize = 8;

/// The connections of one attempt at a part.
#[derive(Debug)]
pub struct Reconnect {
    /// how often a slow connection was given up
    pub count: usize,
}

/// What to do with a part next.
#[derive(Debug, Clone, Copy)]
pub enum ConnectStep {
    /// The part is complete.
    Finish,
    /// Ask for the bytes `from..=to`, write them at `seek` in the part's file, and watch
    /// the speed if `watch` is set.
    Open { from: i64, to: i64, seek: u64, watch: bool },
}

impl Reconnect {
    /// Slow connections are still given up.
    pub open spec fn watches(self) -> bool {
        self.count < MAX_SLOW_RECONNECTS
    }

    pub fn new() -> (r: Self)
        ensures
            r.count == 0,
    {
        Reconnect { count: 0 }
    }

    /// Decides what to do with the part next.
    pub fn next(&self, part: &Part) -> (step: ConnectStep)
        requires
            part.wf(),
        ensures
            step == (if part.spec_done() {
                ConnectStep::Finish
            } else {
                ConnectStep::Open {
                    from: part.current,
                    to: part.to,
                    seek: (part.current - part.from) as u64,
                    watch: self.watches(),
                }
            }),
    {
        if part.current > part.to {
            return ConnectStep::Finish;
        }
        ConnectStep::Open {
            from: part.current,
            to: part.to,
            seek: (part.current - part.from) as u64,
            watch: self.count < MAX_SLOW_RECONNECTS,
        }
    }

    /// Takes the end of a connection: a slow one is opened again (`None`), every other
    /// end is that of the attempt.
    pub fn ended(&mut self, result: Result<(), Error>) -> (r: Option<Result<(), Error>>)
        requires
            old(self).count < usize::MAX,
        ensures
            if result is Err && result->Err_0.kind == ErrorKind::Slow {
                r is None && final(self).count == old(self).count + 1
            } else {
                r == Some(result) && final(self).count == old(self).count
            },
    {
        match result {
            Ok(u) => Some(Ok(u)),
            Err(e) => {
                if e.kind == ErrorKind::Slow {
                    self.count = self.count + 1;
                    None
                } else {
                    Some(Err(e))
                }
            },
        }
    }
}

/// A connection is given up as slow only while it is watched, so that happens at most
/// as often as allowed.
pub proof fn law_slow_reconnects_are_bounded(r: Reconnect, pump: Pump, now: u64)
    requires
        r.count <= MAX_SLOW_RECONNECTS,
        pump.watch_slow == r.watches(),
        pump.window_over(now),
    ensures
        r.count + 1 <= MAX_SLOW_RECONNECTS,
{
}

/// How long the new temporary file of a part is made.
pub fn file_length(part: &Part) -> (n: u64)
    requires
        i64::MIN <= part.to - part.from < i64::MAX,
    ensures
        n == max_int(part.to - part.from + 1, 0),
{
    let len: i64 = part.to - part.from + 1;
    if len >= 0 {
        len as u64
    } else {
        0
    }
}

// ---------------------------------------------------------------- the whole file

/// What to do next when a file is loaded over a single connection.
#[derive(Debug)]
pub enum WholeStep {
    Fail(Error),
    /// Paused: wait a moment, then ask again.
    Rest,
    /// Read the next chunk from the connection.
    Fetch,
    /// Write these bytes at the end of the file.
    Write(Vec<u8>),
    Finish,
}

/// Decides what to do next with a single connection.
pub fn whole_next(canceled: bool, paused: bool) -> (step: WholeStep)
    ensures
        if canceled {
            step matches WholeStep::Fail(e) && e@ == ErrorView::canceled()
        } else if paused {
            step is Rest
        } else {
            step is Fetch
        },
{
    if canceled {
        return WholeStep::Fail(Error::canceled());
    }
    if paused {
        return WholeStep::Rest;
    }
    WholeStep::Fetch
}

/// Decides what to do with what a single connection delivered.
pub fn whole_received(chunk: Chunk) -> (step: WholeStep)
    ensures
        match chunk {
            Chunk::Data(data) => step == WholeStep::Write(data),
            Chunk::End => step is Finish,
            Chunk::Broken(message) => step matches WholeStep::Fail(e) && e@
                == ErrorView::retryable("read"@, message@),
        },
{
    match chunk {
        Chunk::Data(data) => WholeStep::Write(data),
        Chunk::End => WholeStep::Finish,
        Chunk::Broken(message) => WholeStep::Fail(retryable("read", message)),
    }
}

/// What happens when a file is loaded over a single connection.
pub enum WholeEvent {
    /// a connection is opened, from the first byte on: the file is emptied, and nothing
    /// counts any more
    Opened,
    /// the connection was read
    Received { chunk: Chunk },
}

/// What the file holds: the chunks since it was last emptied, one behind the other.
pub open spec fn whole_file(events: Seq<WholeEvent>) -> Seq<u8>
    decreases events.len(),
{
    if events.len() == 0 {
        Seq::empty()
    } else {
        match events.last() {
            WholeEvent::Opened => Seq::empty(),
            WholeEvent::Received { chunk: Chunk::Data(bytes) } => whole_file(events.drop_last())
                + bytes@,
            WholeEvent::Received { .. } => whole_file(events.drop_last()),
        }
    }
}

/// How many bytes have been counted since nothing counted any more.
pub open spec fn whole_count(events: Seq<WholeEvent>) -> int
    decreases events.len(),
{
    if events.len() == 0 {
        0
    } else {
        match events.last() {
            WholeEvent::Opened => 0,
            WholeEvent::Received { chunk: Chunk::Data(bytes) } => whole_count(events.drop_last())
                + bytes@.len(),
            WholeEvent::Received { .. } => whole_count(events.drop_last()),
        }
    }
}

/// Each chunk is the source from where the last one ended.
pub open spec fn delivers_in_order(events: Seq<WholeEvent>, data: Seq<u8>) -> bool
    decreases events.len(),
{
    events.len() > 0 ==> {
        &&& delivers_in_order(events.drop_last(), data)
        &&& events.last() matches WholeEvent::Received { chunk: Chunk::Data(bytes) } ==> {
            let at = whole_file(events.drop_last()).len() as int;
            &&& at + bytes@.len() <= data.len()
            &&& bytes@ == data.subrange(at, at + bytes@.len())
        }
    }
}

/// Over a single connection, with any number of new attempts: if each chunk is the source
/// from where the last one ended, the file is at every moment a front part of the source,
/// and as long as what was counted. Once as many bytes have come as the source has, the
/// file is the source, byte for byte.
pub proof fn law_single_stream_is_the_source_so_far(events: Seq<WholeEvent>, data: Seq<u8>)
    requires
        delivers_in_order(events, data),
    ensures
        whole_count(events) == whole_file(events).len() <= data.len(),
        whole_file(events) == data.take(whole_count(events)),
        whole_count(events) == data.len() ==> whole_file(events) == data,
    decreases events.len(),
{
    if events.len() > 0 {
        let front = events.drop_last();
        law_single_stream_is_the_source_so_far(front, data);
        if let WholeEvent::Received { chunk: Chunk::Data(bytes) } = events.last() {
            let at = whole_file(front).len() as int;
            assert(data.take(at) + data.subrange(at, at + bytes@.len()) =~= data.take(
                at + bytes@.len(),
            ));
        }
    }
    assert(whole_file(events) =~= data.take(whole_count(events)));
    assert(data.take(data.len() as int) =~= data);
}

// ---------------------------------------------------------------- laws

/// There is a first attempt and as many retries as allowed, no more and no fewer.
pub proof fn law_attempts_are_counted(r: Retry)
    requires
        r.wf(),
    ensures
        r.exhausted <==> r.attempts_left() == 0,
        !r.exhausted ==> r.attempts_left() == r.max_retries + 1 - r.attempt,
{
}

/// When the attempts are used up, the error is final, names what was tried, and tells how
/// the last attempt failed.
pub proof fn law_last_error_is_told(op: Seq<char>, e: Error)
    ensures
        used_up(op, Some(e)).kind == ErrorKind::Fatal,
        used_up(op, Some(e)).op == op,
        used_up(op, Some(e)).message == ERR_TOO_MANY_FAILURES@ + seq![':', ' '] + e@.op + seq![
            ':',
            ' ',
        ] + e@.message,
{
    reveal_strlit(": ");
    assert(": "@ =~= seq![':', ' ']);
    assert(used_up(op, Some(e)).message =~= ERR_TOO_MANY_FAILURES@ + seq![':', ' '] + e@.op + seq![
        ':',
        ' ',
    ] + e@.message);
}

/// An attempt at a part succeeds only if the part is complete; an error stays what it is.
pub proof fn law_attempt_succeeds_only_when_complete(
    done: bool,
    result: Result<(), Error>,
    r: Result<(), Error>,
)
    requires
        part_result(done, result, r),
    ensures
        r is Ok <==> done && result is Ok,
        result is Err ==> r == result,
        result is Ok && !done ==> r->Err_0.kind == ErrorKind::Retryable,
{
}

/// Slow connections are given up eight times at most.
pub proof fn law_slow_connections_are_given_up_eight_times(r: Reconnect)
    ensures
        r.watches() <==> r.count < 8,
{
}

} // verus!
