//! The decisions of a download: where the file goes, how many workers there are, when
//! progress is reported and saved, and what comes out.
use vstd::prelude::*;
use vstd::string::*;

use crate::client::ProbeInfo;
use crate::config::Config;
use crate::errors::{fatal, Error, ErrorView};
use crate::part::{max_int, min_int, Part};
use crate::progress::{bytes_read, lemma_read_update};
use crate::pump::Pump;
use crate::session::{fit_for, lemma_staffing_fails_nobody, Session, SessionView, Verdict};
use crate::types::{DownloadResult, Progress, Status};
use crate::url::url_segments;
use crate::util::{filename_from_url, is_sanitized, sanitize_name, segment_name};

verus! {

/// A request needs an address.
pub fn check_request(url: &str) -> (r: Result<(), Error>)
    ensures
        r is Ok <==> url@.len() > 0,
        r matches Err(e) ==> e@ == ErrorView::fatal("request"@, "URL 为空"@),
{
    if url.is_empty() {
        return Err(fatal("request", "URL 为空".to_owned()));
    }
    Ok(())
}

/// How many threads run the connections.
pub fn worker_threads(cfg: &Config) -> (n: usize)
    ensures
        n == max_int(4, min_int(cfg.max_threads as int, 64)),
{
    if cfg.max_threads < 4 {
        4
    } else if cfg.max_threads > 64 {
        64
    } else {
        cfg.max_threads
    }
}

/// The size of the file, as far as it is known.
pub fn known_size(info: &ProbeInfo) -> (n: i64)
    ensures
        n == max_int(info.size as int, 0),
{
    if info.size >= 0 {
        info.size
    } else {
        0
    }
}

/// Whether the file has to be loaded over a single connection: the server has no
/// ranges, or the size is not known.
pub fn needs_single_stream(info: &ProbeInfo) -> (b: bool)
    ensures
        b == (!info.range_ok || info.size <= 0),
{
    !info.range_ok || info.size <= 0
}

// ---------------------------------------------------------------- where the file goes

/// Where a file is saved.
#[derive(Debug)]
pub enum Target {
    /// as the host said
    File(String),
    /// under a chosen name in a directory
    InDir { dir: String, name: String },
}

/// The name that a file would like to have: what the server said, or what stands in the
/// address, or a stopgap.
pub open spec fn wanted_name(file_name: Seq<char>, url: Seq<char>) -> Seq<char> {
    if file_name.len() > 0 {
        file_name
    } else if segment_name(url_segments(url)).len() > 0 {
        segment_name(url_segments(url))
    } else {
        "download.bin"@
    }
}

/// A text that is there and not empty.
pub open spec fn given(s: Option<String>) -> bool {
    s matches Some(t) && t@.len() > 0
}

/// Finds the name that a file would like to have.
pub fn name_wanted(file_name: &str, url: &str) -> (name: String)
    ensures
        name@ == wanted_name(file_name@, url@),
{
    if !file_name.is_empty() {
        return file_name.to_owned();
    }
    let name = filename_from_url(url);
    if name.as_str().is_empty() {
        return "download.bin".to_owned();
    }
    name
}

/// Decides where the file is saved.
pub fn choose_target(
    target_file: &Option<String>,
    target_dir: &Option<String>,
    file_name: &str,
    url: &str,
) -> (t: Target)
    ensures
        match t {
            Target::File(f) => given(*target_file) && f@ == target_file->0@,
            Target::InDir { dir, name } => {
                &&& !given(*target_file)
                &&& dir@ == (if given(*target_dir) {
                    target_dir->0@
                } else {
                    "."@
                })
                &&& is_sanitized(wanted_name(file_name@, url@), name@)
            },
        },
{
    if let Some(f) = target_file {
        if !f.as_str().is_empty() {
            return Target::File(f.as_str().to_owned());
        }
    }
    let wanted = name_wanted(file_name, url);
    let name = sanitize_name(wanted.as_str());
    if let Some(d) = target_dir {
        if !d.as_str().is_empty() {
            return Target::InDir { dir: d.as_str().to_owned(), name };
        }
    }
    Target::InDir { dir: ".".to_owned(), name }
}

/// The name of the file while it is not complete.
pub fn marker_path(final_path: &str, suffix: &str) -> (m: String)
    ensures
        m@ == final_path@ + suffix@,
{
    let mut m = final_path.to_owned();
    m.append(suffix);
    m
}

// ---------------------------------------------------------------- how many workers

/// Half a second, in nanoseconds: how often the overall speed is measured.
pub const RATE_WINDOW: u64 = 500000000;

/// Two seconds: how often the number of workers grows.
pub const CLIMB_WINDOW: u64 = 2000000000;

/// One second: how often the progress is saved.
pub const SAVE_WINDOW: u64 = 1000000000;

/// How much time has passed.
pub open spec fn elapsed(since: u64, now: u64) -> int {
    max_int(now - since, 0)
}

/// Finds out how much time has passed.
pub fn time_since(since: u64, now: u64) -> (d: u64)
    ensures
        d == elapsed(since, now),
{
    if now >= since {
        now - since
    } else {
        0
    }
}

/// The next number of workers: a quarter more, at least one, up to the limit.
pub open spec fn climbed(target: int, max_threads: int) -> int {
    min_int(target + max_int(target / 4, 1), max_threads)
}

/// The clockwork of a running download. Times are in nanoseconds.
#[derive(Debug)]
pub struct Controller {
    /// how many workers there may be
    pub target: usize,
    pub last_climb: u64,
    pub rate_time: u64,
    pub rate_bytes: i64,
    pub last_save: u64,
}

impl Controller {
    /// It is time to measure the speed.
    pub open spec fn sample_due(self, now: u64) -> bool {
        elapsed(self.rate_time, now) >= RATE_WINDOW
    }

    /// The controller after the speed was measured, if that was due.
    pub open spec fn sampled(self, now: u64, bytes: i64) -> Controller {
        if self.sample_due(now) {
            Controller { rate_time: now, rate_bytes: bytes, ..self }
        } else {
            self
        }
    }

    /// It is time for more workers, if their number is to grow at all.
    pub open spec fn climb_due(self, now: u64, cfg: Config) -> bool {
        cfg.adaptive_threads && elapsed(self.last_climb, now) >= CLIMB_WINDOW
    }

    /// The controller after the number of workers grew, if that was due.
    pub open spec fn grown(self, now: u64, cfg: Config) -> Controller {
        if self.climb_due(now, cfg) {
            Controller {
                target: if self.target < cfg.max_threads {
                    climbed(self.target as int, cfg.max_threads as int) as usize
                } else {
                    self.target
                },
                last_climb: now,
                ..self
            }
        } else {
            self
        }
    }

    /// The next number of workers can be computed with.
    pub open spec fn climb_fits(self, cfg: Config) -> bool {
        self.target < cfg.max_threads ==> self.target + max_int(self.target as int / 4, 1)
            <= usize::MAX
    }

    pub fn new(cfg: &Config, now: u64) -> (c: Self)
        ensures
            c.target == (if cfg.adaptive_threads {
                max_int(cfg.initial_threads as int, 1)
            } else {
                cfg.max_threads as int
            }),
            c.last_climb == now,
            c.rate_time == now,
            c.rate_bytes == 0,
            c.last_save == now,
    {
        let target: usize = if cfg.adaptive_threads {
            if cfg.initial_threads >= 1 {
                cfg.initial_threads
            } else {
                1
            }
        } else {
            cfg.max_threads
        };
        Controller { target, last_climb: now, rate_time: now, rate_bytes: 0, last_save: now }
    }

    /// When it is time to measure the speed: the bytes and the time since the last
    /// measurement.
    pub fn sample(&mut self, now: u64, bytes: i64) -> (r: Option<(i64, u64)>)
        requires
            i64::MIN <= bytes - old(self).rate_bytes <= i64::MAX,
        ensures
            *final(self) == old(self).sampled(now, bytes),
            r == (if old(self).sample_due(now) {
                Some(
                    (
                        (bytes - old(self).rate_bytes) as i64,
                        elapsed(old(self).rate_time, now) as u64,
                    ),
                )
            } else {
                None
            }),
    {
        let dt: u64 = time_since(self.rate_time, now);
        if dt < RATE_WINDOW {
            return None;
        }
        let delta: i64 = bytes - self.rate_bytes;
        self.rate_time = now;
        self.rate_bytes = bytes;
        Some((delta, dt))
    }

    /// Lets the number of workers grow, if that is wanted and the time has come; returns
    /// the new number when it grew.
    pub fn climb(&mut self, now: u64, cfg: &Config) -> (r: Option<usize>)
        requires
            old(self).climb_fits(*cfg),
        ensures
            *final(self) == old(self).grown(now, *cfg),
            r == (if old(self).climb_due(now, *cfg) && old(self).target < cfg.max_threads {
                Some(final(self).target)
            } else {
                None
            }),
    {
        if !cfg.adaptive_threads || time_since(self.last_climb, now) < CLIMB_WINDOW {
            return None;
        }
        self.last_climb = now;
        if self.target < cfg.max_threads {
            let quarter: usize = self.target / 4;
            let step: usize = if quarter >= 1 { quarter } else { 1 };
            let more: usize = self.target + step;
            self.target = if more <= cfg.max_threads { more } else { cfg.max_threads };
            return Some(self.target);
        }
        None
    }

    /// Whether it is time to save the progress.
    pub fn save_due(&mut self, now: u64) -> (b: bool)
        ensures
            b == (elapsed(old(self).last_save, now) >= SAVE_WINDOW),
            *final(self) == (if b {
                Controller { last_save: now, ..*old(self) }
            } else {
                *old(self)
            }),
    {
        if time_since(self.last_save, now) >= SAVE_WINDOW {
            self.last_save = now;
            true
        } else {
            false
        }
    }
}

/// The number of workers only grows, never beyond the limit, and stops short of the
/// limit only to go on later.
pub proof fn law_climb_only_grows(target: int, max_threads: int)
    requires
        0 <= target < max_threads,
    ensures
        target < climbed(target, max_threads) <= max_threads,
        climbed(target, max_threads) == max_threads || climbed(target, max_threads) >= target
            + target / 4,
{
}

/// A measurement of the overall speed.
#[derive(Debug, Clone, Copy)]
pub struct Sample {
    /// the bytes since the last measurement
    pub bytes: i64,
    /// the nanoseconds since then
    pub nanos: u64,
    /// how many workers were active
    pub active: usize,
}

/// What a round of a running download comes to.
#[derive(Debug)]
pub enum Round {
    /// There is nothing more to wait for.
    Stop,
    /// Start a worker for each of the jobs, then wait.
    Go { jobs: Vec<usize>, sample: Option<Sample>, grew: Option<usize> },
}

/// One round of a running download: stop if it was canceled or failed; otherwise
/// measure the speed, let the number of workers grow, and hire. A download without
/// workers and without work stops.
pub fn round(
    s: &mut Session,
    c: &mut Controller,
    cfg: &Config,
    now: u64,
    canceled: bool,
    bytes: i64,
) -> (r: Round)
    requires
        old(s)@.wf(),
        i64::MIN <= bytes - old(c).rate_bytes <= i64::MAX,
        old(c).climb_fits(*cfg),
    ensures
        final(s)@.wf(),
        old(s)@.covers() ==> final(s)@.covers(),
        if canceled || old(s).stopped || old(s).first_err is Some {
            &&& r is Stop
            &&& *final(c) == *old(c)
            &&& final(s)@ == (SessionView {
                stopped: old(s).stopped || (!canceled && old(s).first_err is Some),
                ..old(s)@
            })
        } else {
            &&& *final(c) == old(c).sampled(now, bytes).grown(now, *cfg)
            &&& final(s)@ == old(s)@.staffed(final(c).target as int, cfg.min_part_size as int)
            &&& r is Stop <==> final(s)@.is_idle()
            &&& r is Stop <==> final(s)@.stops(canceled)
            &&& r matches Round::Go { jobs, sample, grew } ==> {
                &&& jobs@.map_values(|i: usize| i as int) == old(s)@.jobs(
                    final(c).target as int,
                    cfg.min_part_size as int,
                )
                &&& sample == (if old(c).sample_due(now) {
                    Some(
                        Sample {
                            bytes: (bytes - old(c).rate_bytes) as i64,
                            nanos: elapsed(old(c).rate_time, now) as u64,
                            active: old(s).running,
                        },
                    )
                } else {
                    None
                })
                &&& grew == (if old(c).climb_due(now, *cfg) && old(c).target < cfg.max_threads {
                    Some(final(c).target)
                } else {
                    None
                })
            }
        },
{
    if s.must_stop(canceled) {
        return Round::Stop;
    }
    let sample = match c.sample(now, bytes) {
        Some((bytes, nanos)) => Some(Sample { bytes, nanos, active: s.running }),
        None => None,
    };
    let grew = c.climb(now, cfg);
    proof {
        lemma_staffing_fails_nobody(s@, c.target as int, cfg.min_part_size as int);
    }
    let jobs = s.staff(c.target, cfg.min_part_size);
    if s.idle() {
        return Round::Stop;
    }
    Round::Go { jobs, sample, grew }
}

/// While a download goes on, either there are as many workers as wanted, or nothing is
/// left to hand out.
pub proof fn law_no_worker_is_kept_waiting(s: SessionView, target: int, min_part_size: int)
    ensures
        s.staffed(target, min_part_size).running >= target || !s.staffed(
            target,
            min_part_size,
        ).has_work(min_part_size),
        s.running <= s.staffed(target, min_part_size).running <= max_int(s.running, target),
    decreases target - s.running,
{
    if s.running < target && s.has_work(min_part_size) {
        law_no_worker_is_kept_waiting(s.hired(min_part_size), target, min_part_size);
    }
}

// ---------------------------------------------------------------- progress

/// How often progress is reported: every 200 milliseconds, in nanoseconds.
pub const REPORT_WINDOW: u64 = 200000000;

/// The bytes so far, and what was last reported.
#[derive(Debug)]
pub struct Meter {
    pub downloaded: i64,
    pub last_report: u64,
    pub last_bytes: i64,
}

impl Meter {
    pub fn new(now: u64) -> (m: Self)
        ensures
            m.downloaded == 0,
            m.last_report == now,
            m.last_bytes == 0,
    {
        Meter { downloaded: 0, last_report: now, last_bytes: 0 }
    }

    /// Counts `n` more bytes.
    pub fn count(&mut self, n: i64)
        requires
            i64::MIN <= old(self).downloaded + n <= i64::MAX,
        ensures
            *final(self) == (Meter {
                downloaded: (old(self).downloaded + n) as i64,
                ..*old(self)
            }),
    {
        self.downloaded = self.downloaded + n;
    }

    /// A new start: nothing counts any more.
    pub fn restart(&mut self)
        ensures
            *final(self) == (Meter { downloaded: 0, ..*old(self) }),
    {
        self.downloaded = 0;
    }

    /// When a report is due: the bytes and the time since the last one.
    pub fn report(&mut self, now: u64) -> (r: Option<(i64, u64)>)
        requires
            i64::MIN <= old(self).downloaded - old(self).last_bytes <= i64::MAX,
        ensures
            if elapsed(old(self).last_report, now) >= REPORT_WINDOW {
                &&& r == Some(
                    (
                        (old(self).downloaded - old(self).last_bytes) as i64,
                        elapsed(old(self).last_report, now) as u64,
                    ),
                )
                &&& *final(self) == (Meter {
                    last_report: now,
                    last_bytes: old(self).downloaded,
                    ..*old(self)
                })
            } else {
                r is None && *final(self) == *old(self)
            },
    {
        let dt: u64 = time_since(self.last_report, now);
        if dt < REPORT_WINDOW {
            return None;
        }
        let delta: i64 = self.downloaded - self.last_bytes;
        self.last_report = now;
        self.last_bytes = self.downloaded;
        Some((delta, dt))
    }
}

/// Notes that the pump of part `i` wrote its next `n` pending bytes: the part has come
/// further, and the counter grows by exactly what the parts have read more.
pub fn note_write(s: &mut Session, m: &mut Meter, i: usize, pump: &mut Pump, n: usize)
    requires
        old(s)@.wf(),
        old(s)@.is_active(i as int),
        old(pump).wf(),
        n <= old(pump).writable(old(s)@.parts[i as int]),
        old(pump).window_bytes + n <= i64::MAX,
        old(m).downloaded + n <= i64::MAX,
    ensures
        final(s)@.wf(),
        old(s)@.covers() ==> final(s)@.covers(),
        final(s)@ == old(s)@.with_part(
            i as int,
            Part {
                current: (old(s)@.parts[i as int].current + n) as i64,
                ..old(s)@.parts[i as int]
            },
        ),
        final(pump).wf(),
        *final(pump) == old(pump).after_write(n as int),
        *final(m) == (Meter { downloaded: (old(m).downloaded + n) as i64, ..*old(m) }),
        final(m).downloaded - old(m).downloaded == bytes_read(final(s)@.parts) - bytes_read(
            old(s)@.parts,
        ),
{
    let ghost before = s@;
    let ghost p = before.parts[i as int];
    assert(fit_for(before.parts[i as int], before.phases[i as int]));
    assert(n <= p.allowed() <= i64::MAX);
    s.pump_wrote(i, pump, n);
    m.count(n as i64);
    proof {
        lemma_read_update(before.parts, i as int, s@.parts[i as int]);
    }
}

// ---------------------------------------------------------------- how it ends

/// What happens to a download as a whole.
#[derive(Debug, Clone, Copy, PartialEq, Eq, Structural)]
pub enum RunEvent {
    /// it begins with asking the server
    Started,
    /// the server could not be asked, or said no
    ProbeFailed,
    /// bytes can be loaded, over a single connection or in parts
    Ready { single: bool },
    /// the single connection has delivered the file, and it has its name
    Loaded,
    LoadFailed,
    /// all parts are complete
    WorkersDone,
    WorkersFailed,
    WorkersCanceled,
    /// the parts are put together, and the file has its name
    Assembled,
    AssemblyFailed,
}

impl RunEvent {
    /// The progress is kept in a record, so that the download can go on later.
    pub open spec fn keeps_record(self) -> bool {
        self == RunEvent::WorkersFailed || self == RunEvent::WorkersCanceled
    }

    /// Whether the record is saved when this happens.
    pub fn saves_record(&self) -> (b: bool)
        ensures
            b == self.keeps_record(),
    {
        match self {
            RunEvent::WorkersFailed | RunEvent::WorkersCanceled => true,
            _ => false,
        }
    }
}

/// How far a download has come.
#[derive(Debug, Clone, Copy, PartialEq, Eq, Structural)]
pub struct Stage {
    pub status: Status,
    /// the file is loaded over a single connection
    pub single: bool,
}

impl Stage {
    /// Nothing has happened yet.
    pub open spec fn first() -> Stage {
        Stage { status: Status::Pending, single: false }
    }

    /// The stage that an event leads to; `None` if it cannot happen here.
    pub open spec fn after(self, event: RunEvent) -> Option<Stage> {
        let next = match (self.status, event) {
            (Status::Pending, RunEvent::Started) => Some(Status::Probing),
            (Status::Probing, RunEvent::ProbeFailed) => Some(Status::Failed),
            (Status::Probing, RunEvent::Ready { .. }) => Some(Status::Downloading),
            (Status::Downloading, RunEvent::Loaded) => if self.single {
                Some(Status::Completed)
            } else {
                None
            },
            (Status::Downloading, RunEvent::LoadFailed) => if self.single {
                Some(Status::Failed)
            } else {
                None
            },
            (Status::Downloading, RunEvent::WorkersDone) => if self.single {
                None
            } else {
                Some(Status::Assembling)
            },
            (Status::Downloading, RunEvent::WorkersFailed) => if self.single {
                None
            } else {
                Some(Status::Failed)
            },
            (Status::Downloading, RunEvent::WorkersCanceled) => if self.single {
                None
            } else {
                Some(Status::Canceled)
            },
            (Status::Assembling, RunEvent::Assembled) => Some(Status::Completed),
            (Status::Assembling, RunEvent::AssemblyFailed) => Some(Status::Failed),
            _ => None,
        };
        match next {
            Some(status) => Some(
                Stage {
                    status,
                    single: match event {
                        RunEvent::Ready { single } => single,
                        _ => self.single,
                    },
                },
            ),
            None => None,
        }
    }

    pub fn new() -> (s: Self)
        ensures
            s == Stage::first(),
    {
        Stage { status: Status::Pending, single: false }
    }

    /// Takes an event, and returns the status that the host is told; an event that cannot
    /// happen here changes nothing.
    pub fn advance(&mut self, event: RunEvent) -> (told: Option<Status>)
        ensures
            match old(self).after(event) {
                Some(next) => *final(self) == next && told == Some(next.status),
                None => *final(self) == *old(self) && told is None,
            },
    {
        let next = match self.status {
            Status::Pending => match event {
                RunEvent::Started => Some(Status::Probing),
                _ => None,
            },
            Status::Probing => match event {
                RunEvent::ProbeFailed => Some(Status::Failed),
                RunEvent::Ready { single } => {
                    self.single = single;
                    Some(Status::Downloading)
                },
                _ => None,
            },
            Status::Downloading => if self.single {
                match event {
                    RunEvent::Loaded => Some(Status::Completed),
                    RunEvent::LoadFailed => Some(Status::Failed),
                    _ => None,
                }
            } else {
                match event {
                    RunEvent::WorkersDone => Some(Status::Assembling),
                    RunEvent::WorkersFailed => Some(Status::Failed),
                    RunEvent::WorkersCanceled => Some(Status::Canceled),
                    _ => None,
                }
            },
            Status::Assembling => match event {
                RunEvent::Assembled => Some(Status::Completed),
                RunEvent::AssemblyFailed => Some(Status::Failed),
                _ => None,
            },
            _ => None,
        };
        if let Some(status) = next {
            self.status = status;
        }
        next
    }
}

/// The stage that events lead to from the start, with everything that the host was told
/// on the way; `None` if they cannot happen in this order.
pub open spec fn told(events: Seq<RunEvent>) -> Option<(Stage, Seq<Status>)>
    decreases events.len(),
{
    if events.len() == 0 {
        Some((Stage::first(), Seq::empty()))
    } else {
        match told(events.drop_last()) {
            None => None,
            Some((stage, seen)) => match stage.after(events.last()) {
                None => None,
                Some(next) => Some((next, seen.push(next.status))),
            },
        }
    }
}

/// What a host is told on the way to a stage.
pub open spec fn is_way_to(stage: Stage, seen: Seq<Status>) -> bool {
    match stage.status {
        Status::Pending => seen == Seq::<Status>::empty(),
        Status::Probing => seen == seq![Status::Probing],
        Status::Downloading => seen == seq![Status::Probing, Status::Downloading],
        Status::Assembling => !stage.single && seen == seq![
            Status::Probing,
            Status::Downloading,
            Status::Assembling,
        ],
        Status::Completed => if stage.single {
            seen == seq![Status::Probing, Status::Downloading, Status::Completed]
        } else {
            seen == seq![
                Status::Probing,
                Status::Downloading,
                Status::Assembling,
                Status::Completed,
            ]
        },
        Status::Canceled => !stage.single && seen == seq![
            Status::Probing,
            Status::Downloading,
            Status::Canceled,
        ],
        Status::Failed => {
            ||| seen == seq![Status::Probing, Status::Failed]
            ||| seen == seq![Status::Probing, Status::Downloading, Status::Failed]
            ||| !stage.single && seen == seq![
                Status::Probing,
                Status::Downloading,
                Status::Assembling,
                Status::Failed,
            ]
        },
    }
}

/// A host is told of a download in order: a complete one is probed, downloaded, and, if
/// it came in parts, assembled before it is complete; a canceled one was downloading;
/// and a failed one failed at one of these points.
pub proof fn law_status_comes_in_order(events: Seq<RunEvent>)
    ensures
        told(events) matches Some((stage, seen)) ==> is_way_to(stage, seen),
    decreases events.len(),
{
    if events.len() > 0 {
        law_status_comes_in_order(events.drop_last());
        if let Some((stage, seen)) = told(events.drop_last()) {
            if let Some(next) = stage.after(events.last()) {
                let all = seen.push(next.status);
                match next.status {
                    Status::Probing => {
                        assert(all =~= seq![Status::Probing]);
                    },
                    Status::Downloading => {
                        assert(all =~= seq![Status::Probing, Status::Downloading]);
                    },
                    Status::Assembling => {
                        assert(all =~= seq![
                            Status::Probing,
                            Status::Downloading,
                            Status::Assembling,
                        ]);
                    },
                    Status::Completed => {
                        if next.single {
                            assert(all =~= seq![
                                Status::Probing,
                                Status::Downloading,
                                Status::Completed,
                            ]);
                        } else {
                            assert(all =~= seq![
                                Status::Probing,
                                Status::Downloading,
                                Status::Assembling,
                                Status::Completed,
                            ]);
                        }
                    },
                    Status::Canceled => {
                        assert(all =~= seq![
                            Status::Probing,
                            Status::Downloading,
                            Status::Canceled,
                        ]);
                    },
                    Status::Failed => {
                        if stage.status == Status::Probing {
                            assert(all =~= seq![Status::Probing, Status::Failed]);
                        } else if stage.status == Status::Downloading {
                            assert(all =~= seq![
                                Status::Probing,
                                Status::Downloading,
                                Status::Failed,
                            ]);
                        } else {
                            assert(all =~= seq![
                                Status::Probing,
                                Status::Downloading,
                                Status::Assembling,
                                Status::Failed,
                            ]);
                        }
                    },
                    Status::Pending => {},
                }
            }
        }
    }
}

/// A download ends once: after it is complete, failed or canceled, nothing happens to it.
pub proof fn law_end_is_final(stage: Stage, event: RunEvent)
    requires
        stage.status == Status::Completed || stage.status == Status::Failed || stage.status
            == Status::Canceled,
    ensures
        stage.after(event) is None,
{
}

/// The event that the end of a session is for the download.
pub open spec fn concluded(v: Verdict) -> RunEvent {
    match v {
        Verdict::Failed(_) => RunEvent::WorkersFailed,
        Verdict::Canceled => RunEvent::WorkersCanceled,
        Verdict::Complete => RunEvent::WorkersDone,
    }
}

/// The event and the error, if any, that the end of a session is for the download. There
/// is an error exactly when the progress is kept.
pub fn conclude(v: Verdict) -> (r: (RunEvent, Result<(), Error>))
    ensures
        match v {
            Verdict::Failed(e) => r.0 == RunEvent::WorkersFailed && r.1 == Err::<(), Error>(e),
            Verdict::Canceled => r.0 == RunEvent::WorkersCanceled && (r.1 matches Err(e) && e@
                == ErrorView::canceled()),
            Verdict::Complete => r.0 == RunEvent::WorkersDone && r.1 is Ok,
        },
        r.0 == concluded(v),
        r.1 is Err <==> r.0.keeps_record(),
{
    match v {
        Verdict::Failed(e) => (RunEvent::WorkersFailed, Err(e)),
        Verdict::Canceled => (RunEvent::WorkersCanceled, Err(Error::canceled())),
        Verdict::Complete => (RunEvent::WorkersDone, Ok(())),
    }
}

/// The last report of a download in parts.
pub fn last_progress(size: i64, speed: i64, parts: usize) -> (p: Progress)
    ensures
        p == (Progress { downloaded: size, total: size, speed, parts }),
{
    Progress { downloaded: size, total: size, speed, parts }
}

/// The result of a download in parts.
pub fn parts_result(path: String, size: i64, downloaded: i64, speed: i64, parts: usize) -> (r:
    DownloadResult)
    ensures
        r.path@ == path@,
        r.size == (if size > 0 {
            size
        } else {
            downloaded
        }),
        r.speed == speed,
        r.parts == parts,
        r.range_ok,
{
    DownloadResult {
        path,
        size: if size > 0 { size } else { downloaded },
        speed,
        parts,
        range_ok: true,
    }
}

/// The result of a download over a single connection.
pub fn whole_result(path: String, size: i64, downloaded: i64, speed: i64) -> (r: DownloadResult)
    ensures
        r.path@ == path@,
        r.size == max_int(downloaded as int, size as int),
        r.speed == speed,
        r.parts == 0,
        !r.range_ok,
{
    DownloadResult {
        path,
        size: if downloaded >= size { downloaded } else { size },
        speed,
        parts: 0,
        range_ok: false,
    }
}

// ---------------------------------------------------------------- laws on times and numbers

/// Time counts from the earlier moment to the later one; a clock that goes back has not
/// moved.
pub proof fn law_elapsed_time(since: u64, now: u64)
    ensures
        now >= since ==> elapsed(since, now) == now - since,
        now < since ==> elapsed(since, now) == 0,
{
}

/// The speed is measured every half second, over exactly the time and the bytes since the
/// last measurement; nothing else changes.
pub proof fn law_speed_is_measured(c: Controller, now: u64, bytes: i64)
    ensures
        c.sample_due(now) <==> now >= c.rate_time + 500000000,
        ({
            let d = c.sampled(now, bytes);
            &&& d.target == c.target && d.last_climb == c.last_climb && d.last_save == c.last_save
            &&& now >= c.rate_time + 500000000 ==> d.rate_time == now && d.rate_bytes == bytes
            &&& now < c.rate_time + 500000000 ==> d == c
        }),
{
}

/// The number of workers grows every two seconds, if it is to grow at all and has not
/// reached the limit: by a quarter, at least by one, and not past the limit.
pub proof fn law_workers_grow(c: Controller, now: u64, cfg: Config)
    requires
        c.climb_fits(cfg),
    ensures
        c.climb_due(now, cfg) <==> cfg.adaptive_threads && now >= c.last_climb + 2000000000,
        ({
            let d = c.grown(now, cfg);
            let due = cfg.adaptive_threads && now >= c.last_climb + 2000000000;
            let more = c.target as int / 4;
            &&& d.rate_time == c.rate_time && d.rate_bytes == c.rate_bytes && d.last_save
                == c.last_save
            &&& !due ==> d == c
            &&& due ==> d.last_climb == now
            &&& due && c.target >= cfg.max_threads ==> d.target == c.target
            &&& due && c.target < cfg.max_threads ==> c.target < d.target <= cfg.max_threads
            &&& due && c.target < cfg.max_threads && more >= 1 && c.target + more
                <= cfg.max_threads ==> d.target == c.target + more
            &&& due && c.target < cfg.max_threads && more < 1 ==> d.target == c.target + 1
            &&& due && c.target < cfg.max_threads && c.target + more > cfg.max_threads
                ==> d.target == cfg.max_threads
        }),
{
}

/// Progress is saved once a second and reported five times a second.
pub proof fn law_windows()
    ensures
        SAVE_WINDOW == 1000 * 1000000,
        REPORT_WINDOW == 200 * 1000000,
        RATE_WINDOW == 500 * 1000000,
        CLIMB_WINDOW == 2000 * 1000000,
{
}

/// A file is called what the server says; if it says nothing, what the address says; and
/// if that says nothing either, by a stopgap.
pub proof fn law_name_comes_from_the_server_first(file_name: Seq<char>, url: Seq<char>)
    ensures
        file_name.len() > 0 ==> wanted_name(file_name, url) == file_name,
        file_name.len() == 0 && segment_name(url_segments(url)).len() > 0 ==> wanted_name(
            file_name,
            url,
        ) == segment_name(url_segments(url)),
        file_name.len() == 0 && segment_name(url_segments(url)).len() == 0 ==> wanted_name(
            file_name,
            url,
        ) == "download.bin"@,
{
}

/// A text is given exactly if it is there and not empty.
pub proof fn law_given_texts(s: String)
    ensures
        !given(None),
        given(Some(s)) <==> s@.len() > 0,
{
}

/// What each event leads to, and from where it can happen at all.
pub proof fn law_events_lead_on(s: Stage, single: bool)
    ensures
        Stage::first().status == Status::Pending && !Stage::first().single,
        s.after(RunEvent::Started) == (if s.status == Status::Pending {
            Some(Stage { status: Status::Probing, single: s.single })
        } else {
            None
        }),
        s.after(RunEvent::ProbeFailed) == (if s.status == Status::Probing {
            Some(Stage { status: Status::Failed, single: s.single })
        } else {
            None
        }),
        s.after(RunEvent::Ready { single }) == (if s.status == Status::Probing {
            Some(Stage { status: Status::Downloading, single })
        } else {
            None
        }),
        s.after(RunEvent::Loaded) == (if s.status == Status::Downloading && s.single {
            Some(Stage { status: Status::Completed, single: true })
        } else {
            None
        }),
        s.after(RunEvent::LoadFailed) == (if s.status == Status::Downloading && s.single {
            Some(Stage { status: Status::Failed, single: true })
        } else {
            None
        }),
        s.after(RunEvent::WorkersDone) == (if s.status == Status::Downloading && !s.single {
            Some(Stage { status: Status::Assembling, single: false })
        } else {
            None
        }),
        s.after(RunEvent::WorkersFailed) == (if s.status == Status::Downloading && !s.single {
            Some(Stage { status: Status::Failed, single: false })
        } else {
            None
        }),
        s.after(RunEvent::WorkersCanceled) == (if s.status == Status::Downloading && !s.single {
            Some(Stage { status: Status::Canceled, single: false })
        } else {
            None
        }),
        s.after(RunEvent::Assembled) == (if s.status == Status::Assembling {
            Some(Stage { status: Status::Completed, single: s.single })
        } else {
            None
        }),
        s.after(RunEvent::AssemblyFailed) == (if s.status == Status::Assembling {
            Some(Stage { status: Status::Failed, single: s.single })
        } else {
            None
        }),
{
}

/// The end of a session is what its verdict says, and the record is kept unless all is
/// complete.
pub proof fn law_record_is_kept_unless_complete(v: Verdict, event: RunEvent)
    ensures
        v is Failed ==> concluded(v) == RunEvent::WorkersFailed,
        v is Canceled ==> concluded(v) == RunEvent::WorkersCanceled,
        v is Complete ==> concluded(v) == RunEvent::WorkersDone,
        concluded(v).keeps_record() <==> !(v is Complete),
        event.keeps_record() ==> event is WorkersFailed || event is WorkersCanceled,
{
}

} // verus!
