//! The adjustable parameters.
use vstd::prelude::*;

use crate::part::max_int;

verus! {

/// A length of time in nanoseconds.
#[derive(Debug, Clone, Copy, PartialEq, Eq, Structural)]
pub struct Span {
    pub nanos: u128,
}

impl Span {
    pub open spec fn secs(s: int) -> Span {
        Span { nanos: (s * 1000000000) as u128 }
    }

    pub open spec fn millis(ms: int) -> Span {
        Span { nanos: (ms * 1000000) as u128 }
    }

    pub fn from_secs(s: u64) -> (r: Self)
        ensures
            r == Span::secs(s as int),
            r.nanos == s * 1000000000,
    {
        Span { nanos: s as u128 * 1000000000 }
    }

    pub fn from_millis(ms: u64) -> (r: Self)
        ensures
            r == Span::millis(ms as int),
            r.nanos == ms * 1000000,
    {
        Span { nanos: ms as u128 * 1000000 }
    }

    pub fn is_zero(&self) -> (b: bool)
        ensures
            b == (self.nanos == 0),
    {
        self.nanos == 0
    }

    /// Whole milliseconds.
    pub fn as_millis(&self) -> (ms: u128)
        ensures
            ms == self.nanos / 1000000,
    {
        self.nanos / 1000000
    }
}

/// The download mode.
#[derive(Clone, Copy, Debug, PartialEq, Eq, Structural)]
pub enum Mode {
    /// balanced use of resources
    Normal,
    /// as many connections and as much priority as possible
    Extreme,
}

/// A neutral client identity. Posing as a browser makes some servers refuse, because
/// the TLS fingerprint does not match.
pub const DEFAULT_USER_AGENT: &'static str = "downloadcore/0.1";

/// All adjustable parameters of the engine.
#[derive(Clone, Debug)]
pub struct Config {
    /// connections at the start
    pub initial_threads: usize,
    /// connections at most
    pub max_threads: usize,
    /// the smallest part; nothing smaller is cut off
    pub min_part_size: i64,
    /// the buffer of each connection
    pub buffer_size: usize,
    /// without data for this long, a connection counts as stuck
    pub idle_timeout: Span,
    /// retries per part
    pub max_retries: usize,
    /// the wait before each retry
    pub retry_delay: Span,
    /// the directory for temporary files
    pub temp_dir: String,
    /// what marks an incomplete file
    pub incomplete_suffix: String,
    pub user_agent: String,
    /// the speed limit over all connections in bytes per second; 0 means none
    pub max_speed: u64,
    /// raise the priority of the process
    pub os_priority: bool,
    pub mode: Mode,
    /// climb from `initial_threads` to `max_threads` instead of starting with the latter
    pub adaptive_threads: bool,
    /// use several addresses of a host side by side
    pub use_multiple_ips: bool,
}

/// The parameters as mathematical values.
pub struct ConfigView {
    pub initial_threads: usize,
    pub max_threads: usize,
    pub min_part_size: i64,
    pub buffer_size: usize,
    pub idle_timeout: Span,
    pub max_retries: usize,
    pub retry_delay: Span,
    pub temp_dir: Seq<char>,
    pub incomplete_suffix: Seq<char>,
    pub user_agent: Seq<char>,
    pub max_speed: u64,
    pub os_priority: bool,
    pub mode: Mode,
    pub adaptive_threads: bool,
    pub use_multiple_ips: bool,
}

impl View for Config {
    type V = ConfigView;

    open spec fn view(&self) -> ConfigView {
        ConfigView {
            initial_threads: self.initial_threads,
            max_threads: self.max_threads,
            min_part_size: self.min_part_size,
            buffer_size: self.buffer_size,
            idle_timeout: self.idle_timeout,
            max_retries: self.max_retries,
            retry_delay: self.retry_delay,
            temp_dir: self.temp_dir@,
            incomplete_suffix: self.incomplete_suffix@,
            user_agent: self.user_agent@,
            max_speed: self.max_speed,
            os_priority: self.os_priority,
            mode: self.mode,
            adaptive_threads: self.adaptive_threads,
            use_multiple_ips: self.use_multiple_ips,
        }
    }
}

/// A text, or its replacement if it is empty.
pub open spec fn text_or(s: Seq<char>, other: Seq<char>) -> Seq<char> {
    if s.len() == 0 {
        other
    } else {
        s
    }
}

impl ConfigView {
    /// The built-in parameters.
    pub open spec fn default_view() -> ConfigView {
        ConfigView {
            initial_threads: 32,
            max_threads: 32,
            min_part_size: 1048576,
            buffer_size: 262144,
            idle_timeout: Span::secs(15),
            max_retries: 10,
            retry_delay: Span::secs(1),
            temp_dir: ".download-temp"@,
            incomplete_suffix: ".part"@,
            user_agent: DEFAULT_USER_AGENT@,
            max_speed: 0,
            os_priority: true,
            mode: Mode::Normal,
            adaptive_threads: true,
            use_multiple_ips: false,
        }
    }

    /// The parameters with the unusable ones replaced.
    pub open spec fn normal(self) -> ConfigView {
        let initial = max_int(self.initial_threads as int, 1) as usize;
        ConfigView {
            initial_threads: initial,
            max_threads: max_int(self.max_threads as int, initial as int) as usize,
            buffer_size: if self.buffer_size == 0 {
                262144
            } else {
                self.buffer_size
            },
            min_part_size: if self.min_part_size <= 0 {
                1048576
            } else {
                self.min_part_size
            },
            retry_delay: if self.retry_delay.nanos == 0 {
                Span::secs(1)
            } else {
                self.retry_delay
            },
            temp_dir: text_or(self.temp_dir, ".download-temp"@),
            incomplete_suffix: text_or(self.incomplete_suffix, ".part"@),
            user_agent: text_or(self.user_agent, DEFAULT_USER_AGENT@),
            ..self
        }
    }

    /// The parameters are usable as they are.
    pub open spec fn is_normal(self) -> bool {
        &&& 1 <= self.initial_threads <= self.max_threads
        &&& self.buffer_size > 0
        &&& self.min_part_size > 0
        &&& self.retry_delay.nanos > 0
        &&& self.temp_dir.len() > 0
        &&& self.incomplete_suffix.len() > 0
        &&& self.user_agent.len() > 0
    }
}

impl Default for Config {
    fn default() -> (c: Self)
        ensures
            c@ == ConfigView::default_view(),
            c@.is_normal(),
    {
        proof {
            reveal_strlit(".download-temp");
            reveal_strlit(".part");
            reveal_strlit("downloadcore/0.1");
        }
        Config {
            initial_threads: 32,
            max_threads: 32,
            min_part_size: 1048576,
            buffer_size: 262144,
            idle_timeout: Span::from_secs(15),
            max_retries: 10,
            retry_delay: Span::from_secs(1),
            temp_dir: ".download-temp".to_owned(),
            incomplete_suffix: ".part".to_owned(),
            user_agent: DEFAULT_USER_AGENT.to_owned(),
            max_speed: 0,
            os_priority: true,
            mode: Mode::Normal,
            adaptive_threads: true,
            use_multiple_ips: false,
        }
    }
}

impl Config {
    /// Brings unreasonable parameters back into the usable range.
    pub fn normalized(self) -> (c: Config)
        ensures
            c@ == self@.normal(),
            c@.is_normal(),
    {
        let mut c = self;
        if c.initial_threads == 0 {
            c.initial_threads = 1;
        }
        if c.max_threads < c.initial_threads {
            c.max_threads = c.initial_threads;
        }
        if c.buffer_size == 0 {
            c.buffer_size = 262144;
        }
        if c.min_part_size <= 0 {
            c.min_part_size = 1048576;
        }
        if c.retry_delay.is_zero() {
            c.retry_delay = Span::from_secs(1);
        }
        if c.temp_dir.as_str().is_empty() {
            c.temp_dir = ".download-temp".to_owned();
        }
        if c.incomplete_suffix.as_str().is_empty() {
            c.incomplete_suffix = ".part".to_owned();
        }
        if c.user_agent.as_str().is_empty() {
            c.user_agent = DEFAULT_USER_AGENT.to_owned();
        }
        proof {
            reveal_strlit(".download-temp");
            reveal_strlit(".part");
            reveal_strlit("downloadcore/0.1");
        }
        c
    }

    /// The recommended parameters of the extreme mode: 128 connections and priority.
    /// That only makes sense where a shared line is the bottleneck.
    pub fn extreme() -> (c: Config)
        ensures
            c@ == (ConfigView {
                mode: Mode::Extreme,
                initial_threads: 128,
                max_threads: 128,
                os_priority: true,
                ..ConfigView::default_view()
            }),
            c@.is_normal(),
    {
        let mut c = Config::default();
        c.mode = Mode::Extreme;
        c.initial_threads = 128;
        c.max_threads = 128;
        c.os_priority = true;
        c
    }
}

/// Parameters that are usable are left alone, and one pass is enough: what it returns
/// is usable, so a second pass changes nothing.
pub proof fn law_normalizing_settles(c: ConfigView)
    ensures
        c.is_normal() ==> c.normal() == c,
        c.normal().is_normal(),
        c.normal().normal() == c.normal(),
{
    reveal_strlit(".download-temp");
    reveal_strlit(".part");
    reveal_strlit("downloadcore/0.1");
    assert(c.is_normal() ==> c.normal() =~= c);
    assert(c.normal().normal() =~= c.normal());
}

/// What is not usable is replaced, each parameter by itself: no connection becomes one,
/// fewer at most than at the start become as many, a size, a wait or a text that is
/// missing becomes the built-in one. Everything else is left as it is.
pub proof fn law_only_the_unusable_is_replaced(c: ConfigView)
    ensures
        ({
            let n = c.normal();
            let d = ConfigView::default_view();
            &&& c.initial_threads >= 1 ==> n.initial_threads == c.initial_threads
            &&& c.initial_threads == 0 ==> n.initial_threads == 1
            &&& c.max_threads >= n.initial_threads ==> n.max_threads == c.max_threads
            &&& c.max_threads < n.initial_threads ==> n.max_threads == n.initial_threads
            &&& n.buffer_size == (if c.buffer_size == 0 {
                d.buffer_size
            } else {
                c.buffer_size
            })
            &&& n.min_part_size == (if c.min_part_size <= 0 {
                d.min_part_size
            } else {
                c.min_part_size
            })
            &&& n.retry_delay == (if c.retry_delay.nanos == 0 {
                d.retry_delay
            } else {
                c.retry_delay
            })
            &&& n.temp_dir == (if c.temp_dir.len() == 0 {
                d.temp_dir
            } else {
                c.temp_dir
            })
            &&& n.incomplete_suffix == (if c.incomplete_suffix.len() == 0 {
                d.incomplete_suffix
            } else {
                c.incomplete_suffix
            })
            &&& n.user_agent == (if c.user_agent.len() == 0 {
                d.user_agent
            } else {
                c.user_agent
            })
            &&& n.idle_timeout == c.idle_timeout && n.max_retries == c.max_retries
            &&& n.max_speed == c.max_speed && n.os_priority == c.os_priority && n.mode == c.mode
            &&& n.adaptive_threads == c.adaptive_threads && n.use_multiple_ips
                == c.use_multiple_ips
        }),
{
}

/// The built-in parameters.
pub proof fn law_built_in_parameters()
    ensures
        ({
            let d = ConfigView::default_view();
            &&& d.initial_threads == 32 && d.max_threads == 32
            &&& d.min_part_size == 1024 * 1024 && d.buffer_size == 256 * 1024
            &&& d.idle_timeout.nanos == 15 * 1000000000 && d.retry_delay.nanos == 1000000000
            &&& d.max_retries == 10 && d.max_speed == 0
            &&& d.temp_dir == ".download-temp"@ && d.incomplete_suffix == ".part"@
            &&& d.user_agent == "downloadcore/0.1"@
            &&& d.os_priority && d.mode == Mode::Normal
            &&& d.adaptive_threads && !d.use_multiple_ips
        }),
{
}

/// A span counts nanoseconds: a second is a thousand milliseconds, and a millisecond a
/// million nanoseconds.
pub proof fn law_spans_count_nanoseconds(n: int)
    requires
        0 <= n <= u64::MAX,
    ensures
        Span::millis(n).nanos == n * 1000000,
        Span::secs(n).nanos == n * 1000 * 1000000,
{
}

} // verus!
