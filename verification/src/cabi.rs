//! What the C interface makes of its numbers and texts.
use vstd::prelude::*;
use vstd::string::*;

use crate::client::header_texts;
use crate::config::{Config, ConfigView, Span};
use crate::text::same_text;
use crate::types::Status;

verus! {

/// The number of a status.
pub open spec fn status_code(s: Status) -> i32 {
    match s {
        Status::Pending => 0,
        Status::Probing => 1,
        Status::Downloading => 2,
        Status::Assembling => 3,
        Status::Completed => 4,
        Status::Failed => 5,
        Status::Canceled => 6,
    }
}

pub fn status_to_c(s: Status) -> (n: i32)
    ensures
        n == status_code(s),
{
    match s {
        Status::Pending => 0,
        Status::Probing => 1,
        Status::Downloading => 2,
        Status::Assembling => 3,
        Status::Completed => 4,
        Status::Failed => 5,
        Status::Canceled => 6,
    }
}

/// Every status has a number of its own.
pub proof fn law_status_codes_differ(a: Status, b: Status)
    requires
        status_code(a) == status_code(b),
    ensures
        a == b,
{
}

/// How a download ended, for a C program.
#[derive(Debug, Clone, Copy, PartialEq, Eq, Structural)]
pub enum Ending {
    Done,
    /// with a message, or without a place to put one
    Failed,
    /// the engine itself broke down
    Crashed,
}

/// The number of an ending: zero only for success.
pub open spec fn ending_code(e: Ending) -> i32 {
    match e {
        Ending::Done => 0,
        Ending::Failed => 1,
        Ending::Crashed => 2,
    }
}

pub fn ending_to_c(e: Ending) -> (n: i32)
    ensures
        n == ending_code(e),
{
    match e {
        Ending::Done => 0,
        Ending::Failed => 1,
        Ending::Crashed => 2,
    }
}

/// Every ending has a number of its own.
pub proof fn law_ending_codes_differ(a: Ending, b: Ending)
    requires
        ending_code(a) == ending_code(b),
    ensures
        a == b,
{
}

/// The number of a log level; an unknown one counts as INFO.
pub open spec fn level_code(level: Seq<char>) -> i32 {
    if level == "DEBUG"@ {
        0
    } else if level == "WARN"@ {
        2
    } else if level == "ERROR"@ {
        3
    } else {
        1
    }
}

pub fn level_to_c(level: &str) -> (n: i32)
    ensures
        n == level_code(level@),
{
    if same_text(level, "DEBUG") {
        0
    } else if same_text(level, "WARN") {
        2
    } else if same_text(level, "ERROR") {
        3
    } else {
        1
    }
}

/// The parameters as a C program gives them. A number that makes no sense and a text
/// that is missing mean the built-in value.
#[derive(Debug)]
pub struct Settings {
    pub initial_threads: i32,
    pub max_threads: i32,
    pub min_part_size: i64,
    pub buffer_size: i32,
    pub idle_timeout_ms: i32,
    pub max_retries: i32,
    pub retry_delay_ms: i32,
    pub temp_dir: Option<String>,
    pub incomplete_suffix: Option<String>,
    pub user_agent: Option<String>,
    pub max_speed: u64,
}

/// A text that was given, or another.
pub open spec fn given_or(s: Option<String>, other: Seq<char>) -> Seq<char> {
    match s {
        Some(t) => t@,
        None => other,
    }
}

/// The parameters that the settings stand for.
pub open spec fn configured(s: Settings) -> ConfigView {
    let d = ConfigView::default_view();
    ConfigView {
        initial_threads: if s.initial_threads > 0 {
            s.initial_threads as usize
        } else {
            d.initial_threads
        },
        max_threads: if s.max_threads > 0 {
            s.max_threads as usize
        } else {
            d.max_threads
        },
        min_part_size: if s.min_part_size > 0 {
            s.min_part_size
        } else {
            d.min_part_size
        },
        buffer_size: if s.buffer_size > 0 {
            s.buffer_size as usize
        } else {
            d.buffer_size
        },
        idle_timeout: if s.idle_timeout_ms > 0 {
            Span::millis(s.idle_timeout_ms as int)
        } else {
            d.idle_timeout
        },
        max_retries: if s.max_retries >= 0 {
            s.max_retries as usize
        } else {
            d.max_retries
        },
        retry_delay: if s.retry_delay_ms > 0 {
            Span::millis(s.retry_delay_ms as int)
        } else {
            d.retry_delay
        },
        temp_dir: given_or(s.temp_dir, d.temp_dir),
        incomplete_suffix: given_or(s.incomplete_suffix, d.incomplete_suffix),
        user_agent: given_or(s.user_agent, d.user_agent),
        max_speed: s.max_speed,
        ..d
    }
}

/// Makes the parameters of an engine; without settings, all are built in.
pub fn config_from(settings: Option<Settings>) -> (c: Config)
    ensures
        c@ == (match settings {
            Some(s) => configured(s),
            None => ConfigView::default_view(),
        }),
{
    let mut c = Config::default();
    if let Some(s) = settings {
        if s.initial_threads > 0 {
            c.initial_threads = s.initial_threads as usize;
        }
        if s.max_threads > 0 {
            c.max_threads = s.max_threads as usize;
        }
        if s.min_part_size > 0 {
            c.min_part_size = s.min_part_size;
        }
        if s.buffer_size > 0 {
            c.buffer_size = s.buffer_size as usize;
        }
        if s.idle_timeout_ms > 0 {
            c.idle_timeout = Span::from_millis(s.idle_timeout_ms as u64);
        }
        if s.max_retries >= 0 {
            c.max_retries = s.max_retries as usize;
        }
        if s.retry_delay_ms > 0 {
            c.retry_delay = Span::from_millis(s.retry_delay_ms as u64);
        }
        if let Some(t) = s.temp_dir {
            c.temp_dir = t;
        }
        if let Some(t) = s.incomplete_suffix {
            c.incomplete_suffix = t;
        }
        if let Some(t) = s.user_agent {
            c.user_agent = t;
        }
        c.max_speed = s.max_speed;
    }
    c
}

/// The built-in parameters as settings; texts are left out. They stand for the built-in
/// parameters.
pub fn default_settings() -> (s: Settings)
    ensures
        configured(s) == ConfigView::default_view(),
        s.initial_threads == 32,
        s.max_threads == 32,
        s.min_part_size == 1048576,
        s.buffer_size == 262144,
        s.idle_timeout_ms == 15000,
        s.max_retries == 10,
        s.retry_delay_ms == 1000,
        s.temp_dir is None,
        s.incomplete_suffix is None,
        s.user_agent is None,
        s.max_speed == 0,
{
    let d = Config::default();
    Settings {
        initial_threads: d.initial_threads as i32,
        max_threads: d.max_threads as i32,
        min_part_size: d.min_part_size,
        buffer_size: d.buffer_size as i32,
        idle_timeout_ms: d.idle_timeout.as_millis() as i32,
        max_retries: d.max_retries as i32,
        retry_delay_ms: d.retry_delay.as_millis() as i32,
        temp_dir: None,
        incomplete_suffix: None,
        user_agent: None,
        max_speed: d.max_speed,
    }
}

/// A text that is missing or empty counts as not given.
pub fn given_text(s: Option<String>) -> (r: Option<String>)
    ensures
        r == (match s {
            Some(t) => if t@.len() > 0 {
                Some(t)
            } else {
                None
            },
            None => None,
        }),
{
    match s {
        Some(t) => {
            if t.as_str().is_empty() {
                None
            } else {
                Some(t)
            }
        },
        None => None,
    }
}

/// The headers whose name and value are both given.
pub open spec fn given_headers(keys: Seq<Option<String>>, values: Seq<Option<String>>) -> Seq<
    (Seq<char>, Seq<char>),
>
    decreases keys.len(),
{
    if keys.len() == 0 {
        Seq::empty()
    } else {
        let rest = given_headers(keys.drop_last(), values.drop_last());
        match (keys.last(), values.last()) {
            (Some(k), Some(v)) => if k@.len() > 0 && v@.len() > 0 {
                rest.push((k@, v@))
            } else {
                rest
            },
            _ => rest,
        }
    }
}

/// Puts the headers of a request together.
pub fn collect_headers(keys: &[Option<String>], values: &[Option<String>]) -> (headers: Vec<
    (String, String),
>)
    requires
        keys@.len() == values@.len(),
    ensures
        header_texts(headers@) == given_headers(keys@, values@),
{
    let mut headers: Vec<(String, String)> = Vec::new();
    let mut i: usize = 0;
    assert(header_texts(headers@) =~= Seq::empty());
    while i < keys.len()
        invariant
            i <= keys@.len(),
            keys@.len() == values@.len(),
            header_texts(headers@) == given_headers(keys@.take(i as int), values@.take(i as int)),
        decreases keys@.len() - i,
    {
        let ghost before = headers@;
        assert(keys@.take(i + 1).drop_last() =~= keys@.take(i as int));
        assert(values@.take(i + 1).drop_last() =~= values@.take(i as int));
        if let (Some(k), Some(v)) = (&keys[i], &values[i]) {
            if !k.as_str().is_empty() && !v.as_str().is_empty() {
                headers.push((k.as_str().to_owned(), v.as_str().to_owned()));
                assert(header_texts(headers@) =~= header_texts(before).push((k@, v@)));
            }
        }
        i = i + 1;
    }
    assert(keys@.take(keys@.len() as int) =~= keys@);
    assert(values@.take(values@.len() as int) =~= values@);
    headers
}

/// The numbers of the states, the levels and the endings.
pub proof fn law_numbers_of_the_c_interface(level: Seq<char>)
    ensures
        status_code(Status::Pending) == 0,
        status_code(Status::Probing) == 1,
        status_code(Status::Downloading) == 2,
        status_code(Status::Assembling) == 3,
        status_code(Status::Completed) == 4,
        status_code(Status::Failed) == 5,
        status_code(Status::Canceled) == 6,
        level_code("DEBUG"@) == 0,
        level != "DEBUG"@ && level != "WARN"@ && level != "ERROR"@ ==> level_code(level) == 1,
        level_code("WARN"@) == 2,
        level_code("ERROR"@) == 3,
        ending_code(Ending::Done) == 0,
        ending_code(Ending::Failed) == 1,
        ending_code(Ending::Crashed) == 2,
{
    reveal_strlit("DEBUG");
    reveal_strlit("WARN");
    reveal_strlit("ERROR");
    assert("WARN"@.len() != "DEBUG"@.len());
    assert("WARN"@.len() != "ERROR"@.len());
    assert("ERROR"@[0] != "DEBUG"@[0]);
}

/// A setting that makes sense is taken, and any other one leaves the built-in value: a
/// positive number of connections, of bytes or of milliseconds, any number of retries from
/// zero on, and a text that is given. The speed limit is always taken.
pub proof fn law_sensible_settings_are_taken(s: Settings)
    ensures
        ({
            let (c, d) = (configured(s), ConfigView::default_view());
            &&& c.initial_threads == (if s.initial_threads > 0 {
                s.initial_threads as int
            } else {
                d.initial_threads as int
            })
            &&& c.max_threads == (if s.max_threads > 0 {
                s.max_threads as int
            } else {
                d.max_threads as int
            })
            &&& c.min_part_size == (if s.min_part_size > 0 {
                s.min_part_size
            } else {
                d.min_part_size
            })
            &&& c.buffer_size == (if s.buffer_size > 0 {
                s.buffer_size as int
            } else {
                d.buffer_size as int
            })
            &&& c.idle_timeout.nanos == (if s.idle_timeout_ms > 0 {
                s.idle_timeout_ms * 1000000
            } else {
                d.idle_timeout.nanos as int
            })
            &&& c.max_retries == (if s.max_retries >= 0 {
                s.max_retries as int
            } else {
                d.max_retries as int
            })
            &&& c.retry_delay.nanos == (if s.retry_delay_ms > 0 {
                s.retry_delay_ms * 1000000
            } else {
                d.retry_delay.nanos as int
            })
            &&& s.temp_dir matches Some(t) ==> c.temp_dir == t@
            &&& s.temp_dir is None ==> c.temp_dir == d.temp_dir
            &&& s.incomplete_suffix matches Some(t) ==> c.incomplete_suffix == t@
            &&& s.incomplete_suffix is None ==> c.incomplete_suffix == d.incomplete_suffix
            &&& s.user_agent matches Some(t) ==> c.user_agent == t@
            &&& s.user_agent is None ==> c.user_agent == d.user_agent
            &&& c.max_speed == s.max_speed
            &&& c.os_priority == d.os_priority && c.mode == d.mode && c.adaptive_threads
                == d.adaptive_threads && c.use_multiple_ips == d.use_multiple_ips
        }),
{
}

/// A header counts if its name and its value are both there and not empty, and the order
/// is kept.
pub proof fn law_complete_headers_are_kept(
    keys: Seq<Option<String>>,
    values: Seq<Option<String>>,
    k: Option<String>,
    v: Option<String>,
)
    requires
        keys.len() == values.len(),
    ensures
        given_headers(Seq::empty(), Seq::empty()).len() == 0,
        k is Some && v is Some && k->0@.len() > 0 && v->0@.len() > 0 ==> given_headers(
            keys.push(k),
            values.push(v),
        ) == given_headers(keys, values).push((k->0@, v->0@)),
        k is None || v is None || k->0@.len() == 0 || v->0@.len() == 0 ==> given_headers(
            keys.push(k),
            values.push(v),
        ) == given_headers(keys, values),
{
    assert(keys.push(k).drop_last() =~= keys);
    assert(values.push(v).drop_last() =~= values);
}

} // verus!
