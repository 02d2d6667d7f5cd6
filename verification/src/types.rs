//! What goes in and out of a download.
use vstd::prelude::*;

verus! {

/// The state of a download.
#[derive(Debug, Clone, Copy, PartialEq, Eq, Structural)]
pub enum Status {
    Pending,
    Probing,
    Downloading,
    Assembling,
    Completed,
    Failed,
    Canceled,
}

impl Status {
    /// The name of the state.
    pub open spec fn name(self) -> Seq<char> {
        match self {
            Status::Pending => "pending"@,
            Status::Probing => "probing"@,
            Status::Downloading => "downloading"@,
            Status::Assembling => "assembling"@,
            Status::Completed => "completed"@,
            Status::Failed => "failed"@,
            Status::Canceled => "canceled"@,
        }
    }

    pub fn as_str(self) -> (s: &'static str)
        ensures
            s@ == self.name(),
    {
        match self {
            Status::Pending => "pending",
            Status::Probing => "probing",
            Status::Downloading => "downloading",
            Status::Assembling => "assembling",
            Status::Completed => "completed",
            Status::Failed => "failed",
            Status::Canceled => "canceled",
        }
    }
}

/// A snapshot of the progress: the bytes so far and a simple momentary speed. Smoothing
/// and display are the host's business.
#[derive(Debug, Clone, Copy)]
pub struct Progress {
    pub downloaded: i64,
    pub total: i64,
    pub speed: i64,
    pub parts: usize,
}

/// A log line. The level is DEBUG, INFO, WARN or ERROR.
#[derive(Debug, Clone)]
pub struct LogEntry {
    pub level: &'static str,
    pub message: String,
}

/// A download request.
#[derive(Debug, Clone)]
pub struct Request {
    pub url: String,
    /// the file to save to; empty means that a name is chosen (see `target_dir`)
    pub target_file: Option<String>,
    /// where a file with a chosen name goes; empty means the current directory
    pub target_dir: Option<String>,
    /// additional request headers
    pub headers: Vec<(String, String)>,
    /// other addresses of the same file
    pub mirrors: Vec<String>,
    /// set to true to stop the download; the progress is kept for resuming
    pub cancel: Option<std::sync::Arc<std::sync::atomic::AtomicBool>>,
    /// set to true to pause; connections stay open, and false goes on
    pub pause: Option<std::sync::Arc<std::sync::atomic::AtomicBool>>,
}

impl Default for Request {
    fn default() -> (r: Self)
        ensures
            r.url@.len() == 0,
            r.target_file is None,
            r.target_dir is None,
            r.headers@.len() == 0,
            r.mirrors@.len() == 0,
            r.cancel is None,
            r.pause is None,
    {
        Request {
            url: String::new(),
            target_file: None,
            target_dir: None,
            headers: Vec::new(),
            mirrors: Vec::new(),
            cancel: None,
            pause: None,
        }
    }
}

/// The result of a successful download.
#[derive(Debug, Clone)]
pub struct DownloadResult {
    pub path: String,
    pub size: i64,
    pub speed: i64,
    pub parts: usize,
    pub range_ok: bool,
}

/// The states have the names that they are known by.
pub proof fn law_states_have_their_names()
    ensures
        Status::Pending.name() == "pending"@,
        Status::Probing.name() == "probing"@,
        Status::Downloading.name() == "downloading"@,
        Status::Assembling.name() == "assembling"@,
        Status::Completed.name() == "completed"@,
        Status::Failed.name() == "failed"@,
        Status::Canceled.name() == "canceled"@,
{
}

} // verus!
