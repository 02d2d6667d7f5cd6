//! Errors, classified by what the caller can do about them.
use vstd::prelude::*;
use vstd::string::*;

verus! {

/// What kind of error it is: it tells the caller whether a retry makes sense.
#[derive(Debug, Clone, Copy, PartialEq, Eq, Structural)]
pub enum ErrorKind {
    /// may be retried automatically (network trouble, timeouts)
    Retryable,
    /// not to be retried; the host has to be told (no disk space, the file changed)
    Fatal,
    /// canceled by the user
    Canceled,
    /// the connection is too slow and has to be reopened (internal)
    Slow,
}

#[derive(Debug, Clone)]
pub struct Error {
    pub kind: ErrorKind,
    pub op: &'static str,
    pub message: String,
}

/// What an error says, as mathematical values.
pub struct ErrorView {
    pub kind: ErrorKind,
    pub op: Seq<char>,
    pub message: Seq<char>,
}

impl View for Error {
    type V = ErrorView;

    open spec fn view(&self) -> ErrorView {
        ErrorView { kind: self.kind, op: self.op@, message: self.message@ }
    }
}

impl ErrorView {
    /// The text shown for an error: the operation, a colon, the message.
    pub open spec fn text(self) -> Seq<char> {
        self.op + ": "@ + self.message
    }

    pub open spec fn retryable(op: Seq<char>, message: Seq<char>) -> ErrorView {
        ErrorView { kind: ErrorKind::Retryable, op, message }
    }

    pub open spec fn fatal(op: Seq<char>, message: Seq<char>) -> ErrorView {
        ErrorView { kind: ErrorKind::Fatal, op, message }
    }

    pub open spec fn canceled() -> ErrorView {
        ErrorView { kind: ErrorKind::Canceled, op: "cancel"@, message: "已取消"@ }
    }

    pub open spec fn slow() -> ErrorView {
        ErrorView { kind: ErrorKind::Slow, op: "slow"@, message: Seq::empty() }
    }
}

impl Error {
    pub fn canceled() -> (e: Self)
        ensures
            e@ == ErrorView::canceled(),
            e.kind == ErrorKind::Canceled,
    {
        Error { kind: ErrorKind::Canceled, op: "cancel", message: "已取消".to_owned() }
    }

    /// The error of a connection that has to be reopened.
    pub fn slow() -> (e: Self)
        ensures
            e@ == ErrorView::slow(),
            e.kind == ErrorKind::Slow,
    {
        Error { kind: ErrorKind::Slow, op: "slow", message: String::new() }
    }

    pub fn is_retryable(&self) -> (b: bool)
        ensures
            b == (self.kind == ErrorKind::Retryable),
    {
        self.kind == ErrorKind::Retryable
    }

    /// The text shown for the error.
    pub fn to_string(&self) -> (s: String)
        ensures
            s@ == self@.text(),
    {
        let mut s = self.op.to_owned();
        s.append(": ");
        s.append(self.message.as_str());
        s
    }
}

pub fn retryable(op: &'static str, message: String) -> (e: Error)
    ensures
        e@ == ErrorView::retryable(op@, message@),
        e.kind == ErrorKind::Retryable,
        e.message@ == message@,
{
    Error { kind: ErrorKind::Retryable, op, message }
}

pub fn fatal(op: &'static str, message: String) -> (e: Error)
    ensures
        e@ == ErrorView::fatal(op@, message@),
        e.kind == ErrorKind::Fatal,
        e.message@ == message@,
{
    Error { kind: ErrorKind::Fatal, op, message }
}

/// The retries are used up.
pub const ERR_TOO_MANY_FAILURES: &'static str = "重试次数用尽";

/// The server's range is not the one that was asked for.
pub const ERR_RANGE_MISMATCH: &'static str = "服务器返回的分段与请求不一致";

/// Errors say what was given to them: the kind, the operation and the message, and the
/// text shown is the operation, a colon and a blank, and the message.
pub proof fn law_errors_say_what_happened(op: Seq<char>, message: Seq<char>)
    ensures
        ErrorView::retryable(op, message).kind == ErrorKind::Retryable,
        ErrorView::retryable(op, message).op == op,
        ErrorView::retryable(op, message).message == message,
        ErrorView::fatal(op, message).kind == ErrorKind::Fatal,
        ErrorView::fatal(op, message).op == op,
        ErrorView::fatal(op, message).message == message,
        ErrorView::canceled().kind == ErrorKind::Canceled,
        ErrorView::slow().kind == ErrorKind::Slow,
        ErrorView::retryable(op, message).text() == op + seq![':', ' '] + message,
        ErrorView::fatal(op, message).text() == op + seq![':', ' '] + message,
{
    reveal_strlit(": ");
    assert(": "@ =~= seq![':', ' ']);
}

/// A cancellation and the end of all retries have fixed words.
pub proof fn law_fixed_words()
    ensures
        ErrorView::canceled().op == "cancel"@,
        ErrorView::canceled().message == "已取消"@,
        ErrorView::slow().op == "slow"@,
        ERR_TOO_MANY_FAILURES@ == "重试次数用尽"@,
        ERR_RANGE_MISMATCH@ == "服务器返回的分段与请求不一致"@,
{
}

} // verus!
