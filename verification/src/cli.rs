//! Command lines.
use vstd::prelude::*;

use crate::engine::{elapsed, time_since};
use crate::number::{
    decimal, law_naturals_are_read, lemma_decimal_reads_back, natural, read_natural,
};
use crate::text::{chars_of, lower, same_ignoring_case, same_text, trim, trimmed, Trim};

verus! {

/// An argument that asks for the version.
pub open spec fn asks_version(a: Seq<char>) -> bool {
    a == "-v"@ || a == "-V"@ || a == "--version"@
}

/// Whether the arguments ask for the version only.
pub fn wants_version(args: &[String]) -> (b: bool)
    ensures
        b == exists|i: int| 0 <= i < args@.len() && asks_version((#[trigger] args@[i])@),
{
    let mut i: usize = 0;
    while i < args.len()
        invariant
            i <= args@.len(),
            forall|j: int| 0 <= j < i ==> !asks_version((#[trigger] args@[j])@),
        decreases args@.len() - i,
    {
        let a = args[i].as_str();
        if same_text(a, "-v") || same_text(a, "-V") || same_text(a, "--version") {
            assert(asks_version(args@[i as int]@));
            return true;
        }
        i = i + 1;
    }
    false
}

/// An option rather than an address.
pub open spec fn is_option(a: Seq<char>) -> bool {
    a.len() > 0 && a[0] == '-'
}

/// The position of the address on the command line: the first argument that is no option.
pub fn direct_address(args: &[String]) -> (r: Option<usize>)
    ensures
        match r {
            Some(i) => {
                &&& i < args@.len()
                &&& !is_option(args@[i as int]@)
                &&& forall|j: int| 0 <= j < i ==> is_option((#[trigger] args@[j])@)
            },
            None => forall|j: int| 0 <= j < args@.len() ==> is_option((#[trigger] args@[j])@),
        },
{
    let mut i: usize = 0;
    while i < args.len()
        invariant
            i <= args@.len(),
            forall|j: int| 0 <= j < i ==> is_option((#[trigger] args@[j])@),
        decreases args@.len() - i,
    {
        let chars = chars_of(args[i].as_str());
        if chars.len() == 0 || chars[0] != '-' {
            return Some(i);
        }
        i = i + 1;
    }
    None
}

/// Whether a text asks for the trial without a network.
pub fn is_selftest(s: &str) -> (b: bool)
    ensures
        b == (lower(s@) == lower("selftest"@)),
{
    let chars = chars_of(s);
    let key = chars_of("selftest");
    same_ignoring_case(chars.as_slice(), key.as_slice())
}

/// What the user typed: without an address, the program ends.
pub fn typed_address(line: &str) -> (r: Option<String>)
    ensures
        r is None <==> trimmed(line@, Trim::Space).len() == 0,
        r matches Some(s) ==> s@ == trimmed(line@, Trim::Space),
{
    let chars = chars_of(line);
    let link = trim(chars.as_slice(), Trim::Space);
    if link.len() == 0 {
        None
    } else {
        Some(crate::text::string_of(link))
    }
}

/// One second, in nanoseconds: how often a line of progress is shown.
pub const LINE_WINDOW: u64 = 1000000000;

/// When the last line of progress was shown, in nanoseconds.
#[derive(Debug)]
pub struct Ticker {
    pub last_line: u64,
}

impl Ticker {
    pub fn new(now: u64) -> (t: Self)
        ensures
            t.last_line == now,
    {
        Ticker { last_line: now }
    }

    /// Whether it is time for another line of progress.
    pub fn line_due(&mut self, now: u64) -> (b: bool)
        ensures
            b == (elapsed(old(self).last_line, now) >= LINE_WINDOW),
            final(self).last_line == (if b {
                now
            } else {
                old(self).last_line
            }),
    {
        if time_since(self.last_line, now) >= LINE_WINDOW {
            self.last_line = now;
            true
        } else {
            false
        }
    }
}

/// A number on the command line, or its default where there is none or it cannot be read.
pub open spec fn number_or(arg: Option<Seq<char>>, max: nat, default: nat) -> nat {
    match arg {
        Some(s) => match natural(s, max) {
            Some(n) => n,
            None => default,
        },
        None => default,
    }
}

/// Argument `i`, if it is there.
pub open spec fn argument(args: Seq<String>, i: int) -> Option<Seq<char>> {
    if i < args.len() {
        Some(args[i]@)
    } else {
        None
    }
}

fn read_or(arg: Option<&String>, max: u64, default: u64) -> (n: u64)
    ensures
        n == number_or(
            match arg {
                Some(s) => Some(s@),
                None => None,
            },
            max as nat,
            default as nat,
        ),
{
    match arg {
        Some(s) => {
            let chars = chars_of(s.as_str());
            match read_natural(chars.as_slice(), max) {
                Some(n) => n,
                None => default,
            }
        },
        None => default,
    }
}

/// The arguments of the trial server: the size of the file in MiB, and the port.
pub fn server_arguments(args: &[String]) -> (r: (usize, u16))
    ensures
        r.0 == number_or(argument(args@, 0), usize::MAX as nat, 64),
        r.1 == number_or(argument(args@, 1), 0xffff, 2121),
{
    let size: u64 = if args.len() > 0 {
        read_or(Some(&args[0]), usize::MAX as u64, 64)
    } else {
        64
    };
    let port: u64 = if args.len() > 1 {
        read_or(Some(&args[1]), 0xffff, 2121)
    } else {
        2121
    };
    (size as usize, port as u16)
}

// ---------------------------------------------------------------- laws

/// The version is asked for with a short or a long option; everything that begins with a
/// dash is an option.
pub proof fn law_options(a: Seq<char>)
    ensures
        asks_version(a) <==> a == "-v"@ || a == "-V"@ || a == "--version"@,
        is_option(a) <==> a.len() > 0 && a[0] == '-',
{
}

/// A number that is missing, or cannot be read, or is too large, is the built-in one;
/// every other one is taken as it stands.
pub proof fn law_numbers_or_defaults(n: nat, max: nat, default: nat, s: Seq<char>)
    ensures
        number_or(None, max, default) == default,
        natural(s, max) is None ==> number_or(Some(s), max, default) == default,
        n <= max ==> number_or(Some(decimal(n)), max, default) == n,
        n > max ==> number_or(Some(decimal(n)), max, default) == default,
{
    lemma_decimal_reads_back(n);
    law_naturals_are_read(decimal(n), max);
}

/// The arguments are counted from the first.
pub proof fn law_arguments(args: Seq<String>, i: int)
    requires
        0 <= i,
    ensures
        i < args.len() ==> argument(args, i) == Some(args[i]@),
        i >= args.len() ==> argument(args, i) is None,
        LINE_WINDOW == 1000 * 1000000,
{
}

} // verus!
