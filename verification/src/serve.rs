//! A small file server, for trying the downloader out without a network.
use vstd::prelude::*;

use crate::client::{law_range_answers_are_told_apart, range_trouble, range_value};
use crate::number::{
    decimal, integer, law_integer_reads_back, lemma_decimal_reads_back, push_signed_decimal,
    read_integer, signed_decimal,
};
use crate::part::{max_int, min_int};
use crate::text::{
    back, behind, chars_of, find_char, found, front, law_trim_takes_the_ends, lemma_found_behind,
    lemma_found_from, lemma_trim_keeps, lower, push_text, same_chars, same_text, string_of, to_lower,
    trim, trimmed, Trim,
};

verus! {

// ---------------------------------------------------------------- requests

/// What follows a prefix.
pub open spec fn without_prefix(s: Seq<char>, prefix: Seq<char>) -> Option<Seq<char>> {
    if prefix.len() <= s.len() && s.take(prefix.len() as int) == prefix {
        Some(s.skip(prefix.len() as int))
    } else {
        None
    }
}

fn strip_prefix<'a>(v: &'a [char], prefix: &[char]) -> (r: Option<&'a [char]>)
    ensures
        r is Some <==> without_prefix(v@, prefix@) is Some,
        r matches Some(rest) ==> without_prefix(v@, prefix@) == Some(rest@),
{
    if prefix.len() <= v.len() && same_chars(front(v, prefix.len()), prefix) {
        Some(back(v, prefix.len()))
    } else {
        None
    }
}

/// The two ends of a range as they stand in a header value: first and last byte, each
/// possibly empty.
pub open spec fn range_ends(h: Seq<char>) -> Option<(Seq<char>, Seq<char>)> {
    match without_prefix(h, "bytes="@) {
        None => None,
        Some(spec) => match found(spec, seq!['-']) {
            None => None,
            Some(dash) => Some(
                (
                    trimmed(spec.take(dash), Trim::Space),
                    trimmed(spec.skip(dash + 1), Trim::Space),
                ),
            ),
        },
    }
}

/// The bytes that two ends ask for in a file of `size` bytes: without a first byte, the
/// last so many; without a last byte, everything from the first on.
pub open spec fn asked_bytes(left: Seq<char>, right: Seq<char>, size: int) -> Option<(int, int)> {
    if left.len() == 0 {
        match integer(right) {
            None => None,
            Some(n) => Some((max_int(size - n, 0), size - 1)),
        }
    } else {
        match integer(left) {
            None => None,
            Some(s) => if right.len() == 0 {
                Some((s as int, size - 1))
            } else {
                match integer(right) {
                    None => None,
                    Some(e) => Some((s as int, e as int)),
                }
            },
        }
    }
}

/// The bytes that a header value asks for, cut to the file.
pub open spec fn asked_range(h: Seq<char>, size: int) -> Option<(int, int)> {
    match range_ends(h) {
        None => None,
        Some((left, right)) => match asked_bytes(left, right, size) {
            None => None,
            Some((s, e)) => Some((max_int(s, 0), min_int(e, size - 1))),
        },
    }
}

/// A count of last bytes that can be subtracted from the size.
pub open spec fn suffix_fits(h: Seq<char>, size: int) -> bool {
    range_ends(h) matches Some((left, right)) ==> left.len() == 0 ==> (integer(right) matches Some(
        n,
    ) ==> i64::MIN <= size - n <= i64::MAX)
}

fn take_ends<'a>(v: &'a [char]) -> (r: Option<(&'a [char], &'a [char])>)
    ensures
        r is Some <==> range_ends(v@) is Some,
        r matches Some((left, right)) ==> range_ends(v@) == Some((left@, right@)),
{
    let key = chars_of("bytes=");
    match strip_prefix(v, key.as_slice()) {
        None => None,
        Some(ends) => match find_char(ends, '-') {
            None => None,
            Some(dash) => Some(
                (trim(front(ends, dash), Trim::Space), trim(behind(ends, dash), Trim::Space)),
            ),
        },
    }
}

/// Whether a count of last bytes can be subtracted from the size.
pub fn suffix_is_countable(h: &str, size: i64) -> (b: bool)
    ensures
        b == suffix_fits(h@, size as int),
{
    let chars = chars_of(h);
    if let Some((left, right)) = take_ends(chars.as_slice()) {
        if left.len() == 0 {
            if let Some(n) = read_integer(right) {
                let start: i128 = size as i128 - n as i128;
                return i64::MIN as i128 <= start && start <= i64::MAX as i128;
            }
        }
    }
    true
}

/// Reads the value of a Range header.
pub fn parse_range(h: &str, size: i64) -> (r: Option<(i64, i64)>)
    requires
        size > i64::MIN,
        suffix_fits(h@, size as int),
    ensures
        r is Some <==> asked_range(h@, size as int) is Some,
        r matches Some((s, e)) ==> asked_range(h@, size as int) == Some((s as int, e as int)),
{
    let chars = chars_of(h);
    let (left, right) = match take_ends(chars.as_slice()) {
        Some(ends) => ends,
        None => return None,
    };
    let start: i64;
    let end: i64;
    if left.len() == 0 {
        let n: i64 = match read_integer(right) {
            Some(n) => n,
            None => return None,
        };
        start = if size - n >= 0 { size - n } else { 0 };
        end = size - 1;
    } else {
        start = match read_integer(left) {
            Some(s) => s,
            None => return None,
        };
        end = if right.len() == 0 {
            size - 1
        } else {
            match read_integer(right) {
                Some(e) => e,
                None => return None,
            }
        };
    }
    Some((if start >= 0 { start } else { 0 }, if end <= size - 1 { end } else { size - 1 }))
}

/// A line of the head of a request.
#[derive(Debug, Clone, Copy)]
pub enum HeadLine {
    /// the head is over
    End,
    /// a Range header, with the bytes that it asks for, if it can be read
    Range(Option<(i64, i64)>),
    /// anything else
    Other,
}

/// The value of a Range header in a line, in lower case.
pub open spec fn range_line(line: Seq<char>) -> Option<Seq<char>> {
    match without_prefix(lower(line), "range:"@) {
        None => None,
        Some(rest) => Some(trimmed(rest, Trim::Space)),
    }
}

/// The line ends the head.
pub open spec fn ends_head(line: Seq<char>) -> bool {
    line.len() == 0 || line == "\r\n"@ || line == "\n"@
}

fn take_range_value(line: &str) -> (r: Option<String>)
    ensures
        r is Some <==> range_line(line@) is Some,
        r matches Some(v) ==> range_line(line@) == Some(v@),
{
    let chars = chars_of(line);
    let low = to_lower(chars.as_slice());
    let key = chars_of("range:");
    match strip_prefix(low.as_slice(), key.as_slice()) {
        None => None,
        Some(rest) => Some(string_of(trim(rest, Trim::Space))),
    }
}

/// Whether a line can be read: a count of last bytes in it can be subtracted.
pub fn head_line_is_countable(line: &str, size: i64) -> (b: bool)
    ensures
        b == (range_line(line@) matches Some(v) ==> suffix_fits(v, size as int)),
{
    match take_range_value(line) {
        Some(v) => suffix_is_countable(v.as_str(), size),
        None => true,
    }
}

/// Reads a line of the head of a request, its end included; an empty one means that the
/// connection is over.
pub fn read_head_line(line: &str, size: i64) -> (r: HeadLine)
    requires
        size > i64::MIN,
        range_line(line@) matches Some(v) ==> suffix_fits(v, size as int),
    ensures
        match r {
            HeadLine::End => ends_head(line@),
            HeadLine::Range(x) => {
                &&& !ends_head(line@)
                &&& range_line(line@) matches Some(v) && {
                    &&& x is Some <==> asked_range(v, size as int) is Some
                    &&& x matches Some((s, e)) ==> asked_range(v, size as int) == Some(
                        (s as int, e as int),
                    )
                }
            },
            HeadLine::Other => !ends_head(line@) && range_line(line@) is None,
        },
{
    if line.is_empty() || same_text(line, "\r\n") || same_text(line, "\n") {
        return HeadLine::End;
    }
    match take_range_value(line) {
        None => HeadLine::Other,
        Some(v) => HeadLine::Range(parse_range(v.as_str(), size)),
    }
}

// ---------------------------------------------------------------- answers

/// The answer to a request: its head, and which bytes of the file follow.
#[derive(Debug)]
pub struct Answer {
    pub head: String,
    pub from: i64,
    /// the first byte that does not follow
    pub until: i64,
}

/// The range can be served.
pub open spec fn serves(range: Option<(i64, i64)>, size: int) -> bool {
    range matches Some((start, end)) && start <= end && start < size
}

/// The Content-Range of an answer.
pub open spec fn content_range_text(start: int, end: int, size: int) -> Seq<char> {
    "bytes "@ + signed_decimal(start) + "-"@ + signed_decimal(end) + "/"@ + signed_decimal(size)
}

/// The head of an answer with a part of the file.
pub open spec fn partial_head(start: int, end: int, size: int) -> Seq<char> {
    "HTTP/1.1 206 Partial Content\r\nAccept-Ranges: bytes\r\nContent-Range: "@
        + content_range_text(start, end, size) + "\r\nContent-Length: "@ + signed_decimal(
        end - start + 1,
    ) + "\r\nConnection: close\r\n\r\n"@
}

/// The head of an answer with the whole file.
pub open spec fn whole_head(size: int) -> Seq<char> {
    "HTTP/1.1 200 OK\r\nAccept-Ranges: none\r\nContent-Length: "@ + signed_decimal(size)
        + "\r\nConnection: close\r\n\r\n"@
}

/// Answers a request for a range of a file of `size` bytes.
pub fn answer(range: Option<(i64, i64)>, size: i64) -> (a: Answer)
    requires
        size >= 0,
        range matches Some((start, _)) ==> start >= 0,
    ensures
        serves(range, size as int) ==> (range matches Some((start, last)) && {
            let end = min_int(last as int, size - 1);
            &&& a.head@ == partial_head(start as int, end, size as int)
            &&& a.from == start
            &&& a.until == end + 1
        }),
        !serves(range, size as int) ==> a.head@ == whole_head(size as int) && a.from == 0
            && a.until == size,
{
    let mut out: Vec<char> = Vec::new();
    if let Some((start, end)) = range {
        if start <= end && start < size {
            let end: i64 = if end <= size - 1 { end } else { size - 1 };
            push_text(
                &mut out,
                "HTTP/1.1 206 Partial Content\r\nAccept-Ranges: bytes\r\nContent-Range: ",
            );
            push_text(&mut out, "bytes ");
            push_signed_decimal(&mut out, start);
            push_text(&mut out, "-");
            push_signed_decimal(&mut out, end);
            push_text(&mut out, "/");
            push_signed_decimal(&mut out, size);
            push_text(&mut out, "\r\nContent-Length: ");
            push_signed_decimal(&mut out, end - start + 1);
            push_text(&mut out, "\r\nConnection: close\r\n\r\n");
            assert(out@ =~= partial_head(start as int, end as int, size as int));
            return Answer { head: string_of(out.as_slice()), from: start, until: end + 1 };
        }
    }
    push_text(&mut out, "HTTP/1.1 200 OK\r\nAccept-Ranges: none\r\nContent-Length: ");
    push_signed_decimal(&mut out, size);
    push_text(&mut out, "\r\nConnection: close\r\n\r\n");
    assert(out@ =~= whole_head(size as int));
    Answer { head: string_of(out.as_slice()), from: 0, until: size }
}

/// The byte at position `i` of the file that is served.
pub open spec fn pattern_byte(i: int) -> u8 {
    ((i * 31 + 7) % 256) as u8
}

/// Makes the file that is served.
pub fn pattern(size: usize) -> (data: Vec<u8>)
    requires
        size * 31 + 7 <= u64::MAX,
    ensures
        data@ == Seq::new(size as nat, |i: int| pattern_byte(i)),
{
    let mut data: Vec<u8> = Vec::new();
    let mut i: usize = 0;
    while i < size
        invariant
            i <= size,
            size * 31 + 7 <= u64::MAX,
            data@.len() == i,
            forall|j: int| 0 <= j < i ==> #[trigger] data@[j] == pattern_byte(j),
        decreases size - i,
    {
        let x: u64 = i as u64 * 31 + 7;
        assert(x & 0xff == x % 256) by (bit_vector);
        data.push((x & 0xff) as u8);
        i = i + 1;
    }
    assert(data@ =~= Seq::new(size as nat, |i: int| pattern_byte(i)));
    data
}

// ---------------------------------------------------------------- laws

/// A range that the client asks for is the one that the server understands.
pub proof fn law_range_request_is_understood(from: i64, to: i64, size: int)
    requires
        0 <= from,
        0 <= to,
    ensures
        asked_range(range_value(from as int, to as int), size) == Some(
            (from as int, min_int(to as int, size - 1)),
        ),
        suffix_fits(range_value(from as int, to as int), size),
{
    reveal_strlit("bytes=");
    reveal_strlit("-");
    let (df, dt) = (decimal(from as nat), decimal(to as nat));
    lemma_decimal_reads_back(from as nat);
    lemma_decimal_reads_back(to as nat);
    law_integer_reads_back(from);
    law_integer_reads_back(to);
    let h = range_value(from as int, to as int);
    let ends = df + seq!['-'] + dt;
    assert(h.take(6) =~= "bytes="@);
    assert(h.skip(6) =~= ends);
    assert(!df.contains('-'));
    lemma_found_behind(df, '-', dt);
    let dash = df.len() as int;
    assert(ends.take(dash) =~= df);
    assert(ends.skip(dash + 1) =~= dt);
    lemma_trim_keeps(df, Trim::Space);
    lemma_trim_keeps(dt, Trim::Space);
}

/// The answer to a range that the file holds is one that the client accepts.
pub proof fn law_served_range_is_accepted(from: i64, to: i64, size: i64)
    requires
        0 <= from <= to < size,
    ensures
        serves(Some((from, to)), size as int),
        range_trouble(206, content_range_text(from as int, to as int, size as int), from) is None,
{
    law_range_answers_are_told_apart(from, to, Some(size), from);
}

/// What follows a prefix is found exactly if the text begins with it.
pub proof fn law_prefixes(prefix: Seq<char>, rest: Seq<char>, s: Seq<char>)
    ensures
        without_prefix(prefix + rest, prefix) == Some(rest),
        without_prefix(s, prefix) matches Some(r) ==> s == prefix + r,
{
    assert((prefix + rest).take(prefix.len() as int) =~= prefix);
    assert((prefix + rest).skip(prefix.len() as int) =~= rest);
    if without_prefix(s, prefix) is Some {
        assert(s =~= prefix + s.skip(prefix.len() as int));
    }
}

/// A range without a last byte goes to the end of the file, and a range without a first
/// byte is the last so many bytes, all of them if there are no more.
pub proof fn law_open_ranges_are_understood(n: i64, size: i64)
    requires
        0 <= n,
        0 <= size,
    ensures
        asked_range("bytes="@ + decimal(n as nat) + seq!['-'], size as int) == Some(
            (n as int, size - 1),
        ),
        asked_range("bytes="@ + seq!['-'] + decimal(n as nat), size as int) == Some(
            (if n <= size {
                size - n
            } else {
                0
            }, size - 1),
        ),
{
    reveal_strlit("bytes=");
    let d = decimal(n as nat);
    lemma_decimal_reads_back(n as nat);
    law_integer_reads_back(n);
    let none = Seq::<char>::empty();
    assert(!d.contains('-'));
    lemma_trim_keeps(d, Trim::Space);
    lemma_trim_keeps(none, Trim::Space);
    let x = "bytes="@ + d + seq!['-'];
    assert(x =~= "bytes="@ + (d + seq!['-'] + none));
    law_prefixes("bytes="@, d + seq!['-'] + none, x);
    lemma_found_behind(d, '-', none);
    assert((d + seq!['-'] + none).take(d.len() as int) =~= d);
    assert((d + seq!['-'] + none).skip(d.len() as int + 1) =~= none);
    let y = "bytes="@ + seq!['-'] + d;
    assert(y =~= "bytes="@ + (none + seq!['-'] + d));
    law_prefixes("bytes="@, none + seq!['-'] + d, y);
    lemma_found_behind(none, '-', d);
    assert((none + seq!['-'] + d).take(0) =~= none);
    assert((none + seq!['-'] + d).skip(1) =~= d);
}

/// What does not begin with the unit, or holds no dash, asks for no range.
pub proof fn law_other_values_ask_for_nothing(h: Seq<char>, size: int)
    ensures
        h.len() < 6 || h.take(6) != "bytes="@ ==> asked_range(h, size) is None,
        !h.contains('-') ==> asked_range(h, size) is None,
{
    reveal_strlit("bytes=");
    if !h.contains('-') {
        if let Some(rest) = without_prefix(h, "bytes="@) {
            lemma_found_from(rest, seq!['-'], 0);
            if let Some(k) = found(rest, seq!['-']) {
                assert(rest.subrange(k, k + 1)[0] == '-');
                assert(h[k + 6] == '-');
            }
        }
    }
}

/// A range is served if it is not empty and starts inside the file.
pub proof fn law_servable_ranges(start: i64, end: i64, size: int)
    ensures
        !serves(None, size),
        serves(Some((start, end)), size) <==> start <= end && start < size,
{
}

/// A line asks for a range if it begins with the name of the header, in capitals or not;
/// blanks around the value do not matter.
pub proof fn law_range_lines(name: Seq<char>, head: Seq<char>, value: Seq<char>, tail: Seq<char>)
    requires
        lower(name) == "range:"@,
        forall|i: int| 0 <= i < head.len() ==> Trim::Space.takes(#[trigger] lower(head)[i]),
        forall|i: int| 0 <= i < tail.len() ==> Trim::Space.takes(#[trigger] lower(tail)[i]),
        lower(value) == value,
        value.len() > 0 ==> !Trim::Space.takes(value[0]) && !Trim::Space.takes(value.last()),
    ensures
        range_line(name + (head + value + tail)) == Some(value),
{
    let rest = head + value + tail;
    let low = lower(head) + value + lower(tail);
    assert(lower(name + rest) =~= lower(name) + lower(rest));
    assert(lower(rest) =~= low) by {
        assert(lower(rest) =~= lower(head) + lower(value) + lower(tail));
    }
    law_prefixes("range:"@, low, lower(name + rest));
    law_trim_takes_the_ends(lower(head), value, lower(tail), Trim::Space);
}

/// The head is over with an empty line, however it ends, and with the connection.
pub proof fn law_ends_of_heads(line: Seq<char>)
    ensures
        ends_head(line) <==> line.len() == 0 || line == seq!['\r', '\n'] || line == seq!['\n'],
{
    reveal_strlit("\r\n");
    reveal_strlit("\n");
    assert("\r\n"@ =~= seq!['\r', '\n']);
    assert("\n"@ =~= seq!['\n']);
}

/// The head of an answer names the status, the support of ranges, the range if there is
/// one, and how many bytes follow.
pub proof fn law_heads_of_answers(start: int, end: int, size: int)
    ensures
        partial_head(start, end, size)
            == "HTTP/1.1 206 Partial Content\r\nAccept-Ranges: bytes\r\nContent-Range: "@
            + ("bytes "@ + signed_decimal(start) + "-"@ + signed_decimal(end) + "/"@
            + signed_decimal(size)) + "\r\nContent-Length: "@ + signed_decimal(end - start + 1)
            + "\r\nConnection: close\r\n\r\n"@,
        whole_head(size) == "HTTP/1.1 200 OK\r\nAccept-Ranges: none\r\nContent-Length: "@
            + signed_decimal(size) + "\r\nConnection: close\r\n\r\n"@,
{
}

/// The file that is served repeats itself after 256 bytes, and each byte is 31 more than
/// the one before it, as far as a byte goes.
pub proof fn law_pattern_of_the_file(i: int)
    requires
        0 <= i,
    ensures
        pattern_byte(0) == 7,
        pattern_byte(i + 1) as int == (pattern_byte(i) + 31) % 256,
        pattern_byte(i + 256) == pattern_byte(i),
{
    assert((i + 1) * 31 + 7 == (i * 31 + 7) + 31);
    assert((i + 256) * 31 + 7 == (i * 31 + 7) + 31 * 256);
    lemma_wraps(i * 31 + 7);
}

proof fn lemma_wraps(x: int)
    ensures
        (x + 31) % 256 == (x % 256 + 31) % 256,
        (x + 31 * 256) % 256 == x % 256,
{
}

/// Ends that cannot be read ask for nothing; a range is cut to the file.
pub proof fn law_unreadable_ends_ask_for_nothing(left: Seq<char>, right: Seq<char>, size: int)
    ensures
        left.len() > 0 && integer(left) is None ==> asked_bytes(left, right, size) is None,
        right.len() > 0 && integer(right) is None ==> asked_bytes(left, right, size) is None,
        left.len() == 0 && right.len() == 0 ==> asked_bytes(left, right, size) is None,
        left.len() > 0 ==> (asked_bytes(left, right, size) matches Some((s, e)) ==> integer(left)
            == Some(s as i64) && (right.len() > 0 ==> integer(right) == Some(e as i64)) && (
        right.len() == 0 ==> e == size - 1)),
{
}

/// What is asked for never reaches out of the file.
pub proof fn law_ranges_are_cut_to_the_file(h: Seq<char>, size: int)
    ensures
        asked_range(h, size) matches Some((s, e)) ==> s >= 0 && e < size,
{
}

} // verus!
