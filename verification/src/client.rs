//! What is asked of a server, and what its answers mean.
use vstd::prelude::*;
use vstd::string::*;

use crate::config::{Config, Span};
use crate::errors::{fatal, retryable, Error, ErrorKind, ErrorView, ERR_RANGE_MISMATCH};
use crate::number::{decimal, push_decimal, push_signed_decimal, signed_decimal};
use crate::part::{max_int, min_int};
use crate::text::{
    chars_of, lower, push_text, same_ignoring_case, same_text, string_of, trim, trimmed, Trim,
};
use crate::url::{host_of, url_host};
use crate::util::{
    content_range, cuts_clean, disposition_name, law_content_range_reads_back, parse_content_range,
    parse_filename, total_text,
};

verus! {

/// What a server said about a file.
#[derive(Debug, Clone)]
pub struct ProbeInfo {
    pub size: i64,
    pub range_ok: bool,
    pub etag: String,
    pub last_modified: String,
    pub file_name: String,
}

/// Two sources have the same file: the size, the tag and the support of ranges agree.
/// Two files without a tag agree in it.
pub open spec fn is_same_file(a: ProbeInfo, b: ProbeInfo) -> bool {
    &&& a.size == b.size
    &&& a.range_ok == b.range_ok
    &&& a.etag@ == b.etag@
}

/// Whether two sources have the same file.
pub fn same_file(a: &ProbeInfo, b: &ProbeInfo) -> (r: bool)
    ensures
        r == is_same_file(*a, *b),
{
    a.size == b.size && a.range_ok == b.range_ok && same_text(a.etag.as_str(), b.etag.as_str())
}

// ---------------------------------------------------------------- requests

/// The value of a Range header for the bytes `from..=to`.
pub open spec fn range_value(from: int, to: int) -> Seq<char> {
    "bytes="@ + signed_decimal(from) + "-"@ + signed_decimal(to)
}

/// Writes the value of a Range header.
pub fn range_header(from: i64, to: i64) -> (s: String)
    ensures
        s@ == range_value(from as int, to as int),
{
    let mut out: Vec<char> = Vec::new();
    push_text(&mut out, "bytes=");
    push_signed_decimal(&mut out, from);
    push_text(&mut out, "-");
    push_signed_decimal(&mut out, to);
    assert(out@ =~= range_value(from as int, to as int));
    string_of(out.as_slice())
}

/// Headers as mathematical values.
pub open spec fn header_texts(v: Seq<(String, String)>) -> Seq<(Seq<char>, Seq<char>)> {
    v.map_values(|h: (String, String)| (h.0@, h.1@))
}

/// The headers of a request, in the order in which they are sent: no compression, the
/// client's identity, what the host adds, and the range.
pub open spec fn request_texts(
    user_agent: Seq<char>,
    extra: Seq<(Seq<char>, Seq<char>)>,
    range: Option<(i64, i64)>,
) -> Seq<(Seq<char>, Seq<char>)> {
    let common = seq![("Accept-Encoding"@, "identity"@), ("User-Agent"@, user_agent)] + extra;
    match range {
        Some(r) => common.push(("Range"@, range_value(r.0 as int, r.1 as int))),
        None => common,
    }
}

/// The headers of a request.
pub fn request_headers(
    user_agent: &str,
    extra: &[(String, String)],
    range: Option<(i64, i64)>,
) -> (v: Vec<(String, String)>)
    ensures
        header_texts(v@) == request_texts(user_agent@, header_texts(extra@), range),
{
    let mut v: Vec<(String, String)> = Vec::new();
    v.push(("Accept-Encoding".to_owned(), "identity".to_owned()));
    v.push(("User-Agent".to_owned(), user_agent.to_owned()));
    let ghost base = seq![("Accept-Encoding"@, "identity"@), ("User-Agent"@, user_agent@)];
    assert(header_texts(v@) =~= base);
    let mut i: usize = 0;
    while i < extra.len()
        invariant
            i <= extra@.len(),
            header_texts(v@) =~= base + header_texts(extra@.take(i as int)),
        decreases extra@.len() - i,
    {
        let ghost before = v@;
        let (k, x) = (&extra[i].0, &extra[i].1);
        v.push((k.as_str().to_owned(), x.as_str().to_owned()));
        assert(extra@.take(i + 1) =~= extra@.take(i as int).push(extra@[i as int]));
        assert(header_texts(v@) =~= header_texts(before).push((k@, x@)));
        i = i + 1;
    }
    assert(extra@.take(extra@.len() as int) =~= extra@);
    if let Some((from, to)) = range {
        let ghost before = v@;
        v.push(("Range".to_owned(), range_header(from, to)));
        assert(header_texts(v@) =~= header_texts(before).push(
            ("Range"@, range_value(from as int, to as int)),
        ));
    }
    v
}

/// The headers of the first request: it asks for a single byte, and carries nothing of
/// the host's.
pub fn probe_headers(user_agent: &str) -> (v: Vec<(String, String)>)
    ensures
        header_texts(v@) == request_texts(user_agent@, Seq::empty(), Some((0i64, 0i64))),
{
    let none: Vec<(String, String)> = Vec::new();
    assert(header_texts(none@) =~= Seq::empty());
    request_headers(user_agent, none.as_slice(), Some((0, 0)))
}

// ---------------------------------------------------------------- answers

/// The answer to the first request, as far as it matters. A header that is missing or
/// not plain text is empty.
#[derive(Debug)]
pub struct ProbeAnswer {
    pub status: u16,
    pub etag: String,
    pub last_modified: String,
    pub content_disposition: String,
    pub content_range: String,
    pub accept_ranges: String,
    pub content_length: Option<u64>,
}

/// Some success.
pub open spec fn is_success(status: u16) -> bool {
    200 <= status < 300
}

impl ProbeAnswer {
    /// The length that the answer gives for itself.
    pub open spec fn length(self) -> i64 {
        match self.content_length {
            Some(n) => n as i64,
            None => 0,
        }
    }

    /// The answer is the first byte of a file whose size it gives.
    pub open spec fn gives_range(self) -> bool {
        self.status == 206 && (content_range(self.content_range@) matches Some(r) && r.0 == 0
            && r.2 > 0)
    }

    /// The size of the file, as far as the answer gives it.
    pub open spec fn size(self) -> i64 {
        if self.status == 206 {
            match content_range(self.content_range@) {
                Some(r) => if r.0 == 0 && r.2 > 0 {
                    r.2
                } else if self.length() > 0 {
                    self.length()
                } else {
                    0
                },
                None => 0,
            }
        } else {
            self.length()
        }
    }

    /// The server rules ranges out.
    pub open spec fn refuses_ranges(self) -> bool {
        lower(self.accept_ranges@) == lower("none"@)
    }

    /// What the answer says about the file.
    pub fn interpret(&self) -> (r: Result<ProbeInfo, Error>)
        requires
            self.status == 206 ==> cuts_clean(trimmed(self.content_range@, Trim::Space)),
        ensures
            r is Ok <==> is_success(self.status),
            r matches Ok(info) ==> {
                &&& info.size == self.size()
                &&& info.range_ok == (self.gives_range() && !self.refuses_ranges())
                &&& info.etag@ == self.etag@
                &&& info.last_modified@ == self.last_modified@
                &&& info.file_name@ == disposition_name(self.content_disposition@)
            },
            r matches Err(e) ==> e@ == ErrorView::fatal(
                "probe"@,
                "服务器返回状态 "@ + decimal(self.status as nat),
            ),
    {
        let clen: i64 = match self.content_length {
            Some(n) => n as i64,
            None => 0,
        };
        let mut info = ProbeInfo {
            size: 0,
            range_ok: false,
            etag: self.etag.as_str().to_owned(),
            last_modified: self.last_modified.as_str().to_owned(),
            file_name: parse_filename(self.content_disposition.as_str()),
        };
        if self.status == 206 {
            if let Some((start, _, total)) = parse_content_range(self.content_range.as_str()) {
                if start == 0 && total > 0 {
                    info.range_ok = true;
                    info.size = total;
                } else if clen > 0 {
                    info.size = clen;
                }
            }
        } else if 200 <= self.status && self.status < 300 {
            info.size = clen;
        } else {
            return Err(fatal("probe", status_message(self.status)));
        }
        let none = chars_of("none");
        let ranges = chars_of(self.accept_ranges.as_str());
        if same_ignoring_case(ranges.as_slice(), none.as_slice()) {
            info.range_ok = false;
        }
        Ok(info)
    }
}

fn status_message(status: u16) -> (s: String)
    ensures
        s@ == "服务器返回状态 "@ + decimal(status as nat),
{
    let mut out: Vec<char> = Vec::new();
    push_text(&mut out, "服务器返回状态 ");
    push_decimal(&mut out, status as u64);
    assert(out@ =~= "服务器返回状态 "@ + decimal(status as nat));
    string_of(out.as_slice())
}

/// Why the answer to a range request is refused: `None` if it is a part of the file
/// that starts where it was asked to.
pub open spec fn range_trouble(status: u16, cr: Seq<char>, from: i64) -> Option<Seq<char>> {
    if status != 206 {
        Some(ERR_RANGE_MISMATCH@ + ": 期望 206，实际 "@ + decimal(status as nat))
    } else {
        match content_range(cr) {
            None => Some(ERR_RANGE_MISMATCH@ + ": Content-Range 缺失"@),
            Some(r) => if r.0 != from {
                Some(
                    ERR_RANGE_MISMATCH@ + ": 期望起点 "@ + signed_decimal(from as int)
                        + "，服务器给了 "@ + signed_decimal(r.0 as int),
                )
            } else {
                None
            },
        }
    }
}

/// Checks the answer to a range request: the status must be 206, and the range must
/// start where it was asked to.
pub fn check_range_response(status: u16, cr: &str, from: i64) -> (r: Result<(), Error>)
    requires
        status == 206 ==> cuts_clean(trimmed(cr@, Trim::Space)),
    ensures
        r is Ok <==> range_trouble(status, cr@, from) is None,
        r matches Err(e) ==> e@ == ErrorView::retryable(
            "range"@,
            range_trouble(status, cr@, from)->0,
        ),
        // only a part of the file counts, and every other answer may be asked for again
        status != 206 ==> r is Err,
        r matches Err(e) ==> e.kind == ErrorKind::Retryable,
{
    let mut out: Vec<char> = Vec::new();
    push_text(&mut out, ERR_RANGE_MISMATCH);
    if status != 206 {
        push_text(&mut out, ": 期望 206，实际 ");
        push_decimal(&mut out, status as u64);
        assert(out@ =~= range_trouble(status, cr@, from)->0);
        return Err(retryable("range", string_of(out.as_slice())));
    }
    match parse_content_range(cr) {
        None => {
            push_text(&mut out, ": Content-Range 缺失");
            assert(out@ =~= range_trouble(status, cr@, from)->0);
            Err(retryable("range", string_of(out.as_slice())))
        },
        Some((start, _, _)) => {
            if start != from {
                push_text(&mut out, ": 期望起点 ");
                push_signed_decimal(&mut out, from);
                push_text(&mut out, "，服务器给了 ");
                push_signed_decimal(&mut out, start);
                assert(out@ =~= range_trouble(status, cr@, from)->0);
                return Err(retryable("range", string_of(out.as_slice())));
            }
            Ok(())
        },
    }
}

/// Checks the answer to a request for the whole file.
pub fn check_plain_response(status: u16) -> (r: Result<(), Error>)
    ensures
        r is Ok <==> is_success(status),
        r matches Err(e) ==> e@ == ErrorView::retryable(
            "whole"@,
            "服务器返回状态 "@ + decimal(status as nat),
        ),
        status < 200 || status >= 300 ==> r is Err,
        r matches Err(e) ==> e.kind == ErrorKind::Retryable,
{
    if 200 <= status && status < 300 {
        Ok(())
    } else {
        Err(retryable("whole", status_message(status)))
    }
}

/// The answer of a server that sends what was asked for is accepted, and one that
/// starts elsewhere is not, whatever end and total it gives.
pub proof fn law_range_answers_are_told_apart(
    start: i64,
    end: i64,
    total: Option<i64>,
    from: i64,
)
    requires
        0 <= start,
    ensures
        ({
            let cr = "bytes "@ + signed_decimal(start as int) + "-"@ + signed_decimal(end as int)
                + "/"@ + total_text(total);
            range_trouble(206, cr, from) is None <==> start == from
        }),
{
    law_content_range_reads_back(start, end, total);
}

// ---------------------------------------------------------------- sources

/// How many addresses of a host are used side by side.
pub const MAX_IPS_PER_HOST: usize = 4;

/// A resolved address of a host.
#[derive(Debug, Clone, Copy, PartialEq, Eq, Structural)]
pub enum HostAddr {
    /// address and port
    V4(u32, u16),
    /// address, port, flow information and scope
    V6(u128, u16, u32, u32),
}

/// The addresses of one kind, in order.
pub open spec fn of_kind(addrs: Seq<HostAddr>, v6: bool) -> Seq<HostAddr>
    decreases addrs.len(),
{
    if addrs.len() == 0 {
        Seq::empty()
    } else if (addrs.last() is V6) == v6 {
        of_kind(addrs.drop_last(), v6).push(addrs.last())
    } else {
        of_kind(addrs.drop_last(), v6)
    }
}

/// A sequence without the items that equal the one before them.
pub open spec fn without_repeats(addrs: Seq<HostAddr>) -> Seq<HostAddr>
    decreases addrs.len(),
{
    if addrs.len() == 0 {
        Seq::empty()
    } else if addrs.len() > 1 && addrs[addrs.len() - 2] == addrs.last() {
        without_repeats(addrs.drop_last())
    } else {
        without_repeats(addrs.drop_last()).push(addrs.last())
    }
}

/// The addresses to use: the old kind first, no address twice in a row, and not more
/// than `MAX_IPS_PER_HOST`.
pub open spec fn chosen(addrs: Seq<HostAddr>) -> Seq<HostAddr> {
    let all = without_repeats(of_kind(addrs, false) + of_kind(addrs, true));
    all.take(min_int(all.len() as int, MAX_IPS_PER_HOST as int))
}

fn push_kind(out: &mut Vec<HostAddr>, addrs: &[HostAddr], v6: bool)
    ensures
        final(out)@ == old(out)@ + of_kind(addrs@, v6),
{
    let ghost before = out@;
    let mut i: usize = 0;
    while i < addrs.len()
        invariant
            i <= addrs@.len(),
            out@ =~= before + of_kind(addrs@.take(i as int), v6),
        decreases addrs@.len() - i,
    {
        let a = addrs[i];
        assert(addrs@.take(i + 1).drop_last() =~= addrs@.take(i as int));
        let is_v6 = match a {
            HostAddr::V4(..) => false,
            HostAddr::V6(..) => true,
        };
        if is_v6 == v6 {
            out.push(a);
        }
        i = i + 1;
    }
    assert(addrs@.take(addrs@.len() as int) =~= addrs@);
}

/// Chooses the addresses to use.
pub fn choose_addresses(addrs: &[HostAddr]) -> (v: Vec<HostAddr>)
    ensures
        v@ == chosen(addrs@),
{
    let mut all: Vec<HostAddr> = Vec::new();
    push_kind(&mut all, addrs, false);
    push_kind(&mut all, addrs, true);
    assert(all@ =~= of_kind(addrs@, false) + of_kind(addrs@, true));
    let mut v: Vec<HostAddr> = Vec::new();
    let mut i: usize = 0;
    while i < all.len()
        invariant
            i <= all@.len(),
            v@ == without_repeats(all@.take(i as int)),
        decreases all@.len() - i,
    {
        assert(all@.take(i + 1).drop_last() =~= all@.take(i as int));
        assert(all@.take(i + 1).last() == all@[i as int]);
        if i > 0 {
            assert(all@.take(i + 1)[i - 1] == all@[i - 1]);
        }
        if !(i > 0 && all[i - 1] == all[i]) {
            v.push(all[i]);
        }
        i = i + 1;
    }
    assert(all@.take(all@.len() as int) =~= all@);
    if v.len() > MAX_IPS_PER_HOST {
        v.truncate(MAX_IPS_PER_HOST);
    }
    assert(v@ =~= chosen(addrs@));
    v
}

/// How an address is reached.
#[derive(Debug)]
pub enum SourcePlan {
    /// by one connection pool, wherever the name leads
    Single,
    /// by one pool for each of the addresses of the host
    Pinned { host: String, addrs: Vec<HostAddr> },
}

/// The host whose addresses are to be looked up: only where several addresses are
/// wanted, and the address has a host.
pub fn host_to_resolve(url: &str, use_multi_ip: bool) -> (r: Option<String>)
    ensures
        r is Some <==> use_multi_ip && url_host(url@) is Some,
        r matches Some(host) ==> url_host(url@) == Some(host@),
{
    if use_multi_ip {
        host_of(url)
    } else {
        None
    }
}

/// Plans the sources of an address. `resolved` is the host that was looked up, with
/// what was found.
pub fn source_plan(resolved: Option<(String, Vec<HostAddr>)>) -> (plan: SourcePlan)
    ensures
        match plan {
            SourcePlan::Single => resolved matches Some((_, found)) ==> chosen(found@).len() <= 1,
            SourcePlan::Pinned { host, addrs } => resolved matches Some((name, found)) && host@
                == name@ && addrs@ == chosen(found@) && addrs@.len() > 1,
        },
{
    if let Some((host, found)) = resolved {
        let addrs = choose_addresses(found.as_slice());
        if addrs.len() > 1 {
            return SourcePlan::Pinned { host, addrs };
        }
    }
    SourcePlan::Single
}

/// Whether a mirror is worth a look: an empty one is passed over.
pub fn mirror_is_given(mirror: &str) -> (b: bool)
    ensures
        b == (trimmed(mirror@, Trim::Space).len() > 0),
{
    let chars = chars_of(mirror);
    trim(chars.as_slice(), Trim::Space).len() > 0
}

/// Whether a mirror is taken in: it answered, and has the same file.
pub fn adopts_mirror(info: &ProbeInfo, probed: &Result<ProbeInfo, Error>) -> (b: bool)
    ensures
        b == (probed matches Ok(other) && is_same_file(*info, *other)),
{
    match probed {
        Ok(other) => same_file(info, other),
        Err(_) => false,
    }
}

/// The sources of a download, and whose turn it is.
#[derive(Debug)]
pub struct SourcePool<S> {
    pub sources: Vec<S>,
    pub next: usize,
}

/// The source whose turn it is.
pub open spec fn turn(next: int, count: int) -> int {
    next % max_int(count, 1)
}

impl<S> SourcePool<S> {
    pub fn new(sources: Vec<S>) -> (p: Self)
        ensures
            p.sources@ == sources@,
            p.next == 0,
    {
        SourcePool { sources, next: 0 }
    }

    pub fn source_count(&self) -> (n: usize)
        ensures
            n == self.sources@.len(),
    {
        self.sources.len()
    }

    /// The source with the given number, counted round.
    pub fn source(&self, idx: usize) -> (s: &S)
        requires
            self.sources@.len() > 0,
        ensures
            *s == self.sources@[turn(idx as int, self.sources@.len() as int)],
    {
        let n: usize = self.sources.len();
        &self.sources[idx % n]
    }

    /// Adds the sources of a mirror.
    pub fn add_mirror(&mut self, mut more: Vec<S>)
        ensures
            final(self).sources@ == old(self).sources@ + more@,
            final(self).next == old(self).next,
    {
        self.sources.append(&mut more);
    }

    /// Takes the sources in turn: returns the number of the next one.
    pub fn pick(&mut self) -> (idx: usize)
        ensures
            idx == turn(old(self).next as int, old(self).sources@.len() as int),
            old(self).sources@.len() > 0 ==> idx < old(self).sources@.len(),
            final(self).next == old(self).next.wrapping_add(1),
            final(self).sources@ == old(self).sources@,
    {
        let len: usize = self.sources.len();
        let n: usize = if len >= 1 { len } else { 1 };
        let idx: usize = self.next % n;
        self.next = self.next.wrapping_add(1);
        idx
    }
}

/// Every source gets its turn: within as many picks as there are sources, each one is
/// picked.
pub proof fn law_every_source_gets_its_turn(next: int, count: int, j: int) -> (k: int)
    requires
        0 <= next,
        0 <= j < count,
    ensures
        0 <= k < count,
        turn(next + k, count) == j,
{
    let at = next % count;
    let k = if j >= at {
        j - at
    } else {
        j - at + count
    };
    let q = next / count;
    assert(next == q * count + at) by (nonlinear_arith)
        requires
            at == next % count,
            q == next / count,
            count > 0,
    ;
    if j >= at {
        assert((q * count + j) % count == j) by (nonlinear_arith)
            requires
                0 <= j < count,
        ;
    } else {
        assert(((q + 1) * count + j) % count == j) by (nonlinear_arith)
            requires
                0 <= j < count,
        ;
        assert((q + 1) * count == q * count + count) by (nonlinear_arith);
    }
    k
}

// ---------------------------------------------------------------- connections

/// How the connections of a client are set up.
#[derive(Debug, Clone, Copy)]
pub struct ClientOptions {
    pub connect_timeout: Span,
    /// without data for this long, a read fails
    pub read_timeout: Span,
    pub max_redirects: usize,
    pub max_idle_per_host: usize,
}

/// The options that follow from the parameters.
pub fn client_options(cfg: &Config) -> (o: ClientOptions)
    ensures
        o.connect_timeout == Span::secs(30),
        o.read_timeout == cfg.idle_timeout,
        o.max_redirects == 10,
        o.max_idle_per_host == max_int(cfg.max_threads as int, 1),
{
    ClientOptions {
        connect_timeout: Span::from_secs(30),
        read_timeout: cfg.idle_timeout,
        max_redirects: 10,
        max_idle_per_host: if cfg.max_threads >= 1 { cfg.max_threads } else { 1 },
    }
}

// ---------------------------------------------------------------- laws

/// Two sources have the same file exactly when nothing that they say of it differs: not
/// the size, not the support of ranges, and not the tag.
pub proof fn law_same_file_agrees_in_everything(a: ProbeInfo, b: ProbeInfo)
    ensures
        a.size != b.size ==> !is_same_file(a, b),
        a.range_ok != b.range_ok ==> !is_same_file(a, b),
        a.etag@ != b.etag@ ==> !is_same_file(a, b),
        a.size == b.size && a.range_ok == b.range_ok && a.etag@ == b.etag@ ==> is_same_file(a, b),
{
}

/// The value of a Range header is the unit, an equals sign, the first byte, a dash and the
/// last byte.
pub proof fn law_range_value_names_both_ends(from: i64, to: i64)
    requires
        0 <= from,
        0 <= to,
    ensures
        range_value(from as int, to as int) == seq!['b', 'y', 't', 'e', 's', '='] + decimal(
            from as nat,
        ) + seq!['-'] + decimal(to as nat),
{
    reveal_strlit("bytes=");
    reveal_strlit("-");
    assert("bytes="@ =~= seq!['b', 'y', 't', 'e', 's', '=']);
    assert("-"@ =~= seq!['-']);
}

/// Every request refuses compression and names the client; then come all headers of the
/// host, in the host's order, whatever is asked for; and a range adds exactly one more
/// header, at the end.
pub proof fn law_every_header_of_the_host_is_sent(
    user_agent: Seq<char>,
    extra: Seq<(Seq<char>, Seq<char>)>,
    range: Option<(i64, i64)>,
)
    ensures
        ({
            let sent = request_texts(user_agent, extra, range);
            &&& sent.len() == 2 + extra.len() + (if range is Some {
                1int
            } else {
                0
            })
            &&& sent[0] == ("Accept-Encoding"@, "identity"@)
            &&& sent[1] == ("User-Agent"@, user_agent)
            &&& forall|i: int| 0 <= i < extra.len() ==> sent[2 + i] == #[trigger] extra[i]
            &&& range matches Some((from, to)) ==> sent.last() == (
                "Range"@,
                "bytes="@ + signed_decimal(from as int) + "-"@ + signed_decimal(to as int),
            )
            &&& request_texts(user_agent, extra, None) == sent.take(2 + extra.len() as int)
        }),
{
    let sent = request_texts(user_agent, extra, range);
    assert(request_texts(user_agent, extra, None) =~= sent.take(2 + extra.len() as int));
}

/// Headers keep their names and values, one by one.
pub proof fn law_headers_are_taken_over(v: Seq<(String, String)>, i: int)
    requires
        0 <= i < v.len(),
    ensures
        header_texts(v).len() == v.len(),
        header_texts(v)[i].0 == v[i].0@,
        header_texts(v)[i].1 == v[i].1@,
{
}

/// Success is a status from 200 to 299.
pub proof fn law_success(status: u16)
    ensures
        is_success(status) <==> status as int / 100 == 2,
{
}

/// An answer to a range request is accepted exactly when its status is 206 and its
/// Content-Range can be read and starts where it was asked to. Every other status is
/// refused, whatever stands in the Content-Range.
pub proof fn law_only_the_range_asked_for_is_accepted(status: u16, cr: Seq<char>, from: i64)
    ensures
        status != 206 ==> range_trouble(status, cr, from) is Some,
        content_range(cr) is None ==> range_trouble(status, cr, from) is Some,
        range_trouble(status, cr, from) is None <==> status == 206 && (content_range(
            cr,
        ) matches Some((start, _, _)) && start == from),
        ErrorView::retryable("range"@, range_trouble(status, cr, from)->0).kind
            == ErrorKind::Retryable,
{
}

/// An answer that gives the first byte of a file of `n` bytes is understood to say that
/// the file has `n` bytes, whatever end it gives, and that ranges are served, unless the
/// server rules them out.
pub proof fn law_probe_finds_the_size(a: ProbeAnswer, e: i64, n: i64)
    requires
        n > 0,
        a.status == 206,
        a.content_range@ == "bytes "@ + "0"@ + "-"@ + signed_decimal(e as int) + "/"@
            + signed_decimal(n as int),
    ensures
        is_success(a.status),
        a.size() == n,
        a.gives_range(),
{
    reveal_strlit("0");
    assert(signed_decimal(0) =~= "0"@);
    law_content_range_reads_back(0, e, Some(n));
}

/// An answer with the whole file says how long that is, and that ranges are not served.
pub proof fn law_probe_takes_the_length(a: ProbeAnswer, n: u64)
    requires
        200 <= a.status < 300,
        a.status != 206,
        n <= i64::MAX,
    ensures
        is_success(a.status),
        !a.gives_range(),
        a.content_length == Some(n) ==> a.size() == n,
        a.content_length is None ==> a.size() == 0,
{
}

/// An answer with a part that does not start the file, or whose total is not known, gives
/// no ranges; the size is then what the answer is long, if it says so.
pub proof fn law_other_parts_give_no_ranges(a: ProbeAnswer, s: i64, e: i64, total: Option<i64>)
    requires
        0 <= s,
        a.status == 206,
        a.content_range@ == "bytes "@ + signed_decimal(s as int) + "-"@ + signed_decimal(e as int)
            + "/"@ + total_text(total),
        s > 0 || !(total matches Some(n) && n > 0),
    ensures
        !a.gives_range(),
        a.content_length matches Some(n) ==> n <= i64::MAX ==> a.size() == n,
        a.content_length is None ==> a.size() == 0,
{
    law_content_range_reads_back(s, e, total);
}

/// An answer of status 206 without a Content-Range that can be read gives neither a size
/// nor ranges.
pub proof fn law_unreadable_part_gives_nothing(a: ProbeAnswer)
    requires
        a.status == 206,
        content_range(a.content_range@) is None,
    ensures
        !a.gives_range(),
        a.size() == 0,
{
}

/// The server rules ranges out with the word "none", in capitals or not, and with nothing
/// else.
pub proof fn law_ranges_are_ruled_out(a: ProbeAnswer)
    ensures
        a.accept_ranges@ == "none"@ || a.accept_ranges@ == "None"@ || a.accept_ranges@ == "NONE"@
            ==> a.refuses_ranges(),
        a.accept_ranges@.len() != 4 ==> !a.refuses_ranges(),
        a.accept_ranges@ == "bytes"@ ==> !a.refuses_ranges(),
        a.refuses_ranges() ==> forall|i: int|
            0 <= i < 4 ==> #[trigger] lower(a.accept_ranges@)[i] == seq!['n', 'o', 'n', 'e'][i],
{
    reveal_strlit("none");
    reveal_strlit("None");
    reveal_strlit("NONE");
    reveal_strlit("bytes");
    assert(lower("none"@) =~= seq!['n', 'o', 'n', 'e']);
    assert(lower("None"@) =~= seq!['n', 'o', 'n', 'e']);
    assert(lower("NONE"@) =~= seq!['n', 'o', 'n', 'e']);
    assert(lower(a.accept_ranges@).len() == a.accept_ranges@.len());
}

/// The sources are taken one after the other, and after the last one the first again.
pub proof fn law_sources_go_round(next: int, count: int)
    requires
        0 <= next,
        0 < count,
    ensures
        0 <= turn(next, count) < count,
        turn(0, count) == 0,
        turn(next, count) < count - 1 ==> turn(next + 1, count) == turn(next, count) + 1,
        turn(next, count) == count - 1 ==> turn(next + 1, count) == 0,
        turn(next, 0) == 0,
{
    let (q, at) = (next / count, next % count);
    assert(next == q * count + at && 0 <= at < count) by (nonlinear_arith)
        requires
            at == next % count,
            q == next / count,
            count > 0,
    ;
    if at < count - 1 {
        assert((q * count + (at + 1)) % count == at + 1) by (nonlinear_arith)
            requires
                0 <= at + 1 < count,
        ;
    } else {
        assert(((q + 1) * count + 0) % count == 0) by (nonlinear_arith)
            requires
                count > 0,
        ;
        assert((q + 1) * count == q * count + count) by (nonlinear_arith);
    }
    assert(0int % count == 0) by (nonlinear_arith)
        requires
            count > 0,
    ;
}

/// The addresses of one kind are those of the list, each as often as there and in its
/// order, and no others.
proof fn lemma_of_kind(addrs: Seq<HostAddr>, v6: bool)
    ensures
        of_kind(addrs, v6).len() <= addrs.len(),
        forall|i: int|
            0 <= i < of_kind(addrs, v6).len() ==> ((#[trigger] of_kind(addrs, v6)[i]) is V6) == v6
                && addrs.contains(of_kind(addrs, v6)[i]),
        forall|i: int|
            0 <= i < addrs.len() && ((#[trigger] addrs[i]) is V6) == v6 ==> of_kind(
                addrs,
                v6,
            ).contains(addrs[i]),
    decreases addrs.len(),
{
    if addrs.len() > 0 {
        let front = addrs.drop_last();
        let last = addrs.len() - 1;
        lemma_of_kind(front, v6);
        let (all, some) = (of_kind(addrs, v6), of_kind(front, v6));
        assert forall|i: int| 0 <= i < all.len() implies ((#[trigger] all[i]) is V6) == v6
            && addrs.contains(all[i]) by {
            if i < some.len() {
                assert(some[i] == all[i]);
                assert(front.contains(some[i]));
                let k = choose|k: int| 0 <= k < front.len() && front[k] == some[i];
                assert(addrs[k] == all[i]);
            } else {
                assert(addrs[last] == all[i]);
            }
        }
        assert forall|i: int|
            0 <= i < addrs.len() && ((#[trigger] addrs[i]) is V6) == v6 implies all.contains(
            addrs[i],
        ) by {
            if i < last {
                assert(front[i] == addrs[i]);
                assert(some.contains(front[i]));
                let k = choose|k: int| 0 <= k < some.len() && some[k] == front[i];
                assert(all[k] == addrs[i]);
            } else {
                assert(all[all.len() - 1] == addrs[i]);
            }
        }
    }
}

/// Taking repeats out loses no item and leaves no two equal ones side by side.
proof fn lemma_without_repeats(addrs: Seq<HostAddr>)
    ensures
        without_repeats(addrs).len() <= addrs.len(),
        addrs.len() > 0 ==> without_repeats(addrs).len() > 0 && without_repeats(addrs).last()
            == addrs.last(),
        forall|i: int|
            0 <= i < addrs.len() ==> without_repeats(addrs).contains(#[trigger] addrs[i]),
        forall|i: int|
            0 <= i < without_repeats(addrs).len() ==> addrs.contains(
                #[trigger] without_repeats(addrs)[i],
            ),
        forall|i: int, j: int|
            0 <= i && j == i + 1 && j < without_repeats(addrs).len() ==> (
            #[trigger] without_repeats(addrs)[i]) != (#[trigger] without_repeats(addrs)[j]),
    decreases addrs.len(),
{
    if addrs.len() > 0 {
        let front = addrs.drop_last();
        let last = addrs.len() - 1;
        lemma_without_repeats(front);
        let (all, some) = (without_repeats(addrs), without_repeats(front));
        assert forall|i: int| 0 <= i < addrs.len() implies all.contains(#[trigger] addrs[i]) by {
            if i < last {
                assert(front[i] == addrs[i]);
                assert(some.contains(front[i]));
                let k = choose|k: int| 0 <= k < some.len() && some[k] == front[i];
                assert(all[k] == addrs[i]);
            } else {
                assert(all[all.len() - 1] == addrs[last]);
            }
        }
        assert forall|i: int| 0 <= i < all.len() implies addrs.contains(#[trigger] all[i]) by {
            if i < some.len() {
                assert(some[i] == all[i]);
                assert(front.contains(some[i]));
                let k = choose|k: int| 0 <= k < front.len() && front[k] == some[i];
                assert(addrs[k] == all[i]);
            } else {
                assert(addrs[last] == all[i]);
            }
        }
        assert forall|i: int, j: int| 0 <= i && j == i + 1 && j < all.len() implies (
        #[trigger] all[i]) != (#[trigger] all[j]) by {
            if j < some.len() {
                assert(some[i] == all[i] && some[j] == all[j]);
            } else {
                assert(all.len() == some.len() + 1);
                assert(all[i] == some.last());
            }
        }
    }
}

/// The addresses that are used come from the list; there are at most four, those of the
/// old kind come first, no two in a row are equal, and where fewer than four are used,
/// every address of the list is among them.
pub proof fn law_chosen_addresses(addrs: Seq<HostAddr>)
    ensures
        chosen(addrs).len() <= 4,
        forall|i: int|
            0 <= i < chosen(addrs).len() ==> addrs.contains(#[trigger] chosen(addrs)[i]),
        forall|i: int, j: int|
            0 <= i < j < chosen(addrs).len() && (#[trigger] chosen(addrs)[i]) is V6 ==> (
            #[trigger] chosen(addrs)[j]) is V6,
        forall|i: int, j: int|
            0 <= i && j == i + 1 && j < chosen(addrs).len() ==> (#[trigger] chosen(addrs)[i]) != (
            #[trigger] chosen(addrs)[j]),
        chosen(addrs).len() < 4 ==> forall|i: int|
            0 <= i < addrs.len() ==> chosen(addrs).contains(#[trigger] addrs[i]),
        addrs.len() > 0 ==> chosen(addrs).len() > 0,
{
    let (v4, v6) = (of_kind(addrs, false), of_kind(addrs, true));
    let both = v4 + v6;
    let all = without_repeats(both);
    let c = chosen(addrs);
    lemma_of_kind(addrs, false);
    lemma_of_kind(addrs, true);
    lemma_without_repeats(both);
    lemma_kinds_in_order(v4, v6);
    assert forall|i: int| 0 <= i < c.len() implies addrs.contains(#[trigger] c[i]) by {
        assert(c[i] == all[i]);
        assert(both.contains(all[i]));
        let k = choose|k: int| 0 <= k < both.len() && both[k] == all[i];
        if k < v4.len() {
            assert(v4[k] == both[k]);
        } else {
            assert(v6[k - v4.len()] == both[k]);
        }
    }
    assert forall|i: int, j: int| 0 <= i < j < c.len() && (#[trigger] c[i]) is V6 implies (
    #[trigger] c[j]) is V6 by {
        assert(c[i] == all[i] && c[j] == all[j]);
    }
    assert forall|i: int, j: int| 0 <= i && j == i + 1 && j < c.len() implies (#[trigger] c[i])
        != (#[trigger] c[j]) by {
        assert(c[i] == all[i] && c[j] == all[j]);
    }
    if addrs.len() > 0 {
        let a = addrs[0];
        if a is V6 {
            assert(v6.contains(a));
        } else {
            assert(v4.contains(a));
        }
        assert(both.len() > 0);
    }
    if c.len() < 4 {
        assert(c =~= all);
        assert forall|i: int| 0 <= i < addrs.len() implies c.contains(#[trigger] addrs[i]) by {
            let a = addrs[i];
            if a is V6 {
                assert(v6.contains(a));
                let k = choose|k: int| 0 <= k < v6.len() && v6[k] == a;
                assert(both[v4.len() + k] == a);
            } else {
                assert(v4.contains(a));
                let k = choose|k: int| 0 <= k < v4.len() && v4[k] == a;
                assert(both[k] == a);
            }
            assert(all.contains(a));
        }
    }
}

/// Where the items of one kind stand before those of the other, that stays so when
/// repeats are taken out.
proof fn lemma_kinds_in_order(v4: Seq<HostAddr>, v6: Seq<HostAddr>)
    requires
        forall|i: int| 0 <= i < v4.len() ==> !((#[trigger] v4[i]) is V6),
        forall|i: int| 0 <= i < v6.len() ==> (#[trigger] v6[i]) is V6,
    ensures
        forall|i: int, j: int|
            0 <= i < j < without_repeats(v4 + v6).len() && (#[trigger] without_repeats(
                v4 + v6,
            )[i]) is V6 ==> (#[trigger] without_repeats(v4 + v6)[j]) is V6,
    decreases v6.len(),
{
    let both = v4 + v6;
    let all = without_repeats(both);
    lemma_without_repeats(both);
    if v6.len() == 0 {
        assert(both =~= v4);
        assert forall|i: int| 0 <= i < all.len() implies !((#[trigger] all[i]) is V6) by {
            assert(both.contains(all[i]));
            let k = choose|k: int| 0 <= k < both.len() && both[k] == all[i];
            assert(v4[k] == all[i]);
        }
    } else {
        let w6 = v6.drop_last();
        assert(both.drop_last() =~= v4 + w6);
        assert forall|i: int| 0 <= i < w6.len() implies (#[trigger] w6[i]) is V6 by {
            assert(w6[i] == v6[i]);
        }
        lemma_kinds_in_order(v4, w6);
        assert(both.last() == v6[v6.len() - 1]);
        let some = without_repeats(v4 + w6);
        assert forall|i: int, j: int| 0 <= i < j < all.len() && (#[trigger] all[i]) is V6 implies (
        #[trigger] all[j]) is V6 by {
            if j < some.len() {
                assert(some[i] == all[i] && some[j] == all[j]);
            }
        }
    }
}

proof fn lemma_of_kind_adds(a: Seq<HostAddr>, b: Seq<HostAddr>, v6: bool)
    ensures
        of_kind(a + b, v6) == of_kind(a, v6) + of_kind(b, v6),
    decreases b.len(),
{
    if b.len() == 0 {
        assert(a + b =~= a);
        assert(of_kind(a, v6) + of_kind(b, v6) =~= of_kind(a, v6));
    } else {
        assert((a + b).drop_last() =~= a + b.drop_last());
        lemma_of_kind_adds(a, b.drop_last(), v6);
        assert(of_kind(a + b, v6) =~= of_kind(a, v6) + of_kind(b, v6));
    }
}

proof fn lemma_all_of_kind(a: Seq<HostAddr>, v6: bool)
    requires
        forall|i: int| 0 <= i < a.len() ==> ((#[trigger] a[i]) is V6) == v6,
    ensures
        of_kind(a, v6) == a,
        of_kind(a, !v6) == Seq::<HostAddr>::empty(),
    decreases a.len(),
{
    if a.len() > 0 {
        let front = a.drop_last();
        assert forall|i: int| 0 <= i < front.len() implies ((#[trigger] front[i]) is V6) == v6 by {
            assert(front[i] == a[i]);
        }
        lemma_all_of_kind(front, v6);
        assert((a[a.len() - 1] is V6) == v6);
        assert(front.push(a.last()) =~= a);
    } else {
        assert(of_kind(a, v6) =~= a);
    }
}

proof fn lemma_nothing_repeats(a: Seq<HostAddr>)
    requires
        forall|i: int, j: int|
            0 <= i && j == i + 1 && j < a.len() ==> (#[trigger] a[i]) != (#[trigger] a[j]),
    ensures
        without_repeats(a) == a,
    decreases a.len(),
{
    if a.len() > 0 {
        let front = a.drop_last();
        assert forall|i: int, j: int| 0 <= i && j == i + 1 && j < front.len() implies (
        #[trigger] front[i]) != (#[trigger] front[j]) by {
            assert(front[i] == a[i] && front[j] == a[j]);
        }
        lemma_nothing_repeats(front);
        assert(front.push(a.last()) =~= a);
    } else {
        assert(without_repeats(a) =~= a);
    }
}

/// The order of the list is kept: of addresses of the old kind followed by those of the
/// new kind, no two neighbours equal, the first four are used; and an address of the old
/// kind counts as if it stood before one of the new kind.
pub proof fn law_chosen_addresses_keep_their_order(
    x: Seq<HostAddr>,
    y: Seq<HostAddr>,
    a: HostAddr,
    b: HostAddr,
)
    ensures
        (forall|i: int| 0 <= i < x.len() ==> !((#[trigger] x[i]) is V6)) && (forall|i: int|
            0 <= i < y.len() ==> (#[trigger] y[i]) is V6) && (forall|i: int, j: int|
            0 <= i && j == i + 1 && j < (x + y).len() ==> (#[trigger] (x + y)[i]) != (
            #[trigger] (x + y)[j])) ==> chosen(x + y) == (if (x + y).len() < 4 {
            x + y
        } else {
            (x + y).take(4)
        }),
        a is V6 && !(b is V6) ==> chosen(x.push(a).push(b) + y) == chosen(x.push(b).push(a) + y),
{
    if (forall|i: int| 0 <= i < x.len() ==> !((#[trigger] x[i]) is V6)) && (forall|i: int|
        0 <= i < y.len() ==> (#[trigger] y[i]) is V6) && (forall|i: int, j: int|
        0 <= i && j == i + 1 && j < (x + y).len() ==> (#[trigger] (x + y)[i]) != (
        #[trigger] (x + y)[j])) {
        lemma_of_kind_adds(x, y, false);
        lemma_of_kind_adds(x, y, true);
        lemma_all_of_kind(x, false);
        lemma_all_of_kind(y, true);
        assert(of_kind(x + y, false) =~= x);
        assert(of_kind(x + y, true) =~= y);
        lemma_nothing_repeats(x + y);
        if (x + y).len() < 4 {
            assert((x + y).take((x + y).len() as int) =~= x + y);
        }
    }
    if a is V6 && !(b is V6) {
        reveal_with_fuel(of_kind, 3);
        let (p, q) = (x.push(a).push(b), x.push(b).push(a));
        assert(p.drop_last() =~= x.push(a) && q.drop_last() =~= x.push(b));
        assert(x.push(a).drop_last() =~= x && x.push(b).drop_last() =~= x);
        assert(of_kind(p, false) =~= of_kind(q, false));
        assert(of_kind(p, true) =~= of_kind(q, true));
        lemma_of_kind_adds(p, y, false);
        lemma_of_kind_adds(p, y, true);
        lemma_of_kind_adds(q, y, false);
        lemma_of_kind_adds(q, y, true);
    }
}

/// A refused answer to a range request tells why: which status came, or that the
/// Content-Range is missing, or where the range was to start and where it does.
pub proof fn law_refused_ranges_are_explained(status: u16, cr: Seq<char>, from: i64)
    ensures
        status != 206 ==> range_trouble(status, cr, from) == Some(
            "服务器返回的分段与请求不一致"@ + ": 期望 206，实际 "@ + decimal(
                status as nat,
            ),
        ),
        status == 206 && content_range(cr) is None ==> range_trouble(status, cr, from) == Some(
            "服务器返回的分段与请求不一致"@ + ": Content-Range 缺失"@,
        ),
        status == 206 ==> (content_range(cr) matches Some((start, _, _)) ==> start != from
            ==> range_trouble(status, cr, from) == Some(
            "服务器返回的分段与请求不一致"@ + ": 期望起点 "@ + signed_decimal(
                from as int,
            ) + "，服务器给了 "@ + signed_decimal(start as int),
        )),
{
}

} // verus!
