//! What the calls of the library come to: for each operation, how what it returns or
//! changes follows from what it was given.
use vstd::prelude::*;
use vstd::utf8::encode_utf8;

use crate::assemble::{
    assembly_plan, law_empty_pieces_are_left_out, law_pieces_are_sorted, law_piece_of_a_part,
    nonempty_pieces, parts_for_assemble, pieces, Assembly, PieceCopy, WriteAt,
};
use crate::cabi::{
    collect_headers, config_from, default_settings, ending_to_c, given_headers, given_text,
    law_complete_headers_are_kept, law_numbers_of_the_c_interface, law_sensible_settings_are_taken,
    level_to_c, status_to_c, Ending, Settings,
};
use crate::cli::{
    direct_address, is_selftest, law_numbers_or_defaults, server_arguments, typed_address,
    Ticker,
};
use crate::client::{
    adopts_mirror, check_plain_response, check_range_response, choose_addresses, client_options,
    header_texts, host_to_resolve, law_chosen_addresses, law_every_header_of_the_host_is_sent,
    law_only_the_range_asked_for_is_accepted, law_probe_finds_the_size,
    law_range_value_names_both_ends, mirror_is_given, probe_headers, range_header, request_headers,
    same_file, source_plan, ClientOptions, HostAddr, ProbeAnswer, ProbeInfo, SourcePlan,
    SourcePool,
};
use crate::clock::{
    civil_from_days, day_number, fmt_stamp, fmt_utc, is_date, law_moments_are_written, log_line,
};
use crate::config::Config;
use crate::engine::{
    check_request, choose_target, conclude, known_size, last_progress, law_workers_grow,
    marker_path, name_wanted, needs_single_stream, note_write, parts_result, round, whole_result,
    worker_threads, Controller, Meter, Round, RunEvent, Stage, Target,
};
use crate::errors::{fatal, law_errors_say_what_happened, retryable, Error, ErrorKind};
use crate::number::{
    decimal, integer, law_hex_is_positional, padded_decimal, signed_decimal,
};
use crate::part::{law_safe_zone_moves_by_steps, Part};
use crate::pump::{law_pump_decides, Chunk, Pump, PumpStep, RateTest};
use crate::serve::{
    answer, law_pattern_of_the_file, law_range_request_is_understood, parse_range, pattern, Answer,
};
use crate::session::{
    fit_for, law_jobs_are_handed_out_in_order, law_session_starts_with_what_is_open, Session,
    Verdict,
};
use crate::split::{law_even_split_covers, law_number_of_ranges, split_to_range};
use crate::store::{
    fresh, fresh_parts, law_fresh_parts_tile, law_number_of_fresh_parts,
    law_record_keeps_every_part, law_record_without_its_files_is_not_used,
    law_recorded_parts_go_on, law_usable_files_hold_what_was_read, part_files_usable,
    prepare_parts, restore, resume_matches, snapshot, PartState, Prepared, ResumeState,
};
use crate::text::{lower, trimmed, Trim};
use crate::tiling::tiles;
use crate::types::{DownloadResult, Progress, Status};
use crate::url::{url_host, url_segments};
use crate::util::{
    clean_name, content_range, filename_from_url, fnv1a, job_key,
    law_clean_name_keeps_what_is_allowed, law_content_range_reads_back,
    law_last_component_names_the_file, law_plain_name_is_cleaned,
    name_of_component, pad_from, parse_content_range, parse_filename, percent_decode,
    sanitize_component, sanitize_name,
};
use crate::worker::{
    file_length, part_attempt, whole_next, whole_received, AfterAttempt, ConnectStep, Reconnect,
    Retry, RetryStep, WholeStep,
};

verus! {

// ---------------------------------------------------------------- resuming

/// Temporary files are found usable exactly if every part that has read something has a
/// file at least as long as that.
pub proof fn law_looking_at_files(states: &[PartState], lens: &[Option<i64>], b: bool)
    requires
        call_ensures(part_files_usable, (states, lens), b),
    ensures
        b <==> forall|i: int|
            0 <= i < states@.len() ==> {
                let ps = #[trigger] states@[i];
                let end = if ps.current > ps.to {
                    ps.to + 1
                } else {
                    ps.current as int
                };
                end <= ps.from || (lens@[i] matches Some(n) && n >= end - ps.from)
            },
{
    law_usable_files_hold_what_was_read(states@, lens@);
}

/// A record is found to belong to a download exactly if nothing in it differs.
pub proof fn law_looking_at_a_record(st: &ResumeState, url: &str, info: &ProbeInfo, b: bool)
    requires
        call_ensures(resume_matches, (st, url, info), b),
    ensures
        b <==> st.version == 1 && st.url@ == url@ && st.total == info.size && st.etag@
            == info.etag@ && st.last_modified@ == info.last_modified@ && st.parts@.len() > 0,
{
}

/// A download goes on only from a record that belongs to it and whose files hold what was
/// read. Otherwise it starts afresh, with parts that tile the file and have read nothing.
pub proof fn law_preparing(
    saved: Option<&ResumeState>,
    lens: &[Option<i64>],
    url: &str,
    info: &ProbeInfo,
    min_part_size: i64,
    count: usize,
    r: Prepared,
    i: int,
)
    requires
        call_ensures(prepare_parts, (saved, lens, url, info, min_part_size, count), r),
        info.size > 0,
    ensures
        saved is None ==> !r.resumed && !r.stale,
        r.resumed ==> saved is Some && saved->0.url@ == url@ && saved->0.total == info.size
            && saved->0.etag@ == info.etag@ && saved->0.last_modified@ == info.last_modified@,
        r.resumed && 0 <= i < saved->0.parts@.len() ==> {
            let ps = saved->0.parts@[i];
            let end = if ps.current > ps.to {
                ps.to + 1
            } else {
                ps.current as int
            };
            end <= ps.from || (lens@[i] matches Some(n) && n >= end - ps.from)
        },
        !r.resumed ==> tiles(r.parts@, info.size as int) && forall|k: int|
            0 <= k < r.parts@.len() ==> (#[trigger] r.parts@[k]).current == r.parts@[k].from,
        r.parts@.len() > 0,
{
    if r.resumed && 0 <= i < saved->0.parts@.len() {
        law_record_without_its_files_is_not_used(
            *saved->0,
            lens@,
            url@,
            *info,
            min_part_size,
            count,
            i,
        );
    }
    if !r.resumed {
        law_fresh_parts_tile(info.size, min_part_size, count);
        assert forall|k: int| 0 <= k < r.parts@.len() implies (#[trigger] r.parts@[k]).current
            == r.parts@[k].from by {
            let anew = fresh(info.size as int, min_part_size as int, count as int);
            assert(fresh(info.size as int, min_part_size as int, count as int)[k]
                == r.parts@[k]);
        }
    }
}

/// A record holds what it was made of, and of every part its range and its position.
pub proof fn law_making_a_record(
    url: &str,
    total: i64,
    etag: &str,
    last_modified: &str,
    parts: &[Part],
    st: ResumeState,
    i: int,
)
    requires
        call_ensures(snapshot, (url, total, etag, last_modified, parts), st),
    ensures
        st.version == 1 && st.url@ == url@ && st.total == total,
        st.etag@ == etag@ && st.last_modified@ == last_modified@,
        st.parts@.len() == parts@.len(),
        0 <= i < parts@.len() ==> st.parts@[i].from == parts@[i].from && st.parts@[i].to
            == parts@[i].to && st.parts@[i].current == (if parts@[i].current > parts@[i].to {
            parts@[i].to + 1
        } else {
            parts@[i].current as int
        }),
{
    if 0 <= i < parts@.len() {
        law_record_keeps_every_part(parts@, i);
    }
}

// ---------------------------------------------------------------- asking a server

/// A range is asked for by its first and its last byte.
pub proof fn law_asking_for_a_range(from: i64, to: i64, s: String)
    requires
        call_ensures(range_header, (from, to), s),
        0 <= from,
        0 <= to,
    ensures
        s@ == seq!['b', 'y', 't', 'e', 's', '='] + decimal(from as nat) + seq!['-'] + decimal(
            to as nat,
        ),
{
    law_range_value_names_both_ends(from, to);
}

/// Every request carries, behind two headers of the client, all headers of the host in
/// their order, and at the end the range if there is one.
pub proof fn law_asking_with_headers(
    user_agent: &str,
    extra: &[(String, String)],
    range: Option<(i64, i64)>,
    v: Vec<(String, String)>,
    i: int,
)
    requires
        call_ensures(request_headers, (user_agent, extra, range), v),
    ensures
        v@.len() == 2 + extra@.len() + (if range is Some {
            1int
        } else {
            0
        }),
        v@[0].0@ == "Accept-Encoding"@ && v@[0].1@ == "identity"@,
        v@[1].0@ == "User-Agent"@ && v@[1].1@ == user_agent@,
        0 <= i < extra@.len() ==> v@[2 + i].0@ == extra@[i].0@ && v@[2 + i].1@ == extra@[i].1@,
        range matches Some((from, to)) ==> v@.last().0@ == "Range"@ && v@.last().1@ == "bytes="@
            + signed_decimal(from as int) + "-"@ + signed_decimal(to as int),
{
    let (sent, given) = (header_texts(v@), header_texts(extra@));
    law_every_header_of_the_host_is_sent(user_agent@, given, range);
    assert(sent.len() == v@.len() && given.len() == extra@.len());
    assert(sent[0] == (v@[0].0@, v@[0].1@));
    assert(sent[1] == (v@[1].0@, v@[1].1@));
    if 0 <= i < extra@.len() {
        assert(given[i] == (extra@[i].0@, extra@[i].1@));
        assert(sent[2 + i] == (v@[2 + i].0@, v@[2 + i].1@));
    }
    if range is Some {
        assert(sent.last() == (v@.last().0@, v@.last().1@));
    }
}

/// The first request asks for the first byte alone, and carries nothing of the host's.
pub proof fn law_asking_first(user_agent: &str, v: Vec<(String, String)>)
    requires
        call_ensures(probe_headers, (user_agent,), v),
    ensures
        v@.len() == 3,
        v@[0].0@ == "Accept-Encoding"@ && v@[0].1@ == "identity"@,
        v@[1].0@ == "User-Agent"@ && v@[1].1@ == user_agent@,
        v@[2].0@ == "Range"@ && v@[2].1@ == "bytes=0-0"@,
{
    let sent = header_texts(v@);
    law_every_header_of_the_host_is_sent(user_agent@, Seq::empty(), Some((0i64, 0i64)));
    assert(sent.len() == v@.len());
    assert(sent[0] == (v@[0].0@, v@[0].1@));
    assert(sent[1] == (v@[1].0@, v@[1].1@));
    assert(sent[2] == (v@[2].0@, v@[2].1@));
    reveal_strlit("bytes=");
    reveal_strlit("-");
    reveal_strlit("bytes=0-0");
    assert("bytes="@ + signed_decimal(0) + "-"@ + signed_decimal(0) =~= "bytes=0-0"@);
}

// ---------------------------------------------------------------- answers of a server

/// A range is accepted only with status 206 and a Content-Range that starts where it was
/// asked to; everything else is an error after which it may be asked for again.
pub proof fn law_checking_a_range(status: u16, cr: &str, from: i64, r: Result<(), Error>)
    requires
        call_ensures(check_range_response, (status, cr, from), r),
    ensures
        status != 206 ==> r is Err,
        r is Ok ==> status == 206 && (content_range(cr@) matches Some((start, _, _)) && start
            == from),
        r matches Err(e) ==> e.kind == ErrorKind::Retryable && e.op@ == "range"@,
{
    law_only_the_range_asked_for_is_accepted(status, cr@, from);
}

/// A range that starts where it was asked to is accepted, and one that starts elsewhere
/// is not.
pub proof fn law_checking_a_written_range(
    cr: &str,
    start: i64,
    end: i64,
    total: i64,
    from: i64,
    r: Result<(), Error>,
)
    requires
        call_ensures(check_range_response, (206u16, cr, from), r),
        0 <= start,
        cr@ == "bytes "@ + signed_decimal(start as int) + "-"@ + signed_decimal(end as int) + "/"@
            + signed_decimal(total as int),
    ensures
        r is Ok <==> start == from,
{
    law_only_the_range_asked_for_is_accepted(206, cr@, from);
    law_content_range_reads_back(start, end, Some(total));
}

/// A whole file is accepted with any success, and with nothing else.
pub proof fn law_checking_a_whole_file(status: u16, r: Result<(), Error>)
    requires
        call_ensures(check_plain_response, (status,), r),
    ensures
        r is Ok <==> 200 <= status < 300,
        r matches Err(e) ==> e.kind == ErrorKind::Retryable && e.op@ == "whole"@ && e.message@
            == "服务器返回状态 "@ + decimal(status as nat),
{
}

/// A probe fails for good without success; otherwise tag, date and name are taken over.
pub proof fn law_probing(a: &ProbeAnswer, r: Result<ProbeInfo, Error>)
    requires
        call_ensures(ProbeAnswer::interpret, (a,), r),
    ensures
        r is Ok <==> 200 <= a.status < 300,
        r matches Ok(info) ==> info.etag@ == a.etag@ && info.last_modified@ == a.last_modified@,
        r matches Err(e) ==> e.kind == ErrorKind::Fatal && e.op@ == "probe"@ && e.message@
            == "服务器返回状态 "@ + decimal(a.status as nat),
        r matches Ok(info) ==> info.range_ok ==> a.status == 206 && lower(a.accept_ranges@)
            != lower("none"@),
{
}

/// A probe that gets the first byte of a file of `n` bytes finds that size, and ranges,
/// unless they are ruled out.
pub proof fn law_probing_with_ranges(
    a: &ProbeAnswer,
    e: i64,
    n: i64,
    r: Result<ProbeInfo, Error>,
)
    requires
        call_ensures(ProbeAnswer::interpret, (a,), r),
        n > 0,
        a.status == 206,
        a.content_range@ == "bytes "@ + "0"@ + "-"@ + signed_decimal(e as int) + "/"@
            + signed_decimal(n as int),
    ensures
        r is Ok && r->Ok_0.size == n,
        r->Ok_0.range_ok <==> lower(a.accept_ranges@) != lower("none"@),
{
    law_probe_finds_the_size(*a, e, n);
}

/// A probe that gets the whole file finds its length, and no ranges.
pub proof fn law_probing_without_ranges(a: &ProbeAnswer, n: u64, r: Result<ProbeInfo, Error>)
    requires
        call_ensures(ProbeAnswer::interpret, (a,), r),
        200 <= a.status < 300,
        a.status != 206,
        n <= i64::MAX,
        a.content_length == Some(n),
    ensures
        r is Ok && r->Ok_0.size == n && !r->Ok_0.range_ok,
{
}

/// A Content-Range is read as it was written.
pub proof fn law_reading_a_content_range(
    v: &str,
    a: i64,
    b: i64,
    n: i64,
    r: Option<(i64, i64, i64)>,
)
    requires
        call_ensures(parse_content_range, (v,), r),
        0 <= a,
        v@ == "bytes "@ + signed_decimal(a as int) + "-"@ + signed_decimal(b as int) + "/"@
            + signed_decimal(n as int),
    ensures
        r == Some((a, b, n)),
{
    law_content_range_reads_back(a, b, Some(n));
}

// ---------------------------------------------------------------- sources

/// Sources have the same file only if size, support of ranges and tag agree; a mirror is
/// taken in only if it answered and has the same file.
pub proof fn law_comparing_sources(
    a: &ProbeInfo,
    b: &ProbeInfo,
    same: bool,
    probed: &Result<ProbeInfo, Error>,
    adopted: bool,
)
    requires
        call_ensures(same_file, (a, b), same),
        call_ensures(adopts_mirror, (a, probed), adopted),
    ensures
        same <==> a.size == b.size && a.range_ok == b.range_ok && a.etag@ == b.etag@,
        probed is Err ==> !adopted,
        probed matches Ok(o) ==> (adopted <==> a.size == o.size && a.range_ok == o.range_ok
            && a.etag@ == o.etag@),
{
}

/// A mirror of blanks alone is passed over. A host is looked up only where that is wanted.
pub proof fn law_looking_for_sources(
    mirror: &str,
    given: bool,
    url: &str,
    multi: bool,
    host: Option<String>,
)
    requires
        call_ensures(mirror_is_given, (mirror,), given),
        call_ensures(host_to_resolve, (url, multi), host),
    ensures
        given <==> trimmed(mirror@, Trim::Space).len() > 0,
        !multi ==> host is None,
        multi ==> (host is Some <==> url_host(url@) is Some),
        host matches Some(h) ==> url_host(url@) == Some(h@),
{
}

/// Addresses are pinned only if more than one was found; there are at most four of them,
/// and all of them were found.
pub proof fn law_planning_sources(
    resolved: Option<(String, Vec<HostAddr>)>,
    plan: SourcePlan,
    i: int,
)
    requires
        call_ensures(source_plan, (resolved,), plan),
    ensures
        resolved is None ==> plan is Single,
        plan matches SourcePlan::Pinned { host, addrs } ==> resolved is Some && 2 <= addrs@.len()
            <= 4,
        plan matches SourcePlan::Pinned { host, addrs } ==> (resolved matches Some((name, found))
            && host@ == name@ && (0 <= i < addrs@.len() ==> found@.contains(addrs@[i]))),
{
    if let Some((name, found)) = resolved {
        law_chosen_addresses(found@);
    }
}

/// Sources are taken in turn, from the first to the last and then again.
pub proof fn law_taking_sources_in_turn<S>(
    p: &mut SourcePool<S>,
    i: usize,
    q: &SourcePool<S>,
    idx: usize,
    s: &S,
    n: usize,
)
    requires
        call_ensures(SourcePool::<S>::pick, (p,), i),
        call_ensures(SourcePool::<S>::source, (q, idx), s),
        call_ensures(SourcePool::<S>::source_count, (q,), n),
        old(p).sources@.len() > 0,
        q.sources@.len() > 0,
    ensures
        i == old(p).next as int % old(p).sources@.len() as int,
        final(p).sources@ == old(p).sources@,
        old(p).next < usize::MAX ==> final(p).next == old(p).next + 1,
        *s == q.sources@[idx as int % q.sources@.len() as int],
        n == q.sources@.len(),
{
}

/// A pool starts with its sources and the first one's turn; a mirror's come behind them.
pub proof fn law_filling_the_pool<S>(
    sources: Vec<S>,
    p: SourcePool<S>,
    q: &mut SourcePool<S>,
    more: Vec<S>,
)
    requires
        call_ensures(SourcePool::<S>::new, (sources,), p),
        call_ensures(SourcePool::<S>::add_mirror, (q, more), ()),
    ensures
        p.sources@ == sources@ && p.next == 0,
        final(q).sources@ == old(q).sources@ + more@,
        final(q).next == old(q).next,
{
}

/// The connections follow the parameters.
pub proof fn law_setting_up_connections(cfg: &Config, o: ClientOptions)
    requires
        call_ensures(client_options, (cfg,), o),
    ensures
        o.connect_timeout.nanos == 30 * 1000000000,
        o.read_timeout == cfg.idle_timeout,
        o.max_redirects == 10,
        cfg.max_threads > 0 ==> o.max_idle_per_host == cfg.max_threads,
        cfg.max_threads == 0 ==> o.max_idle_per_host == 1,
{
}

// ---------------------------------------------------------------- names

/// A component without forbidden characters, and without blanks or full stops at its ends,
/// is kept.
pub proof fn law_cleaning_a_component(base: &str, r: String)
    requires
        call_ensures(sanitize_component, (base,), r),
        base@.len() > 0,
        forall|i: int|
            0 <= i < base@.len() ==> (#[trigger] base@[i]) != '\\' && base@[i] != '/' && base@[i]
                != ':' && base@[i] != '*' && base@[i] != '?' && base@[i] != '"' && base@[i] != '<'
                && base@[i] != '>' && base@[i] != '|',
        base@[0] != ' ' && base@[0] != '.',
        base@.last() != ' ' && base@.last() != '.',
    ensures
        r@ == base@,
{
    law_clean_name_keeps_what_is_allowed(base@);
}

/// So is a whole name of that kind.
pub proof fn law_cleaning_a_name(name: &str, r: String)
    requires
        call_ensures(sanitize_name, (name,), r),
        name@.len() > 0,
        forall|i: int|
            0 <= i < name@.len() ==> (#[trigger] name@[i]) != '\\' && name@[i] != '/' && name@[i]
                != ':' && name@[i] != '*' && name@[i] != '?' && name@[i] != '"' && name@[i] != '<'
                && name@[i] != '>' && name@[i] != '|',
        name@[0] != ' ' && name@[0] != '.',
        name@.last() != ' ' && name@.last() != '.',
    ensures
        r@ == name@,
{
    law_plain_name_is_cleaned(name@, r@);
    law_clean_name_keeps_what_is_allowed(name@);
}

/// A name never leads out of its directory, and is never empty.
pub proof fn law_clean_names_stay_inside(base: &str, r: String, i: int)
    requires
        call_ensures(sanitize_component, (base,), r),
    ensures
        r@.len() > 0,
        r@[0] != '.' && r@[0] != ' ',
        0 <= i < r@.len() ==> r@[i] != '/' && r@[i] != '\\' && r@[i] != ':',
{
    crate::util::law_clean_name_is_a_component(base@);
    reveal_strlit("download.bin");
    let t = crate::util::replaced(base@);
    let at = crate::text::lemma_trimmed(t, Trim::BlankOrStop);
}

/// Text without percent signs is decoded to itself.
pub proof fn law_decoding_plain_text(s: &str, r: String)
    requires
        call_ensures(percent_decode, (s,), r),
        !s@.contains('%'),
    ensures
        r@ == s@,
{
}

/// A header names the file as its parameters say, an address as its last segment says.
pub proof fn law_finding_names(cd: &str, name: String, url: &str, other: String)
    requires
        call_ensures(parse_filename, (cd,), name),
        call_ensures(filename_from_url, (url,), other),
    ensures
        cd@.len() == 0 ==> name@.len() == 0,
        url_segments(url@) is None ==> other@.len() == 0,
        url_segments(url@) matches Some(v) ==> v.len() > 0 && v.last().len() > 1
            && !v.last().contains('%') && v.last() != seq!['.'] ==> other@ == v.last(),
{
    reveal_strlit("filename*=");
    reveal_strlit("filename=");
    if cd@.len() == 0 {
        assert(lower(cd@).len() == 0);
    }
    if let Some(v) = url_segments(url@) {
        crate::util::law_last_segment_names_the_file(v);
    }
}

/// The host's file comes first; then its directory, or the current one, with a name that
/// comes from the server, or from the address.
pub proof fn law_choosing_a_target(
    target_file: &Option<String>,
    target_dir: &Option<String>,
    file_name: &str,
    url: &str,
    t: Target,
)
    requires
        call_ensures(choose_target, (target_file, target_dir, file_name, url), t),
    ensures
        target_file is Some && target_file->0@.len() > 0 ==> (t matches Target::File(f) && f@
            == target_file->0@),
        target_file is None || target_file->0@.len() == 0 ==> t is InDir,
        t matches Target::InDir { dir, name } ==> target_dir is Some && target_dir->0@.len() > 0
            ==> dir@ == target_dir->0@,
        t matches Target::InDir { dir, name } ==> target_dir is None || target_dir->0@.len() == 0
            ==> dir@ == "."@,
{
}

/// The name that a file would like to have, and what it is called while incomplete.
pub proof fn law_wanting_a_name(
    file_name: &str,
    url: &str,
    name: String,
    path: &str,
    suffix: &str,
    marker: String,
)
    requires
        call_ensures(name_wanted, (file_name, url), name),
        call_ensures(marker_path, (path, suffix), marker),
    ensures
        file_name@.len() > 0 ==> name@ == file_name@,
        marker@ == path@ + suffix@,
{
}

/// The directory of a target is named by sixteen hexadecimal digits of its hash, and the
/// file of a part by nineteen digits of its start.
pub proof fn law_naming_temporary_files(abs: &str, key: String, from: i64, name: String, i: int)
    requires
        call_ensures(job_key, (abs,), key),
        call_ensures(pad_from, (from,), name),
        0 <= i < 16,
    ensures
        key@.len() == 16,
        ({
            let d = (fnv1a(encode_utf8(abs@)) as int / vstd::arithmetic::power::pow(16, i as nat))
                % 16;
            key@[15 - i] as int == (if d < 10 {
                '0' as int + d
            } else {
                'a' as int + d - 10
            })
        }),
        integer(name@) == Some(from),
        from >= 0 ==> name@.len() == 19,
{
    law_hex_is_positional(fnv1a(encode_utf8(abs@)) as nat, 16, i);
    crate::number::law_padded_integer_reads_back(from, 19);
    if from >= 0 {
        crate::util::law_part_file_is_named_by_its_start(from);
    }
}

// ---------------------------------------------------------------- parts

/// A new part stands at its start, or where it had come to.
pub proof fn law_making_parts(from: i64, to: i64, current: i64, p: Part, q: Part)
    requires
        call_ensures(Part::new, (from, to), p),
        call_ensures(Part::new_with, (from, to, current), q),
        from > i64::MIN,
    ensures
        p.from == from && p.to == to && p.current == from && p.safe_zone == from - 1,
        q.from == from && q.to == to,
        current > from ==> q.current == current && q.safe_zone == current - 1,
        current <= from ==> q == p,
{
}

/// A part moves forward by what was read, and is complete behind its end.
pub proof fn law_moving_a_part(p: &mut Part, n: i64, q: &Part, b: bool, d: i64)
    requires
        call_ensures(Part::advance, (p, n), ()),
        call_ensures(Part::done, (q,), b),
        call_ensures(Part::splittable_delta, (q,), d),
        i64::MIN <= old(p).current + n <= i64::MAX,
    ensures
        final(p).current == old(p).current + n,
        final(p).from == old(p).from && final(p).to == old(p).to && final(p).safe_zone
            == old(p).safe_zone,
        b <==> q.current > q.to,
        q.to >= q.safe_zone ==> d == q.to - q.safe_zone,
        q.to < q.safe_zone ==> d == 0,
{
}

/// What may be read lies between the position and the safe zone, which moves only where
/// less than wanted may be read.
pub proof fn law_asking_how_much_may_be_read(p: &mut Part, want: i64, n: i64)
    requires
        call_ensures(Part::how_much_can_read, (p, want), n),
        old(p).wf(),
    ensures
        n == final(p).safe_zone + 1 - final(p).current,
        final(p).from == old(p).from && final(p).to == old(p).to && final(p).current
            == old(p).current,
        old(p).safe_zone <= final(p).safe_zone <= old(p).to,
        old(p).safe_zone + 1 - old(p).current >= want ==> final(p).safe_zone == old(p).safe_zone,
        old(p).safe_zone + 1 - old(p).current < want && old(p).current <= old(p).to
            && old(p).safe_zone < old(p).to ==> final(p).safe_zone > old(p).safe_zone,
{
}

/// A part with enough unclaimed bytes gives up half of them, and no other one does.
pub proof fn law_splitting_a_part(p: &mut Part, min_delta: i64, np: Option<Part>)
    requires
        call_ensures(Part::split_at_least, (p, min_delta), np),
        old(p).wf(),
    ensures
        np is Some <==> old(p).to - old(p).safe_zone >= min_delta && old(p).to - old(p).safe_zone
            >= 1048576,
        np is None ==> *final(p) == *old(p),
        np matches Some(b) ==> {
            &&& b.from == final(p).to + 1 && b.to == old(p).to && b.current == b.from
            &&& final(p).from == old(p).from && final(p).current == old(p).current
                && final(p).safe_zone == old(p).safe_zone
            &&& 0 <= (final(p).to - final(p).safe_zone) - (b.to - b.from + 1) <= 1
        },
{
}

/// A file is cut into ranges that follow each other from its first byte to its last.
pub proof fn law_splitting_a_file(
    size: i64,
    min_part_size: i64,
    max_part_count: usize,
    ranges: Vec<(i64, i64)>,
    i: int,
)
    requires
        call_ensures(split_to_range, (size, min_part_size, max_part_count), ranges),
    ensures
        size <= 0 ==> ranges@.len() == 0,
        size > 0 ==> {
            let n = ranges@.len();
            let smallest = if min_part_size < 1 {
                1int
            } else {
                min_part_size as int
            };
            &&& n >= 1
            &&& ranges@[0].0 == 0 && ranges@[n - 1].1 == size - 1
            &&& 0 <= i < n - 1 ==> ranges@[i + 1].0 == ranges@[i].1 + 1 && 0 <= (ranges@[i].1
                - ranges@[i].0) - (ranges@[i + 1].1 - ranges@[i + 1].0) <= 1
            &&& n <= max_part_count || n == 1
            &&& (n - 1) * smallest < size
            &&& n < max_part_count ==> n * smallest >= size
        },
{
    if size > 0 {
        law_even_split_covers(size, min_part_size, max_part_count);
        law_number_of_ranges(size, min_part_size, max_part_count);
        if 0 <= i < ranges@.len() - 1 {
            crate::split::law_longer_ranges_come_first(
                size,
                min_part_size,
                max_part_count,
                i,
                i + 1,
            );
        }
    }
}

// ---------------------------------------------------------------- connections

/// A pump starts empty.
pub proof fn law_starting_a_pump(now: u64, watch: bool, p: Pump)
    requires
        call_ensures(Pump::new, (now, watch), p),
    ensures
        p.pending@.len() == 0 && p.off == 0 && p.window_start == now && p.window_bytes == 0
            && p.watch_slow == watch,
{
}

/// What came from a connection is kept and written as far as the part may read; an end
/// before the part is complete, and a break, are errors that allow another attempt.
pub proof fn law_receiving(pump: &mut Pump, part: &Part, chunk: Chunk, step: PumpStep)
    requires
        call_ensures(Pump::received, (pump, part, chunk), step),
        part.wf(),
    ensures
        chunk matches Chunk::Data(data) ==> {
            let room = part.safe_zone + 1 - part.current;
            &&& final(pump).pending == data && final(pump).off == 0
            &&& 0 < data@.len() <= room ==> (step matches PumpStep::Write { n } && n == data@.len())
            &&& data@.len() > room && room > 0 ==> (step matches PumpStep::Write { n } && n == room)
            &&& data@.len() == 0 || room <= 0 ==> step is Again
        },
        chunk is End && part.current > part.to ==> step is Finish,
        chunk is End && part.current <= part.to ==> (step matches PumpStep::Fail(e) && e.kind
            == ErrorKind::Retryable),
        chunk matches Chunk::Broken(m) ==> (step matches PumpStep::Fail(e) && e.kind
            == ErrorKind::Retryable && e.message@ == m@),
        !(chunk is Data) ==> *final(pump) == *old(pump),
{
}

/// Writing moves pump and part along by the same number of bytes.
pub proof fn law_writing(pump: &mut Pump, part: &mut Part, n: usize)
    requires
        call_ensures(Pump::wrote, (pump, part, n), ()),
        old(pump).off + n <= old(pump).pending@.len() <= usize::MAX,
        old(part).current + n <= i64::MAX,
        old(pump).window_bytes + n <= i64::MAX,
    ensures
        final(pump).off == old(pump).off + n,
        final(pump).pending == old(pump).pending,
        final(pump).window_bytes == old(pump).window_bytes + n,
        final(part).current == old(part).current + n,
        final(part).from == old(part).from && final(part).to == old(part).to
            && final(part).safe_zone == old(part).safe_zone,
{
}

/// A connection is given up only when it is watched, its five seconds are over, much is
/// left, and it is slow.
pub proof fn law_judging(
    pump: &mut Pump,
    part: &Part,
    now: u64,
    test: RateTest,
    verdict: Option<Error>,
)
    requires
        call_ensures(Pump::judge, (pump, part, now, test), verdict),
    ensures
        verdict is Some <==> old(pump).watch_slow && now - old(pump).window_start >= 5000000000
            && part.to - part.current + 1 > 262144 && (test.stuck || test.fair_share
            && test.below_share && test.below_floor),
        verdict matches Some(e) ==> e.kind == ErrorKind::Slow,
        final(pump).pending == old(pump).pending && final(pump).off == old(pump).off,
        verdict is None && old(pump).watch_slow && now - old(pump).window_start >= 5000000000
            ==> final(pump).window_start == now && final(pump).window_bytes == 0,
{
}

/// A single connection is stopped by a cancellation, rests while paused, and else fetches;
/// what it delivers is written as it comes.
pub proof fn law_single_connections(
    canceled: bool,
    paused: bool,
    next: WholeStep,
    chunk: Chunk,
    step: WholeStep,
)
    requires
        call_ensures(whole_next, (canceled, paused), next),
        call_ensures(whole_received, (chunk,), step),
    ensures
        canceled ==> (next matches WholeStep::Fail(e) && e.kind == ErrorKind::Canceled),
        !canceled && paused ==> next is Rest,
        !canceled && !paused ==> next is Fetch,
        chunk matches Chunk::Data(data) ==> step == WholeStep::Write(data),
        chunk is End ==> step is Finish,
        chunk matches Chunk::Broken(m) ==> (step matches WholeStep::Fail(e) && e.kind
            == ErrorKind::Retryable && e.message@ == m@),
{
}

// ---------------------------------------------------------------- attempts

/// Attempts begin with none used, a retry waits, and a cancellation or the end of all
/// attempts stops.
pub proof fn law_beginning_attempts(
    op: &'static str,
    max: usize,
    fresh: Retry,
    r: &Retry,
    canceled: bool,
    step: RetryStep,
)
    requires
        call_ensures(Retry::new, (op, max), fresh),
        call_ensures(Retry::begin, (r, canceled), step),
        r.wf(),
    ensures
        fresh.op@ == op@ && fresh.max_retries == max && fresh.attempt == 0 && !fresh.exhausted
            && fresh.last_err is None,
        r.exhausted ==> (step matches RetryStep::Stop(e) && e.kind == ErrorKind::Fatal && e.op@
            == r.op@),
        !r.exhausted && canceled ==> (step matches RetryStep::Stop(e) && e.kind
            == ErrorKind::Canceled),
        !r.exhausted && !canceled ==> (step matches RetryStep::Try { wait } && (wait <==> r.attempt
            > 0)),
{
}

/// Only an error that allows it leads to another attempt, and only as often as allowed.
pub proof fn law_finishing_attempts(r: &mut Retry, result: Result<(), Error>, next: AfterAttempt)
    requires
        call_ensures(Retry::finish, (r, result), next),
        old(r).wf(),
        !old(r).exhausted,
    ensures
        result is Ok ==> next == AfterAttempt::Over(result) && *final(r) == *old(r),
        result matches Err(e) ==> e.kind != ErrorKind::Retryable ==> next == AfterAttempt::Over(
            result,
        ) && *final(r) == *old(r),
        result matches Err(e) ==> e.kind == ErrorKind::Retryable ==> next is Again
            && final(r).last_err == Some(e) && (final(r).exhausted <==> old(r).attempt
            == old(r).max_retries) && (!final(r).exhausted ==> final(r).attempt == old(r).attempt
            + 1),
        final(r).max_retries == old(r).max_retries,
{
}

/// An attempt that ended well without completing its part has failed, and may be repeated.
pub proof fn law_judging_an_attempt(
    done: bool,
    result: Result<(), Error>,
    r: Result<(), Error>,
    part: &Part,
    n: u64,
)
    requires
        call_ensures(part_attempt, (done, result), r),
        call_ensures(file_length, (part,), n),
        part.wf(),
    ensures
        r is Ok <==> done && result is Ok,
        result is Err ==> r == result,
        result is Ok && !done ==> r->Err_0.kind == ErrorKind::Retryable,
        n == part.to - part.from + 1,
{
}

/// A part is asked for from where it stands to its end, and written where it belongs; slow
/// connections are reopened, and watched for the first eight times.
pub proof fn law_connecting(
    fresh: Reconnect,
    r: &Reconnect,
    part: &Part,
    step: ConnectStep,
    x: &mut Reconnect,
    result: Result<(), Error>,
    end: Option<Result<(), Error>>,
)
    requires
        call_ensures(Reconnect::new, (), fresh),
        call_ensures(Reconnect::next, (r, part), step),
        call_ensures(Reconnect::ended, (x, result), end),
        part.wf(),
        old(x).count < usize::MAX,
    ensures
        fresh.count == 0,
        step is Finish <==> part.current > part.to,
        step matches ConnectStep::Open { from, to, seek, watch } ==> from == part.current && to
            == part.to && seek == part.current - part.from && (watch <==> r.count < 8),
        end is None <==> (result matches Err(e) && e.kind == ErrorKind::Slow),
        end is None ==> final(x).count == old(x).count + 1,
        end is Some ==> end == Some(result) && final(x).count == old(x).count,
{
}

// ---------------------------------------------------------------- sessions

/// How a session ends: with its error, or canceled, or complete.
pub proof fn law_ending_a_session(s: &mut Session, canceled: bool, v: Verdict)
    requires
        call_ensures(Session::verdict, (s, canceled), v),
    ensures
        old(s).first_err matches Some(e) ==> v == Verdict::Failed(e),
        old(s).first_err is None && (old(s).stopped || canceled) ==> v is Canceled,
        old(s).first_err is None && !old(s).stopped && !canceled ==> v is Complete,
        final(s).parts@ == old(s).parts@,
{
    assert(final(s)@.parts == final(s).parts@);
}

/// A session stops for a cancellation or an error, and is idle without work and workers.
pub proof fn law_stopping_a_session(s: &mut Session, canceled: bool, b: bool, t: &Session, i: bool)
    requires
        call_ensures(Session::must_stop, (s, canceled), b),
        call_ensures(Session::idle, (t,), i),
    ensures
        b <==> canceled || old(s).stopped || old(s).first_err is Some,
        i <==> t.running == 0 && t.queue@.len() == 0,
{
}

/// A worker that ends makes one fewer; an error that is no cancellation stops the others,
/// and the first one is kept.
pub proof fn law_ending_a_worker(s: &mut Session, i: usize, result: Result<(), Error>)
    requires
        call_ensures(Session::worker_done, (s, i, result), ()),
        old(s)@.wf(),
        old(s)@.is_active(i as int),
    ensures
        final(s).running == old(s).running - 1,
        final(s).parts@ == old(s).parts@,
        result is Ok ==> final(s).stopped == old(s).stopped && final(s).first_err
            == old(s).first_err,
        result matches Err(e) ==> e.kind == ErrorKind::Canceled ==> final(s).stopped
            == old(s).stopped && final(s).first_err == old(s).first_err,
        result matches Err(e) ==> e.kind != ErrorKind::Canceled ==> final(s).stopped
            && final(s).first_err == (if old(s).first_err is None {
            Some(e)
        } else {
            old(s).first_err
        }),
{
    assert(final(s)@.parts == final(s).parts@ && final(s)@.running == final(s).running);
    assert(final(s)@.first_err == final(s).first_err && final(s)@.stopped == final(s).stopped);
}

/// The next worker gets the part that has waited longest, if fewer than wanted are at work.
pub proof fn law_hiring(s: &mut Session, target: usize, min_part_size: i64, r: Option<usize>)
    requires
        call_ensures(Session::hire, (s, target, min_part_size), r),
        old(s)@.wf(),
    ensures
        old(s).running >= target ==> r is None,
        old(s).running < target && old(s).queue@.len() > 0 ==> r == Some(old(s).queue@[0]),
        old(s).running < target && old(s).queue@.len() == 0 ==> r is Some ==> r->0
            == old(s).parts@.len(),
        r is Some ==> final(s).running == old(s).running + 1,
        r is None ==> final(s).running == old(s).running && final(s).parts@ == old(s).parts@,
{
    assert(final(s)@.parts == final(s).parts@ && final(s)@.running == final(s).running);
    assert(old(s)@.parts == old(s).parts@ && old(s)@.running == old(s).running);
}

// ---------------------------------------------------------------- the engine

/// A request needs an address, ranges need support and a size, and the threads have bounds.
pub proof fn law_starting_a_download(
    url: &str,
    r: Result<(), Error>,
    info: &ProbeInfo,
    single: bool,
    size: i64,
    cfg: &Config,
    threads: usize,
)
    requires
        call_ensures(check_request, (url,), r),
        call_ensures(needs_single_stream, (info,), single),
        call_ensures(known_size, (info,), size),
        call_ensures(worker_threads, (cfg,), threads),
    ensures
        r is Ok <==> url@.len() > 0,
        r matches Err(e) ==> e.kind == ErrorKind::Fatal,
        single <==> !info.range_ok || info.size <= 0,
        info.size >= 0 ==> size == info.size,
        info.size < 0 ==> size == 0,
        4 <= threads <= 64,
        4 <= cfg.max_threads <= 64 ==> threads == cfg.max_threads,
        cfg.max_threads < 4 ==> threads == 4,
        cfg.max_threads > 64 ==> threads == 64,
{
}

/// Workers start with the number wanted at the start, or at once with all.
pub proof fn law_starting_the_clockwork(cfg: &Config, now: u64, c: Controller)
    requires
        call_ensures(Controller::new, (cfg, now), c),
    ensures
        !cfg.adaptive_threads ==> c.target == cfg.max_threads,
        cfg.adaptive_threads && cfg.initial_threads > 0 ==> c.target == cfg.initial_threads,
        cfg.adaptive_threads && cfg.initial_threads == 0 ==> c.target == 1,
        c.last_climb == now && c.rate_time == now && c.last_save == now && c.rate_bytes == 0,
{
}

/// Progress is saved once a second.
pub proof fn law_saving_in_time(c: &mut Controller, now: u64, b: bool)
    requires
        call_ensures(Controller::save_due, (c, now), b),
    ensures
        b <==> now >= old(c).last_save + 1000000000,
        b ==> final(c).last_save == now,
        !b ==> final(c).last_save == old(c).last_save,
        final(c).target == old(c).target && final(c).last_climb == old(c).last_climb
            && final(c).rate_time == old(c).rate_time && final(c).rate_bytes == old(c).rate_bytes,
{
}

/// Bytes are counted as they come, and a new start counts from nothing.
pub proof fn law_counting(m: &mut Meter, n: i64, x: &mut Meter, now: u64, fresh: Meter)
    requires
        call_ensures(Meter::count, (m, n), ()),
        call_ensures(Meter::restart, (x,), ()),
        call_ensures(Meter::new, (now,), fresh),
        i64::MIN <= old(m).downloaded + n <= i64::MAX,
    ensures
        final(m).downloaded == old(m).downloaded + n,
        final(m).last_report == old(m).last_report && final(m).last_bytes == old(m).last_bytes,
        final(x).downloaded == 0,
        final(x).last_report == old(x).last_report && final(x).last_bytes == old(x).last_bytes,
        fresh.downloaded == 0 && fresh.last_bytes == 0 && fresh.last_report == now,
{
}

/// Progress is reported five times a second, with what has come since the last report.
pub proof fn law_reporting(m: &mut Meter, now: u64, r: Option<(i64, u64)>)
    requires
        call_ensures(Meter::report, (m, now), r),
        i64::MIN <= old(m).downloaded - old(m).last_bytes <= i64::MAX,
    ensures
        r is Some <==> now >= old(m).last_report + 200000000,
        r matches Some((bytes, nanos)) ==> bytes == old(m).downloaded - old(m).last_bytes && nanos
            == now - old(m).last_report && final(m).last_report == now && final(m).last_bytes
            == old(m).downloaded,
        r is None ==> *final(m) == *old(m),
        final(m).downloaded == old(m).downloaded,
{
}

/// The end of a session is an event and, unless all is complete, an error; then, and only
/// then, the record is saved.
pub proof fn law_concluding(v: Verdict, r: (RunEvent, Result<(), Error>), saves: bool)
    requires
        call_ensures(conclude, (v,), r),
        call_ensures(RunEvent::saves_record, (&r.0,), saves),
    ensures
        v matches Verdict::Failed(e) ==> r.0 is WorkersFailed && r.1 == Err::<(), Error>(e),
        v is Canceled ==> r.0 is WorkersCanceled && r.1 is Err && r.1->Err_0.kind
            == ErrorKind::Canceled,
        v is Complete ==> r.0 is WorkersDone && r.1 is Ok,
        saves <==> !(v is Complete),
{
}

/// What the host is told in the end.
pub proof fn law_results(
    path: String,
    size: i64,
    downloaded: i64,
    speed: i64,
    n: usize,
    a: DownloadResult,
    b: DownloadResult,
    p: Progress,
)
    requires
        call_ensures(parts_result, (path, size, downloaded, speed, n), a),
        call_ensures(whole_result, (path, size, downloaded, speed), b),
        call_ensures(last_progress, (size, speed, n), p),
    ensures
        a.path@ == path@ && a.speed == speed && a.parts == n && a.range_ok,
        size > 0 ==> a.size == size,
        size <= 0 ==> a.size == downloaded,
        b.path@ == path@ && b.speed == speed && b.parts == 0 && !b.range_ok,
        downloaded >= size ==> b.size == downloaded,
        downloaded < size ==> b.size == size,
        p.downloaded == size && p.total == size && p.speed == speed && p.parts == n,
{
}

// ---------------------------------------------------------------- assembly

/// The pieces of the parts come in the order of their starts, each as long as what was
/// read.
pub proof fn law_listing_pieces(parts: &[Part], v: Vec<(i64, i64)>, i: int)
    requires
        call_ensures(parts_for_assemble, (parts,), v),
        0 <= i < parts@.len(),
        0 <= parts@[i].current - parts@[i].from <= i64::MAX,
    ensures
        v@.len() == parts@.len(),
        v@.contains((parts@[i].from, (parts@[i].current - parts@[i].from) as i64)),
        forall|j: int, k: int|
            0 <= j < k < v@.len() ==> (#[trigger] v@[j]).0 <= (#[trigger] v@[k]).0,
{
    law_pieces_are_sorted(pieces(parts@), v@);
    law_piece_of_a_part(parts@, i);
    assert(pieces(parts@)[i] == (parts@[i].from, (parts@[i].current - parts@[i].from) as i64));
}

/// A file is renamed only if it is the whole file as it stands; otherwise the pieces that
/// hold something are copied in order.
pub proof fn law_planning_assembly(
    parts: &[(i64, i64)],
    first_len: Option<i64>,
    plan: Assembly,
    v: Seq<(i64, i64)>,
    x: (i64, i64),
)
    requires
        call_ensures(assembly_plan, (parts, first_len), plan),
    ensures
        plan is Rename <==> parts@.len() == 1 && parts@[0].0 == 0 && first_len == Some(parts@[0].1),
        plan matches Assembly::Rename { from } ==> from == 0,
        plan matches Assembly::Concat { pieces } ==> parts@ == v.push(x) && x.1 <= 0
            ==> pieces@ == nonempty_pieces(v),
        plan matches Assembly::Concat { pieces } ==> parts@ == v.push(x) && x.1 > 0 ==> pieces@
            == nonempty_pieces(v).push(x),
{
    law_empty_pieces_are_left_out(v, x);
}

/// A piece is copied to its end and no further.
pub proof fn law_copying_a_piece(
    length: i64,
    fresh: PieceCopy,
    c: &PieceCopy,
    buffer: usize,
    w: Option<usize>,
    d: &mut PieceCopy,
    n: usize,
    more: bool,
)
    requires
        call_ensures(PieceCopy::new, (length,), fresh),
        call_ensures(PieceCopy::want, (c, buffer), w),
        call_ensures(PieceCopy::copied, (d, n), more),
        buffer <= i64::MAX,
    ensures
        fresh.remaining == length,
        w is None <==> c.remaining <= 0,
        w matches Some(k) ==> k <= c.remaining && k <= buffer && (k == c.remaining || k == buffer),
        final(d).remaining == old(d).remaining - n,
        more <==> n > 0 && old(d).remaining > n,
{
}

/// A buffer is written from where the last write ended, until all of it is written.
pub proof fn law_writing_at_an_offset(
    len: usize,
    start: u64,
    fresh: WriteAt,
    a: &WriteAt,
    r: Option<(usize, u64)>,
    b: &mut WriteAt,
    n: usize,
    progress: bool,
)
    requires
        call_ensures(WriteAt::new, (len, start), fresh),
        call_ensures(WriteAt::next, (a,), r),
        call_ensures(WriteAt::wrote, (b, n), progress),
        old(b).written + n <= old(b).len,
    ensures
        fresh.len == len && fresh.start == start && fresh.written == 0,
        r is None <==> a.written == a.len,
        r matches Some((at, offset)) ==> at == a.written && offset == a.start + a.written,
        final(b).written == old(b).written + n && final(b).len == old(b).len && final(b).start
            == old(b).start,
        progress <==> n > 0,
{
}

// ---------------------------------------------------------------- the programs

/// A text that is missing or empty is not given, and headers need name and value.
pub proof fn law_taking_texts(s: Option<String>, r: Option<String>)
    requires
        call_ensures(given_text, (s,), r),
    ensures
        s is None ==> r is None,
        s matches Some(t) ==> t@.len() == 0 ==> r is None,
        s matches Some(t) ==> t@.len() > 0 ==> r == Some(t),
{
}

/// Without settings the parameters are the built-in ones; with settings, those that make
/// sense are taken.
pub proof fn law_taking_settings(s: Settings, c: Config, d: Config)
    requires
        call_ensures(config_from, (Some(s),), c),
        call_ensures(config_from, (None,), d),
    ensures
        d.max_threads == 32 && d.initial_threads == 32 && d.max_retries == 10,
        s.initial_threads > 0 ==> c.initial_threads == s.initial_threads,
        s.max_threads > 0 ==> c.max_threads == s.max_threads,
        s.min_part_size > 0 ==> c.min_part_size == s.min_part_size,
        s.max_retries >= 0 ==> c.max_retries == s.max_retries,
        s.max_retries < 0 ==> c.max_retries == d.max_retries,
        s.idle_timeout_ms > 0 ==> c.idle_timeout.nanos == s.idle_timeout_ms * 1000000,
        s.retry_delay_ms > 0 ==> c.retry_delay.nanos == s.retry_delay_ms * 1000000,
        c.max_speed == s.max_speed,
        s.temp_dir matches Some(t) ==> c.temp_dir@ == t@,
        s.user_agent matches Some(t) ==> c.user_agent@ == t@,
        s.incomplete_suffix matches Some(t) ==> c.incomplete_suffix@ == t@,
{
    law_sensible_settings_are_taken(s);
    assert(c@.initial_threads == c.initial_threads && c@.max_threads == c.max_threads);
    assert(d@.initial_threads == d.initial_threads && d@.max_threads == d.max_threads);
    assert(c@.temp_dir == c.temp_dir@ && c@.user_agent == c.user_agent@);
}

/// Parameters come back usable, and usable ones come back as they were.
pub proof fn law_mending_parameters(c: Config, n: Config)
    requires
        call_ensures(Config::normalized, (c,), n),
    ensures
        1 <= n.initial_threads <= n.max_threads,
        n.min_part_size > 0 && n.buffer_size > 0 && n.retry_delay.nanos > 0,
        c.initial_threads > 0 ==> n.initial_threads == c.initial_threads,
        c.initial_threads == 0 ==> n.initial_threads == 1,
        c.max_threads >= n.initial_threads ==> n.max_threads == c.max_threads,
        c.min_part_size > 0 ==> n.min_part_size == c.min_part_size,
        n.max_retries == c.max_retries && n.max_speed == c.max_speed && n.idle_timeout
            == c.idle_timeout,
        c.temp_dir@.len() > 0 ==> n.temp_dir@ == c.temp_dir@,
        c.user_agent@.len() > 0 ==> n.user_agent@ == c.user_agent@,
        c.incomplete_suffix@.len() > 0 ==> n.incomplete_suffix@ == c.incomplete_suffix@,
{
    assert(n@.initial_threads == n.initial_threads && n@.max_threads == n.max_threads);
    assert(c@.initial_threads == c.initial_threads && c@.max_threads == c.max_threads);
    assert(n@.temp_dir == n.temp_dir@ && n@.user_agent == n.user_agent@);
}

/// The numbers that a C program gets.
pub proof fn law_numbers_for_c(s: Status, a: i32, e: Ending, b: i32)
    requires
        call_ensures(status_to_c, (s,), a),
        call_ensures(ending_to_c, (e,), b),
    ensures
        s is Pending ==> a == 0,
        s is Probing ==> a == 1,
        s is Downloading ==> a == 2,
        s is Assembling ==> a == 3,
        s is Completed ==> a == 4,
        s is Failed ==> a == 5,
        s is Canceled ==> a == 6,
        b == 0 <==> e is Done,
        b == 1 <==> e is Failed,
        b == 2 <==> e is Crashed,
{
}

/// A line of progress is shown once a second.
pub proof fn law_showing_lines(t: &mut Ticker, now: u64, b: bool)
    requires
        call_ensures(Ticker::line_due, (t, now), b),
    ensures
        b <==> now >= old(t).last_line + 1000000000,
        b ==> final(t).last_line == now,
        !b ==> final(t).last_line == old(t).last_line,
{
}

/// The address is the first argument that is no option; what is typed counts without the
/// blanks around it.
pub proof fn law_reading_addresses(
    args: &[String],
    r: Option<usize>,
    line: &str,
    typed: Option<String>,
    s: &str,
    trial: bool,
)
    requires
        call_ensures(direct_address, (args,), r),
        call_ensures(typed_address, (line,), typed),
        call_ensures(is_selftest, (s,), trial),
    ensures
        r matches Some(i) ==> i < args@.len() && !(args@[i as int]@.len() > 0 && args@[i as int]@[0]
            == '-'),
        r matches Some(i) ==> forall|j: int|
            0 <= j < i ==> (#[trigger] args@[j])@.len() > 0 && args@[j]@[0] == '-',
        typed is Some <==> trimmed(line@, Trim::Space).len() > 0,
        typed matches Some(t) ==> t@ == trimmed(line@, Trim::Space),
        trial <==> lower(s@) == lower("selftest"@),
{
}

/// The size and the port of the trial server are the numbers given, or 64 and 2121.
pub proof fn law_reading_server_arguments(args: &[String], r: (usize, u16), n: nat)
    requires
        call_ensures(server_arguments, (args,), r),
    ensures
        args@.len() == 0 ==> r.0 == 64,
        args@.len() <= 1 ==> r.1 == 2121,
        args@.len() > 0 && args@[0]@ == decimal(n) && n <= usize::MAX ==> r.0 == n,
        args@.len() > 1 && args@[1]@ == decimal(n) && n <= 65535 ==> r.1 == n,
        args@.len() > 1 && args@[1]@ == decimal(n) && n > 65535 ==> r.1 == 2121,
{
    law_numbers_or_defaults(n, usize::MAX as nat, 64, Seq::empty());
    law_numbers_or_defaults(n, 0xffff, 2121, Seq::empty());
}

/// A day has the date that is counted to it, and a log line its time, level and message.
pub proof fn law_writing_the_log(
    z: i64,
    date: (i64, u32, u32),
    time: &str,
    level: &str,
    message: &str,
    line: String,
)
    requires
        call_ensures(civil_from_days, (z,), date),
        call_ensures(log_line, (time, level, message), line),
        z <= i64::MAX - 719468,
    ensures
        is_date(date.0 as int, date.1 as int, date.2 as int),
        day_number(date.0 as int, date.1 as int, date.2 as int) == z,
        level@.len() == 5 ==> line@ == time@ + " ["@ + level@ + "] "@ + message@,
{
}

/// The trial server understands the ranges that a client asks for, and answers with them.
pub proof fn law_serving(
    h: &str,
    from: i64,
    to: i64,
    size: i64,
    r: Option<(i64, i64)>,
    a: Answer,
    whole: Answer,
)
    requires
        call_ensures(parse_range, (h, size), r),
        call_ensures(answer, (Some((from, to)), size), a),
        call_ensures(answer, (None, size), whole),
        0 <= from <= to < size,
        h@ == "bytes="@ + signed_decimal(from as int) + "-"@ + signed_decimal(to as int),
    ensures
        r == Some((from, to)),
        a.from == from && a.until == to + 1,
        whole.from == 0 && whole.until == size,
{
    law_range_request_is_understood(from, to, size as int);
}

/// Errors are of the kind that they are made for, and say what they were given.
pub proof fn law_making_errors(
    op: &'static str,
    message: String,
    a: Error,
    b: Error,
    e: &Error,
    again: bool,
)
    requires
        call_ensures(retryable, (op, message), a),
        call_ensures(fatal, (op, message), b),
        call_ensures(Error::is_retryable, (e,), again),
    ensures
        a.kind == ErrorKind::Retryable && a.op@ == op@ && a.message@ == message@,
        b.kind == ErrorKind::Fatal && b.op@ == op@ && b.message@ == message@,
        again <==> e.kind == ErrorKind::Retryable,
{
}

/// A host is told of every step that a download takes, and of nothing else.
pub proof fn law_telling_the_host(s: &mut Stage, event: RunEvent, told: Option<Status>)
    requires
        call_ensures(Stage::advance, (s, event), told),
    ensures
        told is None ==> *final(s) == *old(s),
        told matches Some(status) ==> final(s).status == status,
        event is Started ==> (told is Some <==> old(s).status == Status::Pending),
        event is Started && told is Some ==> told == Some(Status::Probing),
        event is Ready ==> (told is Some <==> old(s).status == Status::Probing),
        event is Ready && told is Some ==> told == Some(Status::Downloading),
        event is WorkersDone && told is Some ==> told == Some(Status::Assembling),
        event is WorkersCanceled && told is Some ==> told == Some(Status::Canceled),
        event is Assembled || event is Loaded ==> told is Some ==> told == Some(Status::Completed),
        event is ProbeFailed || event is LoadFailed || event is WorkersFailed
            || event is AssemblyFailed ==> told is Some ==> told == Some(Status::Failed),
        event is WorkersDone || event is WorkersCanceled || event is WorkersFailed ==> (
        told is Some <==> old(s).status == Status::Downloading && !old(s).single),
        event is Loaded || event is LoadFailed ==> (told is Some <==> old(s).status
            == Status::Downloading && old(s).single),
        event is Assembled || event is AssemblyFailed ==> (told is Some <==> old(s).status
            == Status::Assembling),
{
}

/// At most four addresses of those that were found are used, the old kind first.
pub proof fn law_choosing_addresses(addrs: &[HostAddr], v: Vec<HostAddr>, i: int, j: int)
    requires
        call_ensures(choose_addresses, (addrs,), v),
    ensures
        v@.len() <= 4,
        0 <= i < v@.len() ==> addrs@.contains(v@[i]),
        0 <= i < j < v@.len() && v@[i] is V6 ==> v@[j] is V6,
        0 <= i < addrs@.len() && v@.len() < 4 ==> v@.contains(addrs@[i]),
{
    law_chosen_addresses(addrs@);
}

/// A header with name and value is kept behind those before it.
pub proof fn law_collecting_headers(
    keys: &[Option<String>],
    values: &[Option<String>],
    headers: Vec<(String, String)>,
    ks: Seq<Option<String>>,
    vs: Seq<Option<String>>,
    k: String,
    v: String,
)
    requires
        call_ensures(collect_headers, (keys, values), headers),
        ks.len() == vs.len(),
        keys@ == ks.push(Some(k)),
        values@ == vs.push(Some(v)),
        k@.len() > 0,
        v@.len() > 0,
    ensures
        headers@.len() > 0,
        headers@.last().0@ == k@ && headers@.last().1@ == v@,
        header_texts(headers@.drop_last()) == given_headers(ks, vs),
{
    law_complete_headers_are_kept(ks, vs, Some(k), Some(v));
    let all = header_texts(headers@);
    assert(all.len() == headers@.len());
    assert(all.last() == (headers@.last().0@, headers@.last().1@));
    assert(header_texts(headers@.drop_last()) =~= all.drop_last());
    assert(all.drop_last() =~= given_headers(ks, vs));
}

/// A level has its number, and an unknown one that of INFO.
pub proof fn law_numbering_levels(level: &str, n: i32, s: Settings)
    requires
        call_ensures(level_to_c, (level,), n),
        call_ensures(default_settings, (), s),
    ensures
        level@ == "DEBUG"@ ==> n == 0,
        level@ == "WARN"@ ==> n == 2,
        level@ == "ERROR"@ ==> n == 3,
        level@ != "DEBUG"@ && level@ != "WARN"@ && level@ != "ERROR"@ ==> n == 1,
        s.initial_threads == 32 && s.max_threads == 32 && s.min_part_size == 1048576,
        s.buffer_size == 262144 && s.idle_timeout_ms == 15000 && s.max_retries == 10,
        s.retry_delay_ms == 1000 && s.max_speed == 0,
{
    law_numbers_of_the_c_interface(level@);
}

/// A moment is written by its date and its time of day.
pub proof fn law_writing_moments(
    secs: i64,
    millis: u32,
    s: String,
    t: String,
    y: int,
    m: int,
    d: int,
    h: int,
    mi: int,
    sec: int,
)
    requires
        call_ensures(fmt_utc, (secs, millis), s),
        call_ensures(fmt_stamp, (secs,), t),
        is_date(y, m, d),
        0 <= h < 24,
        0 <= mi < 60,
        0 <= sec < 60,
        secs == day_number(y, m, d) * 86400 + h * 3600 + mi * 60 + sec,
    ensures
        s@ == padded_decimal(y, 4) + seq!['-'] + padded_decimal(m, 2) + seq!['-'] + padded_decimal(
            d,
            2,
        ) + seq![' '] + padded_decimal(h, 2) + seq![':'] + padded_decimal(mi, 2) + seq![':']
            + padded_decimal(sec, 2) + seq!['.'] + padded_decimal(millis as int, 3),
        t@ == padded_decimal(y, 4) + padded_decimal(m, 2) + padded_decimal(d, 2) + seq!['-']
            + padded_decimal(h, 2) + padded_decimal(mi, 2) + padded_decimal(sec, 2),
{
    law_moments_are_written(y, m, d, h, mi, sec, millis as int);
}

/// The file that the trial server makes has the size wanted, and each byte is 31 more than
/// the one before it, as far as a byte goes.
pub proof fn law_making_the_trial_file(size: usize, data: Vec<u8>, i: int)
    requires
        call_ensures(pattern, (size,), data),
    ensures
        data@.len() == size,
        size > 0 ==> data@[0] == 7,
        0 <= i < size - 1 ==> data@[i + 1] as int == (data@[i] + 31) % 256,
{
    if 0 <= i {
        law_pattern_of_the_file(i);
    }
    if size > 0 {
        law_pattern_of_the_file(0);
    }
}

/// The name of a file is made of the last component of a path, or of the whole path where
/// it has none; a path with slashes has what stands behind the last one.
pub proof fn law_making_names(name: &str, last: Option<String>, r: String)
    requires
        call_ensures(name_of_component, (name, last), r),
    ensures
        last matches Some(c) ==> r@ == clean_name(c@),
        last is None ==> r@ == clean_name(name@),
{
}

/// The part of a path behind its last slash names the file.
pub proof fn law_cleaning_a_path(name: &str, dir: Seq<char>, c: Seq<char>, r: String)
    requires
        call_ensures(sanitize_name, (name,), r),
        name@ == dir + seq!['/'] + c,
        c.len() > 0,
        c != "."@,
        c != ".."@,
        !name@.contains('\\'),
        !c.contains('/'),
        dir.len() > 1 ==> dir[1] != ':' && !(dir[0] == '/' && dir[1] == '/'),
        dir.len() == 1 ==> dir[0] != '/',
        dir.len() == 0 ==> c[0] != ':',
    ensures
        r@ == clean_name(c),
{
    law_last_component_names_the_file(dir, c, r@);
}

// ---------------------------------------------------------------- a running download

/// A round stops a download that was canceled or failed, or that has neither work nor
/// workers. Otherwise the parts that wait are handed out in their order, as many as
/// workers are missing.
pub proof fn law_going_round(
    s: &mut Session,
    c: &mut Controller,
    cfg: &Config,
    now: u64,
    canceled: bool,
    bytes: i64,
    r: Round,
)
    requires
        call_ensures(round, (s, c, cfg, now, canceled, bytes), r),
        old(s)@.wf(),
        old(c).climb_fits(*cfg),
        old(s).parts@.len() + final(c).target <= usize::MAX,
    ensures
        canceled || old(s).stopped || old(s).first_err is Some ==> r is Stop && final(s).parts@
            == old(s).parts@ && *final(c) == *old(c),
        !canceled && !old(s).stopped && old(s).first_err is None ==> (r is Stop
            <==> final(s).running == 0 && final(s).queue@.len() == 0),
        r matches Round::Go { jobs, sample, grew } ==> {
            &&& final(s).running == old(s).running + jobs@.len()
            &&& jobs@.len() > 0 ==> final(s).running <= final(c).target
            &&& forall|k: int|
                0 <= k < jobs@.len() && k < old(s).queue@.len() ==> #[trigger] jobs@[k]
                    == old(s).queue@[k]
            &&& sample is Some <==> now >= old(c).rate_time + 500000000
            &&& sample matches Some(x) ==> i64::MIN <= bytes - old(c).rate_bytes <= i64::MAX
                ==> x.bytes == bytes - old(c).rate_bytes && x.nanos == now - old(c).rate_time
                && x.active == old(s).running
            &&& grew is Some <==> cfg.adaptive_threads && now >= old(c).last_climb + 2000000000
                && old(c).target < cfg.max_threads
        },
{
    assert(old(s)@.parts == old(s).parts@ && final(s)@.parts == final(s).parts@);
    assert(old(s)@.queue == old(s).queue@ && final(s)@.queue == final(s).queue@);
    assert(old(s)@.running == old(s).running && final(s)@.running == final(s).running);
    if let Round::Go { jobs, sample, grew } = r {
        let (target, min) = (final(c).target as int, cfg.min_part_size as int);
        law_jobs_are_handed_out_in_order(old(s)@, target, min);
        let all = old(s)@.jobs(target, min);
        assert(all.len() == jobs@.len());
        assert forall|k: int| 0 <= k < jobs@.len() && k < old(s).queue@.len() implies
            #[trigger] jobs@[k] == old(s).queue@[k] by {
            assert(all[k] == jobs@[k] as int);
        }
    }
}

/// What is done with the connection of a part: nothing happens to its range and its
/// position, a cancellation comes first, then a pause, then the end of the range.
pub proof fn law_asking_a_pump(
    pump: &mut Pump,
    part: &mut Part,
    canceled: bool,
    paused: bool,
    now: u64,
    step: PumpStep,
)
    requires
        call_ensures(Pump::next, (pump, part, canceled, paused, now), step),
        old(pump).wf(),
        old(part).wf(),
    ensures
        final(part).from == old(part).from && final(part).to == old(part).to && final(part).current
            == old(part).current,
        final(pump).pending == old(pump).pending && final(pump).off == old(pump).off,
        canceled ==> (step matches PumpStep::Fail(e) && e.kind == ErrorKind::Canceled),
        !canceled && paused ==> step is Rest,
        !canceled && !paused && old(part).current > old(part).to ==> step is Finish,
        !canceled && !paused && old(part).current <= old(part).to ==> {
            let room = old(part).safe_zone + 1 - old(part).current;
            let left = old(pump).pending@.len() - old(pump).off;
            &&& room <= 0 ==> step is Again && final(part).safe_zone > old(part).safe_zone
            &&& room > 0 && left == 0 ==> step is Fetch
            &&& room > 0 && left > 0 ==> (step matches PumpStep::Write { n } && n <= room && n
                <= left && (n == room || n == left))
        },
{
    law_pump_decides(*old(pump), *old(part), canceled, paused, now, step);
}

/// A write is noted in the part and in the counter alike.
pub proof fn law_noting_a_write(
    s: &mut Session,
    m: &mut Meter,
    i: usize,
    pump: &mut Pump,
    n: usize,
    k: int,
)
    requires
        call_ensures(note_write, (s, m, i, pump, n), ()),
        old(s)@.wf(),
        old(s)@.is_active(i as int),
        n <= old(pump).writable(old(s).parts@[i as int]),
        old(m).downloaded + n <= i64::MAX,
        0 <= k < old(s).parts@.len(),
    ensures
        final(m).downloaded == old(m).downloaded + n,
        final(s).parts@.len() == old(s).parts@.len(),
        final(s).parts@[i as int].current == old(s).parts@[i as int].current + n,
        final(s).parts@[i as int].from == old(s).parts@[i as int].from,
        final(s).parts@[i as int].to == old(s).parts@[i as int].to,
        k != i ==> final(s).parts@[k] == old(s).parts@[k],
        final(s).running == old(s).running,
{
    assert(old(s)@.parts == old(s).parts@ && final(s)@.parts == final(s).parts@);
    assert(final(s)@.running == final(s).running);
    assert(fit_for(old(s)@.parts[i as int], old(s)@.phases[i as int]));
}

/// A session starts with the parts that it was given, and nobody at work.
pub proof fn law_starting_a_session(total: i64, parts: Vec<Part>, s: Session, i: int)
    requires
        call_ensures(Session::new, (total, parts), s),
        0 <= i < parts@.len() <= usize::MAX,
    ensures
        s.total == total && s.parts@ == parts@,
        s.running == 0 && s.first_err is None && !s.stopped,
        s.queue@.contains(i as usize) <==> parts@[i].current <= parts@[i].to,
        forall|k: int, l: int|
            0 <= k < l < s.queue@.len() ==> #[trigger] s.queue@[k] < #[trigger] s.queue@[l],
{
    assert(s@.parts == s.parts@ && s@.queue == s.queue@ && s@.running == s.running);
    assert(s@.first_err == s.first_err && s@.stopped == s.stopped && s@.total == s.total);
    law_session_starts_with_what_is_open(total as int, parts@, i);
}

/// The speed is measured over what has come since the last time, every half second; the
/// workers become more every two seconds, up to the limit.
pub proof fn law_measuring_and_growing(
    c: &mut Controller,
    now: u64,
    bytes: i64,
    r: Option<(i64, u64)>,
    d: &mut Controller,
    cfg: &Config,
    grew: Option<usize>,
)
    requires
        call_ensures(Controller::sample, (c, now, bytes), r),
        call_ensures(Controller::climb, (d, now, cfg), grew),
        i64::MIN <= bytes - old(c).rate_bytes <= i64::MAX,
        old(d).climb_fits(*cfg),
    ensures
        r is Some <==> now >= old(c).rate_time + 500000000,
        r matches Some((x, t)) ==> x == bytes - old(c).rate_bytes && t == now - old(c).rate_time
            && final(c).rate_time == now && final(c).rate_bytes == bytes,
        final(c).target == old(c).target,
        grew is Some <==> cfg.adaptive_threads && now >= old(d).last_climb + 2000000000
            && old(d).target < cfg.max_threads,
        grew matches Some(n) ==> final(d).target == n && old(d).target < n <= cfg.max_threads,
        grew is None ==> final(d).target == old(d).target,
{
    law_workers_grow(*old(d), now, *cfg);
}

/// Recorded parts go on in their order; one that does not fit into the file is left out.
pub proof fn law_going_on(
    states: &[PartState],
    size: i64,
    parts: Vec<Part>,
    front: Seq<PartState>,
    ps: PartState,
)
    requires
        call_ensures(restore, (states, size), parts),
        states@ == front.push(ps),
        0 <= ps.from <= ps.current,
        ps.from <= ps.to < size,
    ensures
        parts@.len() > 0,
        parts@.last().from == ps.from && parts@.last().to == ps.to,
        parts@.last().current == (if ps.current > ps.to {
            ps.to + 1
        } else {
            ps.current as int
        }),
{
    law_recorded_parts_go_on(front, ps, size as int);
}

/// A fresh start covers the file with parts that have read nothing.
pub proof fn law_starting_afresh(
    size: i64,
    min_part_size: i64,
    count: usize,
    parts: Vec<Part>,
    i: int,
)
    requires
        call_ensures(fresh_parts, (size, min_part_size, count), parts),
        size > 0,
    ensures
        tiles(parts@, size as int),
        parts@.len() >= 1 && (parts@.len() <= count || parts@.len() == 1),
        size <= min_part_size ==> parts@.len() == 1,
        0 <= i < parts@.len() ==> parts@[i].current == parts@[i].from,
{
    law_fresh_parts_tile(size, min_part_size, count);
    law_number_of_fresh_parts(size, min_part_size, count);
    if 0 <= i < parts@.len() {
        assert(fresh(size as int, min_part_size as int, count as int)[i] == parts@[i]);
    }
}

/// The built-in parameters, and those of the extreme mode.
pub proof fn law_built_in_modes(d: Config, x: Config)
    requires
        call_ensures(Config::default, (), d),
        call_ensures(Config::extreme, (), x),
    ensures
        d.initial_threads == 32 && d.max_threads == 32 && d.min_part_size == 1048576
            && d.max_retries == 10 && d.max_speed == 0,
        d.idle_timeout.nanos == 15000000000 && d.retry_delay.nanos == 1000000000,
        x.initial_threads == 128 && x.max_threads == 128 && x.min_part_size == d.min_part_size
            && x.max_retries == d.max_retries && x.max_speed == 0,
        x.idle_timeout == d.idle_timeout && x.retry_delay == d.retry_delay,
{
    assert(d@.initial_threads == d.initial_threads && x@.initial_threads == x.initial_threads);
    assert(d@.max_threads == d.max_threads && x@.max_threads == x.max_threads);
}

/// An error is shown as its operation, a colon and a blank, and its message.
pub proof fn law_showing_errors(e: &Error, s: String, c: Error, slow: Error)
    requires
        call_ensures(Error::to_string, (e,), s),
        call_ensures(Error::canceled, (), c),
        call_ensures(Error::slow, (), slow),
    ensures
        s@ == e.op@ + seq![':', ' '] + e.message@,
        c.kind == ErrorKind::Canceled,
        slow.kind == ErrorKind::Slow,
{
    law_errors_say_what_happened(e.op@, e.message@);
    reveal_strlit(": ");
    assert(": "@ =~= seq![':', ' ']);
}

/// The safe zone moves forward by at most a mebibyte, never past the end, and moves
/// whenever something is left beyond it.
pub proof fn law_moving_the_safe_zone(p: &mut Part, moved: bool)
    requires
        call_ensures(Part::extend_safe_zone, (p,), moved),
        old(p).wf(),
    ensures
        final(p).from == old(p).from && final(p).to == old(p).to && final(p).current
            == old(p).current,
        old(p).safe_zone <= final(p).safe_zone <= old(p).to,
        final(p).safe_zone - old(p).safe_zone <= 1048576,
        moved <==> final(p).safe_zone > old(p).safe_zone,
        old(p).current <= old(p).to && old(p).safe_zone < old(p).to ==> moved,
        old(p).to - old(p).safe_zone >= 1048576 && old(p).to - old(p).current >= 1048576
            ==> final(p).safe_zone == old(p).safe_zone + 1048576,
{
    law_safe_zone_moves_by_steps(*old(p));
}

} // verus!
