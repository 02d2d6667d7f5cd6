use downloadcore::assemble::{assembly_plan, parts_for_assemble, Assembly, PieceCopy, WriteAt};
use downloadcore::cabi::{
    collect_headers, config_from, default_settings, ending_to_c, given_text, level_to_c,
    status_to_c, Ending, Settings,
};
use downloadcore::cli::{
    direct_address, is_selftest, server_arguments, typed_address, wants_version, Ticker,
};
use downloadcore::clock::{civil_from_days, fmt_stamp, fmt_utc, log_line};
use downloadcore::config::{Config, Mode, Span, DEFAULT_USER_AGENT};
use downloadcore::engine::{
    check_request, choose_target, conclude, known_size, last_progress, marker_path, name_wanted,
    needs_single_stream, parts_result, whole_result, worker_threads, Controller, Meter, RunEvent,
    Stage, Target,
};
use downloadcore::client::ProbeInfo;
use downloadcore::errors::{fatal, retryable, Error, ErrorKind};
use downloadcore::number::{read_integer, read_natural};
use downloadcore::part::{Part, SAFETY_STEP};
use downloadcore::serve::{
    answer, head_line_is_countable, parse_range, pattern, read_head_line, suffix_is_countable,
    HeadLine,
};
use downloadcore::session::Verdict;
use downloadcore::split::split_to_range;
use downloadcore::types::{Request, Status};

fn strings(v: &[&str]) -> Vec<String> {
    v.iter().map(|s| s.to_string()).collect()
}

// ---------------------------------------------------------------- parts

#[test]
fn safe_zone_moves_by_steps() {
    let mut p = Part::new(0, 3 * SAFETY_STEP / 2 - 1);
    assert_eq!(p.safe_zone, -1);
    assert!(p.extend_safe_zone());
    assert_eq!(p.safe_zone, SAFETY_STEP - 1);
    assert!(p.extend_safe_zone());
    assert_eq!(p.safe_zone, p.to);
    assert!(!p.extend_safe_zone());
    p.advance(3 * SAFETY_STEP / 2);
    assert!(p.done());
    assert!(!p.extend_safe_zone());
}

#[test]
fn reading_moves_the_safe_zone_on_demand() {
    let mut p = Part::new(0, 2 * SAFETY_STEP - 1);
    assert_eq!(p.how_much_can_read(10), SAFETY_STEP);
    p.advance(SAFETY_STEP - 4);
    assert_eq!(p.how_much_can_read(4), 4);
    assert_eq!(p.how_much_can_read(5), SAFETY_STEP + 4);
    assert_eq!(p.splittable_delta(), 0);
}

#[test]
fn split_leaves_read_bytes_alone() {
    let mut p = Part::new_with(0, 4 * SAFETY_STEP - 1, SAFETY_STEP);
    assert_eq!(p.splittable_delta(), 3 * SAFETY_STEP);
    let q = p.split_at_least(1).unwrap();
    assert_eq!(p.current, SAFETY_STEP);
    assert_eq!(p.to + 1, q.from);
    assert_eq!(q.current, q.from);
    assert_eq!(p.to, SAFETY_STEP - 1 + 3 * SAFETY_STEP / 2);
    assert!(p.split_at_least(2 * SAFETY_STEP).is_none());
}

#[test]
fn nothing_to_split() {
    assert!(split_to_range(0, 1, 4).is_empty());
    assert!(split_to_range(-5, 1, 4).is_empty());
    assert_eq!(split_to_range(5, 0, 0), vec![(0, 4)]);
}

#[test]
fn largest_sizes_are_split() {
    let m = i64::MAX;
    assert_eq!(split_to_range(m, m, 4), vec![(0, m - 1)]);
    assert_eq!(split_to_range(m, m - 1, usize::MAX), vec![(0, m / 2), (m / 2 + 1, m - 1)]);
    assert_eq!(split_to_range(4, 1, usize::MAX).len(), 4);
}

#[test]
fn enough_to_read_takes_no_step() {
    // a step from here could not be computed, and none is needed
    let mut p = Part { from: 0, to: i64::MAX, current: 0, safe_zone: 9 };
    assert_eq!(p.how_much_can_read(10), 10);
    assert_eq!(p.safe_zone, 9);
}

// ---------------------------------------------------------------- assembly

#[test]
fn pieces_are_sorted_by_start() {
    let parts = [
        Part::new_with(50, 59, 60),
        Part::new_with(0, 49, 50),
        Part::new(60, 69),
    ];
    let v = parts_for_assemble(&parts);
    assert_eq!(v, vec![(0, 50), (50, 10), (60, 0)]);
    match assembly_plan(&v, Some(50)) {
        Assembly::Concat { pieces } => assert_eq!(pieces, vec![(0, 50), (50, 10)]),
        p => panic!("{p:?}"),
    }
    assert!(matches!(assembly_plan(&[(0, 7)], Some(7)), Assembly::Rename { from: 0 }));
    assert!(matches!(assembly_plan(&[(5, 7)], Some(7)), Assembly::Concat { .. }));
    assert!(matches!(assembly_plan(&[(0, 7)], None), Assembly::Concat { .. }));
}

#[test]
fn surplus_bytes_are_not_taken() {
    // five bytes were downloaded into a file of eight
    let file = b"hello\0\0\0";
    match assembly_plan(&[(0, 5)], Some(file.len() as i64)) {
        Assembly::Concat { pieces } => {
            assert_eq!(pieces, vec![(0, 5)]);
            assert_eq!(PieceCopy::new(pieces[0].1).want(1 << 20), Some(5));
        }
        p => panic!("{p:?}"),
    }
}

#[test]
fn pieces_are_copied_in_bites() {
    let mut c = PieceCopy::new(10);
    assert_eq!(c.want(4), Some(4));
    assert!(c.copied(4));
    assert!(c.copied(4));
    assert_eq!(c.want(4), Some(2));
    assert!(!c.copied(2));
    assert_eq!(c.want(4), None);
    assert!(!PieceCopy::new(5).copied(0));
}

#[test]
fn writes_at_an_offset_go_on() {
    let mut w = WriteAt::new(5, 100);
    assert_eq!(w.next(), Some((0, 100)));
    assert!(w.wrote(3));
    assert_eq!(w.next(), Some((3, 103)));
    assert!(!w.wrote(0));
    assert!(w.wrote(2));
    assert_eq!(w.next(), None);
}

// ---------------------------------------------------------------- parameters

#[test]
fn default_parameters() {
    let c = Config::default();
    assert_eq!((c.initial_threads, c.max_threads), (32, 32));
    assert_eq!(c.min_part_size, 1 << 20);
    assert_eq!(c.buffer_size, 256 << 10);
    assert_eq!(c.idle_timeout, Span::from_secs(15));
    assert_eq!(c.retry_delay, Span::from_millis(1000));
    assert_eq!(c.max_retries, 10);
    assert_eq!((c.temp_dir.as_str(), c.incomplete_suffix.as_str()), (".download-temp", ".part"));
    assert_eq!(c.user_agent, DEFAULT_USER_AGENT);
    assert_eq!((c.max_speed, c.os_priority, c.mode), (0, true, Mode::Normal));
    let x = Config::extreme();
    assert_eq!((x.initial_threads, x.max_threads, x.mode), (128, 128, Mode::Extreme));
}

#[test]
fn odd_parameters_are_mended() {
    let mut c = Config::default();
    c.initial_threads = 0;
    c.max_threads = 0;
    c.buffer_size = 0;
    c.min_part_size = -1;
    c.retry_delay = Span::from_secs(0);
    c.temp_dir = String::new();
    c.incomplete_suffix = String::new();
    c.user_agent = String::new();
    let n = c.normalized();
    assert_eq!((n.initial_threads, n.max_threads), (1, 1));
    assert_eq!((n.buffer_size, n.min_part_size), (256 << 10, 1 << 20));
    assert_eq!(n.retry_delay, Span::from_secs(1));
    assert_eq!(n.temp_dir, ".download-temp");
    assert_eq!(n.incomplete_suffix, ".part");
    assert_eq!(n.user_agent, DEFAULT_USER_AGENT);
    let again = n.clone().normalized();
    assert_eq!(format!("{n:?}"), format!("{again:?}"));
    assert_eq!(Span::from_millis(1500).as_millis(), 1500);
}

#[test]
fn settings_override_the_defaults() {
    let d = config_from(Some(default_settings()));
    assert_eq!(format!("{d:?}"), format!("{:?}", config_from(None)));
    let s = Settings {
        initial_threads: 3,
        max_threads: 0,
        min_part_size: -1,
        buffer_size: 10,
        idle_timeout_ms: 250,
        max_retries: 0,
        retry_delay_ms: -5,
        temp_dir: Some("t".to_string()),
        incomplete_suffix: None,
        user_agent: Some("ua".to_string()),
        max_speed: 9,
    };
    let c = config_from(Some(s));
    assert_eq!((c.initial_threads, c.max_threads), (3, 32));
    assert_eq!((c.min_part_size, c.buffer_size), (1 << 20, 10));
    assert_eq!(c.idle_timeout, Span::from_millis(250));
    assert_eq!(c.max_retries, 0);
    assert_eq!(c.retry_delay, Span::from_secs(1));
    assert_eq!((c.temp_dir.as_str(), c.incomplete_suffix.as_str()), ("t", ".part"));
    assert_eq!((c.user_agent.as_str(), c.max_speed), ("ua", 9));
}

#[test]
fn c_numbers() {
    let all = [
        Status::Pending,
        Status::Probing,
        Status::Downloading,
        Status::Assembling,
        Status::Completed,
        Status::Failed,
        Status::Canceled,
    ];
    let names = [
        "pending", "probing", "downloading", "assembling", "completed", "failed", "canceled",
    ];
    for (i, s) in all.iter().enumerate() {
        assert_eq!(status_to_c(*s), i as i32);
        assert_eq!(s.as_str(), names[i]);
    }
    let levels: Vec<i32> =
        ["DEBUG", "INFO", "WARN", "ERROR", "other"].iter().map(|l| level_to_c(l)).collect();
    assert_eq!(levels, vec![0, 1, 2, 3, 1]);
    let endings: Vec<i32> =
        [Ending::Done, Ending::Failed, Ending::Crashed].iter().map(|e| ending_to_c(*e)).collect();
    assert_eq!(endings, vec![0, 1, 2]);
}

#[test]
fn progress_is_shown_once_a_second() {
    let mut t = Ticker::new(10);
    assert!(!t.line_due(1_000_000_009));
    assert!(t.line_due(1_000_000_010));
    assert!(!t.line_due(1_000_000_011));
    assert!(!t.line_due(5));
    assert!(t.line_due(2_500_000_000));
    assert_eq!(t.last_line, 2_500_000_000);
}

#[test]
fn empty_headers_are_left_out() {
    let some = |s: &str| Some(s.to_string());
    let h = collect_headers(
        &[some("a"), None, some("c"), some(""), some("e")],
        &[some("1"), some("2"), None, some("4"), some("")],
    );
    assert_eq!(h, vec![("a".to_string(), "1".to_string())]);
    assert_eq!(given_text(some("")), None);
    assert_eq!(given_text(some("x")), some("x"));
    assert_eq!(given_text(None), None);
}

// ---------------------------------------------------------------- the engine's decisions

fn info(size: i64, range_ok: bool) -> ProbeInfo {
    ProbeInfo {
        size,
        range_ok,
        etag: String::new(),
        last_modified: String::new(),
        file_name: String::new(),
    }
}

#[test]
fn requests_need_an_address() {
    assert!(check_request("x").is_ok());
    assert_eq!(check_request("").unwrap_err().to_string(), "request: URL 为空");
    let r = Request::default();
    assert!(r.url.is_empty() && r.target_file.is_none() && r.target_dir.is_none());
    assert!(r.headers.is_empty() && r.mirrors.is_empty());
    assert!(r.cancel.is_none() && r.pause.is_none());
}

#[test]
fn small_decisions() {
    let mut c = Config::default();
    let threads: Vec<usize> = [1, 4, 32, 64, 65]
        .iter()
        .map(|n| {
            c.max_threads = *n;
            worker_threads(&c)
        })
        .collect();
    assert_eq!(threads, vec![4, 4, 32, 64, 64]);
    assert_eq!(known_size(&info(-1, true)), 0);
    assert_eq!(known_size(&info(7, true)), 7);
    assert!(!needs_single_stream(&info(7, true)));
    assert!(needs_single_stream(&info(0, true)));
    assert!(needs_single_stream(&info(7, false)));
    assert_eq!(marker_path("/x/out.bin", ".part"), "/x/out.bin.part");
}

#[test]
fn target_is_chosen() {
    let some = |s: &str| Some(s.to_string());
    assert!(matches!(
        choose_target(&some("/f"), &some("d"), "n", "http://h/u"),
        Target::File(f) if f == "/f"
    ));
    let in_dir = |t: Target| match t {
        Target::InDir { dir, name } => (dir, name),
        Target::File(f) => panic!("{f}"),
    };
    assert_eq!(
        in_dir(choose_target(&None, &some("d"), "a:b", "http://h/u")),
        ("d".to_string(), "a_b".to_string())
    );
    assert_eq!(
        in_dir(choose_target(&some(""), &some(""), "", "http://h/dir/u%20v.zip")),
        (".".to_string(), "u v.zip".to_string())
    );
    assert_eq!(
        in_dir(choose_target(&None, &None, "", "http://h/")),
        (".".to_string(), "download.bin".to_string())
    );
    assert_eq!(name_wanted("", "http://h/"), "download.bin");
    assert_eq!(name_wanted("n", "http://h/u"), "n");
}

#[test]
fn number_of_workers_climbs() {
    let mut cfg = Config::default();
    cfg.initial_threads = 0;
    cfg.max_threads = 12;
    let mut c = Controller::new(&cfg, 0);
    assert_eq!(c.target, 1);
    let mut now = 0;
    let mut seen = Vec::new();
    for _ in 0..14 {
        now += 2_000_000_000;
        assert_eq!(c.climb(now - 1, &cfg), None);
        seen.push(c.climb(now, &cfg));
    }
    let grown: Vec<usize> = seen.iter().flatten().copied().collect();
    assert_eq!(grown, vec![2, 3, 4, 5, 6, 7, 8, 10, 12]);
    assert_eq!(seen.last(), Some(&None));
    cfg.adaptive_threads = false;
    assert_eq!(Controller::new(&cfg, 0).target, 12);
    assert_eq!(Controller::new(&cfg, 0).climb(9_000_000_000, &cfg), None);
}

#[test]
fn speed_is_measured_and_progress_saved_in_time() {
    let mut c = Controller::new(&Config::default(), 100);
    assert_eq!(c.sample(499_999_999, 10), None);
    assert_eq!(c.sample(500_000_100, 10), Some((10, 500_000_000)));
    assert_eq!(c.sample(1_100_000_100, 4), Some((-6, 600_000_000)));
    assert!(!c.save_due(1_000_000_099));
    assert!(c.save_due(1_000_000_100));
    assert!(!c.save_due(1_000_000_101));
    // a clock that goes back has not moved
    assert!(!c.save_due(5));
}

#[test]
fn progress_is_reported_in_time() {
    let mut m = Meter::new(0);
    m.count(10);
    assert_eq!(m.report(199_999_999), None);
    assert_eq!(m.report(200_000_000), Some((10, 200_000_000)));
    m.count(5);
    assert_eq!(m.report(300_000_000), None);
    m.restart();
    assert_eq!(m.downloaded, 0);
    assert_eq!(m.report(400_000_000), Some((-10, 200_000_000)));
}

#[test]
fn results_are_put_together() {
    let (e, r) = conclude(Verdict::Failed(fatal("a", "b".to_string())));
    assert_eq!((e, r.unwrap_err().kind), (RunEvent::WorkersFailed, ErrorKind::Fatal));
    let (e, r) = conclude(Verdict::Canceled);
    assert_eq!((e, r.unwrap_err().kind), (RunEvent::WorkersCanceled, ErrorKind::Canceled));
    let (e, r) = conclude(Verdict::Complete);
    assert!(e == RunEvent::WorkersDone && r.is_ok());
    assert!(!e.saves_record());
    assert!(RunEvent::WorkersFailed.saves_record() && RunEvent::WorkersCanceled.saves_record());
    for e in [
        RunEvent::Started,
        RunEvent::ProbeFailed,
        RunEvent::Ready { single: false },
        RunEvent::Loaded,
        RunEvent::LoadFailed,
        RunEvent::Assembled,
        RunEvent::AssemblyFailed,
    ] {
        assert!(!e.saves_record());
    }
    let p = last_progress(9, 3, 2);
    assert_eq!((p.downloaded, p.total, p.speed, p.parts), (9, 9, 3, 2));
    let r = parts_result("p".to_string(), 9, 4, 3, 2);
    assert_eq!((r.path.as_str(), r.size, r.speed, r.parts, r.range_ok), ("p", 9, 3, 2, true));
    assert_eq!(parts_result("p".to_string(), 0, 4, 3, 2).size, 4);
    let r = whole_result("p".to_string(), 9, 4, 3);
    assert_eq!((r.size, r.speed, r.parts, r.range_ok), (9, 3, 0, false));
    assert_eq!(whole_result("p".to_string(), 9, 40, 3).size, 40);
}

fn told(events: &[RunEvent]) -> Vec<Status> {
    let mut stage = Stage::new();
    events.iter().filter_map(|e| stage.advance(*e)).collect()
}

#[test]
fn status_comes_in_order() {
    let parts = [RunEvent::Started, RunEvent::Ready { single: false }];
    let with = |more: &[RunEvent]| {
        let mut all = parts.to_vec();
        all.extend_from_slice(more);
        told(&all)
    };
    assert_eq!(
        with(&[RunEvent::WorkersDone, RunEvent::Assembled]),
        vec![Status::Probing, Status::Downloading, Status::Assembling, Status::Completed]
    );
    assert_eq!(
        with(&[RunEvent::WorkersCanceled, RunEvent::WorkersDone]),
        vec![Status::Probing, Status::Downloading, Status::Canceled]
    );
    assert_eq!(
        with(&[RunEvent::WorkersFailed]),
        vec![Status::Probing, Status::Downloading, Status::Failed]
    );
    assert_eq!(
        with(&[RunEvent::WorkersDone, RunEvent::AssemblyFailed]),
        vec![Status::Probing, Status::Downloading, Status::Assembling, Status::Failed]
    );
    // what belongs to a single connection does not happen to parts
    assert_eq!(with(&[RunEvent::Loaded, RunEvent::LoadFailed]).len(), 2);
    let single = RunEvent::Ready { single: true };
    assert_eq!(
        told(&[RunEvent::Started, single, RunEvent::WorkersDone, RunEvent::Loaded]),
        vec![Status::Probing, Status::Downloading, Status::Completed]
    );
    assert_eq!(
        told(&[RunEvent::Started, single, RunEvent::LoadFailed]),
        vec![Status::Probing, Status::Downloading, Status::Failed]
    );
    assert_eq!(
        told(&[RunEvent::Started, RunEvent::ProbeFailed, single]),
        vec![Status::Probing, Status::Failed]
    );
    assert!(told(&[single, RunEvent::Assembled]).is_empty());
}

#[test]
fn errors_have_kinds_and_texts() {
    assert!(retryable("a", "b".to_string()).is_retryable());
    assert!(!fatal("a", "b".to_string()).is_retryable());
    assert_eq!(retryable("a", "b".to_string()).to_string(), "a: b");
    assert_eq!(Error::canceled().to_string(), "cancel: 已取消");
    assert_eq!(Error::slow().to_string(), "slow: ");
}

// ---------------------------------------------------------------- dates

#[test]
fn dates_of_days() {
    assert_eq!(civil_from_days(0), (1970, 1, 1));
    assert_eq!(civil_from_days(-1), (1969, 12, 31));
    assert_eq!(civil_from_days(11016), (2000, 2, 29));
    assert_eq!(civil_from_days(19782), (2024, 2, 29));
    assert_eq!(civil_from_days(-719468), (0, 3, 1));
    assert_eq!(civil_from_days(-719469), (0, 2, 29));
    assert_eq!(civil_from_days(47541), (2100, 3, 1));
    assert_eq!(civil_from_days(47540), (2100, 2, 28));
}

#[test]
fn days_follow_each_other() {
    let mut last = civil_from_days(-800_000);
    for z in -799_999..-700_000 {
        let next = civil_from_days(z);
        assert!(next > last);
        assert!(next.2 == last.2 + 1 || next.2 == 1);
        last = next;
    }
}

#[test]
fn moments_are_written() {
    assert_eq!(fmt_utc(0, 0), "1970-01-01 00:00:00.000");
    assert_eq!(fmt_utc(1709210096, 7), "2024-02-29 12:34:56.007");
    assert_eq!(fmt_stamp(1709210096), "20240229-123456");
    assert_eq!(log_line("T", "WARN", "m"), "T [WARN ] m");
    assert_eq!(log_line("T", "DEBUG", "m"), "T [DEBUG] m");
    assert_eq!(log_line("T", "LONGER", "m"), "T [LONGER] m");
}

// ---------------------------------------------------------------- the trial server

#[test]
fn ranges_are_parsed() {
    assert_eq!(parse_range("bytes=0-9", 100), Some((0, 9)));
    assert_eq!(parse_range("bytes=10-", 100), Some((10, 99)));
    assert_eq!(parse_range("bytes=-30", 100), Some((70, 99)));
    assert_eq!(parse_range("bytes=-300", 100), Some((0, 99)));
    assert_eq!(parse_range("bytes= 5 - 500 ", 100), Some((5, 99)));
    assert_eq!(parse_range("items=0-9", 100), None);
    assert_eq!(parse_range("bytes=09", 100), None);
    assert_eq!(parse_range("bytes=x-9", 100), None);
    assert_eq!(parse_range("bytes=0-y", 100), None);
    assert_eq!(parse_range("bytes=-", 100), None);
    assert_eq!(parse_range("bytes=--5", 100), Some((105, 99)));
    assert!(suffix_is_countable("bytes=-5", 100));
    assert!(suffix_is_countable("bytes=0-9223372036854775807", 100));
    assert!(!suffix_is_countable("bytes=--9223372036854775808", 100));
    assert!(!head_line_is_countable("Range: bytes=--9223372036854775800\n", 100));
    assert!(head_line_is_countable("X: bytes=--9223372036854775800\n", 100));
}

#[test]
fn head_lines_are_read() {
    assert!(matches!(read_head_line("", 10), HeadLine::End));
    assert!(matches!(read_head_line("\r\n", 10), HeadLine::End));
    assert!(matches!(read_head_line("\n", 10), HeadLine::End));
    assert!(matches!(read_head_line("Host: x\r\n", 10), HeadLine::Other));
    assert!(matches!(
        read_head_line("RANGE:  Bytes=2-5\r\n", 10),
        HeadLine::Range(Some((2, 5)))
    ));
    assert!(matches!(read_head_line("Range: none\r\n", 10), HeadLine::Range(None)));
}

#[test]
fn answers_are_written() {
    let a = answer(Some((2, 50)), 10);
    assert_eq!(
        a.head,
        "HTTP/1.1 206 Partial Content\r\nAccept-Ranges: bytes\r\nContent-Range: bytes 2-9/10\r\n\
         Content-Length: 8\r\nConnection: close\r\n\r\n"
    );
    assert_eq!((a.from, a.until), (2, 10));
    let whole = "HTTP/1.1 200 OK\r\nAccept-Ranges: none\r\nContent-Length: 10\r\nConnection: close\r\n\r\n";
    for range in [None, Some((10, 20)), Some((5, 4))] {
        let a = answer(range, 10);
        assert_eq!(a.head, whole);
        assert_eq!((a.from, a.until), (0, 10));
    }
    let data = pattern(300);
    assert_eq!(data.len(), 300);
    assert_eq!((data[0], data[1], data[10]), (7, 38, 61));
}

// ---------------------------------------------------------------- command lines

#[test]
fn arguments_are_understood() {
    assert!(wants_version(&strings(&["x", "-V"])));
    assert!(wants_version(&strings(&["--version"])));
    assert!(!wants_version(&strings(&["-version", "v"])));
    assert_eq!(direct_address(&strings(&["-x", "u", "w"])), Some(1));
    assert_eq!(direct_address(&strings(&["-x"])), None);
    assert_eq!(direct_address(&strings(&[""])), Some(0));
    assert!(is_selftest("SelfTest"));
    assert!(!is_selftest("selftests"));
    assert_eq!(typed_address("  http://x \n").as_deref(), Some("http://x"));
    assert_eq!(typed_address(" \n"), None);
    assert_eq!(server_arguments(&[]), (64, 2121));
    assert_eq!(server_arguments(&strings(&["8", "80"])), (8, 80));
    assert_eq!(server_arguments(&strings(&["x", "65536"])), (64, 2121));
    assert_eq!(server_arguments(&strings(&["+1", "-1"])), (1, 2121));
}

#[test]
fn integers_are_read() {
    let read = |s: &str| read_integer(&s.chars().collect::<Vec<_>>());
    assert_eq!(read("0"), Some(0));
    assert_eq!(read("+7"), Some(7));
    assert_eq!(read("-9223372036854775808"), Some(i64::MIN));
    assert_eq!(read("9223372036854775807"), Some(i64::MAX));
    assert_eq!(read("9223372036854775808"), None);
    assert_eq!(read("-9223372036854775809"), None);
    for s in ["", "-", "+", "1x", " 1", "--1", "99999999999999999999999"] {
        assert_eq!(read(s), None);
    }
    let max: Vec<char> = "18446744073709551615".chars().collect();
    assert_eq!(read_natural(&max, u64::MAX), Some(u64::MAX));
    assert_eq!(read_natural(&max, u64::MAX - 1), None);
}
