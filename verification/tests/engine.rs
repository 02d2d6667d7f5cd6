//! Whole downloads, driven in memory: a server that can be told to misbehave, workers
//! that take turns, and a clock that only moves when they do.
use downloadcore::assemble::{assembly_plan, parts_for_assemble, Assembly, PieceCopy};
use downloadcore::client::{
    adopts_mirror, check_plain_response, check_range_response, mirror_is_given, probe_headers,
    request_headers, ProbeAnswer, ProbeInfo, SourcePool,
};
use downloadcore::config::{Config, Span};
use downloadcore::engine::{
    check_request, conclude, known_size, needs_single_stream, note_write, parts_result, round,
    whole_result, Controller, Meter, Round, RunEvent, Stage,
};
use downloadcore::errors::{Error, ErrorKind};
use downloadcore::pump::{Chunk, Pump, PumpStep, RateTest};
use downloadcore::serve::{answer, read_head_line, HeadLine};
use downloadcore::session::Session;
use downloadcore::store::{prepare_parts, snapshot, ResumeState};
use downloadcore::types::{DownloadResult, Status};
use downloadcore::util::pad_from;
use downloadcore::worker::{
    file_length, part_attempt, whole_next, whole_received, AfterAttempt, ConnectStep, Reconnect,
    Retry, RetryStep, WholeStep,
};
use std::collections::HashMap;

// ---------------------------------------------------------------- the server

struct Server {
    url: String,
    data: Vec<u8>,
    etag: String,
    no_range: bool,
    fail_range: bool,
    stall_after: usize,
    /// bytes per second of each connection; 0 means as fast as possible
    speed: u64,
    hits: usize,
}

struct Response {
    status: u16,
    content_range: String,
    accept_ranges: String,
    body: Vec<u8>,
}

impl Server {
    fn new(url: &str, data: Vec<u8>) -> Self {
        Server {
            url: url.to_string(),
            data,
            etag: "\"v1\"".to_string(),
            no_range: false,
            fail_range: false,
            stall_after: 0,
            speed: 0,
            hits: 0,
        }
    }

    fn get(&mut self, headers: &[(String, String)]) -> Response {
        self.hits += 1;
        let size = self.data.len() as i64;
        let mut range = None;
        for (k, v) in headers {
            let line = format!("{k}: {v}\r\n");
            if let HeadLine::Range(r) = read_head_line(&line, size) {
                range = r;
            }
        }
        if self.no_range {
            range = None;
        }
        let a = answer(range, size);
        let body = self.data[a.from as usize..a.until as usize].to_vec();
        let field = |name: &str| {
            a.head
                .lines()
                .find_map(|l| l.strip_prefix(name))
                .unwrap_or("")
                .trim()
                .to_string()
        };
        let mut content_range = field("Content-Range:");
        if self.fail_range && body.len() > 1 {
            content_range = format!("bytes {}-{}/{}", a.from + 1, a.until - 1, size);
        }
        Response {
            status: if a.head.starts_with("HTTP/1.1 206") { 206 } else { 200 },
            content_range,
            accept_ranges: field("Accept-Ranges:"),
            body,
        }
    }

    fn probe(&mut self, cfg: &Config) -> Result<ProbeInfo, Error> {
        let r = self.get(&probe_headers(&cfg.user_agent));
        ProbeAnswer {
            status: r.status,
            etag: self.etag.clone(),
            last_modified: String::new(),
            content_disposition: String::new(),
            content_range: r.content_range,
            accept_ranges: r.accept_ranges,
            content_length: Some(r.body.len() as u64),
        }
        .interpret()
    }
}

// ---------------------------------------------------------------- the workers

const CHUNK: usize = 32 * 1024;

struct Worker {
    part: usize,
    retry: Retry,
    reconnect: Option<Reconnect>,
    pump: Pump,
    conn: Option<Connection>,
}

struct Connection {
    server: usize,
    body: Vec<u8>,
    at: usize,
    ready: u64,
}

impl Connection {
    /// The next chunk, once its time has come.
    fn chunk(&mut self, server: &Server, now: u64, idle: u64) -> Option<Chunk> {
        if server.stall_after > 0 && self.at >= server.stall_after {
            return if now >= self.ready + idle {
                Some(Chunk::Broken("timeout".to_string()))
            } else {
                None
            };
        }
        if self.at >= self.body.len() {
            return Some(Chunk::End);
        }
        if now < self.ready {
            return None;
        }
        let end = (self.at + CHUNK).min(self.body.len());
        let data = self.body[self.at..end].to_vec();
        if server.speed > 0 {
            self.ready = now + data.len() as u64 * 1_000_000_000 / server.speed;
        } else {
            self.ready = now;
        }
        self.at = end;
        Some(Chunk::Data(data))
    }
}

#[derive(Default)]
struct Disk {
    /// the temporary files, by name
    parts: HashMap<String, Vec<u8>>,
    state: Option<ResumeState>,
    target: Option<Vec<u8>>,
}

/// What the host does while a download runs: by time, in milliseconds.
#[derive(Default)]
struct Host {
    cancel_at: Option<u64>,
    pause: Option<(u64, u64)>,
}

struct Outcome {
    result: Result<DownloadResult, Error>,
    statuses: Vec<Status>,
    resumed: bool,
    counted: i64,
}

fn download(servers: &mut [Server], cfg: &Config, disk: &mut Disk, host: &Host) -> Outcome {
    let mut out = Outcome {
        result: Err(Error::canceled()),
        statuses: Vec::new(),
        resumed: false,
        counted: 0,
    };
    let cfg = cfg.clone().normalized();
    let url = servers[0].url.clone();
    if let Err(e) = check_request(&url) {
        out.result = Err(e);
        return out;
    }
    let mut stage = Stage::new();
    out.statuses.extend(stage.advance(RunEvent::Started));
    let info = match servers[0].probe(&cfg) {
        Ok(info) => info,
        Err(e) => {
            out.statuses.extend(stage.advance(RunEvent::ProbeFailed));
            out.result = Err(e);
            return out;
        }
    };
    let mut pool = SourcePool::new(vec![0usize]);
    for (k, server) in servers.iter_mut().enumerate().skip(1) {
        if mirror_is_given(&server.url) && adopts_mirror(&info, &server.probe(&cfg)) {
            pool.add_mirror(vec![k]);
        }
    }
    let size = known_size(&info);
    let mut meter = Meter::new(0);
    if needs_single_stream(&info) {
        out.statuses.extend(stage.advance(RunEvent::Ready { single: true }));
        match download_whole(&mut servers[0], &cfg, &mut meter) {
            Ok(bytes) => {
                disk.target = Some(bytes);
                out.statuses.extend(stage.advance(RunEvent::Loaded));
                out.result = Ok(whole_result("out.bin".to_string(), size, meter.downloaded, 0));
            }
            Err(e) => {
                out.statuses.extend(stage.advance(RunEvent::LoadFailed));
                out.result = Err(e);
            }
        }
        return out;
    }

    let lens: Vec<Option<i64>> = match &disk.state {
        Some(st) => st
            .parts
            .iter()
            .map(|ps| disk.parts.get(&pad_from(ps.from)).map(|f| f.len() as i64))
            .collect(),
        None => Vec::new(),
    };
    let prepared = prepare_parts(
        disk.state.as_ref(),
        &lens,
        &url,
        &info,
        cfg.min_part_size,
        cfg.initial_threads,
    );
    out.resumed = prepared.resumed;
    if !prepared.resumed {
        disk.parts.clear();
    }
    let had: i64 = prepared.parts.iter().map(|p| p.current - p.from).sum();
    let mut session = Session::new(info.size, prepared.parts);
    let mut control = Controller::new(&cfg, 0);
    let mut workers: Vec<Worker> = Vec::new();
    let mut now: u64 = 0;
    out.statuses.extend(stage.advance(RunEvent::Ready { single: false }));
    let canceled_at = |now: u64| host.cancel_at.is_some_and(|t| now >= t * 1_000_000);
    let paused_at = |now: u64| {
        host.pause.is_some_and(|(a, b)| now >= a * 1_000_000 && now < b * 1_000_000)
    };
    loop {
        let canceled = canceled_at(now);
        match round(&mut session, &mut control, &cfg, now, canceled, meter.downloaded) {
            Round::Stop => break,
            Round::Go { jobs, .. } => {
                for part in jobs {
                    workers.push(Worker {
                        part,
                        retry: Retry::new("part", cfg.max_retries),
                        reconnect: None,
                        pump: Pump::new(now, true),
                        conn: None,
                    });
                }
            }
        }
        now += 1_000_000;
        let canceled = canceled_at(now) || session.stopped;
        let paused = paused_at(now);
        let mut left = Vec::new();
        for mut w in workers {
            let end = turn(
                &mut w, &mut session, servers, &mut pool, &cfg, disk, &mut meter, now, canceled,
                paused,
            );
            match end {
                Some(r) => session.worker_done(w.part, r),
                None => left.push(w),
            }
        }
        workers = left;
    }
    let (event, end) = conclude(session.verdict(canceled_at(now)));
    let parts = &session.parts;
    // what was counted is what the parts have read since the start
    let read: i64 = parts.iter().map(|p| p.current - p.from).sum();
    assert_eq!(meter.downloaded, read - had);
    out.counted = meter.downloaded;
    if event.saves_record() {
        disk.state = Some(snapshot(&url, info.size, &info.etag, &info.last_modified, parts));
    }
    out.statuses.extend(stage.advance(event));
    if let Err(e) = end {
        out.result = Err(e);
        return out;
    }
    disk.target = Some(put_together(&session, disk));
    disk.parts.clear();
    disk.state = None;
    out.statuses.extend(stage.advance(RunEvent::Assembled));
    out.result = Ok(parts_result(
        "out.bin".to_string(),
        size,
        meter.downloaded,
        0,
        session.parts.len(),
    ));
    out
}

/// One turn of a worker; `Some` when it is done.
#[allow(clippy::too_many_arguments)]
fn turn(
    w: &mut Worker,
    session: &mut Session,
    servers: &mut [Server],
    pool: &mut SourcePool<usize>,
    cfg: &Config,
    disk: &mut Disk,
    meter: &mut Meter,
    now: u64,
    canceled: bool,
    paused: bool,
) -> Option<Result<(), Error>> {
    let i = w.part;
    loop {
        let ended = if let Some(conn) = &mut w.conn {
            let mut step = session.pump_next(i, &mut w.pump, canceled, paused, now);
            if let PumpStep::Fetch = step {
                let idle = cfg.idle_timeout.nanos as u64;
                match conn.chunk(&servers[conn.server], now, idle) {
                    None => return None,
                    Some(chunk) => {
                        let part = session.parts[i];
                        step = w.pump.received(&part, chunk);
                    }
                }
            }
            match step {
                PumpStep::Finish => Ok(()),
                PumpStep::Fail(e) => Err(e),
                PumpStep::Rest => return None,
                PumpStep::Again | PumpStep::Fetch => continue,
                PumpStep::Write { n } => {
                    let part = session.parts[i];
                    let file = disk.parts.get_mut(&pad_from(part.from)).unwrap();
                    let at = (part.current - part.from) as usize;
                    let off = w.pump.off;
                    file[at..at + n].copy_from_slice(&w.pump.pending[off..off + n]);
                    note_write(session, meter, i, &mut w.pump, n);
                    let fine = RateTest {
                        stuck: false,
                        fair_share: false,
                        below_share: false,
                        below_floor: false,
                    };
                    assert!(w.pump.judge(&session.parts[i], now, fine).is_none());
                    continue;
                }
            }
        } else {
            if w.reconnect.is_none() {
                match w.retry.begin(canceled) {
                    RetryStep::Stop(e) => return Some(Err(e)),
                    RetryStep::Try { .. } => {}
                }
                let part = session.parts[i];
                let len = file_length(&part) as usize;
                disk.parts.entry(pad_from(part.from)).or_insert_with(|| vec![0; len]);
                w.reconnect = Some(Reconnect::new());
            }
            match w.reconnect.as_ref().unwrap().next(&session.parts[i]) {
                ConnectStep::Finish => Ok(()),
                ConnectStep::Open { from, to, seek, watch } => {
                    assert_eq!(seek as i64, from - session.parts[i].from);
                    let pick = pool.pick();
                    let k = *pool.source(pick);
                    let r = servers[k].get(&request_headers(&cfg.user_agent, &[], Some((from, to))));
                    match check_range_response(r.status, &r.content_range, from) {
                        Err(e) => Err(e),
                        Ok(()) => {
                            w.pump = Pump::new(now, watch);
                            w.conn = Some(Connection { server: k, body: r.body, at: 0, ready: now });
                            continue;
                        }
                    }
                }
            }
        };
        w.conn = None;
        if let Some(r) = w.reconnect.as_mut().unwrap().ended(ended) {
            w.reconnect = None;
            let done = session.parts[i].done();
            match w.retry.finish(part_attempt(done, r)) {
                AfterAttempt::Over(r) => return Some(r),
                AfterAttempt::Again => {}
            }
        }
    }
}

fn download_whole(server: &mut Server, cfg: &Config, meter: &mut Meter) -> Result<Vec<u8>, Error> {
    let mut retry = Retry::new("whole", cfg.max_retries);
    loop {
        match retry.begin(false) {
            RetryStep::Stop(e) => return Err(e),
            RetryStep::Try { .. } => {}
        }
        let r = server.get(&request_headers(&cfg.user_agent, &[], None));
        let mut file = Vec::new();
        meter.restart();
        let mut conn = Connection { server: 0, body: r.body, at: 0, ready: 0 };
        let end = check_plain_response(r.status).and_then(|()| loop {
            let step = match whole_next(false, false) {
                WholeStep::Fetch => whole_received(conn.chunk(server, u64::MAX, 0).unwrap()),
                other => other,
            };
            match step {
                WholeStep::Write(b) => {
                    meter.count(b.len() as i64);
                    file.extend_from_slice(&b);
                }
                WholeStep::Finish => break Ok(()),
                WholeStep::Fail(e) => break Err(e),
                WholeStep::Rest | WholeStep::Fetch => {}
            }
        });
        match retry.finish(end) {
            AfterAttempt::Over(Ok(())) => return Ok(file),
            AfterAttempt::Over(Err(e)) => return Err(e),
            AfterAttempt::Again => {}
        }
    }
}

fn put_together(session: &Session, disk: &Disk) -> Vec<u8> {
    let v = parts_for_assemble(&session.parts);
    let first_len = disk.parts.get(&pad_from(v[0].0)).map(|f| f.len() as i64);
    match assembly_plan(&v, first_len) {
        Assembly::Rename { from } => disk.parts[&pad_from(from)].clone(),
        Assembly::Concat { pieces } => {
            let mut out = Vec::new();
            for (from, length) in pieces {
                let src = &disk.parts[&pad_from(from)];
                let mut copy = PieceCopy::new(length);
                let mut at = 0;
                while let Some(want) = copy.want(1 << 20) {
                    let n = want.min(src.len() - at);
                    out.extend_from_slice(&src[at..at + n]);
                    at += n;
                    if !copy.copied(n) {
                        break;
                    }
                }
            }
            out
        }
    }
}

// ---------------------------------------------------------------- helpers

fn make_data(n: usize, seed: u8) -> Vec<u8> {
    (0..n).map(|i| ((i as u64 * 31 + seed as u64 * 7) & 0xff) as u8).collect()
}

fn test_config() -> Config {
    let mut c = Config::default();
    c.initial_threads = 1;
    c.max_threads = 4;
    c.min_part_size = 256 << 10;
    c.idle_timeout = Span::from_secs(3);
    c.max_retries = 2;
    c.retry_delay = Span::from_millis(50);
    c.adaptive_threads = false;
    c
}

const URL: &str = "http://127.0.0.1:2121/file.bin";

// ---------------------------------------------------------------- tests

#[test]
fn download_multithread_matches_source() {
    let data = make_data(4 << 20, 1);
    let mut srv = [Server::new(URL, data.clone())];
    let mut disk = Disk::default();
    let out = download(&mut srv, &test_config(), &mut disk, &Host::default());
    assert_eq!(out.counted, 4 << 20);
    let res = out.result.unwrap();
    assert!(res.range_ok);
    assert!(res.parts >= 2, "期望动态分段 >1 段，实际 {}", res.parts);
    assert_eq!(res.size, 4 << 20);
    assert_eq!(disk.target.unwrap(), data);
    assert_eq!(
        out.statuses,
        vec![Status::Probing, Status::Downloading, Status::Assembling, Status::Completed]
    );
}

#[test]
fn no_range_falls_back_to_single_stream() {
    let data = make_data(1 << 20, 2);
    let mut srv = [Server::new(URL, data.clone())];
    srv[0].no_range = true;
    let mut disk = Disk::default();
    let out = download(&mut srv, &test_config(), &mut disk, &Host::default());
    assert_eq!(out.statuses, vec![Status::Probing, Status::Downloading, Status::Completed]);
    let res = out.result.unwrap();
    assert!(!res.range_ok);
    assert_eq!(res.parts, 0);
    assert_eq!(res.size, 1 << 20);
    assert_eq!(disk.target.unwrap(), data);
}

#[test]
fn range_mismatch_is_detected() {
    let data = make_data(1 << 20, 3);
    let mut srv = [Server::new(URL, data)];
    srv[0].fail_range = true;
    let mut cfg = test_config();
    cfg.initial_threads = 1;
    cfg.max_threads = 1;
    cfg.max_retries = 1;
    let mut disk = Disk::default();
    let err = download(&mut srv, &cfg, &mut disk, &Host::default()).result.unwrap_err();
    assert_eq!(err.kind, ErrorKind::Fatal);
    assert_eq!(
        err.to_string(),
        "part: 重试次数用尽: range: 服务器返回的分段与请求不一致: 期望起点 0，服务器给了 1"
    );
    assert!(disk.target.is_none());
}

#[test]
fn idle_timeout_triggers_error() {
    let data = make_data(2 << 20, 4);
    let mut srv = [Server::new(URL, data)];
    srv[0].stall_after = 64 << 10;
    let mut cfg = test_config();
    cfg.initial_threads = 1;
    cfg.max_threads = 1;
    cfg.idle_timeout = Span::from_millis(300);
    cfg.max_retries = 1;
    let mut disk = Disk::default();
    let err = download(&mut srv, &cfg, &mut disk, &Host::default()).result.unwrap_err();
    assert_eq!(err.kind, ErrorKind::Fatal);
    assert_eq!(err.to_string(), "part: 重试次数用尽: read: timeout");
}

#[test]
fn cancel_then_resume() {
    let data = make_data(4 << 20, 5);
    let mut srv = [Server::new(URL, data.clone())];
    srv[0].speed = 2 << 20;
    let mut cfg = test_config();
    cfg.max_retries = 0;
    cfg.idle_timeout = Span::from_secs(5);
    let mut disk = Disk::default();
    let host = Host { cancel_at: Some(400), pause: None };
    let out = download(&mut srv, &cfg, &mut disk, &host);
    assert_eq!(out.result.unwrap_err().kind, ErrorKind::Canceled);
    assert_eq!(out.statuses.last(), Some(&Status::Canceled));
    assert!(disk.target.is_none(), "取消后不应存在最终文件");
    let before: i64 =
        disk.state.as_ref().unwrap().parts.iter().map(|p| p.current - p.from).sum();
    assert!(before > 0 && before < 4 << 20);

    srv[0].speed = 0;
    let out = download(&mut srv, &cfg, &mut disk, &Host::default());
    assert!(out.resumed);
    assert!(out.result.is_ok());
    assert_eq!(disk.target.unwrap(), data);
}

#[test]
fn file_changed_on_resume_starts_fresh() {
    let data1 = make_data(2 << 20, 6);
    let data2 = make_data(2 << 20, 7);
    let mut srv = [Server::new(URL, data1)];
    srv[0].speed = 1 << 20;
    let mut cfg = test_config();
    cfg.max_retries = 0;
    cfg.idle_timeout = Span::from_secs(5);
    let mut disk = Disk::default();
    let host = Host { cancel_at: Some(300), pause: None };
    let err = download(&mut srv, &cfg, &mut disk, &host).result.unwrap_err();
    assert_eq!(err.kind, ErrorKind::Canceled);

    srv[0].data = data2.clone();
    srv[0].etag = "\"v2\"".to_string();
    srv[0].speed = 0;
    let out = download(&mut srv, &cfg, &mut disk, &Host::default());
    assert!(!out.resumed);
    assert!(out.result.is_ok());
    assert_eq!(disk.target.unwrap(), data2);
}

#[test]
fn download_survives_many_interruptions() {
    let data = make_data(4 << 20, 9);
    let mut srv = [Server::new(URL, data.clone())];
    srv[0].speed = 2 << 20;
    let cfg = test_config();
    let mut disk = Disk::default();
    for _ in 0..4 {
        let host = Host { cancel_at: Some(100), pause: None };
        let out = download(&mut srv, &cfg, &mut disk, &host);
        assert_eq!(out.result.unwrap_err().kind, ErrorKind::Canceled);
    }
    let out = download(&mut srv, &cfg, &mut disk, &Host::default());
    assert!(out.resumed && out.result.is_ok());
    assert_eq!(disk.target.unwrap(), data);
}

#[test]
fn older_record_is_good_enough() {
    // the record of the first interruption, the files of the second
    let data = make_data(4 << 20, 14);
    let mut srv = [Server::new(URL, data.clone())];
    srv[0].speed = 2 << 20;
    let cfg = test_config();
    let mut disk = Disk::default();
    let host = Host { cancel_at: Some(100), pause: None };
    let _ = download(&mut srv, &cfg, &mut disk, &host);
    let old = disk.state.clone();
    let _ = download(&mut srv, &cfg, &mut disk, &host);
    disk.state = old;
    let out = download(&mut srv, &cfg, &mut disk, &Host::default());
    assert!(out.resumed && out.result.is_ok());
    assert_eq!(disk.target.unwrap(), data);
}

#[test]
fn pause_and_resume_completes_correctly() {
    let data = make_data(4 << 20, 8);
    let mut srv = [Server::new(URL, data.clone())];
    srv[0].speed = 2 << 20;
    let mut cfg = test_config();
    cfg.idle_timeout = Span::from_secs(5);
    let mut disk = Disk::default();
    let host = Host { cancel_at: None, pause: Some((300, 800)) };
    let out = download(&mut srv, &cfg, &mut disk, &host);
    assert!(out.result.is_ok());
    assert_eq!(disk.target.unwrap(), data);
}

#[test]
fn adaptive_threads_grow() {
    let data = make_data(6 << 20, 10);
    let mut srv = [Server::new(URL, data.clone())];
    srv[0].speed = 1 << 20;
    let mut cfg = test_config();
    cfg.initial_threads = 1;
    cfg.max_threads = 8;
    cfg.adaptive_threads = true;
    let mut disk = Disk::default();
    let res = download(&mut srv, &cfg, &mut disk, &Host::default()).result.unwrap();
    assert_eq!(disk.target.unwrap(), data);
    assert!(res.parts >= 2, "自适应应当会加人，实际分段 {}", res.parts);
}

#[test]
fn mirrors_are_used() {
    let data = make_data(2 << 20, 11);
    let mut srv = [
        Server::new(URL, data.clone()),
        Server::new("http://127.0.0.1:2122/file.bin", data.clone()),
    ];
    srv[0].speed = 1 << 20;
    let mut disk = Disk::default();
    let out = download(&mut srv, &test_config(), &mut disk, &Host::default());
    assert!(out.result.is_ok());
    assert_eq!(disk.target.unwrap(), data);
    // one hit is the probe; the others fetch bytes
    assert!(srv[1].hits > 1, "镜像应当被用到");
}

#[test]
fn mirror_with_another_file_is_left_out() {
    let data = make_data(2 << 20, 12);
    let mut srv = [
        Server::new(URL, data.clone()),
        Server::new("http://127.0.0.1:2122/file.bin", make_data(2 << 20, 13)),
        Server::new("  ", data.clone()),
    ];
    srv[1].etag = "\"other\"".to_string();
    let mut disk = Disk::default();
    let out = download(&mut srv, &test_config(), &mut disk, &Host::default());
    assert!(out.result.is_ok());
    assert_eq!(disk.target.unwrap(), data);
    assert_eq!(srv[1].hits, 1);
    assert_eq!(srv[2].hits, 0);
}

#[test]
fn empty_address_is_refused() {
    let mut srv = [Server::new("", make_data(10, 1))];
    let mut disk = Disk::default();
    let err = download(&mut srv, &test_config(), &mut disk, &Host::default()).result.unwrap_err();
    assert_eq!(err.kind, ErrorKind::Fatal);
    assert_eq!(err.to_string(), "request: URL 为空");
}
