use downloadcore::client::{
    adopts_mirror, check_plain_response, check_range_response, choose_addresses, client_options,
    host_to_resolve, mirror_is_given, probe_headers, range_header, request_headers, same_file,
    source_plan, HostAddr, ProbeAnswer, ProbeInfo, SourcePlan, SourcePool,
};
use downloadcore::config::{Config, Span};
use downloadcore::errors::{fatal, ErrorKind};

fn info(size: i64, range_ok: bool, etag: &str) -> ProbeInfo {
    ProbeInfo {
        size,
        range_ok,
        etag: etag.to_string(),
        last_modified: String::new(),
        file_name: String::new(),
    }
}

fn reply(status: u16, content_range: &str, length: Option<u64>) -> ProbeAnswer {
    ProbeAnswer {
        status,
        etag: "\"t\"".to_string(),
        last_modified: "yesterday".to_string(),
        content_disposition: "attachment; filename=\"x.bin\"".to_string(),
        content_range: content_range.to_string(),
        accept_ranges: String::new(),
        content_length: length,
    }
}

#[test]
fn partial_answer_gives_size_and_ranges() {
    let i = reply(206, "bytes 0-0/1000", Some(1)).interpret().unwrap();
    assert_eq!((i.size, i.range_ok), (1000, true));
    assert_eq!(i.etag, "\"t\"");
    assert_eq!(i.last_modified, "yesterday");
    assert_eq!(i.file_name, "x.bin");
}

#[test]
fn partial_answer_without_total_gives_its_length() {
    let i = reply(206, "bytes 0-0/*", Some(7)).interpret().unwrap();
    assert_eq!((i.size, i.range_ok), (7, false));
    let i = reply(206, "bytes 5-5/1000", Some(7)).interpret().unwrap();
    assert_eq!((i.size, i.range_ok), (7, false));
    let i = reply(206, "bytes 5-5/1000", None).interpret().unwrap();
    assert_eq!((i.size, i.range_ok), (0, false));
    let i = reply(206, "", Some(7)).interpret().unwrap();
    assert_eq!((i.size, i.range_ok), (0, false));
}

#[test]
fn plain_answer_has_no_ranges() {
    let i = reply(200, "bytes 0-0/1000", Some(1234)).interpret().unwrap();
    assert_eq!((i.size, i.range_ok), (1234, false));
    let i = reply(204, "", None).interpret().unwrap();
    assert_eq!((i.size, i.range_ok), (0, false));
}

#[test]
fn refused_ranges_are_not_used() {
    let mut a = reply(206, "bytes 0-0/1000", Some(1));
    a.accept_ranges = "None".to_string();
    let i = a.interpret().unwrap();
    assert_eq!((i.size, i.range_ok), (1000, false));
}

#[test]
fn bad_status_ends_the_probe() {
    for status in [100u16, 199, 300, 403, 416, 500] {
        let e = reply(status, "", None).interpret().unwrap_err();
        assert_eq!(e.kind, ErrorKind::Fatal);
        assert_eq!(e.to_string(), format!("probe: 服务器返回状态 {status}"));
    }
}

#[test]
fn range_answers_are_checked() {
    assert!(check_range_response(206, "bytes 10-19/100", 10).is_ok());
    let e = check_range_response(200, "bytes 10-19/100", 10).unwrap_err();
    assert_eq!(e.kind, ErrorKind::Retryable);
    assert_eq!(e.to_string(), "range: 服务器返回的分段与请求不一致: 期望 206，实际 200");
    let e = check_range_response(206, "", 10).unwrap_err();
    assert_eq!(e.to_string(), "range: 服务器返回的分段与请求不一致: Content-Range 缺失");
    let e = check_range_response(206, "bytes 11-19/100", 10).unwrap_err();
    assert_eq!(
        e.to_string(),
        "range: 服务器返回的分段与请求不一致: 期望起点 10，服务器给了 11"
    );
}

#[test]
fn plain_answers_are_checked() {
    assert!(check_plain_response(200).is_ok());
    assert!(check_plain_response(299).is_ok());
    let e = check_plain_response(503).unwrap_err();
    assert_eq!(e.kind, ErrorKind::Retryable);
    assert_eq!(e.to_string(), "whole: 服务器返回状态 503");
}

#[test]
fn requests_carry_their_headers() {
    assert_eq!(range_header(0, 1048575), "bytes=0-1048575");
    let pair = |a: &str, b: &str| (a.to_string(), b.to_string());
    assert_eq!(
        probe_headers("agent"),
        vec![
            pair("Accept-Encoding", "identity"),
            pair("User-Agent", "agent"),
            pair("Range", "bytes=0-0"),
        ]
    );
    assert_eq!(
        request_headers("agent", &[pair("Cookie", "c=1")], Some((5, 9))),
        vec![
            pair("Accept-Encoding", "identity"),
            pair("User-Agent", "agent"),
            pair("Cookie", "c=1"),
            pair("Range", "bytes=5-9"),
        ]
    );
    assert_eq!(request_headers("a", &[], None).len(), 2);
}

#[test]
fn same_file_compares_size_ranges_and_tag() {
    let a = info(10, true, "x");
    assert!(same_file(&a, &info(10, true, "x")));
    assert!(same_file(&info(10, true, ""), &info(10, true, "")));
    assert!(!same_file(&a, &info(10, true, "")));
    assert!(!same_file(&info(10, true, ""), &a));
    assert!(!same_file(&a, &info(10, true, "y")));
    assert!(!same_file(&a, &info(11, true, "x")));
    assert!(!same_file(&a, &info(10, false, "x")));
}

#[test]
fn mirrors_are_chosen() {
    let a = info(10, true, "x");
    assert!(adopts_mirror(&a, &Ok(info(10, true, "x"))));
    assert!(!adopts_mirror(&a, &Ok(info(9, true, "x"))));
    assert!(!adopts_mirror(&a, &Err(fatal("probe", String::new()))));
    assert!(mirror_is_given("http://m/"));
    assert!(!mirror_is_given(" \t\n"));
}

#[test]
fn addresses_are_sorted_and_limited() {
    let v4 = |n: u32| HostAddr::V4(n, 0);
    let v6 = |n: u128| HostAddr::V6(n, 0, 0, 0);
    assert_eq!(
        choose_addresses(&[v6(1), v4(1), v6(2), v4(1), v4(2)]),
        vec![v4(1), v4(2), v6(1), v6(2)]
    );
    assert_eq!(choose_addresses(&[v4(1), v4(2), v4(1)]), vec![v4(1), v4(2), v4(1)]);
    assert_eq!(choose_addresses(&[v4(1), v4(2), v4(3), v4(4), v4(5)]).len(), 4);
    assert_eq!(choose_addresses(&[]), vec![]);
}

#[test]
fn several_addresses_make_several_sources() {
    assert_eq!(host_to_resolve("http://h.example/x", true).as_deref(), Some("h.example"));
    assert_eq!(host_to_resolve("http://h.example/x", false), None);
    let two = vec![HostAddr::V4(1, 0), HostAddr::V4(2, 0)];
    match source_plan(Some(("h".to_string(), two.clone()))) {
        SourcePlan::Pinned { host, addrs } => {
            assert_eq!(host, "h");
            assert_eq!(addrs, two);
        }
        SourcePlan::Single => panic!("two addresses, two sources"),
    }
    assert!(matches!(
        source_plan(Some(("h".to_string(), vec![HostAddr::V4(1, 0)]))),
        SourcePlan::Single
    ));
    assert!(matches!(source_plan(None), SourcePlan::Single));
}

#[test]
fn sources_take_turns() {
    let mut pool = SourcePool::new(vec!["a", "b"]);
    pool.add_mirror(vec!["c"]);
    assert_eq!(pool.source_count(), 3);
    let mut seen = Vec::new();
    for _ in 0..7 {
        let i = pool.pick();
        seen.push(*pool.source(i));
    }
    assert_eq!(seen, vec!["a", "b", "c", "a", "b", "c", "a"]);
    assert_eq!(*pool.source(7), "b");
    pool.next = usize::MAX;
    pool.pick();
    assert_eq!(pool.next, 0);
}

#[test]
fn options_follow_the_parameters() {
    let mut cfg = Config::default();
    cfg.max_threads = 0;
    let o = client_options(&cfg);
    assert_eq!(o.connect_timeout, Span::from_secs(30));
    assert_eq!(o.read_timeout, Span::from_secs(15));
    assert_eq!(o.max_redirects, 10);
    assert_eq!(o.max_idle_per_host, 1);
}
