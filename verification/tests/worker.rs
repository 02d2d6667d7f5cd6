use downloadcore::errors::{fatal, retryable, Error, ErrorKind};
use downloadcore::part::{Part, SAFETY_STEP};
use downloadcore::pump::{Chunk, Pump, PumpStep, RateTest};
use downloadcore::worker::{
    file_length, part_attempt, whole_next, whole_received, AfterAttempt, ConnectStep, Reconnect,
    Retry, RetryStep, WholeStep, MAX_SLOW_RECONNECTS,
};

#[test]
fn retries_run_out() {
    let mut r = Retry::new("part", 2);
    for attempt in 0..3 {
        match r.begin(false) {
            RetryStep::Try { wait } => assert_eq!(wait, attempt > 0),
            s => panic!("{s:?}"),
        }
        let e = retryable("read", format!("no {attempt}"));
        assert!(matches!(r.finish(Err(e)), AfterAttempt::Again));
    }
    match r.begin(true) {
        RetryStep::Stop(e) => {
            assert_eq!(e.kind, ErrorKind::Fatal);
            assert_eq!(e.to_string(), "part: 重试次数用尽: read: no 2");
        }
        s => panic!("{s:?}"),
    }
}

#[test]
fn cancellation_stops_before_an_attempt() {
    let r = Retry::new("whole", 5);
    match r.begin(true) {
        RetryStep::Stop(e) => assert_eq!(e.to_string(), "cancel: 已取消"),
        s => panic!("{s:?}"),
    }
}

#[test]
fn only_retryable_errors_are_retried() {
    let mut r = Retry::new("part", 5);
    assert!(matches!(r.finish(Ok(())), AfterAttempt::Over(Ok(()))));
    match r.finish(Err(fatal("write", "full".to_string()))) {
        AfterAttempt::Over(Err(e)) => assert_eq!(e.to_string(), "write: full"),
        s => panic!("{s:?}"),
    }
    assert!(matches!(r.finish(Err(Error::canceled())), AfterAttempt::Over(Err(_))));
    assert_eq!(r.attempt, 0);
    assert!(matches!(r.finish(Err(retryable("r", String::new()))), AfterAttempt::Again));
    assert_eq!(r.attempt, 1);
}

#[test]
fn incomplete_part_counts_as_failure() {
    assert!(part_attempt(true, Ok(())).is_ok());
    let e = part_attempt(false, Ok(())).unwrap_err();
    assert_eq!(e.kind, ErrorKind::Retryable);
    assert_eq!(e.to_string(), "part: 连接提前结束");
    assert_eq!(part_attempt(true, Err(Error::slow())).unwrap_err().kind, ErrorKind::Slow);
}

#[test]
fn connections_start_where_the_part_stands() {
    let r = Reconnect::new();
    match r.next(&Part::new_with(100, 199, 140)) {
        ConnectStep::Open { from, to, seek, watch } => {
            assert_eq!((from, to, seek, watch), (140, 199, 40, true));
        }
        s => panic!("{s:?}"),
    }
    assert!(matches!(r.next(&Part::new_with(100, 199, 200)), ConnectStep::Finish));
}

#[test]
fn slow_connections_are_reopened_a_few_times() {
    let mut r = Reconnect::new();
    let part = Part::new(0, 9);
    for _ in 0..MAX_SLOW_RECONNECTS {
        assert!(matches!(r.next(&part), ConnectStep::Open { watch: true, .. }));
        assert!(r.ended(Err(Error::slow())).is_none());
    }
    assert!(matches!(r.next(&part), ConnectStep::Open { watch: false, .. }));
    assert_eq!(r.count, 8);
    assert!(matches!(r.ended(Ok(())), Some(Ok(()))));
    assert!(matches!(r.ended(Err(Error::canceled())), Some(Err(_))));
}

#[test]
fn new_files_are_as_long_as_their_part() {
    assert_eq!(file_length(&Part::new(10, 19)), 10);
    assert_eq!(file_length(&Part::new(10, 9)), 0);
    assert_eq!(file_length(&Part::new(10, 5)), 0);
}

#[test]
fn whole_file_goes_chunk_by_chunk() {
    assert!(matches!(whole_next(true, true), WholeStep::Fail(e) if e.kind == ErrorKind::Canceled));
    assert!(matches!(whole_next(false, true), WholeStep::Rest));
    assert!(matches!(whole_next(false, false), WholeStep::Fetch));
    assert!(matches!(whole_received(Chunk::Data(vec![1, 2])), WholeStep::Write(b) if b == [1, 2]));
    assert!(matches!(whole_received(Chunk::End), WholeStep::Finish));
    assert!(matches!(
        whole_received(Chunk::Broken("x".to_string())),
        WholeStep::Fail(e) if e.to_string() == "read: x" && e.kind == ErrorKind::Retryable
    ));
}

#[test]
fn pump_pauses_cancels_and_finishes() {
    let mut part = Part::new(0, 9);
    let mut pump = Pump::new(5, true);
    pump.window_bytes = 77;
    assert!(matches!(pump.next(&mut part, false, true, 9), PumpStep::Rest));
    assert_eq!((pump.window_start, pump.window_bytes), (9, 0));
    assert!(matches!(
        pump.next(&mut part, true, true, 9),
        PumpStep::Fail(e) if e.kind == ErrorKind::Canceled
    ));
    part.current = 10;
    assert!(matches!(pump.next(&mut part, false, false, 9), PumpStep::Finish));
}

#[test]
fn pump_writes_no_more_than_a_step() {
    let mut part = Part::new(0, 3 * SAFETY_STEP - 1);
    let mut pump = Pump::new(0, false);
    assert!(matches!(pump.next(&mut part, false, false, 0), PumpStep::Again));
    assert_eq!(part.safe_zone, SAFETY_STEP - 1);
    assert!(matches!(pump.next(&mut part, false, false, 0), PumpStep::Fetch));
    let chunk = vec![7u8; SAFETY_STEP as usize + 5];
    match pump.received(&part, Chunk::Data(chunk)) {
        PumpStep::Write { n } => {
            assert_eq!(n, SAFETY_STEP as usize);
            pump.wrote(&mut part, n);
        }
        s => panic!("{s:?}"),
    }
    assert_eq!(part.current, SAFETY_STEP);
    assert!(matches!(pump.next(&mut part, false, false, 0), PumpStep::Again));
    assert!(matches!(pump.next(&mut part, false, false, 0), PumpStep::Write { n: 5 }));
    assert!(matches!(pump.received(&part, Chunk::Data(vec![])), PumpStep::Again));
}

#[test]
fn broken_connections_fail() {
    let part = Part::new(0, 9);
    let mut pump = Pump::new(0, false);
    assert!(matches!(
        pump.received(&part, Chunk::End),
        PumpStep::Fail(e) if e.to_string() == "read: 连接提前结束"
    ));
    assert!(matches!(
        pump.received(&part, Chunk::Broken("reset".to_string())),
        PumpStep::Fail(e) if e.to_string() == "read: reset" && e.kind == ErrorKind::Retryable
    ));
    assert!(matches!(
        pump.received(&Part::new_with(0, 9, 10), Chunk::End),
        PumpStep::Finish
    ));
}

#[test]
fn speed_is_judged_after_a_while() {
    let slow = RateTest { stuck: true, fair_share: false, below_share: false, below_floor: false };
    let starved = RateTest { stuck: false, fair_share: true, below_share: true, below_floor: true };
    let fine = RateTest { stuck: false, fair_share: true, below_share: true, below_floor: false };
    let part = Part::new(0, 1 << 20);
    let mut pump = Pump::new(0, true);
    assert!(pump.judge(&part, 4_999_999_999, slow).is_none());
    assert_eq!(pump.judge(&part, 5_000_000_000, slow).unwrap().kind, ErrorKind::Slow);
    assert!(pump.judge(&part, 5_000_000_000, starved).is_some());
    assert!(pump.judge(&part, 5_000_000_000, fine).is_none());
    assert_eq!(pump.window_start, 5_000_000_000);
    // little is left: not worth it
    assert!(pump.judge(&Part::new(0, (256 << 10) - 1), 20_000_000_000, slow).is_none());
    let mut calm = Pump::new(0, false);
    assert!(calm.judge(&part, 20_000_000_000, slow).is_none());
}
