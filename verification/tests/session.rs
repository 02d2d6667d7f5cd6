use downloadcore::config::Config;
use downloadcore::engine::{round, Controller, Round};
use downloadcore::errors::{fatal, Error, ErrorKind};
use downloadcore::part::{Part, SAFETY_STEP};
use downloadcore::pump::{Chunk, Pump, PumpStep};
use downloadcore::session::{Phase, Session, Verdict};

#[test]
fn complete_parts_do_not_wait() {
    let s = Session::new(30, vec![Part::new(0, 9), Part::new_with(10, 19, 20), Part::new(20, 29)]);
    assert_eq!(s.phases, vec![Phase::Waiting, Phase::Finished, Phase::Waiting]);
    assert_eq!(s.queue.iter().copied().collect::<Vec<_>>(), vec![0, 2]);
    assert_eq!(s.running, 0);
    assert!(!s.idle());
    assert!(s.first_err.is_none());
}

#[test]
fn waiting_parts_come_first() {
    let mut s = Session::new(20, vec![Part::new(0, 9), Part::new(10, 19)]);
    assert_eq!(s.hire(1, 1), Some(0));
    assert_eq!(s.hire(1, 1), None);
    assert_eq!(s.hire(2, 1), Some(1));
    assert_eq!(s.phases, vec![Phase::Active, Phase::Active]);
    // too small to split
    assert_eq!(s.hire(3, 1), None);
}

#[test]
fn largest_part_is_split() {
    let step = SAFETY_STEP;
    let mut s = Session::new(
        14 * step,
        vec![
            Part::new(0, 4 * step - 1),
            Part::new(4 * step, 9 * step - 1),
            Part::new(9 * step, 14 * step - 1),
        ],
    );
    assert_eq!(s.staff(3, 1), vec![0, 1, 2]);
    // the second and the third are equal: the first of them is split
    assert_eq!(s.hire(4, 1), Some(3));
    let half = 4 * step + 5 * step / 2 - 1;
    assert_eq!((s.parts[1].from, s.parts[1].to), (4 * step, half));
    assert_eq!((s.parts[3].from, s.parts[3].to), (half + 1, 9 * step - 1));
    assert_eq!(s.parts.len(), 4);
    assert_eq!(s.running, 4);
    // a larger minimum leaves only the third
    assert_eq!(s.hire(5, 5 * step), Some(4));
    assert_eq!(s.hire(6, 5 * step), None);
}

#[test]
fn staffing_stops_when_nothing_is_left() {
    let mut s = Session::new(SAFETY_STEP, vec![Part::new(0, SAFETY_STEP - 1)]);
    assert_eq!(s.staff(8, 1), vec![0, 1]);
    assert_eq!(s.running, 2);
}

#[test]
fn first_error_stops_the_session() {
    let mut s = Session::new(20, vec![Part::new(0, 9), Part::new(10, 19)]);
    s.staff(2, 1);
    s.worker_done(0, Err(fatal("a", "one".to_string())));
    assert!(s.stopped);
    s.worker_done(1, Err(fatal("b", "two".to_string())));
    assert_eq!(s.running, 0);
    assert!(s.must_stop(false));
    match s.verdict(true) {
        Verdict::Failed(e) => assert_eq!(e.to_string(), "a: one"),
        v => panic!("{v:?}"),
    }
}

#[test]
fn cancellation_is_no_error() {
    let mut s = Session::new(10, vec![Part::new(0, 9)]);
    s.staff(1, 1);
    s.worker_done(0, Err(Error::canceled()));
    assert!(!s.stopped);
    assert_eq!(s.phases, vec![Phase::Left]);
    assert!(s.must_stop(true));
    assert!(matches!(s.verdict(true), Verdict::Canceled));
}

#[test]
fn complete_session_is_idle() {
    let mut s = Session::new(4, vec![Part::new(0, 3)]);
    s.staff(1, 1);
    let mut pump = Pump::new(0, true);
    assert!(matches!(s.pump_next(0, &mut pump, false, false, 0), PumpStep::Again));
    assert!(matches!(s.pump_next(0, &mut pump, false, false, 0), PumpStep::Fetch));
    let part = s.parts[0];
    assert!(matches!(
        pump.received(&part, Chunk::Data(vec![1, 2, 3, 4, 5])),
        PumpStep::Write { n: 4 }
    ));
    s.pump_wrote(0, &mut pump, 4);
    assert!(matches!(s.pump_next(0, &mut pump, false, false, 0), PumpStep::Finish));
    s.worker_done(0, Ok(()));
    assert!(s.idle());
    assert!(s.parts.iter().all(|p| p.done()));
    assert!(matches!(s.verdict(false), Verdict::Complete));
}

#[test]
fn rounds_hire_grow_and_stop() {
    let mut cfg = Config::default();
    cfg.initial_threads = 1;
    cfg.max_threads = 3;
    cfg.adaptive_threads = true;
    cfg.min_part_size = 1;
    let size = 16 * SAFETY_STEP;
    let mut s = Session::new(size, vec![Part::new(0, size - 1)]);
    let mut c = Controller::new(&cfg, 0);
    match round(&mut s, &mut c, &cfg, 0, false, 0) {
        Round::Go { jobs, sample, grew } => {
            assert_eq!(jobs, vec![0]);
            assert!(sample.is_none());
            assert_eq!(grew, None);
        }
        r => panic!("{r:?}"),
    }
    match round(&mut s, &mut c, &cfg, 2_000_000_000, false, 1000) {
        Round::Go { jobs, sample, grew } => {
            assert_eq!(jobs, vec![1]);
            let m = sample.unwrap();
            assert_eq!((m.bytes, m.nanos, m.active), (1000, 2_000_000_000, 1));
            assert_eq!(grew, Some(2));
        }
        r => panic!("{r:?}"),
    }
    assert!(matches!(round(&mut s, &mut c, &cfg, 3_000_000_000, true, 1000), Round::Stop));
    assert!(!s.stopped);
    s.worker_done(0, Err(fatal("x", String::new())));
    assert!(matches!(round(&mut s, &mut c, &cfg, 3_000_000_000, false, 1000), Round::Stop));
    assert_eq!(s.first_err.as_ref().map(|e| e.kind), Some(ErrorKind::Fatal));
}

#[test]
fn idle_round_stops() {
    let cfg = Config::default();
    let mut s = Session::new(10, vec![Part::new_with(0, 9, 10)]);
    let mut c = Controller::new(&cfg, 0);
    assert!(matches!(round(&mut s, &mut c, &cfg, 1, false, 0), Round::Stop));
}
