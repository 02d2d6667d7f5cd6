use downloadcore::client::ProbeInfo;
use downloadcore::part::Part;
use downloadcore::store::{
    fresh_parts, part_files_usable, prepare_parts, restore, resume_matches, snapshot, PartState,
    ResumeState, STATE_FILE_NAME,
};

fn probe(size: i64) -> ProbeInfo {
    ProbeInfo {
        size,
        range_ok: true,
        etag: "e".to_string(),
        last_modified: "m".to_string(),
        file_name: String::new(),
    }
}

fn parts() -> Vec<Part> {
    vec![Part::new_with(0, 99, 40), Part::new_with(100, 199, 200), Part::new(200, 299)]
}

fn record() -> ResumeState {
    snapshot("u", 300, "e", "m", &parts())
}

#[test]
fn record_holds_the_progress() {
    let st = record();
    assert_eq!(STATE_FILE_NAME, "state.json");
    assert_eq!((st.version, st.total), (1, 300));
    assert_eq!((st.url.as_str(), st.etag.as_str(), st.last_modified.as_str()), ("u", "e", "m"));
    let got: Vec<_> = st.parts.iter().map(|p| (p.from, p.to, p.current)).collect();
    assert_eq!(got, vec![(0, 99, 40), (100, 199, 200), (200, 299, 200)]);
}

#[test]
fn position_behind_the_end_is_recorded_as_the_end() {
    let mut p = Part::new(0, 9);
    p.current = 50;
    let st = snapshot("u", 10, "", "", &[p]);
    assert_eq!(st.parts[0].current, 10);
}

#[test]
fn restored_parts_go_on_where_they_stood() {
    let again = restore(&record().parts, 300);
    let old = parts();
    assert_eq!(again.len(), 3);
    for (a, b) in again.iter().zip(&old) {
        assert_eq!((a.from, a.to, a.current), (b.from, b.to, b.current));
    }
    assert_eq!(again[0].safe_zone, 39);
}

#[test]
fn parts_that_make_no_sense_are_left_out() {
    let states = [
        PartState { from: -1, to: 5, current: 0 },
        PartState { from: 0, to: 100, current: 0 },
        PartState { from: 10, to: 20, current: 9 },
        PartState { from: 10, to: 20, current: 500 },
        PartState { from: 30, to: 20, current: 30 },
    ];
    let got = restore(&states, 100);
    assert_eq!(got.len(), 2);
    assert_eq!((got[0].from, got[0].to, got[0].current), (10, 20, 21));
    assert!(got[0].done());
    assert!(got[1].done());
}

#[test]
fn record_has_to_match() {
    let i = probe(300);
    assert!(resume_matches(&record(), "u", &i));
    assert!(!resume_matches(&record(), "v", &i));
    assert!(!resume_matches(&record(), "u", &probe(301)));
    let mut other = probe(300);
    other.etag = "f".to_string();
    assert!(!resume_matches(&record(), "u", &other));
    let mut other = probe(300);
    other.last_modified = "n".to_string();
    assert!(!resume_matches(&record(), "u", &other));
    let mut st = record();
    st.version = 2;
    assert!(!resume_matches(&st, "u", &i));
    let mut st = record();
    st.parts.clear();
    assert!(!resume_matches(&st, "u", &i));
}

#[test]
fn temporary_files_have_to_be_long_enough() {
    let st = record();
    assert_eq!(st.parts[0].bytes_needed(), 40);
    assert_eq!(st.parts[1].bytes_needed(), 100);
    assert_eq!(st.parts[2].bytes_needed(), 0);
    assert!(part_files_usable(&st.parts, &[Some(40), Some(100), None]));
    assert!(part_files_usable(&st.parts, &[Some(100), Some(100), Some(100)]));
    assert!(!part_files_usable(&st.parts, &[Some(39), Some(100), None]));
    assert!(!part_files_usable(&st.parts, &[Some(40), None, None]));
}

#[test]
fn fresh_start_splits_large_files() {
    let p = fresh_parts(10, 3, 4);
    let got: Vec<_> = p.iter().map(|p| (p.from, p.to)).collect();
    assert_eq!(got, vec![(0, 2), (3, 5), (6, 7), (8, 9)]);
    let p = fresh_parts(3, 3, 4);
    assert_eq!(p.len(), 1);
    assert_eq!((p[0].from, p[0].to, p[0].current), (0, 2, 0));
}

#[test]
fn preparation_chooses() {
    let st = record();
    let good = [Some(100), Some(100), None];
    let r = prepare_parts(Some(&st), &good, "u", &probe(300), 50, 2);
    assert!(r.resumed && !r.stale);
    assert!(prepare_parts(Some(&st), &good, "u", &probe(300), 1, usize::MAX).resumed);
    assert_eq!(r.parts.len(), 3);
    // a file is missing
    let r = prepare_parts(Some(&st), &[None, None, None], "u", &probe(300), 50, 2);
    assert!(!r.resumed && r.stale);
    assert_eq!(r.parts.len(), 2);
    // no record
    let r = prepare_parts(None, &[], "u", &probe(300), 50, 2);
    assert!(!r.resumed && !r.stale);
    // a record that fits, but of which no part can go on
    let mut odd = record();
    odd.parts = vec![PartState { from: -5, to: 10, current: -5 }];
    let r = prepare_parts(Some(&odd), &[None], "u", &probe(300), 50, 2);
    assert!(!r.resumed && !r.stale);
}

#[test]
fn countable_parts_are_told() {
    let part = |from, to, current| PartState { from, to, current };
    assert!(part(0, 9, 5).is_countable());
    assert!(part(0, i64::MAX - 1, i64::MAX).is_countable());
    assert!(part(0, i64::MAX, i64::MIN).is_countable());
    assert!(!part(-1, i64::MAX, i64::MAX).is_countable());
    assert!(!part(-2, i64::MAX - 2, i64::MAX - 1).is_countable());
    assert!(!part(i64::MIN, 0, i64::MAX).is_countable());
}
