use downloadcore::part::{Part, SAFETY_STEP};

#[test]
fn split_keeps_prefix_and_safe_zone() {
    let orig_to = 10 * SAFETY_STEP - 1;
    let mut p = Part::new(0, orig_to);
    let safe_before = p.safe_zone;
    let np = p.split_at_least(SAFETY_STEP).expect("应当可以分裂");
    assert_eq!(np.from, p.to + 1, "两段必须首尾相接");
    assert_eq!(np.to, orig_to, "后半段应接到原末尾");
    assert!(p.to >= safe_before, "分裂后前半段不能小于安全区");
}

#[test]
fn split_at_least_enforced() {
    let mut p = Part::new(0, SAFETY_STEP / 2 - 1);
    assert!(p.split_at_least(SAFETY_STEP).is_none());
}
