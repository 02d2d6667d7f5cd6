use downloadcore::split::split_to_range;

#[test]
fn splits_evenly_and_covers_all() {
    let r = split_to_range(10, 3, 4);
    assert_eq!(r.len(), 4);
    assert_eq!(r[0].0, 0);
    assert_eq!(r.last().unwrap().1, 9);
    let sum: i64 = r.iter().map(|(a, b)| b - a + 1).sum();
    assert_eq!(sum, 10);
    for i in 1..r.len() {
        assert_eq!(r[i].0, r[i - 1].1 + 1, "段之间必须连续");
    }
}

#[test]
fn respects_min_part_size() {
    // 只有 2 字节，最小块 3 字节 → 只能切 1 段
    let r = split_to_range(2, 3, 8);
    assert_eq!(r.len(), 1);
    assert_eq!(r[0], (0, 1));
}
