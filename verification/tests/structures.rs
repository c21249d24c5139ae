use handson2_harness::freq_struct::FreqStruct;
use handson2_harness::max_struct::MaxStruct;

#[test]
fn max_build_refuses_empty_array() {
    assert!(MaxStruct::new(&vec![]).is_none());
}

#[test]
fn max_over_whole_range() {
    let t = MaxStruct::new(&vec![1, 2, 3, 4, 5]).unwrap();
    assert_eq!(t.max(0, 4), Some(5));
}

#[test]
fn max_over_inner_range() {
    let t = MaxStruct::new(&vec![9, 2, 3, 4, 1]).unwrap();
    assert_eq!(t.max(1, 3), Some(4));
}

#[test]
fn max_of_absent_range() {
    let t = MaxStruct::new(&vec![1, 2, 3]).unwrap();
    assert_eq!(t.max(2, 1), None);
    assert_eq!(t.max(3, 9), None);
}

#[test]
fn max_clamps_to_array_end() {
    let t = MaxStruct::new(&vec![5, 7]).unwrap();
    assert_eq!(t.max(1, 100), Some(7));
}

#[test]
fn assign_rewrites_range_exclusively() {
    let mut t = MaxStruct::new(&vec![1, 1, 1]).unwrap();
    t.assign(0, 2, 9);
    assert_eq!(t.max(0, 2), Some(9));
}

#[test]
fn assign_leaves_outside_positions() {
    let mut t = MaxStruct::new(&vec![4, 5, 6, 7]).unwrap();
    t.assign(1, 2, 0);
    assert_eq!(t.max(0, 0), Some(4));
    assert_eq!(t.max(1, 2), Some(0));
    assert_eq!(t.max(3, 3), Some(7));
}

#[test]
fn freq_build_refuses_empty_set() {
    assert!(FreqStruct::new(vec![]).is_none());
}

#[test]
fn freq_build_refuses_reversed_interval() {
    assert!(FreqStruct::new(vec![(3, 1)]).is_none());
}

#[test]
fn freq_finds_exact_coverage() {
    let t = FreqStruct::new(vec![(0, 5), (2, 3)]).unwrap();
    assert_eq!(t.is_there(2, 3, 2), 1);
}

#[test]
fn freq_misses_absent_coverage() {
    let t = FreqStruct::new(vec![(0, 5), (2, 3)]).unwrap();
    assert_eq!(t.is_there(0, 1, 2), 0);
    assert_eq!(t.is_there(0, 5, 3), 0);
}

#[test]
fn freq_zero_coverage_beyond_intervals() {
    let t = FreqStruct::new(vec![(0, 5)]).unwrap();
    assert_eq!(t.is_there(6, 10, 0), 1);
    assert_eq!(t.is_there(6, 10, 1), 0);
}

#[test]
fn freq_empty_range_has_no_point() {
    let t = FreqStruct::new(vec![(0, 5)]).unwrap();
    assert_eq!(t.is_there(4, 2, 0), 0);
}
