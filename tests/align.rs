use fast_aes_break::align::{
    align_trace, align_traces, extract_window, real_index, transpose, AlignError, THRESHOLD,
};

fn with_run(k: usize, tail: usize) -> Vec<i16> {
    let mut v: Vec<i16> = vec![-5; k];
    for i in 0..tail {
        v.push((i % 7) as i16 * 3 + 1);
    }
    v
}

#[test]
fn run_of_threshold_gives_its_length() {
    assert_eq!(real_index(&with_run(THRESHOLD, 100)), Some(THRESHOLD));
}

#[test]
fn longer_run_stops_at_threshold() {
    assert_eq!(real_index(&with_run(120, 100)), Some(THRESHOLD));
}

#[test]
fn short_run_fails() {
    assert_eq!(real_index(&with_run(THRESHOLD - 1, 300)), None);
    assert_eq!(real_index(&vec![]), None);
}

#[test]
fn run_after_scan_limit_is_not_seen() {
    let mut v: Vec<i16> = (0..250).map(|i| (i % 2) as i16).collect();
    v.extend(vec![9; 60]);
    assert_eq!(real_index(&v), None);
    let mut w: Vec<i16> = (0..200).map(|i| (i % 2) as i16).collect();
    w.extend(vec![9; 60]);
    assert_eq!(real_index(&w), Some(250));
}

#[test]
fn windows() {
    let v: Vec<i16> = (0..10).collect();
    assert_eq!(extract_window(&v, 3, 4), Some(vec![3, 4, 5, 6]));
    assert_eq!(extract_window(&v, 6, 4), Some(vec![6, 7, 8, 9]));
    assert_eq!(extract_window(&v, 7, 4), None);
    assert_eq!(extract_window(&v, 11, 0), None);
}

#[test]
fn align_one_trace() {
    let t = with_run(THRESHOLD, 20);
    assert_eq!(align_trace(&t, 5), Ok(vec![1, 4, 7, 10, 13]));
    assert_eq!(align_trace(&t, 21), Err(AlignError::InsufficientSamples));
    assert_eq!(align_trace(&with_run(10, 300), 5), Err(AlignError::AlignmentNotFound));
}

#[test]
fn align_many_traces() {
    let good = with_run(THRESHOLD, 20);
    let bad = with_run(3, 300);
    assert_eq!(align_traces(&vec![good.clone(), good.clone()], 2), Ok(vec![vec![1, 4], vec![1, 4]]));
    assert_eq!(
        align_traces(&vec![good.clone(), bad, with_run(THRESHOLD, 1)], 2),
        Err(AlignError::AlignmentNotFound)
    );
}

#[test]
fn columns() {
    let rows: Vec<Vec<u8>> = vec![vec![1, 2, 3], vec![4, 5, 6]];
    assert_eq!(transpose(&rows, 3), vec![vec![1, 4], vec![2, 5], vec![3, 6]]);
    let empty: Vec<Vec<u8>> = vec![];
    assert_eq!(transpose(&empty, 2), vec![Vec::<u8>::new(), Vec::new()]);
}
