use fast_aes_break::align::THRESHOLD;
use fast_aes_break::correlation::Strategy;
use fast_aes_break::recover::{recover, recover_key, useful_window, SURROUND};
use fast_aes_break::power::predict;
use fast_aes_break::align::transpose;

const TRACES: usize = 120;
const SAMPLES: usize = 40;
const KEY: [u8; 16] = [
    0x2b, 0x7e, 0x15, 0x16, 0x28, 0xae, 0xd2, 0xa6, 0xab, 0xf7, 0x15, 0x88, 0x09, 0xcf, 0x4f, 0x3c,
];
const FIRST_LEAK: usize = 10;

fn next(seed: &mut u64) -> u64 {
    *seed = seed.wrapping_mul(6364136223846793005).wrapping_add(1442695040888963407);
    *seed >> 33
}

/// Plaintext rows and aligned rows where byte `b` leaks at column
/// `FIRST_LEAK + b` and every other sample is noise.
fn scenario() -> (Vec<Vec<u8>>, Vec<Vec<i16>>) {
    let mut seed: u64 = 7;
    let mut plaintexts = Vec::new();
    let mut rows = Vec::new();
    for _ in 0..TRACES {
        let p: Vec<u8> = (0..16).map(|_| next(&mut seed) as u8).collect();
        let mut row: Vec<i16> = (0..SAMPLES).map(|_| (next(&mut seed) % 801) as i16 - 400).collect();
        for b in 0..16 {
            let small = (next(&mut seed) % 5) as i16 - 2;
            row[FIRST_LEAK + b] = predict(p[b], KEY[b]) * 100 + small;
        }
        plaintexts.push(p);
        rows.push(row);
    }
    (plaintexts, rows)
}

#[test]
fn synthetic_key_is_recovered() {
    let (plaintexts, rows) = scenario();
    let inputs = transpose(&plaintexts, 16);
    let cols = transpose(&rows, SAMPLES);
    let a = recover_key(&inputs, &cols, Strategy::Scalar);
    assert_eq!(a.key, KEY.to_vec());
}

#[test]
fn synthetic_center_is_the_leaking_column() {
    let (plaintexts, rows) = scenario();
    let inputs = transpose(&plaintexts, 16);
    let cols = transpose(&rows, SAMPLES);
    let a = recover_key(&inputs, &cols, Strategy::Lanes);
    assert_eq!(a.center, FIRST_LEAK);
}

#[test]
fn recovery_is_repeatable() {
    let (plaintexts, rows) = scenario();
    let inputs = transpose(&plaintexts, 16);
    let cols = transpose(&rows, SAMPLES);
    let a = recover_key(&inputs, &cols, Strategy::Lanes);
    let b = recover_key(&inputs, &cols, Strategy::Lanes);
    let c = recover_key(&inputs, &cols, Strategy::Scalar);
    assert_eq!(a.key, b.key);
    assert_eq!(a.center, b.center);
    assert_eq!(a.key, c.key);
    assert_eq!(a.center, c.center);
}

#[test]
fn raw_traces_are_aligned_then_attacked() {
    let (plaintexts, rows) = scenario();
    let traces: Vec<Vec<i16>> = rows
        .iter()
        .enumerate()
        .map(|(i, r)| {
            let mut t = vec![(i % 3) as i16 + 1000; THRESHOLD];
            t.extend(r.iter().cloned());
            t.extend(vec![0; 5]);
            t
        })
        .collect();
    let rec = recover(&traces, &plaintexts, SAMPLES, 16, Strategy::Lanes).unwrap();
    assert_eq!(rec.key, KEY.to_vec());
    assert_eq!(rec.center, FIRST_LEAK);
}

#[test]
fn no_leak_anywhere_keeps_defaults() {
    let inputs = vec![vec![1u8, 2, 3], vec![4, 5, 6]];
    let cols = vec![vec![9i16, 9, 9], vec![4, 4, 4]];
    let rec = recover_key(&inputs, &cols, Strategy::Scalar);
    assert_eq!(rec.key, vec![0, 0]);
    assert_eq!(rec.center, 0);
}

#[test]
fn window_bounds() {
    assert_eq!(SURROUND, 1500);
    assert_eq!(useful_window(0, 5000), (0, 750));
    assert_eq!(useful_window(2000, 5000), (1250, 2750));
    assert_eq!(useful_window(4900, 5000), (4150, 4999));
    assert_eq!(useful_window(3, 40), (0, 39));
}

#[test]
fn unalignable_trace_stops_recovery() {
    let (plaintexts, rows) = scenario();
    let mut traces: Vec<Vec<i16>> = rows
        .iter()
        .map(|r| {
            let mut t = vec![3i16; THRESHOLD];
            t.extend(r.iter().cloned());
            t
        })
        .collect();
    traces[5] = rows[5].clone();
    let r = recover(&traces, &plaintexts, SAMPLES, 16, Strategy::Scalar);
    assert_eq!(r.err(), Some(fast_aes_break::align::AlignError::AlignmentNotFound));
    let short = recover(&traces[..0].to_vec(), &plaintexts[..0].to_vec(), SAMPLES, 16, Strategy::Scalar);
    assert!(short.is_ok());
    let mut cut = traces.clone();
    cut[7].truncate(THRESHOLD + SAMPLES - 1);
    cut[5] = cut[4].clone();
    let r = recover(&cut, &plaintexts, SAMPLES, 16, Strategy::Scalar);
    assert_eq!(r.err(), Some(fast_aes_break::align::AlignError::InsufficientSamples));
}
