use fast_aes_break::correlation::{
    abs_exceeds, column_stats, correlate_with, pearson, pearson_scalar, pearson_simd, Correlation,
    Strategy,
};

fn coefficient(c: &Correlation) -> f64 {
    c.numerator as f64 / ((c.var_x as f64) * (c.var_y as f64)).sqrt()
}

fn noise(seed: &mut u64) -> i16 {
    *seed = seed.wrapping_mul(6364136223846793005).wrapping_add(1442695040888963407);
    ((*seed >> 33) % 2001) as i16 - 1000
}

#[test]
fn end_to_end_positive() {
    let c = pearson(&vec![1, 2, 3, 4], &vec![2, 4, 6, 8]);
    assert_eq!(c, Correlation { numerator: 40, var_x: 20, var_y: 80 });
    assert_eq!((c.numerator as i128) * (c.numerator as i128), (c.var_x as i128) * (c.var_y as i128));
    assert_eq!(coefficient(&c), 1.0);
}

#[test]
fn end_to_end_negative() {
    let c = pearson(&vec![1, 2, 3], &vec![3, 2, 1]);
    assert_eq!(c, Correlation { numerator: -6, var_x: 6, var_y: 6 });
    assert_eq!(coefficient(&c), -1.0);
}

#[test]
fn symmetric() {
    let x = vec![5, -3, 8, 0, 2, 2, 7];
    let y = vec![1, 9, -4, 6, 6, 0, 3];
    let a = pearson(&x, &y);
    let b = pearson(&y, &x);
    assert_eq!(a.numerator, b.numerator);
    assert_eq!(a.var_x, b.var_y);
    assert_eq!(a.var_y, b.var_x);
    assert_eq!(coefficient(&a), coefficient(&b));
}

#[test]
fn self_and_negated() {
    let x: Vec<i16> = vec![4, -1, 7, 7, 0, 12, -30];
    let neg: Vec<i16> = x.iter().map(|v| -v).collect();
    let same = pearson(&x, &x);
    assert!(same.numerator > 0);
    assert_eq!(same.numerator, same.var_x);
    assert!((coefficient(&same) - 1.0).abs() < 1e-12);
    let opposite = pearson(&x, &neg);
    assert_eq!(opposite.numerator, -same.numerator);
    assert!((coefficient(&opposite) + 1.0).abs() < 1e-12);
}

#[test]
fn scale_and_shift_invariant() {
    let x: Vec<i16> = vec![3, 1, 4, 1, 5, 9, 2, 6];
    let y: Vec<i16> = vec![2, 7, 1, 8, 2, 8, 1, 8];
    let z: Vec<i16> = y.iter().map(|v| 3 * v - 7).collect();
    let a = pearson(&x, &y);
    let b = pearson(&x, &z);
    assert_eq!(b.numerator, 3 * a.numerator);
    assert_eq!(b.var_y, 9 * a.var_y);
    assert!((coefficient(&a) - coefficient(&b)).abs() < 1e-12);
}

#[test]
fn constant_operand_is_degenerate() {
    let c = pearson(&vec![5, 5, 5, 5], &vec![1, 2, 3, 4]);
    assert_eq!(c.numerator, 0);
    assert_eq!(c.var_x, 0);
    assert!(!coefficient(&c).is_finite());
    let zero = Correlation { numerator: 0, var_x: 1, var_y: 1 };
    assert!(!abs_exceeds(&c, &zero));
}

#[test]
fn forms_agree_on_all_lengths() {
    let mut seed: u64 = 42;
    for n in 0..23usize {
        let x: Vec<i16> = (0..n).map(|_| noise(&mut seed)).collect();
        let y: Vec<i16> = (0..n).map(|_| noise(&mut seed)).collect();
        let st = column_stats(&y);
        assert_eq!(st.sum, y.iter().map(|v| *v as i64).sum::<i64>());
        assert_eq!(st.sum_sq, y.iter().map(|v| (*v as i64) * (*v as i64)).sum::<i64>());
        let reference = pearson(&x, &y);
        assert_eq!(pearson_scalar(&x, &y, st.sum, st.sum_sq), reference);
        assert_eq!(pearson_simd(&x, &y, st.sum, st.sum_sq), reference);
        assert_eq!(correlate_with(Strategy::Scalar, &x, &y, &st), reference);
        assert_eq!(correlate_with(Strategy::Lanes, &x, &y, &st), reference);
    }
}

#[test]
fn extreme_codes() {
    let x: Vec<i16> = vec![i16::MIN, i16::MAX, i16::MIN, i16::MAX, 0];
    let y: Vec<i16> = vec![i16::MAX, i16::MIN, i16::MAX, i16::MIN, 0];
    let st = column_stats(&y);
    let c = pearson(&x, &y);
    assert_eq!(pearson_simd(&x, &y, st.sum, st.sum_sq), c);
    assert!(c.numerator < 0);
    assert!((coefficient(&c) + 1.0).abs() < 1e-6);
}

#[test]
fn exact_comparison() {
    let half = Correlation { numerator: 1, var_x: 2, var_y: 2 };
    let minus_half = Correlation { numerator: -1, var_x: 1, var_y: 4 };
    let strong = Correlation { numerator: -9, var_x: 10, var_y: 10 };
    let zero = Correlation { numerator: 0, var_x: 1, var_y: 1 };
    assert!(abs_exceeds(&half, &zero));
    assert!(!abs_exceeds(&zero, &zero));
    assert!(!abs_exceeds(&half, &minus_half));
    assert!(!abs_exceeds(&minus_half, &half));
    assert!(abs_exceeds(&strong, &half));
    assert!(!abs_exceeds(&half, &strong));
    let big = Correlation { numerator: i64::MAX, var_x: i64::MAX, var_y: i64::MAX };
    let bigger = Correlation { numerator: i64::MAX, var_x: i64::MAX, var_y: i64::MAX - 1 };
    assert!(abs_exceeds(&bigger, &big));
    assert!(!abs_exceeds(&big, &bigger));
}
