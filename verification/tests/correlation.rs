use cpa::correlation::{pearson_correlation, CorrelationError, MAX_SAMPLES};
use cpa::score::{first_max, Score};

fn parts(x: &[i16], y: &[i16]) -> (u128, u128) {
    let s = pearson_correlation(&x.to_vec(), &y.to_vec()).unwrap();
    (s.numerator(), s.denominator())
}

/// The score by its definition, in wide arithmetic.
fn by_definition(x: &[i16], y: &[i16]) -> (u128, u128) {
    let n = x.len() as i128;
    let sx: i128 = x.iter().map(|&v| v as i128).sum();
    let sy: i128 = y.iter().map(|&v| v as i128).sum();
    let sxx: i128 = x.iter().map(|&v| (v as i128) * (v as i128)).sum();
    let syy: i128 = y.iter().map(|&v| (v as i128) * (v as i128)).sum();
    let sxy: i128 = x.iter().zip(y).map(|(&a, &b)| (a as i128) * (b as i128)).sum();
    let cov = n * sxy - sx * sy;
    let vx = n * sxx - sx * sx;
    let vy = n * syy - sy * sy;
    if sx == 0 || sy == 0 || vx == 0 || vy == 0 {
        (0, 1)
    } else {
        ((cov * cov) as u128, (vx * vy) as u128)
    }
}

#[test]
fn exact_score_of_small_sequences() {
    // Centred: [-1, 0, 1] and [0, -1, 1]; r = 1 / 2, so r * r = 9 / 36.
    assert_eq!(parts(&[1, 2, 3], &[1, 0, 2]), (9, 36));
    assert_eq!(parts(&[1, 2, 3], &[2, 4, 6]), (144, 144));
    assert_eq!(parts(&[1, 2, 3], &[6, 4, 2]), (144, 144));
}

#[test]
fn correlation_is_symmetric() {
    let x: Vec<i16> = vec![3, -7, 12, 5, 0, 9, -2];
    let y: Vec<i16> = vec![1, 4, -3, 8, 8, 2, 6];
    assert_eq!(parts(&x, &y), parts(&y, &x));
    assert_eq!(parts(&x, &y), by_definition(&x, &y));
}

#[test]
fn correlation_ignores_scale() {
    let x: Vec<i16> = vec![3, -7, 12, 5, 0, 9, -2];
    let y: Vec<i16> = vec![1, 4, -3, 8, 8, 2, 6];
    let base = pearson_correlation(&x, &y).unwrap();
    for a in [-5i16, -1, 2, 7, 100] {
        let scaled: Vec<i16> = y.iter().map(|v| a * v).collect();
        let other = pearson_correlation(&x, &scaled).unwrap();
        assert!(base.same_value(&other));
        assert!(!base.less_than(&other));
        assert!(!other.less_than(&base));
        assert_eq!(
            other.numerator() * base.denominator(),
            base.numerator() * other.denominator()
        );
    }
}

#[test]
fn sequence_scores_one_with_itself() {
    let x: Vec<i16> = vec![3, -7, 12, 5, 0, 9, -2];
    let (num, den) = parts(&x, &x);
    assert!(num > 0);
    assert_eq!(num, den);
}

#[test]
fn zero_sum_scores_zero() {
    assert_eq!(parts(&[-1, 1], &[3, 5]), (0, 1));
    assert_eq!(parts(&[3, 5], &[-1, 1]), (0, 1));
    assert_eq!(parts(&[-1, 1], &[-1, 1]), (0, 1));
    assert_eq!(parts(&[0, 0, 0], &[1, 2, 3]), (0, 1));
}

#[test]
fn constant_sequence_scores_zero() {
    assert_eq!(parts(&[2, 2, 2], &[1, 2, 3]), (0, 1));
    assert_eq!(parts(&[1, 2, 3], &[7, 7, 7]), (0, 1));
    assert_eq!(parts(&[5], &[9]), (0, 1));
    assert_eq!(parts(&[], &[]), (0, 1));
}

#[test]
fn uncorrelated_sequences_score_zero_over_their_spreads() {
    // Covariance 4 * 20 - 10 * 8 = 0.
    let x: Vec<i16> = vec![1, 2, 3, 4];
    let y: Vec<i16> = vec![1, 3, 3, 1];
    let (num, den) = parts(&x, &y);
    assert_eq!(num, 0);
    assert_eq!(den, 20 * 16);
}

#[test]
fn unequal_lengths_are_refused() {
    let r = pearson_correlation(&vec![1, 2, 3], &vec![1, 2]);
    assert_eq!(r.err(), Some(CorrelationError::LengthMismatch { left: 3, right: 2 }));
}

#[test]
fn too_many_samples_are_refused() {
    let x: Vec<i16> = vec![1; MAX_SAMPLES + 1];
    let r = pearson_correlation(&x, &x);
    assert_eq!(r.err(), Some(CorrelationError::TooLong { len: MAX_SAMPLES + 1 }));
}

#[test]
fn extreme_samples_fit() {
    let mut x: Vec<i16> = Vec::new();
    let mut y: Vec<i16> = Vec::new();
    for i in 0..MAX_SAMPLES {
        x.push(if i % 2 == 0 { i16::MIN } else { i16::MAX });
        y.push(if i % 3 == 0 { i16::MAX } else { i16::MIN });
    }
    assert_eq!(parts(&x, &y), by_definition(&x, &y));
    let (num, den) = parts(&x, &x);
    assert_eq!(num, den);
    let all_low: Vec<i16> = vec![i16::MIN; MAX_SAMPLES];
    assert_eq!(parts(&all_low, &x), (0, 1));
}

#[test]
fn scores_order_by_value() {
    let half = Score::new(1, 2).unwrap();
    let two_quarters = Score::new(2, 4).unwrap();
    let third = Score::new(1, 3).unwrap();
    assert!(third.less_than(&half));
    assert!(!half.less_than(&third));
    assert!(!half.less_than(&two_quarters));
    assert!(half.same_value(&two_quarters));
    assert!(!half.same_value(&third));
    assert!(Score::zero().less_than(&third));
    assert!(Score::new(1, 0).is_none());
    assert_eq!(Score::zero().numerator(), 0);
    assert_eq!(Score::zero().denominator(), 1);
}

#[test]
fn scores_with_huge_parts_order_by_value() {
    let big = u128::MAX;
    let a = Score::new(big - 1, big).unwrap();
    let b = Score::new(big - 2, big - 1).unwrap();
    // (big - 1)^2 > big * (big - 2), so a > b.
    assert!(b.less_than(&a));
    assert!(!a.less_than(&b));
    assert!(!a.same_value(&b));
    let one = Score::new(big, big).unwrap();
    assert!(a.less_than(&one));
    assert!(one.same_value(&Score::new(1, 1).unwrap()));
}

#[test]
fn first_max_takes_the_first_of_equals() {
    let scores: Vec<Score> = vec![
        Score::new(1, 4).unwrap(),
        Score::new(2, 4).unwrap(),
        Score::new(1, 2).unwrap(),
        Score::new(1, 3).unwrap(),
        Score::new(3, 6).unwrap(),
    ];
    assert_eq!(first_max(&scores), Some(1));
    assert_eq!(first_max(&Vec::new()), None);
    assert_eq!(first_max(&vec![Score::zero(), Score::zero()]), Some(0));
    let rising: Vec<Score> = (1..10u128).map(|i| Score::new(i, 10).unwrap()).collect();
    assert_eq!(first_max(&rising), Some(8));
}
