use cpa::attack::{
    attack_bytes, byte_scores, check_shapes, cpa_attack, hypothesis_peak, recover_byte, AttackError,
};
use cpa::correlation::pearson_correlation;
use cpa::leakage::calculate_hamming_weights;
use cpa::sbox::SBOX;
use cpa::tensor::{Cube, Matrix};

/// A small repeatable generator.
struct Lcg(u64);

impl Lcg {
    fn next(&mut self) -> u32 {
        self.0 = self.0.wrapping_mul(6364136223846793005).wrapping_add(1442695040888963407);
        (self.0 >> 33) as u32
    }
}

const TRACES: usize = 40;
const SAMPLES: usize = 6;
const LEAKING_SAMPLE: usize = 4;

/// Plain blocks, and traces in which sample 4 of every position leaks the
/// weight of the substituted byte under `key`; all other samples are noise.
fn synthetic(key: &[u8; 16], seed: u64) -> (Matrix, Cube) {
    let mut rng = Lcg(seed);
    let mut plain: Vec<i32> = Vec::new();
    for _ in 0..TRACES * 16 {
        plain.push((rng.next() % 256) as i32);
    }
    let mut power: Vec<i16> = Vec::new();
    for b in 0..16 {
        for t in 0..TRACES {
            for s in 0..SAMPLES {
                let noise = (rng.next() % 41) as i16 + 1;
                if s == LEAKING_SAMPLE {
                    let p = plain[t * 16 + b] as usize;
                    let weight = SBOX[p ^ key[b] as usize].count_ones() as i16;
                    power.push(100 * weight + noise);
                } else {
                    power.push(10 * noise);
                }
            }
        }
    }
    (
        Matrix::from_shape_vec(TRACES, 16, plain).unwrap(),
        Cube::from_shape_vec(16, TRACES, SAMPLES, power).unwrap(),
    )
}

const KEY: [u8; 16] = [
    0x2a, 0x00, 0xff, 0x10, 0x7d, 0x52, 0x01, 0x80, 0x2a, 0x2a, 0x63, 0xc3, 0x99, 0x0f, 0xf0, 0x55,
];

#[test]
fn recovers_a_known_key() {
    let (clear, power) = synthetic(&KEY, 7);
    let model = calculate_hamming_weights(&clear).unwrap();
    let key = cpa_attack(&power, &model).unwrap();
    assert_eq!(key, KEY.to_vec());
    assert_eq!(key[0], 0x2a);
}

#[test]
fn repeated_runs_agree() {
    let (clear, power) = synthetic(&KEY, 11);
    let model = calculate_hamming_weights(&clear).unwrap();
    let first = attack_bytes(&power, &model).unwrap();
    let second = attack_bytes(&power, &model).unwrap();
    assert_eq!(first.len(), 16);
    for b in 0..16 {
        assert_eq!(first[b].key, second[b].key);
        assert_eq!(first[b].score.numerator(), second[b].score.numerator());
        assert_eq!(first[b].score.denominator(), second[b].score.denominator());
    }
    let a = byte_scores(&power, &model, 3);
    let c = byte_scores(&power, &model, 3);
    assert_eq!(a.len(), 256);
    for k in 0..256 {
        assert_eq!(a[k].sample, c[k].sample);
        assert_eq!(a[k].score.numerator(), c[k].score.numerator());
        assert_eq!(a[k].score.denominator(), c[k].score.denominator());
    }
}

#[test]
fn peak_is_the_best_sample_of_a_hypothesis() {
    let (clear, power) = synthetic(&KEY, 3);
    let model = calculate_hamming_weights(&clear).unwrap();
    assert_eq!(check_shapes(&power, &model), Ok(()));
    let peak = hypothesis_peak(&power, &model, 0, 0x2a);
    assert_eq!(peak.sample, LEAKING_SAMPLE);
    let predicted = model.lane_to_vec(0, 0x2a);
    for s in 0..SAMPLES {
        let measured = power.cross_to_vec(0, s);
        let score = pearson_correlation(&measured, &predicted).unwrap();
        assert!(!peak.score.less_than(&score));
        if s < peak.sample {
            assert!(score.less_than(&peak.score));
        }
        if s == peak.sample {
            assert_eq!(score.numerator(), peak.score.numerator());
            assert_eq!(score.denominator(), peak.score.denominator());
        }
    }
}

#[test]
fn recovered_byte_is_the_best_hypothesis() {
    let (clear, power) = synthetic(&KEY, 5);
    let model = calculate_hamming_weights(&clear).unwrap();
    let found = recover_byte(&power, &model, 4);
    assert_eq!(found.key, 0x7d);
    let peaks = byte_scores(&power, &model, 4);
    let best = &peaks[found.key as usize];
    assert_eq!(best.score.numerator(), found.score.numerator());
    assert_eq!(best.score.denominator(), found.score.denominator());
    for k in 0..256 {
        assert!(!best.score.less_than(&peaks[k].score));
        if k < found.key as usize {
            assert!(peaks[k].score.less_than(&best.score));
        }
    }
}

#[test]
fn ties_go_to_the_smallest_key_byte_and_first_sample() {
    // Constant power: every hypothesis scores zero at every sample.
    let clear = Matrix::from_shape_vec(4, 16, vec![9; 64]).unwrap();
    let model = calculate_hamming_weights(&clear).unwrap();
    let power = Cube::from_shape_vec(16, 4, 3, vec![5; 16 * 4 * 3]).unwrap();
    assert_eq!(cpa_attack(&power, &model).unwrap(), vec![0u8; 16]);
    let peak = hypothesis_peak(&power, &model, 0, 200);
    assert_eq!(peak.sample, 0);
    assert_eq!((peak.score.numerator(), peak.score.denominator()), (0, 1));
}

#[test]
fn positions_follow_the_traces() {
    // Two positions only: the model is cut to match.
    let (clear, power) = synthetic(&KEY, 13);
    let model = calculate_hamming_weights(&clear).unwrap();
    let mut cells: Vec<i16> = Vec::new();
    let mut predicted: Vec<i16> = Vec::new();
    for b in 0..2 {
        for t in 0..TRACES {
            cells.extend(power.lane_to_vec(b, t));
        }
        for k in 0..256 {
            predicted.extend(model.lane_to_vec(b, k));
        }
    }
    let power = Cube::from_shape_vec(2, TRACES, SAMPLES, cells).unwrap();
    let model = Cube::from_shape_vec(2, 256, TRACES, predicted).unwrap();
    assert_eq!(cpa_attack(&power, &model).unwrap(), vec![0x2a, 0x00]);
    let none = Cube::from_shape_vec(0, TRACES, SAMPLES, vec![]).unwrap();
    let no_model = Cube::from_shape_vec(0, 256, TRACES, vec![]).unwrap();
    assert_eq!(cpa_attack(&none, &no_model).unwrap(), Vec::<u8>::new());
}

#[test]
fn mismatched_shapes_are_refused() {
    let power = Cube::from_shape_vec(2, 3, 4, vec![0; 24]).unwrap();
    let model = Cube::from_shape_vec(1, 256, 3, vec![0; 768]).unwrap();
    assert_eq!(
        cpa_attack(&power, &model).err(),
        Some(AttackError::PositionCount { power: 2, leakage: 1 })
    );
    let model = Cube::from_shape_vec(2, 255, 3, vec![0; 2 * 255 * 3]).unwrap();
    assert_eq!(
        check_shapes(&power, &model),
        Err(AttackError::HypothesisCount { actual: 255 })
    );
    let model = Cube::from_shape_vec(2, 256, 2, vec![0; 1024]).unwrap();
    assert_eq!(
        cpa_attack(&power, &model).err(),
        Some(AttackError::TraceCount { power: 3, leakage: 2 })
    );
    let power = Cube::from_shape_vec(2, 3, 0, vec![]).unwrap();
    let model = Cube::from_shape_vec(2, 256, 3, vec![0; 1536]).unwrap();
    assert_eq!(attack_bytes(&power, &model).err(), Some(AttackError::NoSamples));
}

#[test]
fn too_many_traces_are_refused() {
    let power = Cube::from_shape_vec(1, 65536, 1, vec![0; 65536]).unwrap();
    let model = Cube::from_shape_vec(1, 256, 65536, vec![0; 256 * 65536]).unwrap();
    assert_eq!(
        cpa_attack(&power, &model).err(),
        Some(AttackError::TooManyTraces { actual: 65536 })
    );
}
