//! The attack: for each byte position, the key byte whose predicted
//! leakage correlates best with the measured power.
//!
//! A key hypothesis is scored at every sample instant, by correlating what
//! it predicts for each trace with what was measured in each trace at that
//! instant, and keeps the greatest of those scores. The hypothesis with
//! the greatest score is the recovered byte. Where scores tie, the first
//! sample instant and the smallest key byte win.

use crate::correlation::{levels, pearson_correlation, score_of, MAX_SAMPLES};
use crate::leakage::HYPOTHESES;
use crate::parallel::par_collect;
use crate::score::{
    first_max,
    first_max_index,
    fractions,
    is_first_max,
    lemma_first_max_unique,
    Fraction,
    Score,
};
use crate::tensor::Cube;
use vstd::prelude::*;

verus! {

/// Why a set of traces and a leakage model cannot be attacked.
#[derive(Clone, Copy, Debug, PartialEq, Eq)]
pub enum AttackError {
    /// The traces cover `power` byte positions and the model `leakage`.
    PositionCount { power: usize, leakage: usize },
    /// The model holds `actual` hypotheses to a position, not 256.
    HypothesisCount { actual: usize },
    /// There are `power` traces to a position and the model predicts
    /// `leakage`.
    TraceCount { power: usize, leakage: usize },
    /// The traces hold no samples.
    NoSamples,
    /// There are `actual` traces to a position, more than `MAX_SAMPLES`.
    TooManyTraces { actual: usize },
}

/// The greatest score of a hypothesis and the first sample instant that
/// reaches it.
#[derive(Clone, Copy, Debug)]
pub struct Peak {
    pub score: Score,
    pub sample: usize,
}

/// The recovered byte of one position and its score.
#[derive(Clone, Copy, Debug)]
pub struct KeyByteResult {
    pub key: u8,
    pub score: Score,
}

/// Whether the traces `power`, indexed by position, trace and sample, and
/// the model `leakage`, indexed by position, hypothesis and trace, go
/// together.
pub open spec fn attack_ready(power: Cube, leakage: Cube) -> bool {
    &&& leakage.shape().0 == power.shape().0
    &&& leakage.shape().1 == HYPOTHESES
    &&& leakage.shape().2 == power.shape().1
    &&& power.shape().2 >= 1
    &&& power.shape().1 <= MAX_SAMPLES
}

/// The score of hypothesis `k` for position `b` at sample instant `t`.
pub open spec fn sample_score(power: Cube, leakage: Cube, b: int, k: int, t: int) -> Fraction {
    score_of(levels(power.cross(b, t)), levels(leakage.lane(b, k)))
}

/// The scores of hypothesis `k` for position `b` at every sample instant.
pub open spec fn sample_scores(power: Cube, leakage: Cube, b: int, k: int) -> Seq<Fraction> {
    Seq::new(power.shape().2, |t: int| sample_score(power, leakage, b, k, t))
}

/// The first sample instant at which hypothesis `k` for position `b`
/// scores highest.
pub open spec fn peak_sample(power: Cube, leakage: Cube, b: int, k: int) -> int {
    first_max_index(sample_scores(power, leakage, b, k))
}

/// The score of hypothesis `k` for position `b`: its greatest score over
/// the sample instants.
pub open spec fn hypothesis_score(power: Cube, leakage: Cube, b: int, k: int) -> Fraction {
    sample_scores(power, leakage, b, k)[peak_sample(power, leakage, b, k)]
}

/// The scores of all hypotheses for position `b`.
pub open spec fn hypothesis_scores(power: Cube, leakage: Cube, b: int) -> Seq<Fraction> {
    Seq::new(HYPOTHESES as nat, |k: int| hypothesis_score(power, leakage, b, k))
}

/// The smallest key byte that scores highest for position `b`.
pub open spec fn recovered_byte(power: Cube, leakage: Cube, b: int) -> int {
    first_max_index(hypothesis_scores(power, leakage, b))
}

/// The recovered key: one byte for each position.
pub open spec fn recovered_key(power: Cube, leakage: Cube) -> Seq<u8> {
    Seq::new(power.shape().0, |b: int| recovered_byte(power, leakage, b) as u8)
}

/// Whether `peak` is the peak of hypothesis `k` for position `b`.
pub open spec fn is_peak_of(peak: Peak, power: Cube, leakage: Cube, b: int, k: int) -> bool {
    &&& is_first_max(sample_scores(power, leakage, b, k), peak.sample as int)
    &&& peak.sample == peak_sample(power, leakage, b, k)
    &&& peak.score@ == hypothesis_score(power, leakage, b, k)
}

/// Whether `found` is the recovered byte of position `b` with its score.
pub open spec fn is_result_of(found: KeyByteResult, power: Cube, leakage: Cube, b: int) -> bool {
    &&& is_first_max(hypothesis_scores(power, leakage, b), found.key as int)
    &&& found.key == recovered_byte(power, leakage, b)
    &&& found.score@ == hypothesis_scores(power, leakage, b)[found.key as int]
}

/// Whether `key` holds, for each position, a key byte that scores
/// highest and is the smallest to do so.
pub open spec fn is_recovered(key: Seq<u8>, power: Cube, leakage: Cube) -> bool {
    &&& key.len() == power.shape().0
    &&& forall|b: int|
        0 <= b < key.len() ==> is_first_max(
            hypothesis_scores(power, leakage, b),
            #[trigger] key[b] as int,
        )
}

/// The traces and the model determine the recovered key: two keys that
/// both hold the best hypothesis for each position are one key.
pub proof fn lemma_key_determined(power: Cube, leakage: Cube, first: Seq<u8>, second: Seq<u8>)
    requires
        is_recovered(first, power, leakage),
        is_recovered(second, power, leakage),
    ensures
        first == second,
{
    assert forall|b: int| 0 <= b < first.len() implies first[b] == second[b] by {
        lemma_first_max_unique(
            hypothesis_scores(power, leakage, b),
            first[b] as int,
            second[b] as int,
        );
    }
    assert(first =~= second);
}

/// The traces and the model determine the peak of every hypothesis: its
/// score and the sample instant at which it is reached.
pub proof fn lemma_peak_determined(
    power: Cube,
    leakage: Cube,
    b: int,
    k: int,
    first: Peak,
    second: Peak,
)
    requires
        is_peak_of(first, power, leakage, b, k),
        is_peak_of(second, power, leakage, b, k),
    ensures
        first == second,
{
    Score::lemma_same_parts(first.score, second.score);
}

/// The traces and the model determine the recovered byte of every
/// position, and its score.
pub proof fn lemma_result_determined(
    power: Cube,
    leakage: Cube,
    b: int,
    first: KeyByteResult,
    second: KeyByteResult,
)
    requires
        is_result_of(first, power, leakage, b),
        is_result_of(second, power, leakage, b),
    ensures
        first == second,
{
    Score::lemma_same_parts(first.score, second.score);
}

/// Whether `e` is the first reason why traces and model do not go
/// together: the reasons are looked for in the order of the variants.
pub open spec fn is_first_fault(power: Cube, leakage: Cube, e: AttackError) -> bool {
    match e {
        AttackError::PositionCount { power: p, leakage: l } => {
            &&& p == power.shape().0
            &&& l == leakage.shape().0
            &&& p != l
        },
        AttackError::HypothesisCount { actual } => {
            &&& leakage.shape().0 == power.shape().0
            &&& actual == leakage.shape().1
            &&& actual != HYPOTHESES
        },
        AttackError::TraceCount { power: p, leakage: l } => {
            &&& leakage.shape().0 == power.shape().0
            &&& leakage.shape().1 == HYPOTHESES
            &&& p == power.shape().1
            &&& l == leakage.shape().2
            &&& p != l
        },
        AttackError::NoSamples => {
            &&& leakage.shape().0 == power.shape().0
            &&& leakage.shape().1 == HYPOTHESES
            &&& leakage.shape().2 == power.shape().1
            &&& power.shape().2 == 0
        },
        AttackError::TooManyTraces { actual } => {
            &&& leakage.shape().0 == power.shape().0
            &&& leakage.shape().1 == HYPOTHESES
            &&& leakage.shape().2 == power.shape().1
            &&& power.shape().2 >= 1
            &&& actual == power.shape().1
            &&& actual > MAX_SAMPLES
        },
    }
}

/// Checks that traces and model go together.
pub fn check_shapes(power: &Cube, leakage: &Cube) -> (r: Result<(), AttackError>)
    ensures
        r is Ok <==> attack_ready(*power, *leakage),
        r matches Err(e) ==> is_first_fault(*power, *leakage, e),
{
    let (positions, traces, samples) = power.dim();
    let (model_positions, hypotheses, model_traces) = leakage.dim();
    if positions != model_positions {
        return Err(AttackError::PositionCount { power: positions, leakage: model_positions });
    }
    if hypotheses != HYPOTHESES {
        return Err(AttackError::HypothesisCount { actual: hypotheses });
    }
    if traces != model_traces {
        return Err(AttackError::TraceCount { power: traces, leakage: model_traces });
    }
    if samples == 0 {
        return Err(AttackError::NoSamples);
    }
    if traces > MAX_SAMPLES {
        return Err(AttackError::TooManyTraces { actual: traces });
    }
    Ok(())
}

/// Scores hypothesis `k` for position `b` at every sample instant and
/// keeps the first greatest score.
pub fn hypothesis_peak(power: &Cube, leakage: &Cube, b: usize, k: usize) -> (r: Peak)
    requires
        attack_ready(*power, *leakage),
        b < power.shape().0,
        k < HYPOTHESES,
    ensures
        is_peak_of(r, *power, *leakage, b as int, k as int),
{
    let (_, _, samples) = power.dim();
    let predicted = leakage.lane_to_vec(b, k);
    let mut scores: Vec<Score> = Vec::with_capacity(samples);
    let mut t: usize = 0;
    while t < samples
        invariant
            attack_ready(*power, *leakage),
            b < power.shape().0,
            k < HYPOTHESES,
            samples == power.shape().2,
            predicted@ == leakage.lane(b as int, k as int),
            t <= samples,
            scores@.len() == t,
            forall|q: int|
                0 <= q < t ==> (#[trigger] scores@[q])@ == sample_score(
                    *power,
                    *leakage,
                    b as int,
                    k as int,
                    q,
                ),
        decreases samples - t,
    {
        let measured = power.cross_to_vec(b, t);
        let score = match pearson_correlation(&measured, &predicted) {
            Ok(s) => s,
            Err(_) => Score::zero(),
        };
        scores.push(score);
        t += 1;
    }
    assert(fractions(scores@) =~= sample_scores(*power, *leakage, b as int, k as int));
    match first_max(&scores) {
        Some(sample) => Peak { score: scores[sample], sample },
        None => Peak { score: Score::zero(), sample: 0 },
    }
}

/// Scores every hypothesis for position `b`.
pub fn byte_scores(power: &Cube, leakage: &Cube, b: usize) -> (r: Vec<Peak>)
    requires
        attack_ready(*power, *leakage),
        b < power.shape().0,
    ensures
        r@.len() == HYPOTHESES,
        forall|k: int|
            0 <= k < HYPOTHESES ==> is_peak_of(#[trigger] r@[k], *power, *leakage, b as int, k),
{
    let one = |k: usize| -> (peak: Peak)
        requires
            k < HYPOTHESES,
        ensures
            is_peak_of(peak, *power, *leakage, b as int, k as int),
        {
            hypothesis_peak(power, leakage, b, k)
        };
    let peaks = par_collect(HYPOTHESES, one);
    assert forall|k: int| 0 <= k < HYPOTHESES implies is_peak_of(
        #[trigger] peaks@[k],
        *power,
        *leakage,
        b as int,
        k,
    ) by {
        assert(call_ensures(one, (k as usize,), peaks@[k]));
    }
    peaks
}

/// Recovers the key byte of position `b`.
pub fn recover_byte(power: &Cube, leakage: &Cube, b: usize) -> (r: KeyByteResult)
    requires
        attack_ready(*power, *leakage),
        b < power.shape().0,
    ensures
        is_result_of(r, *power, *leakage, b as int),
{
    let peaks = byte_scores(power, leakage, b);
    let mut scores: Vec<Score> = Vec::with_capacity(HYPOTHESES);
    let mut k: usize = 0;
    while k < HYPOTHESES
        invariant
            peaks@.len() == HYPOTHESES,
            k <= HYPOTHESES,
            scores@.len() == k,
            forall|q: int| 0 <= q < k ==> #[trigger] scores@[q] == peaks@[q].score,
        decreases HYPOTHESES - k,
    {
        scores.push(peaks[k].score);
        k += 1;
    }
    assert(fractions(scores@) =~= hypothesis_scores(*power, *leakage, b as int));
    match first_max(&scores) {
        Some(key) => KeyByteResult { key: key as u8, score: scores[key] },
        None => KeyByteResult { key: 0, score: Score::zero() },
    }
}

/// Recovers every key byte, with its score.
pub fn attack_bytes(power: &Cube, leakage: &Cube) -> (r: Result<Vec<KeyByteResult>, AttackError>)
    ensures
        r is Ok <==> attack_ready(*power, *leakage),
        r matches Ok(found) ==> {
            &&& found@.len() == power.shape().0
            &&& forall|b: int|
                0 <= b < found@.len() ==> is_result_of(#[trigger] found@[b], *power, *leakage, b)
        },
        r matches Err(e) ==> is_first_fault(*power, *leakage, e),
{
    match check_shapes(power, leakage) {
        Err(e) => {
            return Err(e);
        },
        Ok(_) => {},
    }
    let (positions, _, _) = power.dim();
    let mut found: Vec<KeyByteResult> = Vec::with_capacity(positions);
    let mut b: usize = 0;
    while b < positions
        invariant
            attack_ready(*power, *leakage),
            positions == power.shape().0,
            b <= positions,
            found@.len() == b,
            forall|q: int| 0 <= q < b ==> is_result_of(#[trigger] found@[q], *power, *leakage, q),
        decreases positions - b,
    {
        found.push(recover_byte(power, leakage, b));
        b += 1;
    }
    Ok(found)
}

/// Recovers the key: for each byte position, the smallest key byte whose
/// predicted leakage correlates best with the measured power.
pub fn cpa_attack(power_traces: &Cube, hamming_weights: &Cube) -> (r: Result<
    Vec<u8>,
    AttackError,
>)
    ensures
        r is Ok <==> attack_ready(*power_traces, *hamming_weights),
        r matches Ok(key) ==> {
            &&& key@ == recovered_key(*power_traces, *hamming_weights)
            &&& is_recovered(key@, *power_traces, *hamming_weights)
        },
        r matches Err(e) ==> is_first_fault(*power_traces, *hamming_weights, e),
{
    let found = match attack_bytes(power_traces, hamming_weights) {
        Err(e) => {
            return Err(e);
        },
        Ok(found) => found,
    };
    let n: usize = found.len();
    let mut key: Vec<u8> = Vec::with_capacity(n);
    let mut b: usize = 0;
    while b < n
        invariant
            n == found@.len(),
            n == power_traces.shape().0,
            b <= n,
            key@.len() == b,
            forall|q: int|
                0 <= q < n ==> is_result_of(
                    #[trigger] found@[q],
                    *power_traces,
                    *hamming_weights,
                    q,
                ),
            forall|q: int| 0 <= q < b ==> #[trigger] key@[q] == found@[q].key,
        decreases n - b,
    {
        key.push(found[b].key);
        b += 1;
    }
    assert(key@ =~= recovered_key(*power_traces, *hamming_weights));
    Ok(key)
}

} // verus!
