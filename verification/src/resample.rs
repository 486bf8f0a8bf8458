//! Realignment of a trace to the edges of a reference clock.
//!
//! The edges of the reference clock and of the trace's own clock are
//! paired in order; what the longer list has beyond the shorter is dropped.
//! The output, as long as the trace, is scanned once from left to right
//! with a cursor over the pairs. Around the reference edge under the cursor
//! lies a window of `window_size / 2` samples to either side. Inside the
//! window the output copies the trace, shifted by the distance between the
//! two edges of the pair; everywhere else it is blank, that is zero. At the
//! right end of the window, itself blank, the cursor moves to the next
//! pair.
//!
//! A pair is out of range at an output position when its window does not
//! lie strictly inside the trace, or when the shifted position falls
//! outside the trace. There the output is blank and the cursor stays where
//! it is. All positions are computed as mathematical integers: nothing
//! wraps around, and nothing is read outside the trace.

use crate::edges::{arg_of_ones, as_ints, edge_positions, find_edges_at, MID_LEVEL};
use crate::parallel::par_collect;
use crate::tensor::{lemma_fits_bounds, Cube};
use vstd::arithmetic::div_mod::{lemma_fundamental_div_mod, lemma_fundamental_div_mod_converse};
use vstd::prelude::*;

verus! {

/// The number of edge pairs: the surplus of the longer list is dropped.
pub open spec fn pair_count(refs: Seq<int>, edges: Seq<int>) -> int {
    if refs.len() <= edges.len() {
        refs.len() as int
    } else {
        edges.len() as int
    }
}

/// Whether pair `c` can serve output position `p` of a trace of `len`
/// samples: the window lies strictly inside the trace and the shifted
/// position lies in it.
pub open spec fn pair_in_range(
    refs: Seq<int>,
    edges: Seq<int>,
    len: int,
    window: int,
    c: int,
    p: int,
) -> bool {
    &&& 0 <= c < pair_count(refs, edges)
    &&& 0 < refs[c] - window / 2
    &&& refs[c] + window / 2 < len
    &&& 0 <= p + (edges[c] - refs[c]) < len
}

/// The trace position that output position `p` copies while the cursor
/// stands at pair `c`; `None` where the output is blank.
pub open spec fn source_at(
    refs: Seq<int>,
    edges: Seq<int>,
    len: int,
    window: int,
    c: int,
    p: int,
) -> Option<int> {
    if pair_in_range(refs, edges, len, window, c, p) && refs[c] - window / 2 <= p < refs[c] + window
        / 2 {
        Some(p + (edges[c] - refs[c]))
    } else {
        None
    }
}

/// Whether the cursor leaves pair `c` at output position `p`: the position
/// is the right end of a window that is in range.
pub open spec fn leaves_at(
    refs: Seq<int>,
    edges: Seq<int>,
    len: int,
    window: int,
    c: int,
    p: int,
) -> bool {
    pair_in_range(refs, edges, len, window, c, p) && p == refs[c] + window / 2
}

/// The pair under the cursor when the scan reaches output position `p`.
pub open spec fn cursor_at(refs: Seq<int>, edges: Seq<int>, len: int, window: int, p: int) -> int
    decreases p,
{
    if p <= 0 {
        0
    } else {
        let c = cursor_at(refs, edges, len, window, p - 1);
        if leaves_at(refs, edges, len, window, c, p - 1) {
            c + 1
        } else {
            c
        }
    }
}

/// Whether output position `p` is blank for want of range: there is a pair
/// under the cursor, but its window or the shifted position falls outside
/// the trace.
pub open spec fn clipped_at(refs: Seq<int>, edges: Seq<int>, len: int, window: int, p: int) -> bool {
    let c = cursor_at(refs, edges, len, window, p);
    0 <= c < pair_count(refs, edges) && !pair_in_range(refs, edges, len, window, c, p)
}

/// The number of output positions before `p` that are blank for want of
/// range.
pub open spec fn clipped_before(
    refs: Seq<int>,
    edges: Seq<int>,
    len: int,
    window: int,
    p: int,
) -> int
    decreases p,
{
    if p <= 0 {
        0
    } else {
        clipped_before(refs, edges, len, window, p - 1) + if clipped_at(
            refs,
            edges,
            len,
            window,
            p - 1,
        ) {
            1int
        } else {
            0int
        }
    }
}

/// The number of edges that have no partner in the other list.
pub open spec fn unpaired(refs: Seq<int>, edges: Seq<int>) -> int {
    refs.len() + edges.len() - 2 * pair_count(refs, edges)
}

/// The trace position that output position `p` copies, if any.
pub open spec fn source_of(refs: Seq<int>, edges: Seq<int>, len: int, window: int, p: int) -> Option<
    int,
> {
    source_at(refs, edges, len, window, cursor_at(refs, edges, len, window, p), p)
}

/// The realigned trace: as long as `trace`, blank (zero) wherever no
/// window supplies a sample.
pub open spec fn resampled(refs: Seq<int>, edges: Seq<int>, trace: Seq<i16>, window: int) -> Seq<
    i16,
> {
    Seq::new(
        trace.len(),
        |p: int|
            match source_of(refs, edges, trace.len() as int, window, p) {
                Some(t) => trace[t],
                None => 0i16,
            },
    )
}

/// A trace of `len` blank samples.
pub open spec fn blank(len: nat) -> Seq<i16> {
    Seq::new(len, |p: int| 0i16)
}

/// Whatever the edges, the output reads the trace inside its bounds only:
/// each output sample is blank, or the sample at a position of the trace.
pub proof fn lemma_reads_in_range(refs: Seq<int>, edges: Seq<int>, trace: Seq<i16>, window: int)
    ensures
        resampled(refs, edges, trace, window).len() == trace.len(),
        forall|p: int|
            0 <= p < trace.len() ==> match #[trigger] source_of(
                refs,
                edges,
                trace.len() as int,
                window,
                p,
            ) {
                Some(t) => 0 <= t < trace.len() && resampled(refs, edges, trace, window)[p]
                    == trace[t],
                None => resampled(refs, edges, trace, window)[p] == 0,
            },
{
}

/// A window at least as long as the trace never lies strictly inside it,
/// so the output is blank.
pub proof fn lemma_wide_window_is_blank(
    refs: Seq<int>,
    edges: Seq<int>,
    trace: Seq<i16>,
    window: int,
)
    requires
        window >= trace.len(),
    ensures
        resampled(refs, edges, trace, window) == blank(trace.len()),
{
    let len = trace.len() as int;
    assert forall|p: int| 0 <= p < len implies resampled(refs, edges, trace, window)[p]
        == 0i16 by {
        let c = cursor_at(refs, edges, len, window, p);
        assert(!pair_in_range(refs, edges, len, window, c, p));
    }
    assert(resampled(refs, edges, trace, window) =~= blank(trace.len()));
}

/// Realigning a trace to its own clock with a window at least as long as
/// the trace gives the trace back, provided the trace is blank: such a
/// window blanks every other trace.
pub proof fn lemma_own_clock_wide_window(own_edges: Seq<int>, trace: Seq<i16>, window: int)
    requires
        window >= trace.len(),
        trace == blank(trace.len()),
    ensures
        resampled(own_edges, own_edges, trace, window) == trace,
{
    lemma_wide_window_is_blank(own_edges, own_edges, trace, window);
}

/// Realigning a trace to its own clock moves nothing: each output sample
/// is blank or the sample of the trace at the same position.
pub proof fn lemma_own_clock_in_place(own_edges: Seq<int>, trace: Seq<i16>, window: int)
    ensures
        forall|p: int|
            0 <= p < trace.len() ==> {
                let out = #[trigger] resampled(own_edges, own_edges, trace, window)[p];
                out == 0 || out == trace[p]
            },
{
}

/// While the first reference edge lies within half a window of the start
/// of the trace, its window is out of range: the cursor never leaves it and
/// the output is blank.
pub proof fn lemma_early_edge_is_blank(
    refs: Seq<int>,
    edges: Seq<int>,
    trace: Seq<i16>,
    window: int,
)
    requires
        refs.len() > 0,
        refs[0] <= window / 2,
    ensures
        resampled(refs, edges, trace, window) == blank(trace.len()),
{
    let len = trace.len() as int;
    assert forall|p: int| 0 <= p < len implies resampled(refs, edges, trace, window)[p]
        == 0i16 by {
        lemma_cursor_stays(refs, edges, len, window, p);
    }
    assert(resampled(refs, edges, trace, window) =~= blank(trace.len()));
}

/// The cursor does not leave a first pair whose window is out of range.
proof fn lemma_cursor_stays(refs: Seq<int>, edges: Seq<int>, len: int, window: int, p: int)
    requires
        refs.len() > 0,
        refs[0] <= window / 2,
    ensures
        cursor_at(refs, edges, len, window, p) == 0,
    decreases p,
{
    if p > 0 {
        lemma_cursor_stays(refs, edges, len, window, p - 1);
    }
}

/// The shifted position `p + (e - r)`, or `None` when it falls outside a
/// trace of `len` samples.
fn shifted(p: usize, r: usize, e: usize, len: usize) -> (t: Option<usize>)
    requires
        p < len,
    ensures
        t matches Some(i) ==> i == p + (e - r) && i < len,
        t is None ==> !(0 <= p + (e - r) < len),
{
    if e >= r {
        let ahead: usize = e - r;
        if ahead < len && p < len - ahead {
            Some(p + ahead)
        } else {
            None
        }
    } else {
        let behind: usize = r - e;
        if p >= behind {
            Some(p - behind)
        } else {
            None
        }
    }
}

/// What the realignment of one trace lost.
#[derive(Clone, Copy, Debug, PartialEq, Eq)]
pub struct Loss {
    /// The number of samples left blank because a window or a shifted
    /// position fell outside the trace.
    pub clipped: usize,
    /// The number of edges dropped for want of a partner.
    pub dropped_edges: usize,
}

/// A realigned trace, with what the realignment lost.
#[derive(Debug)]
pub struct Realigned {
    pub trace: Vec<i16>,
    pub loss: Loss,
}

/// Whether `loss` is what realigning a trace of `len` samples loses.
pub open spec fn is_loss_of(
    loss: Loss,
    refs: Seq<int>,
    edges: Seq<int>,
    len: int,
    window: int,
) -> bool {
    &&& loss.clipped == clipped_before(refs, edges, len, window, len)
    &&& loss.dropped_edges == unpaired(refs, edges)
}

/// Realigns `trace`, whose clock rises at `edge_indices`, to a reference
/// clock that rises at `ref_indices`, and counts what is lost on the way.
pub fn resample_counted(
    ref_indices: &Vec<usize>,
    trace: &Vec<i16>,
    edge_indices: &Vec<usize>,
    window_size: usize,
) -> (r: Realigned)
    ensures
        r.trace@ == resampled(
            as_ints(ref_indices@),
            as_ints(edge_indices@),
            trace@,
            window_size as int,
        ),
        is_loss_of(
            r.loss,
            as_ints(ref_indices@),
            as_ints(edge_indices@),
            trace@.len() as int,
            window_size as int,
        ),
{
    let ghost refs = as_ints(ref_indices@);
    let ghost edges = as_ints(edge_indices@);
    let ghost window = window_size as int;
    let len: usize = trace.len();
    let pairs: usize = if ref_indices.len() <= edge_indices.len() {
        ref_indices.len()
    } else {
        edge_indices.len()
    };
    let dropped_edges: usize = if ref_indices.len() <= edge_indices.len() {
        edge_indices.len() - ref_indices.len()
    } else {
        ref_indices.len() - edge_indices.len()
    };
    let half: usize = window_size / 2;
    let mut out: Vec<i16> = Vec::with_capacity(len);
    let mut clipped: usize = 0;
    let mut cursor: usize = 0;
    let mut p: usize = 0;
    while p < len
        invariant
            refs == as_ints(ref_indices@),
            edges == as_ints(edge_indices@),
            window == window_size as int,
            len == trace@.len(),
            pairs == pair_count(refs, edges),
            half == window / 2,
            p <= len,
            cursor <= pairs,
            cursor == cursor_at(refs, edges, len as int, window, p as int),
            clipped <= p,
            clipped == clipped_before(refs, edges, len as int, window, p as int),
            out@.len() == p,
            forall|q: int|
                0 <= q < p ==> out@[q] == resampled(refs, edges, trace@, window)[q],
        decreases len - p,
    {
        let mut sample: i16 = 0;
        let mut leave: bool = false;
        let mut in_range: bool = false;
        if cursor < pairs {
            let r: usize = ref_indices[cursor];
            let e: usize = edge_indices[cursor];
            assert(refs[cursor as int] == r && edges[cursor as int] == e);
            if r > half && half < len && r < len - half {
                match shifted(p, r, e, len) {
                    Some(t) => {
                        in_range = true;
                        if r - half <= p && p < r + half {
                            sample = trace[t];
                        } else if p == r + half {
                            leave = true;
                        }
                    },
                    None => {},
                }
            }
            if !in_range {
                clipped += 1;
            }
        }
        proof {
            let c = cursor as int;
            assert(in_range == pair_in_range(refs, edges, len as int, window, c, p as int));
            assert(leave == leaves_at(refs, edges, len as int, window, c, p as int));
            assert(sample == match source_at(refs, edges, len as int, window, c, p as int) {
                Some(t) => trace@[t],
                None => 0i16,
            });
            assert(cursor_at(refs, edges, len as int, window, p + 1) == if leave {
                c + 1
            } else {
                c
            });
        }
        out.push(sample);
        if leave {
            cursor += 1;
        }
        p += 1;
    }
    assert(out@ =~= resampled(refs, edges, trace@, window));
    Realigned { trace: out, loss: Loss { clipped, dropped_edges } }
}

/// Realigns `trace`, whose clock rises at `edge_indices`, to a reference
/// clock that rises at `ref_indices`.
pub fn resample_with_edges(
    ref_indices: &Vec<usize>,
    trace: &Vec<i16>,
    edge_indices: &Vec<usize>,
    window_size: usize,
) -> (r: Vec<i16>)
    ensures
        r@ == resampled(as_ints(ref_indices@), as_ints(edge_indices@), trace@, window_size as int),
        r@.len() == trace@.len(),
{
    resample_counted(ref_indices, trace, edge_indices, window_size).trace
}

/// Realigns `power_traces`, captured along with `clock`, to a reference
/// clock that rises at `ref_indices`, and counts what is lost on the way.
/// The edges of `clock` are its rises through the threshold given as
/// twice its value.
pub fn resample_at(
    ref_indices: &Vec<usize>,
    power_traces: &Vec<i16>,
    clock: &Vec<i16>,
    window_size: usize,
    twice_threshold: i32,
) -> (r: Realigned)
    ensures
        r.trace@ == resampled(
            as_ints(ref_indices@),
            edge_positions(clock@, twice_threshold as int),
            power_traces@,
            window_size as int,
        ),
        is_loss_of(
            r.loss,
            as_ints(ref_indices@),
            edge_positions(clock@, twice_threshold as int),
            power_traces@.len() as int,
            window_size as int,
        ),
{
    let clock_edges = find_edges_at(clock, twice_threshold);
    let edge_indices = arg_of_ones(&clock_edges);
    resample_counted(ref_indices, power_traces, &edge_indices, window_size)
}

/// Realigns `power_traces`, captured along with `clock`, to a reference
/// clock that rises at `ref_indices`. The edges of `clock` are its rises
/// through the threshold one half.
pub fn resample(
    ref_indices: &Vec<usize>,
    power_traces: &Vec<i16>,
    clock: &Vec<i16>,
    window_size: usize,
) -> (r: Vec<i16>)
    ensures
        r@ == resampled(
            as_ints(ref_indices@),
            edge_positions(clock@, MID_LEVEL as int),
            power_traces@,
            window_size as int,
        ),
        r@.len() == power_traces@.len(),
{
    resample_at(ref_indices, power_traces, clock, window_size, MID_LEVEL).trace
}

/// Why a set of traces cannot be realigned.
#[derive(Clone, Copy, Debug, PartialEq, Eq)]
pub enum ResampleError {
    /// The traces and the clocks differ along `axis`, the first axis on
    /// which they do.
    ShapeMismatch { axis: usize, traces: usize, clocks: usize },
}

/// A realigned set of traces, with what the realignment of each lost.
pub struct RealignedSet {
    pub traces: Cube,
    /// The loss of trace `[i, j, ..]` stands at position `i * d1 + j`,
    /// where `d1` is the number of traces to a position.
    pub losses: Vec<Loss>,
}

/// The edges of the clock `[i, j, ..]`.
pub open spec fn lane_edges(clocks: Cube, twice_threshold: int, i: int, j: int) -> Seq<int> {
    edge_positions(clocks.lane(i, j), twice_threshold)
}

/// The realigned trace `[i, j, ..]` of a set of traces captured along with
/// `clocks`.
pub open spec fn resampled_lane(
    refs: Seq<int>,
    traces: Cube,
    clocks: Cube,
    window: int,
    twice_threshold: int,
    i: int,
    j: int,
) -> Seq<i16> {
    resampled(refs, lane_edges(clocks, twice_threshold, i, j), traces.lane(i, j), window)
}

/// Whether `set` is `traces` realigned: it has their shape, each trace is
/// realigned by its own clock, and each loss is that of its trace.
pub open spec fn is_realigned(
    set: RealignedSet,
    refs: Seq<int>,
    traces: Cube,
    clocks: Cube,
    window: int,
    twice_threshold: int,
) -> bool {
    &&& set.traces.shape() == traces.shape()
    &&& set.losses@.len() == traces.shape().0 * traces.shape().1
    &&& forall|i: int, j: int|
        0 <= i < traces.shape().0 && 0 <= j < traces.shape().1 ==> {
            &&& #[trigger] set.traces.lane(i, j) == resampled_lane(
                refs,
                traces,
                clocks,
                window,
                twice_threshold,
                i,
                j,
            )
            &&& is_loss_of(
                set.losses@[i * traces.shape().1 + j],
                refs,
                lane_edges(clocks, twice_threshold, i, j),
                traces.shape().2 as int,
                window,
            )
        }
}

/// Whether `e` names the first axis on which traces and clocks differ.
pub open spec fn is_first_mismatch(e: ResampleError, traces: Cube, clocks: Cube) -> bool {
    let a = traces.shape();
    let b = clocks.shape();
    match e {
        ResampleError::ShapeMismatch { axis, traces: t, clocks: c } => {
            ||| axis == 0 && t == a.0 && c == b.0 && a.0 != b.0
            ||| axis == 1 && t == a.1 && c == b.1 && a.0 == b.0 && a.1 != b.1
            ||| axis == 2 && t == a.2 && c == b.2 && a.0 == b.0 && a.1 == b.1 && a.2 != b.2
        },
    }
}

/// Copies a trace.
fn copy_of(trace: &Vec<i16>) -> (r: Vec<i16>)
    ensures
        r@ == trace@,
{
    let n: usize = trace.len();
    let mut out: Vec<i16> = Vec::with_capacity(n);
    let mut k: usize = 0;
    while k < n
        invariant
            n == trace@.len(),
            k <= n,
            out@ == trace@.take(k as int),
        decreases n - k,
    {
        out.push(trace[k]);
        assert(out@ =~= trace@.take(k + 1));
        k += 1;
    }
    assert(trace@.take(n as int) =~= trace@);
    out
}

/// Realigns every trace of `target_trace` to a reference clock that rises
/// at `ref_indices`, and counts what each trace loses on the way. Each
/// trace is realigned independently, by its own clock in `clocks`, whose
/// edges are its rises through the threshold given as twice its value.
pub fn resample_traces_at(
    ref_indices: &Vec<usize>,
    target_trace: &Cube,
    clocks: &Cube,
    window_size: usize,
    twice_threshold: i32,
) -> (r: Result<RealignedSet, ResampleError>)
    ensures
        r is Ok <==> target_trace.shape() == clocks.shape(),
        r matches Ok(set) ==> is_realigned(
            set,
            as_ints(ref_indices@),
            *target_trace,
            *clocks,
            window_size as int,
            twice_threshold as int,
        ),
        r matches Err(e) ==> is_first_mismatch(e, *target_trace, *clocks),
{
    let (d0, d1, d2) = target_trace.dim();
    let (c0, c1, c2) = clocks.dim();
    if d0 != c0 {
        return Err(ResampleError::ShapeMismatch { axis: 0, traces: d0, clocks: c0 });
    }
    if d1 != c1 {
        return Err(ResampleError::ShapeMismatch { axis: 1, traces: d1, clocks: c1 });
    }
    if d2 != c2 {
        return Err(ResampleError::ShapeMismatch { axis: 2, traces: d2, clocks: c2 });
    }
    proof {
        lemma_fits_bounds(d0 as int, d1 as int, d2 as int, target_trace.flat().len() as int);
    }
    let count: usize = d0 * d1;
    let one = |l: usize| -> (lane: Realigned)
        requires
            l < d0 * d1,
        ensures
            lane.trace@ == resampled_lane(
                as_ints(ref_indices@),
                *target_trace,
                *clocks,
                window_size as int,
                twice_threshold as int,
                l as int / d1 as int,
                l as int % d1 as int,
            ),
            is_loss_of(
                lane.loss,
                as_ints(ref_indices@),
                lane_edges(
                    *clocks,
                    twice_threshold as int,
                    l as int / d1 as int,
                    l as int % d1 as int,
                ),
                d2 as int,
                window_size as int,
            ),
        {
            proof {
                lemma_lane_position(l as int, d0 as int, d1 as int);
            }
            let i: usize = l / d1;
            let j: usize = l % d1;
            let trace = target_trace.lane_to_vec(i, j);
            let clock = clocks.lane_to_vec(i, j);
            resample_at(ref_indices, &trace, &clock, window_size, twice_threshold)
        };
    let done = par_collect(count, one);
    let mut lanes: Vec<Vec<i16>> = Vec::with_capacity(count);
    let mut losses: Vec<Loss> = Vec::with_capacity(count);
    let mut l: usize = 0;
    while l < count
        invariant
            count == done@.len(),
            l <= count,
            lanes@.len() == l,
            losses@.len() == l,
            forall|q: int| 0 <= q < l ==> (#[trigger] lanes@[q])@ == done@[q].trace@,
            forall|q: int| 0 <= q < l ==> #[trigger] losses@[q] == done@[q].loss,
        decreases count - l,
    {
        lanes.push(copy_of(&done[l].trace));
        losses.push(done[l].loss);
        l += 1;
    }
    assert forall|q: int| 0 <= q < lanes@.len() implies (#[trigger] lanes@[q])@.len() == d2 by {
        lemma_lane_position(q, d0 as int, d1 as int);
        assert(call_ensures(one, (q as usize,), done@[q]));
    }
    match Cube::from_lanes(d0, d1, d2, &lanes) {
        Ok(traces) => {
            let set = RealignedSet { traces, losses };
            proof {
                assert forall|i: int, j: int| 0 <= i < d0 && 0 <= j < d1 implies {
                    &&& #[trigger] set.traces.lane(i, j) == resampled_lane(
                        as_ints(ref_indices@),
                        *target_trace,
                        *clocks,
                        window_size as int,
                        twice_threshold as int,
                        i,
                        j,
                    )
                    &&& is_loss_of(
                        set.losses@[i * d1 + j],
                        as_ints(ref_indices@),
                        lane_edges(*clocks, twice_threshold as int, i, j),
                        d2 as int,
                        window_size as int,
                    )
                } by {
                    let q = i * d1 + j;
                    lemma_fundamental_div_mod_converse(q, d1 as int, i, j);
                    assert(0 <= q < d0 * d1) by (nonlinear_arith)
                        requires
                            0 <= i < d0,
                            0 <= j < d1,
                            q == i * d1 + j,
                    ;
                    assert(call_ensures(one, (q as usize,), done@[q]));
                    assert(lanes@[q]@ == done@[q].trace@);
                }
            }
            Ok(set)
        },
        Err(_) => Err(ResampleError::ShapeMismatch { axis: 0, traces: d0, clocks: c0 }),
    }
}

/// Realigns every trace of `target_trace` to a reference clock that rises
/// at `ref_indices`; each trace is realigned independently, by its own
/// clock in `clocks`, whose edges are its rises through the threshold one
/// half. The result has the shape of `target_trace`.
pub fn resample_traces(
    ref_indices: &Vec<usize>,
    target_trace: &Cube,
    clocks: &Cube,
    window_size: usize,
) -> (r: Result<Cube, ResampleError>)
    ensures
        r is Ok <==> target_trace.shape() == clocks.shape(),
        r matches Ok(out) ==> {
            &&& out.shape() == target_trace.shape()
            &&& forall|i: int, j: int|
                0 <= i < out.shape().0 && 0 <= j < out.shape().1 ==> #[trigger] out.lane(i, j)
                    == resampled_lane(
                    as_ints(ref_indices@),
                    *target_trace,
                    *clocks,
                    window_size as int,
                    MID_LEVEL as int,
                    i,
                    j,
                )
        },
        r matches Err(e) ==> is_first_mismatch(e, *target_trace, *clocks),
{
    match resample_traces_at(ref_indices, target_trace, clocks, window_size, MID_LEVEL) {
        Ok(set) => Ok(set.traces),
        Err(e) => Err(e),
    }
}

/// Position `l` among `d0 * d1` lanes is lane `l % d1` of group `l / d1`.
proof fn lemma_lane_position(l: int, d0: int, d1: int)
    requires
        0 <= l < d0 * d1,
        0 <= d0,
        0 <= d1,
    ensures
        d1 > 0,
        0 <= l / d1 < d0,
        0 <= l % d1 < d1,
        l == (l / d1) * d1 + l % d1,
{
    assert(d1 > 0) by (nonlinear_arith)
        requires
            0 <= l < d0 * d1,
            0 <= d0,
            0 <= d1,
    ;
    lemma_fundamental_div_mod(l, d1);
    let q = l / d1;
    let m = l % d1;
    assert(0 <= m < d1);
    assert(l == d1 * q + m);
    assert(0 <= q < d0) by (nonlinear_arith)
        requires
            l == d1 * q + m,
            0 <= m < d1,
            0 <= l < d0 * d1,
            d1 > 0,
    ;
    assert(d1 * q == q * d1) by (nonlinear_arith);
}

} // verus!
