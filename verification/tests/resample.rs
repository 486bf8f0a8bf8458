use cpa::edges::{arg_of_ones, find_edges};
use cpa::resample::{
    resample, resample_at, resample_counted, resample_traces, resample_traces_at,
    resample_with_edges, Loss, ResampleError,
};
use cpa::tensor::Cube;

fn ramp(len: usize) -> Vec<i16> {
    (0..len).map(|i| (i as i16) + 100).collect()
}

#[test]
fn window_copies_shifted_samples() {
    // One pair: reference edge at 10, target edge at 13, window [8, 12).
    let trace = ramp(30);
    let out = resample_with_edges(&vec![10], &trace, &vec![13], 4);
    let mut expected = vec![0i16; 30];
    for p in 8..12 {
        expected[p] = trace[p + 3];
    }
    assert_eq!(out, expected);
}

#[test]
fn cursor_moves_on_at_the_right_end() {
    // Windows [4, 6) with shift +1 and [9, 11) with shift -2; the right end
    // of a window is blank.
    let trace = ramp(20);
    let out = resample_with_edges(&vec![5, 10], &trace, &vec![6, 8], 2);
    let mut expected = vec![0i16; 20];
    expected[4] = trace[5];
    expected[5] = trace[6];
    expected[9] = trace[7];
    expected[10] = trace[8];
    assert_eq!(out, expected);
}

#[test]
fn surplus_edges_are_dropped() {
    let trace = ramp(20);
    let two = resample_with_edges(&vec![5, 10, 15], &trace, &vec![5, 10], 2);
    let mut expected = vec![0i16; 20];
    expected[4] = trace[4];
    expected[5] = trace[5];
    expected[9] = trace[9];
    expected[10] = trace[10];
    assert_eq!(two, expected);
    let none = resample_with_edges(&vec![], &trace, &vec![5, 10], 2);
    assert_eq!(none, vec![0i16; 20]);
}

#[test]
fn reference_edge_near_the_start_blanks_the_trace() {
    let trace = ramp(100);
    let out = resample_with_edges(&vec![1, 50], &trace, &vec![1, 50], 4);
    assert_eq!(out.len(), 100);
    assert_eq!(out, vec![0i16; 100]);
    // A window whose left end is exactly the start is out of range too.
    let out = resample_with_edges(&vec![2, 50], &trace, &vec![2, 50], 4);
    assert_eq!(out, vec![0i16; 100]);
}

#[test]
fn window_reaching_the_end_is_blank() {
    let trace = ramp(20);
    let out = resample_with_edges(&vec![18], &trace, &vec![18], 4);
    assert_eq!(out, vec![0i16; 20]);
    let out = resample_with_edges(&vec![usize::MAX], &trace, &vec![3], usize::MAX);
    assert_eq!(out, vec![0i16; 20]);
}

#[test]
fn shifted_position_outside_the_trace_is_blank() {
    let trace = ramp(20);
    // Shift +12: positions 8 and 9 would read 20 and 21.
    let out = resample_with_edges(&vec![8], &trace, &vec![20], 4);
    let mut expected = vec![0i16; 20];
    expected[6] = trace[18];
    expected[7] = trace[19];
    assert_eq!(out, expected);
    // Shift -6 at a window [4, 8): positions 4 and 5 would read before the
    // start.
    let out = resample_with_edges(&vec![6, 12], &trace, &vec![0, 12], 4);
    let mut expected = vec![0i16; 20];
    expected[6] = trace[0];
    expected[7] = trace[1];
    expected[10] = trace[10];
    expected[11] = trace[11];
    expected[12] = trace[12];
    expected[13] = trace[13];
    assert_eq!(out, expected);
}

#[test]
fn own_clock_with_wide_window_is_blank() {
    let clock: Vec<i16> = vec![0, 0, 1, 1, 0, 1, 0, 0, 1, 0];
    let trace = ramp(10);
    let refs = arg_of_ones(&find_edges(&clock));
    assert_eq!(refs, vec![1, 4, 7]);
    assert_eq!(resample(&refs, &trace, &clock, 10), vec![0i16; 10]);
    assert_eq!(resample(&refs, &trace, &clock, 64), vec![0i16; 10]);
    let blank = vec![0i16; 10];
    assert_eq!(resample(&refs, &blank, &clock, 10), blank);
}

#[test]
fn own_clock_copies_in_place() {
    let clock: Vec<i16> = vec![0, 0, 0, 1, 1, 0, 0, 1, 1, 0, 0, 0];
    let trace = ramp(12);
    let refs = arg_of_ones(&find_edges(&clock));
    assert_eq!(refs, vec![2, 6]);
    let out = resample(&refs, &trace, &clock, 2);
    let mut expected = vec![0i16; 12];
    expected[1] = trace[1];
    expected[2] = trace[2];
    expected[5] = trace[5];
    expected[6] = trace[6];
    assert_eq!(out, expected);
}

#[test]
fn every_trace_is_realigned_by_its_own_clock() {
    // Two groups of two traces, eight samples each.
    let mut traces: Vec<i16> = Vec::new();
    let mut clocks: Vec<i16> = Vec::new();
    let clock_rows: [[i16; 8]; 4] = [
        [0, 0, 0, 1, 0, 0, 0, 0],
        [0, 0, 0, 0, 1, 0, 0, 0],
        [0, 0, 1, 0, 0, 0, 0, 0],
        [0, 0, 0, 0, 0, 0, 0, 0],
    ];
    for (n, row) in clock_rows.iter().enumerate() {
        for k in 0..8 {
            traces.push((10 * (n as i16 + 1)) + k as i16);
            clocks.push(row[k]);
        }
    }
    let traces = Cube::from_shape_vec(2, 2, 8, traces).unwrap();
    let clocks = Cube::from_shape_vec(2, 2, 8, clocks).unwrap();
    let refs: Vec<usize> = vec![2];
    let out = resample_traces(&refs, &traces, &clocks, 2).unwrap();
    assert_eq!(out.dim(), (2, 2, 8));
    assert_eq!(out.lane_to_vec(0, 0), vec![0, 11, 12, 0, 0, 0, 0, 0]);
    assert_eq!(out.lane_to_vec(0, 1), vec![0, 22, 23, 0, 0, 0, 0, 0]);
    assert_eq!(out.lane_to_vec(1, 0), vec![0, 30, 31, 0, 0, 0, 0, 0]);
    assert_eq!(out.lane_to_vec(1, 1), vec![0; 8]);
    for i in 0..2 {
        for j in 0..2 {
            let alone = resample(&refs, &traces.lane_to_vec(i, j), &clocks.lane_to_vec(i, j), 2);
            assert_eq!(out.lane_to_vec(i, j), alone);
        }
    }
}

#[test]
fn mismatched_clocks_are_refused() {
    let traces = Cube::from_shape_vec(2, 2, 3, vec![0; 12]).unwrap();
    let clocks = Cube::from_shape_vec(2, 3, 2, vec![0; 12]).unwrap();
    let r = resample_traces(&vec![1], &traces, &clocks, 2);
    assert!(matches!(r, Err(ResampleError::ShapeMismatch { axis: 1, traces: 2, clocks: 3 })));
    let clocks = Cube::from_shape_vec(1, 2, 3, vec![0; 6]).unwrap();
    let r = resample_traces(&vec![1], &traces, &clocks, 2);
    assert!(matches!(r, Err(ResampleError::ShapeMismatch { axis: 0, traces: 2, clocks: 1 })));
    let clocks = Cube::from_shape_vec(2, 2, 4, vec![0; 16]).unwrap();
    let r = resample_traces(&vec![1], &traces, &clocks, 2);
    assert!(matches!(r, Err(ResampleError::ShapeMismatch { axis: 2, traces: 3, clocks: 4 })));
}

#[test]
fn empty_sets_keep_their_shape() {
    let traces = Cube::from_shape_vec(0, 3, 5, vec![]).unwrap();
    let clocks = Cube::from_shape_vec(0, 3, 5, vec![]).unwrap();
    let out = resample_traces(&vec![1], &traces, &clocks, 2).unwrap();
    assert_eq!(out.dim(), (0, 3, 5));
    let traces = Cube::from_shape_vec(2, 3, 0, vec![]).unwrap();
    let clocks = Cube::from_shape_vec(2, 3, 0, vec![]).unwrap();
    let out = resample_traces(&vec![1], &traces, &clocks, 2).unwrap();
    assert_eq!(out.dim(), (2, 3, 0));
}

#[test]
fn nothing_is_lost_when_windows_and_shifts_fit() {
    let trace = ramp(20);
    let done = resample_counted(&vec![5, 10], &trace, &vec![6, 8], 2);
    assert_eq!(done.trace, resample_with_edges(&vec![5, 10], &trace, &vec![6, 8], 2));
    assert_eq!(done.loss, Loss { clipped: 0, dropped_edges: 0 });
}

#[test]
fn dropped_edges_are_counted() {
    let trace = ramp(20);
    let done = resample_counted(&vec![5, 10, 15], &trace, &vec![5, 10], 2);
    assert_eq!(done.loss, Loss { clipped: 0, dropped_edges: 1 });
    let done = resample_counted(&vec![5], &trace, &vec![5, 10, 15, 16], 2);
    assert_eq!(done.loss, Loss { clipped: 0, dropped_edges: 3 });
    let done = resample_counted(&vec![], &trace, &vec![], 2);
    assert_eq!(done.loss, Loss { clipped: 0, dropped_edges: 0 });
    assert_eq!(done.trace, vec![0i16; 20]);
}

#[test]
fn clipped_samples_are_counted() {
    // The first window starts before the trace: the cursor never moves on.
    let trace = ramp(100);
    let done = resample_counted(&vec![1, 50], &trace, &vec![1, 50], 4);
    assert_eq!(done.loss, Loss { clipped: 100, dropped_edges: 0 });
    // Shift +12 in a trace of 20: positions 8 and up would read past the end.
    let trace = ramp(20);
    let done = resample_counted(&vec![8], &trace, &vec![20], 4);
    assert_eq!(done.loss, Loss { clipped: 12, dropped_edges: 0 });
    // Shift -6: positions 0 to 5 would read before the start; after the
    // window the cursor has no pair left.
    let done = resample_counted(&vec![6], &trace, &vec![0], 4);
    assert_eq!(done.loss, Loss { clipped: 6, dropped_edges: 0 });
}

#[test]
fn threshold_decides_the_edges_of_the_clock() {
    let trace = ramp(12);
    let clock: Vec<i16> = vec![0, 0, 0, 2, 2, 0, 1, 0, 2, 2, 0, 0];
    // At threshold 1 the clock rises at 2 and 7; the level 1 is no rise.
    let refs: Vec<usize> = vec![2, 6];
    let done = resample_at(&refs, &trace, &clock, 2, 2);
    assert_eq!(done.trace, resample_with_edges(&refs, &trace, &vec![2, 7], 2));
    let mut expected = vec![0i16; 12];
    expected[1] = trace[1];
    expected[2] = trace[2];
    expected[5] = trace[6];
    expected[6] = trace[7];
    assert_eq!(done.trace, expected);
    // At threshold one half it rises at 2, 5 and 7.
    let by_default = resample(&refs, &trace, &clock, 2);
    assert_eq!(by_default, resample_with_edges(&refs, &trace, &vec![2, 5, 7], 2));
    assert_eq!(resample_at(&refs, &trace, &clock, 2, 1).loss.dropped_edges, 1);
}

#[test]
fn every_trace_reports_its_loss() {
    let mut traces: Vec<i16> = Vec::new();
    let mut clocks: Vec<i16> = Vec::new();
    let clock_rows: [[i16; 8]; 6] = [
        [0, 0, 0, 2, 0, 0, 2, 0],
        [0, 0, 0, 0, 0, 0, 0, 0],
        [0, 0, 2, 0, 0, 0, 0, 0],
        [0, 0, 0, 0, 0, 0, 0, 2],
        [2, 2, 2, 2, 2, 2, 2, 2],
        [0, 2, 0, 2, 0, 2, 0, 2],
    ];
    for (n, row) in clock_rows.iter().enumerate() {
        for k in 0..8 {
            traces.push((10 * (n as i16 + 1)) + k as i16);
            clocks.push(row[k]);
        }
    }
    let traces = Cube::from_shape_vec(2, 3, 8, traces).unwrap();
    let clocks = Cube::from_shape_vec(2, 3, 8, clocks).unwrap();
    let refs: Vec<usize> = vec![2];
    let set = resample_traces_at(&refs, &traces, &clocks, 2, 2).unwrap();
    assert_eq!(set.traces.dim(), (2, 3, 8));
    assert_eq!(set.losses.len(), 6);
    for i in 0..2 {
        for j in 0..3 {
            let alone =
                resample_at(&refs, &traces.lane_to_vec(i, j), &clocks.lane_to_vec(i, j), 2, 2);
            assert_eq!(set.traces.lane_to_vec(i, j), alone.trace);
            assert_eq!(set.losses[i * 3 + j], alone.loss);
        }
    }
    // Rows 0, 1 and 4: one reference edge, and two, no and no edges of the clock.
    assert_eq!(set.losses[0], Loss { clipped: 0, dropped_edges: 1 });
    assert_eq!(set.losses[1], Loss { clipped: 0, dropped_edges: 1 });
    assert_eq!(set.losses[4], Loss { clipped: 0, dropped_edges: 1 });
    // Row 2: the clock rises at 1, and the shift -1 reads before the start at 0.
    assert_eq!(set.losses[2], Loss { clipped: 1, dropped_edges: 0 });
    // Row 3: the clock rises at 6, and the shift +4 stays inside up to the
    // right end of the window, where the cursor moves on.
    assert_eq!(set.losses[3], Loss { clipped: 0, dropped_edges: 0 });
    // Row 5: the clock rises at 0, 2, 4 and 6; the shift -2 reads before the
    // start at 0 and 1.
    assert_eq!(set.losses[5], Loss { clipped: 2, dropped_edges: 3 });
    assert_eq!(set.traces.lane_to_vec(0, 0), vec![0, 11, 12, 0, 0, 0, 0, 0]);
    assert_eq!(set.traces.lane_to_vec(0, 1), vec![0; 8]);
    assert_eq!(set.traces.lane_to_vec(0, 2), vec![0, 30, 31, 0, 0, 0, 0, 0]);
    assert_eq!(set.traces.lane_to_vec(1, 0), vec![0, 45, 46, 0, 0, 0, 0, 0]);
    assert_eq!(set.traces.lane_to_vec(1, 1), vec![0; 8]);
    assert_eq!(set.traces.lane_to_vec(1, 2), vec![0, 0, 60, 0, 0, 0, 0, 0]);
}
