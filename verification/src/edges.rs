//! Rising edges of a clock signal.
//!
//! A threshold is given as twice its value, so that the midpoint between
//! two adjacent sample levels can be named: the midpoint between the levels
//! 0 and 1 is `MID_LEVEL`.

use vstd::prelude::*;

verus! {

/// Twice the threshold one half, which separates the levels 0 and 1.
pub const MID_LEVEL: i32 = 1;

/// Whether the clock rises through the threshold between the samples `i`
/// and `i + 1`: the first lies strictly below it, the second strictly
/// above.
pub open spec fn rises_at(clock: Seq<i16>, twice_threshold: int, i: int) -> bool {
    2 * clock[i] < twice_threshold && twice_threshold < 2 * clock[i + 1]
}

/// The edge flags of a clock: one flag for each pair of adjacent samples.
pub open spec fn edge_flags(clock: Seq<i16>, twice_threshold: int) -> Seq<bool> {
    Seq::new(
        if clock.len() == 0 {
            0nat
        } else {
            (clock.len() - 1) as nat
        },
        |i: int| rises_at(clock, twice_threshold, i),
    )
}

/// The positions of the set flags, in ascending order.
pub open spec fn set_positions(flags: Seq<bool>) -> Seq<int>
    decreases flags.len(),
{
    if flags.len() == 0 {
        Seq::empty()
    } else if flags.last() {
        set_positions(flags.drop_last()).push(flags.len() - 1)
    } else {
        set_positions(flags.drop_last())
    }
}

/// A sequence of machine indices as mathematical integers.
pub open spec fn as_ints(s: Seq<usize>) -> Seq<int> {
    Seq::new(s.len(), |i: int| s[i] as int)
}

/// The positions at which a clock rises through a threshold.
pub open spec fn edge_positions(clock: Seq<i16>, twice_threshold: int) -> Seq<int> {
    set_positions(edge_flags(clock, twice_threshold))
}

/// The set positions are exactly the positions of the set flags, each
/// listed once, in strictly ascending order.
pub proof fn lemma_set_positions(flags: Seq<bool>)
    ensures
        set_positions(flags).len() <= flags.len(),
        forall|a: int|
            0 <= a < set_positions(flags).len() ==> 0 <= #[trigger] set_positions(flags)[a]
                < flags.len() && flags[set_positions(flags)[a]],
        forall|a: int, b: int|
            0 <= a < b < set_positions(flags).len() ==> set_positions(flags)[a] < set_positions(
                flags,
            )[b],
        forall|i: int|
            0 <= i < flags.len() && flags[i] ==> exists|a: int|
                0 <= a < set_positions(flags).len() && set_positions(flags)[a] == i,
    decreases flags.len(),
{
    if flags.len() > 0 {
        let init = flags.drop_last();
        let last = flags.len() - 1;
        lemma_set_positions(init);
        let found = set_positions(flags);
        assert forall|i: int| 0 <= i < flags.len() && flags[i] implies exists|a: int|
            0 <= a < found.len() && found[a] == i by {
            if i < last {
                assert(init[i]);
                let a = choose|a: int| 0 <= a < set_positions(init).len() && set_positions(init)[a] == i;
                assert(found[a] == i);
            } else {
                assert(found[found.len() - 1] == i);
            }
        }
    }
}

/// Flags the rising edges of `clock` through a threshold given as twice
/// its value.
pub fn find_edges_at(clock: &Vec<i16>, twice_threshold: i32) -> (r: Vec<bool>)
    ensures
        r@ == edge_flags(clock@, twice_threshold as int),
{
    let mut flags: Vec<bool> = Vec::new();
    let n: usize = clock.len();
    let mut i: usize = 1;
    while i < n
        invariant
            n == clock@.len(),
            1 <= i,
            i <= n || i == 1,
            flags@.len() == i - 1,
            forall|q: int|
                0 <= q < i - 1 ==> flags@[q] == rises_at(clock@, twice_threshold as int, q),
        decreases n - i,
    {
        let low: i32 = 2 * (clock[i - 1] as i32);
        let high: i32 = 2 * (clock[i] as i32);
        flags.push(low < twice_threshold && twice_threshold < high);
        i += 1;
    }
    assert(flags@ =~= edge_flags(clock@, twice_threshold as int));
    flags
}

/// Flags the rising edges of `clock` through the threshold one half.
pub fn find_edges(clock: &Vec<i16>) -> (r: Vec<bool>)
    ensures
        r@ == edge_flags(clock@, MID_LEVEL as int),
        r@.len() + 1 == clock@.len() || (r@.len() == 0 && clock@.len() == 0),
        forall|i: int| 0 <= i < r@.len() ==> r@[i] == (clock@[i] <= 0 && clock@[i + 1] >= 1),
{
    find_edges_at(clock, MID_LEVEL)
}

/// Lists the positions of the set flags in ascending order.
pub fn arg_of_ones(flags: &Vec<bool>) -> (r: Vec<usize>)
    ensures
        as_ints(r@) == set_positions(flags@),
        forall|a: int| 0 <= a < r@.len() ==> r@[a] < flags@.len() && flags@[r@[a] as int],
        forall|a: int, b: int| 0 <= a < b < r@.len() ==> r@[a] < r@[b],
        forall|i: int|
            0 <= i < flags@.len() && flags@[i] ==> exists|a: int| 0 <= a < r@.len() && r@[a] == i,
{
    let mut found: Vec<usize> = Vec::new();
    let n: usize = flags.len();
    let mut i: usize = 0;
    while i < n
        invariant
            n == flags@.len(),
            i <= n,
            as_ints(found@) == set_positions(flags@.take(i as int)),
        decreases n - i,
    {
        proof {
            assert(flags@.take(i + 1).drop_last() =~= flags@.take(i as int));
        }
        if flags[i] {
            found.push(i);
            assert(as_ints(found@) =~= set_positions(flags@.take(i as int)).push(i as int));
        }
        i += 1;
    }
    proof {
        assert(flags@.take(n as int) =~= flags@);
        lemma_set_positions(flags@);
        let ints = as_ints(found@);
        assert forall|a: int| 0 <= a < found@.len() implies found@[a] < flags@.len()
            && flags@[found@[a] as int] by {
            assert(ints[a] == found@[a]);
        }
        assert forall|a: int, b: int| 0 <= a < b < found@.len() implies found@[a] < found@[b] by {
            assert(ints[a] == found@[a]);
            assert(ints[b] == found@[b]);
        }
        assert forall|i: int| 0 <= i < flags@.len() && flags@[i] implies exists|a: int|
            0 <= a < found@.len() && found@[a] == i by {
            let a = choose|a: int| 0 <= a < ints.len() && ints[a] == i;
            assert(found@[a] == ints[a]);
        }
    }
    found
}

} // verus!
