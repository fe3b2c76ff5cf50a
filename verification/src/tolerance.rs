use vstd::prelude::*;

verus! {

/// The Byzantine fault model used by the ordering protocol: `n = 3f + 1`
/// replicas tolerate `f` faulty ones, and a quorum holds `2f + 1` of them.
pub struct BFT;

/// Largest number of faults tolerated by `n` replicas.
pub open spec fn spec_f_for_n(n: int) -> int {
    (n - 1) / 3
}

/// Number of replicas needed to tolerate `f` faults.
pub open spec fn spec_n_for_f(f: int) -> int {
    3 * f + 1
}

/// Size of a quorum among `n` replicas.
pub open spec fn spec_quorum_for_n(n: int) -> int {
    2 * spec_f_for_n(n) + 1
}

impl BFT {
    /// `3f + 1`.
    pub fn get_n_for_f(f: usize) -> (n: usize)
        requires
            3 * f + 1 <= usize::MAX,
        ensures
            n == spec_n_for_f(f as int),
    {
        3 * f + 1
    }

    /// `2 * get_f_for_n(n) + 1`.
    pub fn get_quorum_for_n(n: usize) -> (q: usize)
        requires
            n >= 1,
        ensures
            q == spec_quorum_for_n(n as int),
    {
        Self::get_f_for_n(n) * 2 + 1
    }

    /// `(n - 1) / 3`; the subtraction underflows for `n == 0`.
    pub fn get_f_for_n(n: usize) -> (f: usize)
        requires
            n >= 1,
        ensures
            f == spec_f_for_n(n as int),
    {
        (n - 1) / 3
    }
}

/// The number of faults tolerated by `3f + 1` replicas is `f` again.
pub proof fn lemma_f_of_n_for_f(f: nat)
    ensures
        spec_f_for_n(spec_n_for_f(f as int)) == f,
{
}

/// A quorum never exceeds the number of replicas.
pub proof fn lemma_quorum_at_most_n(n: int)
    requires
        n >= 1,
    ensures
        spec_quorum_for_n(n) <= n,
{
}

/// With exactly `3f + 1` replicas a quorum is a strict majority, and two
/// quorums share at least `f + 1` replicas, so at least one correct replica
/// sits in both.
pub proof fn lemma_quorum_intersection(f: nat)
    ensures
        ({
            let n = spec_n_for_f(f as int);
            &&& 2 * spec_quorum_for_n(n) > n
            &&& 2 * spec_quorum_for_n(n) - n >= spec_f_for_n(n) + 1
        }),
{
}

/// `n` replicas tolerate `f` faults only if `3f + 1 <= n`, and one more
/// fault would need more than `n` replicas.
pub proof fn lemma_f_is_largest_tolerated(n: int)
    requires
        n >= 1,
    ensures
        spec_n_for_f(spec_f_for_n(n)) <= n,
        spec_n_for_f(spec_f_for_n(n) + 1) > n,
{
}

/// For every number of replicas: the faults tolerated are the largest `f`
/// with `3f + 1` replicas at most `n`, `f` faults need exactly `3f + 1`
/// replicas, and a quorum is `2f + 1` of them for that largest `f` (so it is
/// odd, and for `n = 3f + 1 + k` with `k` in `0..3` it does not grow with
/// `k`).
pub proof fn lemma_tolerance_arithmetic(n: int, f: int)
    requires
        n >= 1,
        f >= 0,
    ensures
        0 <= spec_f_for_n(n),
        3 * spec_f_for_n(n) + 1 <= n < 3 * spec_f_for_n(n) + 4,
        spec_n_for_f(f) == 3 * f + 1,
        spec_quorum_for_n(n) == 2 * ((n - 1) / 3) + 1,
        spec_quorum_for_n(n) % 2 == 1,
        (3 * f + 1 <= n < 3 * f + 4) ==> spec_quorum_for_n(n) == 2 * f + 1,
{
    let g = (n - 1) / 3;
    assert(3 * g <= n - 1 < 3 * g + 3) by (nonlinear_arith)
        requires
            g == (n - 1) / 3,
            n >= 1,
    ;
    if 3 * f + 1 <= n < 3 * f + 4 {
        assert(f == g) by (nonlinear_arith)
            requires
                3 * f + 1 <= n < 3 * f + 4,
                3 * g <= n - 1 < 3 * g + 3,
        ;
    }
}

} // verus!
