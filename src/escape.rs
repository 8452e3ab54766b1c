use vstd::prelude::*;

verus! {

/// Iteration budget: a point whose orbit stays bounded this long counts as
/// inside the set.
pub const MAX_ITER: u32 = 100;

/// `orbit` is the orbit of `z0` under `step`, observed by `escaped`, up to
/// the iteration count `n` that the escape-time loop reports: it starts at
/// `z0`, each point is a successor of the one before, none of the first `n`
/// points has escaped, and when `n` is under the budget the `n`-th has.
pub open spec fn traced<S, E: Fn(S) -> bool, F: Fn(S) -> S>(
    escaped: E,
    step: F,
    z0: S,
    n: u32,
    orbit: Seq<S>,
) -> bool {
    &&& n <= MAX_ITER
    &&& orbit.len() == n + 1
    &&& orbit[0] == z0
    &&& forall|k: int| 0 <= k < n ==> #[trigger] step.ensures((orbit[k],), orbit[k + 1])
    &&& forall|k: int| 0 <= k < n ==> #[trigger] escaped.ensures((orbit[k],), false)
    &&& n < MAX_ITER ==> escaped.ensures((orbit[n as int],), true)
}

/// Escape-time count of the orbit that starts at `z0`.
///
/// For `n` from 0 up to the budget: when the current point has escaped, the
/// answer is `n`; otherwise the point moves to its successor. An orbit that
/// never escapes within the budget yields `MAX_ITER`.
pub fn escape_time<S: Copy, E: Fn(S) -> bool, F: Fn(S) -> S>(z0: S, escaped: E, step: F) -> (n: u32)
    requires
        forall|z: S| #[trigger] escaped.requires((z,)),
        forall|z: S| #[trigger] step.requires((z,)),
    ensures
        n <= MAX_ITER,
        exists|orbit: Seq<S>| traced(escaped, step, z0, n, orbit),
{
    let mut z = z0;
    let mut n: u32 = 0;
    let ghost mut orbit: Seq<S> = seq![z0];
    while n < MAX_ITER
        invariant
            n <= MAX_ITER,
            orbit.len() == n + 1,
            orbit[0] == z0,
            orbit[n as int] == z,
            forall|z: S| #[trigger] escaped.requires((z,)),
            forall|z: S| #[trigger] step.requires((z,)),
            forall|k: int| 0 <= k < n ==> #[trigger] step.ensures((orbit[k],), orbit[k + 1]),
            forall|k: int| 0 <= k < n ==> #[trigger] escaped.ensures((orbit[k],), false),
        decreases MAX_ITER - n,
    {
        if escaped(z) {
            assert(traced(escaped, step, z0, n, orbit));
            return n;
        }
        let next = step(z);
        proof {
            orbit = orbit.push(next);
        }
        z = next;
        n = n + 1;
    }
    assert(traced(escaped, step, z0, n, orbit));
    n
}

/// Two traced orbits from the same point, under a successor function that
/// gives one answer per point, agree on every index up to `k`.
proof fn lemma_orbits_agree<S, E: Fn(S) -> bool, F: Fn(S) -> S>(
    escaped: E,
    step: F,
    z0: S,
    n1: u32,
    orbit1: Seq<S>,
    n2: u32,
    orbit2: Seq<S>,
    k: int,
)
    requires
        forall|z: S, a: S, b: S|
            #[trigger] step.ensures((z,), a) && #[trigger] step.ensures((z,), b) ==> a == b,
        traced(escaped, step, z0, n1, orbit1),
        traced(escaped, step, z0, n2, orbit2),
        0 <= k <= n1,
        k <= n2,
    ensures
        orbit1[k] == orbit2[k],
    decreases k,
{
    if k > 0 {
        lemma_orbits_agree(escaped, step, z0, n1, orbit1, n2, orbit2, k - 1);
        let j = k - 1;
        assert(step.ensures((orbit1[j],), orbit1[j + 1]));
        assert(step.ensures((orbit2[j],), orbit2[j + 1]));
    }
}

/// With a successor function and an escape test that each give one answer
/// per point, the escape-time count of an orbit is fully determined: any two
/// runs from the same starting point report the same count.
pub proof fn escape_time_is_determined<S, E: Fn(S) -> bool, F: Fn(S) -> S>(
    escaped: E,
    step: F,
    z0: S,
    n1: u32,
    orbit1: Seq<S>,
    n2: u32,
    orbit2: Seq<S>,
)
    requires
        forall|z: S, a: S, b: S|
            #[trigger] step.ensures((z,), a) && #[trigger] step.ensures((z,), b) ==> a == b,
        forall|z: S, a: bool, b: bool|
            #[trigger] escaped.ensures((z,), a) && #[trigger] escaped.ensures((z,), b) ==> a == b,
        traced(escaped, step, z0, n1, orbit1),
        traced(escaped, step, z0, n2, orbit2),
    ensures
        n1 == n2,
{
    let m: int = if n1 <= n2 { n1 as int } else { n2 as int };
    lemma_orbits_agree(escaped, step, z0, n1, orbit1, n2, orbit2, m);
    if n1 < n2 {
        assert(escaped.ensures((orbit1[m],), true));
        assert(escaped.ensures((orbit2[m],), false));
    } else if n2 < n1 {
        assert(escaped.ensures((orbit2[m],), true));
        assert(escaped.ensures((orbit1[m],), false));
    }
}

/// A starting point that has not escaped and that the successor function
/// maps to itself stays inside for the whole budget: its count is
/// `MAX_ITER` (the origin under `z * z + 0`).
pub proof fn unescaped_fixed_point_stays_inside<S, E: Fn(S) -> bool, F: Fn(S) -> S>(
    escaped: E,
    step: F,
    z0: S,
    n: u32,
    orbit: Seq<S>,
)
    requires
        forall|z: S, a: S, b: S|
            #[trigger] step.ensures((z,), a) && #[trigger] step.ensures((z,), b) ==> a == b,
        forall|z: S, a: bool, b: bool|
            #[trigger] escaped.ensures((z,), a) && #[trigger] escaped.ensures((z,), b) ==> a == b,
        step.ensures((z0,), z0),
        escaped.ensures((z0,), false),
        traced(escaped, step, z0, n, orbit),
    ensures
        n == MAX_ITER,
{
    let still: Seq<S> = Seq::new(MAX_ITER as nat + 1, |k: int| z0);
    assert(traced(escaped, step, z0, MAX_ITER, still));
    escape_time_is_determined(escaped, step, z0, n, orbit, MAX_ITER, still);
}

/// A starting point that has not escaped, whose successor has, is counted
/// after exactly one step (any `c` with `|c| > 2` from `z = 0`).
pub proof fn escapes_after_one_step<S, E: Fn(S) -> bool, F: Fn(S) -> S>(
    escaped: E,
    step: F,
    z0: S,
    z1: S,
    n: u32,
    orbit: Seq<S>,
)
    requires
        forall|z: S, a: S, b: S|
            #[trigger] step.ensures((z,), a) && #[trigger] step.ensures((z,), b) ==> a == b,
        forall|z: S, a: bool, b: bool|
            #[trigger] escaped.ensures((z,), a) && #[trigger] escaped.ensures((z,), b) ==> a == b,
        escaped.ensures((z0,), false),
        step.ensures((z0,), z1),
        escaped.ensures((z1,), true),
        traced(escaped, step, z0, n, orbit),
    ensures
        n == 1,
{
    let short: Seq<S> = seq![z0, z1];
    assert(traced(escaped, step, z0, 1, short));
    escape_time_is_determined(escaped, step, z0, n, orbit, 1, short);
}

} // verus!
