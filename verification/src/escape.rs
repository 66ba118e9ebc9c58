//! The escape-time iteration: how many steps an orbit takes to leave the
//! bailout region, counted up to a fixed limit.
//!
//! The arithmetic of the orbit is the caller's. The iteration takes it as two
//! functions, a bailout test and a step, and owns the control flow: the test
//! comes before each step, the count starts at zero, and an orbit that passes
//! `limit` tests without bailing out is bounded.

use vstd::prelude::*;

verus! {

/// The iteration limit of the engine, on the host and on the device alike. It
/// is the largest limit whose escape indices still fit one colour channel.
pub const ESCAPE_LIMIT: usize = 256;

/// What the iteration found out about one point.
#[derive(Clone, Copy, Debug, PartialEq, Eq, Structural)]
pub enum EscapeResult {
    /// The orbit bailed out at the test with this zero-based index.
    Diverged(u8),
    /// The orbit passed every test up to the limit.
    Bounded,
}

/// `orbit` starts at `start`, and each later state is one that `step` may
/// return for the state before it.
pub open spec fn is_orbit<Z, S: Fn(Z) -> Z>(orbit: Seq<Z>, start: Z, step: S) -> bool {
    &&& orbit.len() > 0
    &&& orbit[0] == start
    &&& forall|k: int| 1 <= k < orbit.len() ==> call_ensures(step, (orbit[k - 1],), #[trigger] orbit[k])
}

/// The bailout test may answer "no" on each of the first `n` states of `orbit`.
pub open spec fn stays_inside<Z, E: Fn(Z) -> bool>(orbit: Seq<Z>, n: int, escaped: E) -> bool {
    forall|k: int| 0 <= k < n ==> call_ensures(escaped, (#[trigger] orbit[k],), false)
}

/// `result` is an outcome of the iteration from `start` under `limit`: some
/// orbit of the two functions leads to it.
pub open spec fn is_escape_of<Z, E: Fn(Z) -> bool, S: Fn(Z) -> Z>(
    result: EscapeResult,
    start: Z,
    limit: int,
    escaped: E,
    step: S,
) -> bool {
    match result {
        EscapeResult::Diverged(i) => i < limit && exists|orbit: Seq<Z>|
            {
                &&& orbit.len() == i + 1
                &&& #[trigger] is_orbit(orbit, start, step)
                &&& stays_inside(orbit, i as int, escaped)
                &&& call_ensures(escaped, (orbit[i as int],), true)
            },
        EscapeResult::Bounded => exists|orbit: Seq<Z>|
            {
                &&& orbit.len() == limit + 1
                &&& #[trigger] is_orbit(orbit, start, step)
                &&& stays_inside(orbit, limit, escaped)
            },
    }
}

/// Iterates `step` from `start`, asking `escaped` before each step, and
/// returns the index of the first test that answers "yes", or `Bounded` when
/// `limit` tests in a row answer "no".
pub fn escape_time<Z: Copy, E: Fn(Z) -> bool, S: Fn(Z) -> Z>(
    start: Z,
    limit: usize,
    escaped: E,
    step: S,
) -> (result: EscapeResult)
    requires
        limit <= ESCAPE_LIMIT,
        forall|z: Z| call_requires(escaped, (z,)),
        forall|z: Z| call_requires(step, (z,)),
    ensures
        is_escape_of(result, start, limit as int, escaped, step),
{
    let mut z: Z = start;
    let ghost mut orbit: Seq<Z> = seq![start];
    let mut i: usize = 0;
    while i < limit
        invariant
            i <= limit <= ESCAPE_LIMIT,
            forall|z: Z| call_requires(escaped, (z,)),
            forall|z: Z| call_requires(step, (z,)),
            orbit.len() == i + 1,
            orbit[i as int] == z,
            is_orbit(orbit, start, step),
            stays_inside(orbit, i as int, escaped),
        decreases limit - i,
    {
        if escaped(z) {
            return EscapeResult::Diverged(i as u8);
        }
        let next = step(z);
        proof {
            orbit = orbit.push(next);
        }
        z = next;
        i += 1;
    }
    EscapeResult::Bounded
}

/// The limit that the iteration runs with when `limit` is asked for: `limit`
/// itself where its counts fit a colour channel, and the largest such limit
/// otherwise.
pub fn clamp_limit(limit: usize) -> (capped: usize)
    ensures
        capped <= ESCAPE_LIMIT,
        capped == if limit <= ESCAPE_LIMIT { limit } else { ESCAPE_LIMIT },
{
    if limit <= ESCAPE_LIMIT {
        limit
    } else {
        ESCAPE_LIMIT
    }
}

/// The escape time of `z` under a bailout predicate `out` and a step function
/// `f`: the least `i < limit` such that `out` holds after `i` steps from `z`,
/// if there is one.
pub open spec fn spec_escape_index<Z>(
    out: spec_fn(Z) -> bool,
    f: spec_fn(Z) -> Z,
    z: Z,
    limit: nat,
) -> Option<nat>
    decreases limit,
{
    if limit == 0 {
        None
    } else if out(z) {
        Some(0)
    } else {
        match spec_escape_index(out, f, f(z), (limit - 1) as nat) {
            Some(i) => Some(i + 1),
            None => None,
        }
    }
}

/// The result that stands for an escape index.
pub open spec fn spec_result_of(index: Option<nat>) -> EscapeResult {
    match index {
        Some(i) => EscapeResult::Diverged(i as u8),
        None => EscapeResult::Bounded,
    }
}

/// The state that `n` steps of `f` lead to from `z`.
pub open spec fn spec_orbit_at<Z>(f: spec_fn(Z) -> Z, z: Z, n: nat) -> Z
    decreases n,
{
    if n == 0 {
        z
    } else {
        spec_orbit_at(f, f(z), (n - 1) as nat)
    }
}

/// The escape index is the first index below the limit at which the orbit is
/// outside; there is none exactly when the orbit is inside at every index
/// below the limit.
pub proof fn lemma_escape_index_is_first<Z>(
    out: spec_fn(Z) -> bool,
    f: spec_fn(Z) -> Z,
    z: Z,
    limit: nat,
)
    ensures
        match spec_escape_index(out, f, z, limit) {
            Some(i) => {
                &&& i < limit
                &&& out(spec_orbit_at(f, z, i))
                &&& forall|k: nat| k < i ==> !out(#[trigger] spec_orbit_at(f, z, k))
            },
            None => forall|k: nat| k < limit ==> !out(#[trigger] spec_orbit_at(f, z, k)),
        },
    decreases limit,
{
    if limit > 0 && !out(z) {
        let rest = (limit - 1) as nat;
        lemma_escape_index_is_first(out, f, f(z), rest);
        match spec_escape_index(out, f, f(z), rest) {
            Some(i) => {
                assert forall|k: nat| k < i + 1 implies !out(#[trigger] spec_orbit_at(f, z, k)) by {
                    if k > 0 {
                        assert(!out(spec_orbit_at(f, f(z), (k - 1) as nat)));
                    }
                }
            },
            None => {
                assert forall|k: nat| k < limit implies !out(#[trigger] spec_orbit_at(f, z, k)) by {
                    if k > 0 {
                        assert(!out(spec_orbit_at(f, f(z), (k - 1) as nat)));
                    }
                }
            },
        }
    }
}

/// A start that is outside has escape index zero, and a start that is inside
/// but outside after its first step has escape index one.
pub proof fn lemma_escape_index_early<Z>(
    out: spec_fn(Z) -> bool,
    f: spec_fn(Z) -> Z,
    z: Z,
    limit: nat,
)
    ensures
        limit >= 1 && out(z) ==> spec_escape_index(out, f, z, limit) == Some(0nat),
        limit >= 2 && !out(z) && out(f(z)) ==> spec_escape_index(out, f, z, limit) == Some(1nat),
{
    reveal_with_fuel(spec_escape_index, 3);
}

/// Along an orbit of `f` whose first `n` states are inside, the escape index
/// of the start is `n` more than that of the state reached after `n` steps.
proof fn lemma_escape_index_skip<Z>(
    out: spec_fn(Z) -> bool,
    f: spec_fn(Z) -> Z,
    orbit: Seq<Z>,
    n: nat,
    limit: nat,
)
    requires
        n <= limit,
        n < orbit.len(),
        forall|k: int| 1 <= k <= n ==> #[trigger] orbit[k] == f(orbit[k - 1]),
        forall|k: int| 0 <= k < n ==> !out(#[trigger] orbit[k]),
    ensures
        spec_escape_index(out, f, orbit[0], limit) == match spec_escape_index(
            out,
            f,
            orbit[n as int],
            (limit - n) as nat,
        ) {
            Some(i) => Some(i + n),
            None => None,
        },
    decreases n,
{
    if n > 0 {
        let m = (n - 1) as nat;
        lemma_escape_index_skip(out, f, orbit, m, limit);
        assert(!out(orbit[m as int]));
        assert(orbit[n as int] == f(orbit[n - 1]));
    }
}

/// Where the bailout test and the step are functions, that is where each
/// returns nothing but `out(z)` and `f(z)`, every outcome of the iteration is
/// the escape index of its start.
pub proof fn lemma_escape_time_is_index<Z, E: Fn(Z) -> bool, S: Fn(Z) -> Z>(
    result: EscapeResult,
    start: Z,
    limit: nat,
    escaped: E,
    step: S,
    out: spec_fn(Z) -> bool,
    f: spec_fn(Z) -> Z,
)
    requires
        limit <= ESCAPE_LIMIT,
        is_escape_of(result, start, limit as int, escaped, step),
        forall|z: Z, b: bool| call_ensures(escaped, (z,), b) ==> b == out(z),
        forall|z: Z, next: Z| call_ensures(step, (z,), next) ==> next == f(z),
    ensures
        result == spec_result_of(spec_escape_index(out, f, start, limit)),
{
    match result {
        EscapeResult::Diverged(i) => {
            let orbit = choose|orbit: Seq<Z>|
                {
                    &&& orbit.len() == i + 1
                    &&& #[trigger] is_orbit(orbit, start, step)
                    &&& stays_inside(orbit, i as int, escaped)
                    &&& call_ensures(escaped, (orbit[i as int],), true)
                };
            lemma_escape_index_skip(out, f, orbit, i as nat, limit);
        },
        EscapeResult::Bounded => {
            let orbit = choose|orbit: Seq<Z>|
                {
                    &&& orbit.len() == limit + 1
                    &&& #[trigger] is_orbit(orbit, start, step)
                    &&& stays_inside(orbit, limit as int, escaped)
                };
            lemma_escape_index_skip(out, f, orbit, limit, limit);
        },
    }
}

} // verus!
