//! The staircase winding functions the winding-scheme window plots and
//! transforms.

use vstd::prelude::*;

use crate::winding::{Conductor, Direction};

verus! {

/// Unit step a conductor contributes: `+1` for current coming out of the
/// page, `-1` going in.
pub open spec fn step_sign(direction: Direction) -> int {
    match direction {
        Direction::Out => 1,
        Direction::In => -1,
    }
}

/// First of `samples` samples around the bore at or past slot `slot` of `n`:
/// the smallest `i` with `i / samples >= slot / n`, i.e. `⌈slot·samples / n⌉`.
pub open spec fn step_sample(slot: int, n: int, samples: int) -> int {
    let x = slot * samples;
    x / n + if x % n == 0 {
        0int
    } else {
        1int
    }
}

/// Winding function of `phase` at sample `i`: the signed number of that
/// phase's conductors whose step falls at or before `i`.
pub open spec fn winding_function_at(
    conductors: Seq<Conductor>,
    n: int,
    samples: int,
    phase: int,
    i: int,
) -> int
    decreases conductors.len(),
{
    if conductors.len() == 0 {
        0
    } else {
        let c = conductors.last();
        winding_function_at(conductors.drop_last(), n, samples, phase, i) + if c.phase == phase
            && step_sample(c.slot as int, n, samples) <= i {
            step_sign(c.direction)
        } else {
            0
        }
    }
}

/// Signed number of `phase`'s conductors whose step falls exactly at `j`.
pub open spec fn steps_at(
    conductors: Seq<Conductor>,
    n: int,
    samples: int,
    phase: int,
    j: int,
) -> int
    decreases conductors.len(),
{
    if conductors.len() == 0 {
        0
    } else {
        let c = conductors.last();
        steps_at(conductors.drop_last(), n, samples, phase, j) + if c.phase == phase
            && step_sample(c.slot as int, n, samples) == j {
            step_sign(c.direction)
        } else {
            0
        }
    }
}

/// The staircase rises by exactly the steps that land on a sample.
proof fn lemma_winding_function_step(
    conductors: Seq<Conductor>,
    n: int,
    samples: int,
    phase: int,
    i: int,
)
    ensures
        winding_function_at(conductors, n, samples, phase, i) == winding_function_at(
            conductors,
            n,
            samples,
            phase,
            i - 1,
        ) + steps_at(conductors, n, samples, phase, i),
    decreases conductors.len(),
{
    if conductors.len() > 0 {
        lemma_winding_function_step(conductors.drop_last(), n, samples, phase, i);
    }
}

/// Steps and staircase values never exceed the number of conductors.
proof fn lemma_step_bounds(conductors: Seq<Conductor>, n: int, samples: int, phase: int, i: int)
    ensures
        -conductors.len() <= steps_at(conductors, n, samples, phase, i) <= conductors.len(),
        -conductors.len() <= winding_function_at(conductors, n, samples, phase, i)
            <= conductors.len(),
    decreases conductors.len(),
{
    if conductors.len() > 0 {
        lemma_step_bounds(conductors.drop_last(), n, samples, phase, i);
    }
}

/// Nothing steps before the first sample.
proof fn lemma_winding_function_before_start(
    conductors: Seq<Conductor>,
    n: int,
    samples: int,
    phase: int,
)
    requires
        n > 0,
        samples >= 0,
        forall|t: int| 0 <= t < conductors.len() ==> #[trigger] conductors[t].slot >= 0,
    ensures
        winding_function_at(conductors, n, samples, phase, -1) == 0,
    decreases conductors.len(),
{
    if conductors.len() > 0 {
        let c = conductors.last();
        assert(conductors[conductors.len() - 1] == c);
        assert forall|t: int| 0 <= t < conductors.drop_last().len() implies #[trigger] conductors.drop_last()[t].slot >= 0 by {
            assert(conductors.drop_last()[t] == conductors[t]);
        }
        lemma_winding_function_before_start(conductors.drop_last(), n, samples, phase);
        assert(c.slot as int * samples >= 0) by (nonlinear_arith)
            requires
                c.slot >= 0,
                samples >= 0,
        ;
        vstd::arithmetic::div_mod::lemma_div_pos_is_pos(c.slot as int * samples, n);
    }
}

/// `k·s + j` names each `(k, j)` with `j < s` once.
proof fn lemma_flat_index(k: int, j: int, s: int, rows: int)
    requires
        0 <= k < rows,
        0 <= j < s,
    ensures
        0 <= k * s + j < rows * s,
        (k * s + j) / s == k,
        (k * s + j) % s == j,
{
    assert(0 <= k * s) by (nonlinear_arith)
        requires
            0 <= k,
            0 <= s,
    ;
    assert(k * s + j < rows * s) by (nonlinear_arith)
        requires
            k < rows,
            j < s,
            0 <= j,
    ;
    vstd::arithmetic::div_mod::lemma_fundamental_div_mod_converse(k * s + j, s, k, j);
}

/// The piecewise-constant winding function of every phase, sampled
/// `samples` times around the bore.
///
/// Each conductor contributes a unit step at the first sample at or past its
/// slot: `+1` coming out of the page, `-1` going in. The steps are recorded
/// first and integrated once per phase afterwards, which keeps this
/// `O(n + m·samples)`. Every conductor counts, so a double-layer slot holding
/// two phases contributes to both of their winding functions. A step that
/// would land past the last sample is dropped.
pub fn winding_function_samples(
    groove_count: usize,
    phases: usize,
    conductors: &[Conductor],
    samples: usize,
) -> (r: Vec<Vec<i64>>)
    requires
        conductors@.len() > 0 ==> groove_count > 0,
        conductors@.len() <= i64::MAX,
        (if phases < 1 { 1 } else { phases as int }) * samples <= usize::MAX,
        forall|t: int|
            0 <= t < conductors@.len() ==> {
                &&& (#[trigger] conductors@[t]).phase < (if phases < 1 { 1 } else { phases })
                &&& conductors@[t].slot * samples <= usize::MAX
            },
    ensures
        r@.len() == (if phases < 1 { 1 } else { phases }),
        forall|k: int|
            0 <= k < r@.len() ==> {
                &&& (#[trigger] r@[k])@.len() == samples
                &&& forall|i: int|
                    0 <= i < samples ==> #[trigger] r@[k]@[i] == winding_function_at(
                        conductors@,
                        groove_count as int,
                        samples as int,
                        k,
                        i,
                    )
            },
{
    let rows = if phases < 1 {
        1
    } else {
        phases
    };
    let ghost n = groove_count as int;
    let ghost s = samples as int;
    let ghost cs = conductors@;
    let total = rows * samples;

    // Steps of every phase, laid out phase-major in one buffer.
    let mut steps: Vec<i64> = Vec::new();
    let mut z: usize = 0;
    while z < total
        invariant
            z <= total,
            steps@.len() == z,
            forall|x: int| 0 <= x < z ==> #[trigger] steps@[x] == 0,
        decreases total - z,
    {
        steps.push(0);
        z = z + 1;
    }

    proof {
        assert forall|k: int, j: int| 0 <= k < rows && 0 <= j < samples implies #[trigger] steps@[k * s + j] == steps_at(
            cs.take(0),
            n,
            s,
            k,
            j,
        ) by {
            lemma_flat_index(k, j, s, rows as int);
        }
    }
    let mut t: usize = 0;
    while t < conductors.len()
        invariant
            cs == conductors@,
            n == groove_count,
            s == samples,
            cs.len() > 0 ==> n > 0,
            cs.len() <= i64::MAX,
            total == rows * samples,
            rows >= 1,
            forall|u: int|
                0 <= u < cs.len() ==> {
                    &&& (#[trigger] cs[u]).phase < rows
                    &&& cs[u].slot * samples <= usize::MAX
                },
            t <= cs.len(),
            steps@.len() == total,
            forall|k: int, j: int|
                0 <= k < rows && 0 <= j < samples ==> #[trigger] steps@[k * s + j] == steps_at(
                    cs.take(t as int),
                    n,
                    s,
                    k,
                    j,
                ),
        decreases cs.len() - t,
    {
        let c = conductors[t];
        let x = c.slot * samples;
        let whole = x / groove_count;
        let part = x % groove_count;
        proof {
            vstd::arithmetic::div_mod::lemma_fundamental_div_mod(x as int, groove_count as int);
            if part != 0 {
                assert(groove_count >= 2);
                assert(whole * 2 <= x) by (nonlinear_arith)
                    requires
                        x == groove_count * whole + part,
                        groove_count >= 2,
                        whole >= 0,
                        part >= 0,
                ;
            }
        }
        let step_at = if part == 0 {
            whole
        } else {
            whole + 1
        };
        let ghost before = steps@;
        proof {
            assert(cs.take(t + 1).drop_last() =~= cs.take(t as int));
            assert(cs.take(t + 1).last() == c);
        }
        if step_at < samples {
            proof {
                lemma_flat_index(c.phase as int, step_at as int, s, rows as int);
            }
            let idx = c.phase * samples + step_at;
            proof {
                lemma_step_bounds(cs.take(t as int), n, s, c.phase as int, step_at as int);
            }
            let sign: i64 = match c.direction {
                Direction::Out => 1,
                Direction::In => -1,
            };
            let v = steps[idx] + sign;
            steps.set(idx, v);
            proof {
                assert forall|k: int, j: int| 0 <= k < rows && 0 <= j < samples implies #[trigger] steps@[k * s + j] == steps_at(
                    cs.take(t + 1),
                    n,
                    s,
                    k,
                    j,
                ) by {
                    lemma_flat_index(k, j, s, rows as int);
                    if k * s + j == idx {
                        assert(k == c.phase && j == step_at);
                    }
                }
            }
        } else {
            proof {
                assert forall|k: int, j: int| 0 <= k < rows && 0 <= j < samples implies #[trigger] steps@[k * s + j] == steps_at(
                    cs.take(t + 1),
                    n,
                    s,
                    k,
                    j,
                ) by {
                    lemma_flat_index(k, j, s, rows as int);
                }
            }
        }
        t = t + 1;
    }
    assert(cs.take(cs.len() as int) =~= cs);

    // Integrate the steps of each phase into its staircase.
    let mut result: Vec<Vec<i64>> = Vec::new();
    let mut k: usize = 0;
    while k < rows
        invariant
            cs == conductors@,
            n == groove_count,
            s == samples,
            cs.len() > 0 ==> n > 0,
            cs.len() <= i64::MAX,
            total == rows * samples,
            rows >= 1,
            forall|u: int| 0 <= u < cs.len() ==> (#[trigger] cs[u]).slot >= 0,
            steps@.len() == total,
            forall|kk: int, j: int|
                0 <= kk < rows && 0 <= j < samples ==> #[trigger] steps@[kk * s + j] == steps_at(
                    cs,
                    n,
                    s,
                    kk,
                    j,
                ),
            k <= rows,
            result@.len() == k,
            forall|kk: int|
                0 <= kk < k ==> {
                    &&& (#[trigger] result@[kk])@.len() == samples
                    &&& forall|i: int|
                        0 <= i < samples ==> #[trigger] result@[kk]@[i] == winding_function_at(
                            cs,
                            n,
                            s,
                            kk,
                            i,
                        )
                },
        decreases rows - k,
    {
        let mut row: Vec<i64> = Vec::new();
        let mut running: i64 = 0;
        let mut i: usize = 0;
        proof {
            if cs.len() > 0 {
                lemma_winding_function_before_start(cs, n, s, k as int);
            } else {
                assert(winding_function_at(cs, n, s, k as int, -1) == 0);
            }
        }
        while i < samples
            invariant
                cs == conductors@,
                n == groove_count,
                s == samples,
                cs.len() <= i64::MAX,
                total == rows * samples,
                k < rows,
                steps@.len() == total,
                forall|kk: int, j: int|
                    0 <= kk < rows && 0 <= j < samples ==> #[trigger] steps@[kk * s + j]
                        == steps_at(cs, n, s, kk, j),
                i <= samples,
                row@.len() == i,
                running == winding_function_at(cs, n, s, k as int, i - 1),
                forall|x: int|
                    0 <= x < i ==> #[trigger] row@[x] == winding_function_at(cs, n, s, k as int, x),
            decreases samples - i,
        {
            proof {
                lemma_flat_index(k as int, i as int, s, rows as int);
                lemma_winding_function_step(cs, n, s, k as int, i as int);
                lemma_step_bounds(cs, n, s, k as int, i as int);
            }
            running = running + steps[k * samples + i];
            row.push(running);
            i = i + 1;
        }
        result.push(row);
        k = k + 1;
    }
    result
}

/// A conductor steps at or before sample `i` exactly when its slot lies at
/// or before sample `i` around the bore: `slot / n <= i / samples`.
proof fn lemma_steps_by(slot: int, n: int, samples: int, i: int)
    requires
        n > 0,
        slot >= 0,
        samples >= 0,
    ensures
        step_sample(slot, n, samples) <= i <==> slot * samples <= i * n,
{
    let x = slot * samples;
    assert(x >= 0) by (nonlinear_arith)
        requires
            x == slot * samples,
            slot >= 0,
            samples >= 0,
    ;
    let q = x / n;
    let r = x % n;
    vstd::arithmetic::div_mod::lemma_fundamental_div_mod(x, n);
    vstd::arithmetic::div_mod::lemma_mod_bound(x, n);
    if r == 0 {
        assert(q <= i <==> x <= i * n) by (nonlinear_arith)
            requires
                x == n * q,
                n > 0,
        ;
    } else {
        assert(q + 1 <= i <==> x <= i * n) by (nonlinear_arith)
            requires
                x == n * q + r,
                0 < r < n,
        ;
    }
}

/// Adding a conductor to the winding adds its unit step to its own phase's
/// staircase from its slot onwards, whatever its layer: `+1` for current
/// coming out of the page, `-1` going in, and nothing to any other phase or
/// at samples before its slot.
pub proof fn lemma_every_conductor_adds_its_step(
    conductors: Seq<Conductor>,
    c: Conductor,
    n: int,
    samples: int,
    phase: int,
    i: int,
)
    requires
        n > 0,
        samples >= 0,
    ensures
        winding_function_at(conductors.push(c), n, samples, phase, i) == winding_function_at(
            conductors,
            n,
            samples,
            phase,
            i,
        ) + if c.phase == phase && c.slot * samples <= i * n {
            if c.direction == Direction::Out {
                1int
            } else {
                -1int
            }
        } else {
            0int
        },
{
    assert(conductors.push(c).drop_last() =~= conductors);
    assert(conductors.push(c).last() == c);
    lemma_steps_by(c.slot as int, n, samples, i);
}

/// Which electrical layer a conductor sits in does not matter to the
/// winding function: moving any one conductor to another layer, in place,
/// leaves every phase's staircase unchanged.
pub proof fn lemma_the_layer_of_a_conductor_does_not_matter(
    conductors: Seq<Conductor>,
    t: int,
    layer: usize,
    n: int,
    samples: int,
    phase: int,
    i: int,
)
    requires
        0 <= t < conductors.len(),
    ensures
        winding_function_at(
            conductors.update(t, Conductor { layer, ..conductors[t] }),
            n,
            samples,
            phase,
            i,
        ) == winding_function_at(conductors, n, samples, phase, i),
    decreases conductors.len(),
{
    let moved = conductors.update(t, Conductor { layer, ..conductors[t] });
    if t == conductors.len() - 1 {
        assert(moved.drop_last() =~= conductors.drop_last());
    } else {
        lemma_the_layer_of_a_conductor_does_not_matter(
            conductors.drop_last(),
            t,
            layer,
            n,
            samples,
            phase,
            i,
        );
        assert(moved.drop_last() =~= conductors.drop_last().update(
            t,
            Conductor { layer, ..conductors.drop_last()[t] },
        ));
        assert(moved.last() == conductors.last());
    }
}

} // verus!
