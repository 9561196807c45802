//! Sampling order of the body mesh: a tube of rings, drawn as one
//! triangle strip.
//!
//! The body is cut into `segments` slices along its spine, so there are
//! `segments + 1` rings, each sampled at `radial` equally spaced angles. Slice
//! `s` is drawn by walking once round the tube, taking in turn a sample of
//! ring `s` and the sample of ring `s + 1` at the same angle. The walk ends on
//! angle step `radial`, which wraps to step `0` and seals the tube.

use vstd::prelude::*;
use vstd::arithmetic::div_mod::lemma_fundamental_div_mod_converse;

verus! {

/// Sample `j` of the strip: its ring and its angle step.
pub open spec fn strip_sample(radial: int, j: int) -> (int, int) {
    let p = j / 2;
    (p / (radial + 1) + j % 2, (p % (radial + 1)) % radial)
}

/// Number of samples of the strip.
pub open spec fn strip_len(segments: int, radial: int) -> int {
    2 * (segments * (radial + 1))
}

/// Step `k` (from `0` to `radial`) of slice `s` is the rung made of samples
/// `2 * (s * (radial + 1) + k)` and the one after it: the first lies on ring
/// `s`, the second on ring `s + 1`, both at angle step `k % radial`. So the
/// slices are drawn in order, each once, walking the angle steps in order.
pub proof fn lemma_sample_of_step(radial: int, s: int, k: int, h: int)
    requires
        1 <= radial,
        0 <= s,
        0 <= k <= radial,
        0 <= h < 2,
    ensures
        strip_sample(radial, 2 * (s * (radial + 1) + k) + h) == (s + h, k % radial),
{
    let p: int = s * (radial + 1) + k;
    lemma_fundamental_div_mod_converse(2 * p + h, 2, p, h);
    lemma_fundamental_div_mod_converse(p, radial + 1, s, k);
}

/// The samples of the body's triangle strip in drawing order, each as
/// `(ring, angle step)`: for each slice `s` and each step `k` from `0` to
/// `radial`, first `(s, k % radial)`, then `(s + 1, k % radial)`.
pub fn tube_strip(segments: usize, radial: usize) -> (r: Vec<(usize, usize)>)
    requires
        1 <= radial,
        strip_len(segments as int, radial as int) <= usize::MAX,
    ensures
        r.len() == strip_len(segments as int, radial as int),
        r.len() == 2 * (segments * (radial + 1)),
        forall|j: int|
            0 <= j < r.len() ==> (#[trigger] r@[j].0 as int, r@[j].1 as int) == strip_sample(
                radial as int,
                j,
            ),
{
    let mut r: Vec<(usize, usize)> = Vec::new();
    let mut s: usize = 0;
    while s < segments
        invariant
            1 <= radial,
            strip_len(segments as int, radial as int) <= usize::MAX,
            s <= segments,
            r.len() == 2 * (s * (radial + 1)),
            forall|j: int|
                0 <= j < r.len() ==> (#[trigger] r@[j].0 as int, r@[j].1 as int) == strip_sample(
                    radial as int,
                    j,
                ),
        decreases segments - s,
    {
        assert(radial + 1 <= usize::MAX && 2 * (s * (radial + 1) + radial + 1) <= strip_len(
            segments as int,
            radial as int,
        )) by (nonlinear_arith)
            requires
                s < segments,
                1 <= radial,
                strip_len(segments as int, radial as int) <= usize::MAX,
        ;
        let mut k: usize = 0;
        while k <= radial
            invariant
                1 <= radial,
                radial + 1 <= usize::MAX,
                s < segments,
                2 * (s * (radial + 1) + radial + 1) <= usize::MAX,
                k <= radial + 1,
                r.len() == 2 * (s * (radial + 1) + k),
                forall|j: int|
                    0 <= j < r.len() ==> (#[trigger] r@[j].0 as int, r@[j].1 as int)
                        == strip_sample(radial as int, j),
            decreases radial + 1 - k,
        {
            let ghost base: int = r.len() as int;
            proof {
                lemma_sample_of_step(radial as int, s as int, k as int, 0);
                lemma_sample_of_step(radial as int, s as int, k as int, 1);
            }
            let angle: usize = k % radial;
            r.push((s, angle));
            r.push((s + 1, angle));
            assert forall|j: int| 0 <= j < r.len() implies (#[trigger] r@[j].0 as int, r@[j].1 as int)
                == strip_sample(radial as int, j) by {
                if j >= base {
                    assert(j == base + (j - base));
                }
            }
            k = k + 1;
        }
        assert(2 * (s * (radial + 1) + radial + 1) == 2 * ((s + 1) * (radial + 1))) by (nonlinear_arith);
        s = s + 1;
    }
    r
}

/// The strip is a ladder of rungs: samples `2 * p` and `2 * p + 1` share their
/// angle and lie on two neighbouring rings, and every sample lies on one of
/// the `segments + 1` rings at one of the `radial` angle steps.
pub proof fn lemma_strip_rungs(segments: int, radial: int, p: int)
    requires
        1 <= radial,
        0 <= p < segments * (radial + 1),
    ensures
        strip_sample(radial, 2 * p).1 == strip_sample(radial, 2 * p + 1).1,
        strip_sample(radial, 2 * p + 1).0 == strip_sample(radial, 2 * p).0 + 1,
        0 <= strip_sample(radial, 2 * p).0,
        strip_sample(radial, 2 * p + 1).0 <= segments,
        0 <= strip_sample(radial, 2 * p).1 < radial,
{
    let s: int = p / (radial + 1);
    let k: int = p % (radial + 1);
    assert(0 <= s < segments && 0 <= k <= radial && p == s * (radial + 1) + k) by (nonlinear_arith)
        requires
            s == p / (radial + 1),
            k == p % (radial + 1),
            0 <= p < segments * (radial + 1),
            1 <= radial,
    ;
    lemma_sample_of_step(radial, s, k, 0);
    lemma_sample_of_step(radial, s, k, 1);
}

/// Each slice's walk round the tube ends where it began: the first and the
/// last rung of slice `s` lie on the same two rings at angle step `0`, so the
/// surface closes with no gap.
pub proof fn lemma_strip_seals_tube(radial: int, s: int)
    requires
        1 <= radial,
        0 <= s,
    ensures
        strip_sample(radial, 2 * (s * (radial + 1))) == strip_sample(
            radial,
            2 * (s * (radial + 1) + radial),
        ),
        strip_sample(radial, 2 * (s * (radial + 1)) + 1) == strip_sample(
            radial,
            2 * (s * (radial + 1) + radial) + 1,
        ),
        strip_sample(radial, 2 * (s * (radial + 1))) == (s, 0int),
{
    lemma_sample_of_step(radial, s, 0, 0);
    lemma_sample_of_step(radial, s, 0, 1);
    lemma_sample_of_step(radial, s, radial, 0);
    lemma_sample_of_step(radial, s, radial, 1);
    assert(2 * (s * (radial + 1) + 0) == 2 * (s * (radial + 1)));
}

/// The strip ends at the snout: with at least one slice, its last sample,
/// number `2 * segments * (radial + 1) - 1`, lies on the last ring `segments`
/// at angle step `0`, and its first sample on ring `0` at angle step `0`.
pub proof fn lemma_strip_ends(segments: int, radial: int)
    requires
        1 <= radial,
        1 <= segments,
    ensures
        strip_sample(radial, 2 * (segments * (radial + 1)) - 1) == (segments, 0int),
        strip_sample(radial, 0) == (0int, 0int),
{
    lemma_sample_of_step(radial, segments - 1, radial, 1);
    assert(2 * ((segments - 1) * (radial + 1) + radial) + 1 == 2 * (segments * (radial + 1)) - 1)
        by (nonlinear_arith);
    lemma_sample_of_step(radial, 0, 0, 0);
}

} // verus!
