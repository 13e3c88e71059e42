//! Multi-scale refinement: repeated rounds of directional blur at doubling
//! radius, each followed by contrast stretching so repeated averaging does
//! not collapse the field toward flat gray. The direction field is held
//! fixed across every round.

use vstd::prelude::*;
use vstd::arithmetic::mul::lemma_mul_inequality;
use crate::field::IntensityField;
use crate::blur::{spec_blur, directional_blur};
use crate::normalize::{spec_normalize, normalize_image};

verus! {

/// Two to the power `k`.
pub open spec fn pow2(k: nat) -> int
    decreases k,
{
    if k == 0 {
        1
    } else {
        2 * pow2((k - 1) as nat)
    }
}

/// Powers of two are positive and monotone.
pub proof fn lemma_pow2_pos(k: nat)
    ensures
        pow2(k) >= 1,
    decreases k,
{
    if k > 0 {
        lemma_pow2_pos((k - 1) as nat);
    }
}

/// Monotonicity of `pow2`.
pub proof fn lemma_pow2_monotone(a: nat, b: nat)
    requires
        a <= b,
    ensures
        pow2(a) <= pow2(b),
    decreases b,
{
    lemma_pow2_pos(a);
    if a < b {
        lemma_pow2_monotone(a, (b - 1) as nat);
        lemma_pow2_pos((b - 1) as nat);
    }
}

/// The field after `k` refinement rounds: each round blurs the evolving
/// field along the fixed direction field at radius `r0 * 2^round`, then
/// stretches it back to full contrast.
pub open spec fn spec_refine(
    base: Seq<u8>, dirf: Seq<u8>, w: int, h: int, r0: int, k: nat) -> Seq<u8>
    decreases k,
{
    if k == 0 {
        base
    } else {
        spec_normalize(spec_blur(
            spec_refine(base, dirf, w, h, r0, (k - 1) as nat),
            dirf, w, h, r0 * pow2((k - 1) as nat)))
    }
}

/// Run `rounds` refinement rounds over a copy of `base`, blurring along the
/// fixed `direction` field with the radius doubling each round and
/// re-normalizing after every round.
pub fn refine(
    base: &IntensityField,
    direction: &IntensityField,
    base_radius: u32,
    rounds: u32,
) -> (out: IntensityField)
    requires
        base.wf(),
        direction.wf(),
        base.width == direction.width,
        base.height == direction.height,
        rounds <= 24,
        base_radius * pow2(rounds as nat) <= 0x1000_0000,
    ensures
        out.wf(),
        out.width == base.width,
        out.height == base.height,
        out.data@ == spec_refine(
            base.data@, direction.data@,
            base.width as int, base.height as int, base_radius as int, rounds as nat),
{
    let mut current: IntensityField = base.duplicate();
    let mut radius: u32 = base_radius;
    let mut k: u32 = 0;
    proof {
        lemma_pow2_pos(rounds as nat);
        assert(base_radius * 1 <= base_radius * pow2(rounds as nat)) by (nonlinear_arith)
            requires pow2(rounds as nat) >= 1, base_radius >= 0,
        ;
    }
    while k < rounds
        invariant
            k <= rounds,
            rounds <= 24,
            base.wf(),
            direction.wf(),
            base.width == direction.width,
            base.height == direction.height,
            current.wf(),
            current.width == base.width,
            current.height == base.height,
            base_radius * pow2(rounds as nat) <= 0x1000_0000,
            radius as int == base_radius * pow2(k as nat),
            radius <= 0x1000_0000,
            current.data@ == spec_refine(
                base.data@, direction.data@,
                base.width as int, base.height as int, base_radius as int, k as nat),
        decreases rounds - k,
    {
        let blurred: IntensityField = directional_blur(&current, direction, radius);
        current = normalize_image(&blurred);
        proof {
            lemma_pow2_monotone((k + 1) as nat, rounds as nat);
            assert(pow2((k + 1) as nat) == 2 * pow2(k as nat));
            assert(base_radius * pow2((k + 1) as nat)
                <= base_radius * pow2(rounds as nat)) by (nonlinear_arith)
                requires
                    pow2((k + 1) as nat) <= pow2(rounds as nat),
                    base_radius >= 0,
            ;
            assert(2 * (base_radius * pow2(k as nat)) == base_radius * (2 * pow2(k as nat)))
                by (nonlinear_arith);
        }
        radius = radius * 2;
        k = k + 1;
    }
    current
}

} // verus!
