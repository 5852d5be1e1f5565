//! Decisions of recursive color resolution: when a reflected ray is cast, with what budget, and
//! when a light is blocked.
//!
//! The color of a ray is the surface color at its hit plus, when the surface reflects and budget
//! is left, the color of the reflected ray traced with one unit less. The budget is the only
//! bound on the recursion between mutually reflective surfaces.
use vstd::prelude::*;
use crate::intersection::{is_hit_time, Intersection, POSITIVE_INFINITY_BITS};

verus! {

/// The budget of the reflected ray, or `None` when no reflected ray is cast (the reflected color
/// is black).
pub open spec fn next_budget(remaining: nat, reflective: bool) -> Option<nat> {
    if remaining == 0 || !reflective {
        None
    } else {
        Some((remaining - 1) as nat)
    }
}

/// Decides the reflected ray at a hit: `reflective` says whether the material's reflective
/// coefficient is non-zero. Returns the budget for the reflected ray, or `None` when the
/// reflected color is black.
pub fn reflection_budget(remaining: usize, reflective: bool) -> (r: Option<usize>)
    ensures
        r matches Some(b) ==> next_budget(remaining as nat, reflective) == Some(b as nat),
        r is None ==> next_budget(remaining as nat, reflective) is None,
{
    if remaining == 0 || !reflective {
        None
    } else {
        Some(remaining - 1)
    }
}

/// The number of rays traced for one primary ray with budget `remaining`, when the `k`-th surface
/// met along the chain of reflections reflects exactly when `reflective[k]` holds (surfaces past
/// the end of `reflective` do not reflect, and a ray that hits nothing ends the chain likewise).
pub open spec fn rays_traced(remaining: nat, reflective: Seq<bool>) -> nat
    decreases remaining,
{
    let reflects = reflective.len() > 0 && reflective[0];
    match next_budget(remaining, reflects) {
        Some(b) => 1 + rays_traced(b, reflective.drop_first()),
        None => 1,
    }
}

/// Reflection terminates within the budget: whatever the surfaces met, a primary ray with budget
/// `remaining` leads to at most `remaining + 1` traced rays; between surfaces that all reflect
/// (such as two parallel mirrors) the bound is reached exactly.
pub proof fn lemma_reflection_terminates(remaining: nat, reflective: Seq<bool>)
    ensures
        rays_traced(remaining, reflective) <= remaining + 1,
        reflective.len() >= remaining && (forall|k: int|
            0 <= k < reflective.len() ==> #[trigger] reflective[k]) ==> rays_traced(
            remaining,
            reflective,
        ) == remaining + 1,
    decreases remaining,
{
    if remaining > 0 {
        lemma_reflection_terminates((remaining - 1) as nat, reflective.drop_first());
        if reflective.len() >= remaining && (forall|k: int|
            0 <= k < reflective.len() ==> #[trigger] reflective[k]) {
            assert(reflective[0]);
            assert forall|k: int| 0 <= k < reflective.drop_first().len() implies #[trigger] reflective.drop_first()[k] by {
                assert(reflective[k + 1]);
            }
        }
    }
}

/// A point is shadowed from a light when the hit of the ray cast from it toward the light lies
/// nearer than the light. `distance` is the bit pattern of the (non-negative) distance to the
/// light; a NaN distance never compares as greater.
pub open spec fn blocks(hit: Option<Intersection>, distance: u64) -> bool {
    match hit {
        Some(x) => is_hit_time(x.t) && distance <= POSITIVE_INFINITY_BITS && x.t < distance,
        None => false,
    }
}

/// Decides whether the hit of a shadow ray blocks the light at bit-pattern distance `distance`.
pub fn blocks_light(hit: Option<Intersection>, distance: u64) -> (r: bool)
    ensures
        r == blocks(hit, distance),
{
    match hit {
        Some(x) => 0 < x.t && x.t < POSITIVE_INFINITY_BITS && distance <= POSITIVE_INFINITY_BITS
            && x.t < distance,
        None => false,
    }
}

} // verus!
