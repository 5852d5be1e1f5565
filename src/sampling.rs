//! When the anti-aliasing estimators of a pixel's color stop drawing samples.
//!
//! Both methods draw jittered rays through a pixel and average their colors. The stochastic
//! method draws exactly `level` samples. Multisampling first draws `level` samples, then goes on
//! one sample at a time until the estimated variance of the mean color is at most the square of
//! the tolerance; the caller computes that estimate and reports whether it is within tolerance.
use vstd::prelude::*;

verus! {

/// The anti-aliasing method of a camera.
#[derive(Clone, Copy, Debug, PartialEq, Eq, Structural)]
pub enum AAMethod {
    /// A fixed number of jittered samples.
    Stochastic,
    /// Jittered samples until the variance estimate falls within tolerance.
    Multisampling,
}

/// Whether another sample is drawn after `taken` samples; `converged` says whether the variance
/// estimate is within tolerance (it is not consulted before `level` samples are taken).
pub open spec fn wants_sample(method: AAMethod, level: nat, taken: nat, converged: bool) -> bool {
    match method {
        AAMethod::Stochastic => taken < level,
        AAMethod::Multisampling => taken < level || !converged,
    }
}

/// Decides whether another sample is drawn.
pub fn keep_sampling(method: AAMethod, level: usize, taken: usize, converged: bool) -> (r: bool)
    ensures
        r == wants_sample(method, level as nat, taken as nat, converged),
{
    match method {
        AAMethod::Stochastic => taken < level,
        AAMethod::Multisampling => taken < level || !converged,
    }
}

/// The count after one more attempt; `ray_cast` says whether its ray could be cast.
pub open spec fn after_attempt(level: nat, taken: nat, ray_cast: bool) -> nat {
    if ray_cast || taken < level {
        taken + 1
    } else {
        taken
    }
}

/// The sampling state of one pixel's estimate: the method, its level, and the number of
/// samples that count so far.
///
/// While fewer than `level` samples count, every attempt counts, whether or not its ray could be
/// cast (its color is then left out of the sum). After that only attempts whose ray was cast
/// count. The stochastic estimate divides the sum by `level`, multisampling by the count.
#[derive(Clone, Copy, Debug, PartialEq, Eq, Structural)]
pub struct Sampler {
    pub method: AAMethod,
    pub level: usize,
    pub taken: usize,
}

impl Sampler {
    /// A sampler that has taken no sample.
    pub fn new(method: AAMethod, level: usize) -> (r: Self)
        ensures
            r.method == method,
            r.level == level,
            r.taken == 0,
    {
        Sampler { method, level, taken: 0 }
    }

    /// Whether the variance estimate is needed to decide on the next sample: only multisampling
    /// consults it, and only once `level` samples count. When it is not needed, the decision does
    /// not depend on it.
    pub fn needs_variance(&self) -> (r: bool)
        ensures
            r == (self.method == AAMethod::Multisampling && self.taken >= self.level),
            !r ==> forall|c1: bool, c2: bool|
                wants_sample(self.method, self.level as nat, self.taken as nat, c1)
                    == wants_sample(self.method, self.level as nat, self.taken as nat, c2),
    {
        match self.method {
            AAMethod::Stochastic => false,
            AAMethod::Multisampling => self.taken >= self.level,
        }
    }

    /// Whether another sample is drawn; `converged` says whether the variance estimate is within
    /// tolerance.
    pub fn wants_sample(&self, converged: bool) -> (r: bool)
        ensures
            r == wants_sample(self.method, self.level as nat, self.taken as nat, converged),
    {
        keep_sampling(self.method, self.level, self.taken, converged)
    }

    /// Records one attempt; `ray_cast` says whether its ray could be cast.
    pub fn record(&mut self, ray_cast: bool)
        requires
            old(self).taken < usize::MAX,
        ensures
            final(self).method == old(self).method,
            final(self).level == old(self).level,
            final(self).taken == after_attempt(old(self).level as nat, old(self).taken as nat, ray_cast),
    {
        if ray_cast || self.taken < self.level {
            self.taken = self.taken + 1;
        }
    }

    /// The number that the sum of the sampled colors is divided by.
    pub fn divisor(&self) -> (r: usize)
        ensures
            r == match self.method {
                AAMethod::Stochastic => self.level,
                AAMethod::Multisampling => self.taken,
            },
    {
        match self.method {
            AAMethod::Stochastic => self.level,
            AAMethod::Multisampling => self.taken,
        }
    }
}

/// The count after `casts.len()` further attempts, where `casts[k]` says whether the ray of the
/// `k`-th attempt could be cast.
pub open spec fn count_after(level: nat, taken: nat, casts: Seq<bool>) -> nat
    decreases casts.len(),
{
    if casts.len() == 0 {
        taken
    } else {
        count_after(level, after_attempt(level, taken, casts[0]), casts.drop_first())
    }
}

/// The first `level` attempts all count, whatever rays could be cast, so that neither method
/// stops before `level` attempts.
pub proof fn lemma_first_attempts_count(level: nat, casts: Seq<bool>)
    requires
        casts.len() <= level,
    ensures
        count_after(level, 0, casts) == casts.len(),
        forall|m: AAMethod, c: bool|
            casts.len() < level ==> #[trigger] wants_sample(m, level, count_after(level, 0, casts), c),
{
    lemma_attempts_below_level_count(level, 0, casts);
}

proof fn lemma_attempts_below_level_count(level: nat, taken: nat, casts: Seq<bool>)
    requires
        taken + casts.len() <= level,
    ensures
        count_after(level, taken, casts) == taken + casts.len(),
    decreases casts.len(),
{
    if casts.len() > 0 {
        lemma_attempts_below_level_count(level, taken + 1, casts.drop_first());
    }
}

/// The stochastic method draws exactly `level` samples: it continues before `level` and stops
/// at `level`, whatever the variance.
pub proof fn lemma_stochastic_takes_level(level: nat, taken: nat, converged: bool)
    ensures
        wants_sample(AAMethod::Stochastic, level, taken, converged) == (taken < level),
        !wants_sample(AAMethod::Stochastic, level, level, converged),
{
}

/// Multisampling never stops before `level` samples, and stops once `level` samples are taken
/// and the variance estimate is within tolerance.
pub proof fn lemma_multisampling_stops(level: nat, taken: nat, converged: bool)
    ensures
        taken < level ==> wants_sample(AAMethod::Multisampling, level, taken, converged),
        taken >= level && converged ==> !wants_sample(
            AAMethod::Multisampling,
            level,
            taken,
            converged,
        ),
        taken >= level && !converged ==> wants_sample(
            AAMethod::Multisampling,
            level,
            taken,
            converged,
        ),
{
}

} // verus!
