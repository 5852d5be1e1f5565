use rtc::sampling::{keep_sampling, AAMethod, Sampler};

/// Runs a sampler; the variance estimate is within tolerance once `converges_after` samples
/// count, and the ray of attempt `k` can be cast unless `k` is in `missed`.
fn run(method: AAMethod, level: usize, converges_after: usize, missed: &[usize]) -> (usize, usize, usize) {
    let mut sampler = Sampler::new(method, level);
    let mut attempts = 0;
    loop {
        let converged = sampler.needs_variance() && sampler.taken >= converges_after;
        if !sampler.wants_sample(converged) {
            return (attempts, sampler.taken, sampler.divisor());
        }
        sampler.record(!missed.contains(&attempts));
        attempts += 1;
    }
}

#[test]
fn stochastic_takes_exactly_level_samples() {
    assert_eq!(run(AAMethod::Stochastic, 5, 0, &[]), (5, 5, 5));
    assert_eq!(run(AAMethod::Stochastic, 5, 100, &[]), (5, 5, 5));
    assert_eq!(run(AAMethod::Stochastic, 5, 0, &[1, 3]), (5, 5, 5));
    assert_eq!(run(AAMethod::Stochastic, 0, 100, &[]), (0, 0, 0));
}

#[test]
fn multisampling_takes_at_least_level_samples() {
    assert_eq!(run(AAMethod::Multisampling, 5, 0, &[]), (5, 5, 5));
    assert_eq!(run(AAMethod::Multisampling, 5, 3, &[]), (5, 5, 5));
}

#[test]
fn multisampling_continues_until_converged() {
    assert_eq!(run(AAMethod::Multisampling, 5, 12, &[]), (12, 12, 12));
}

#[test]
fn missed_rays_count_only_before_level() {
    // attempts 2 and 7 cast no ray: the first still counts, the second does not
    assert_eq!(run(AAMethod::Multisampling, 5, 9, &[2, 7]), (10, 9, 9));
}

#[test]
fn variance_is_consulted_by_multisampling_only() {
    let mut s = Sampler::new(AAMethod::Multisampling, 2);
    assert!(!s.needs_variance());
    s.record(true);
    s.record(false);
    assert_eq!(s.taken, 2);
    assert!(s.needs_variance());
    assert!(s.wants_sample(false));
    assert!(!s.wants_sample(true));
    s.record(false);
    assert_eq!(s.taken, 2);

    let t = Sampler::new(AAMethod::Stochastic, 2);
    assert!(!t.needs_variance());
    assert!(keep_sampling(AAMethod::Multisampling, 2, 1, true));
    assert!(!keep_sampling(AAMethod::Stochastic, 2, 2, false));
}
