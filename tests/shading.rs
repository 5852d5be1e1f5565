use rtc::intersection::Intersection;
use rtc::shading::{blocks_light, reflection_budget};

#[test]
fn no_reflected_ray_at_zero_budget() {
    assert_eq!(reflection_budget(0, true), None);
    assert_eq!(reflection_budget(0, false), None);
}

#[test]
fn no_reflected_ray_from_non_reflective_surface() {
    assert_eq!(reflection_budget(5, false), None);
}

#[test]
fn reflected_ray_gets_one_less() {
    assert_eq!(reflection_budget(5, true), Some(4));
    assert_eq!(reflection_budget(1, true), Some(0));
}

#[test]
fn mutual_mirrors_stop_within_budget() {
    // every surface reflects: the chain of rays ends after budget + 1 rays
    for budget in 0..8usize {
        let mut rays = 1;
        let mut remaining = budget;
        while let Some(next) = reflection_budget(remaining, true) {
            rays += 1;
            remaining = next;
        }
        assert_eq!(rays, budget + 1);
    }
}

#[test]
fn hit_before_light_blocks_it() {
    let hit = Some(Intersection::new(4.0f64.to_bits(), 0));
    assert!(blocks_light(hit, 17.32f64.to_bits()));
}

#[test]
fn hit_beyond_light_does_not_block_it() {
    let hit = Some(Intersection::new(30.0f64.to_bits(), 0));
    assert!(!blocks_light(hit, 17.32f64.to_bits()));
    let at_light = Some(Intersection::new(17.32f64.to_bits(), 0));
    assert!(!blocks_light(at_light, 17.32f64.to_bits()));
}

#[test]
fn no_hit_does_not_block() {
    assert!(!blocks_light(None, 5.0f64.to_bits()));
    assert!(!blocks_light(Some(Intersection::new(1.0f64.to_bits(), 0)), f64::NAN.to_bits()));
}
