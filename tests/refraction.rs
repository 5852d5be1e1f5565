use rtc::intersection::{Intersection, IntersectionList};
use rtc::refraction::refractive_containers;

fn index_of(container: Option<usize>, indices: &[f64]) -> f64 {
    container.map(|o| indices[o]).unwrap_or(1.0)
}

#[test]
fn finding_n1_and_n2_at_various_intersections() {
    // primitives 0, 1 and 2 are glass spheres with these refractive indices
    let indices = [1.5, 2.0, 2.5];
    let (a, b, c) = (0, 1, 2);

    let i1 = Intersection::new(2.0f64.to_bits(), a);
    let i2 = Intersection::new(2.75f64.to_bits(), b);
    let i3 = Intersection::new(3.25f64.to_bits(), c);
    let i4 = Intersection::new(4.75f64.to_bits(), b);
    let i5 = Intersection::new(5.25f64.to_bits(), c);
    let i6 = Intersection::new(6.00f64.to_bits(), a);
    let ix = vec![i1, i2, i3, i4, i5, i6];

    let xs = IntersectionList::new(ix);

    let expected_n1 = vec![1.0, 1.5, 2.0, 2.5, 2.5, 1.5];
    let expected_n2 = vec![1.5, 2.0, 2.5, 2.5, 1.5, 1.0];

    for idx in 0..6 {
        let (leaving, entering) = refractive_containers(xs.get(idx), &xs);
        assert_eq!(index_of(leaving, &indices), expected_n1[idx]);
        assert_eq!(index_of(entering, &indices), expected_n2[idx]);
    }
}

#[test]
fn containers_of_a_single_sphere() {
    let xs = IntersectionList::new(vec![
        Intersection::new(4.0f64.to_bits(), 7),
        Intersection::new(6.0f64.to_bits(), 7),
    ]);
    assert_eq!(refractive_containers(xs.get(0), &xs), (None, Some(7)));
    assert_eq!(refractive_containers(xs.get(1), &xs), (Some(7), None));
}

#[test]
fn containers_of_an_absent_intersection_are_vacuum() {
    let xs = IntersectionList::new(vec![Intersection::new(1.0f64.to_bits(), 0)]);
    let other = Intersection::new(1.0f64.to_bits(), 1);
    assert_eq!(refractive_containers(&other, &xs), (None, None));
    let empty = IntersectionList::new(vec![]);
    assert_eq!(refractive_containers(&other, &empty), (None, None));
}

#[test]
fn leaving_an_outer_sphere_keeps_the_inner_one() {
    // 0 is entered, then 1, then 0 is left while the ray is still inside 1
    let xs = IntersectionList::new(vec![
        Intersection::new(1.0f64.to_bits(), 0),
        Intersection::new(2.0f64.to_bits(), 1),
        Intersection::new(3.0f64.to_bits(), 0),
        Intersection::new(4.0f64.to_bits(), 1),
    ]);
    assert_eq!(refractive_containers(xs.get(2), &xs), (Some(1), Some(1)));
    assert_eq!(refractive_containers(xs.get(3), &xs), (Some(1), None));
}
