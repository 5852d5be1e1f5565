//! The container stack that decides, at an intersection, which medium a ray leaves and which one
//! it enters.
//!
//! Walking a sorted list of intersections, a primitive is entered the first time the ray meets
//! it and left the next time. The media are named by primitive indices; the caller reads their
//! refractive indices, taking `1.0` (vacuum) where no primitive contains the ray.
use vstd::prelude::*;
use crate::intersection::{Intersection, IntersectionList};

verus! {

/// The stack `s` after the ray meets primitive `o`: `o` leaves the stack if it is on it, else it
/// is pushed.
pub open spec fn toggled(s: Seq<usize>, o: usize) -> Seq<usize> {
    if s.contains(o) {
        s.remove_value(o)
    } else {
        s.push(o)
    }
}

/// The primitives containing the ray after the first `k` intersections of `xs`, innermost last.
pub open spec fn containers_after(xs: Seq<Intersection>, k: int) -> Seq<usize>
    decreases k,
{
    if k <= 0 {
        Seq::empty()
    } else {
        toggled(containers_after(xs, k - 1), xs[k - 1].object)
    }
}

/// The innermost container of a stack, if any.
pub open spec fn innermost(s: Seq<usize>) -> Option<usize> {
    if s.len() == 0 {
        None
    } else {
        Some(s.last())
    }
}

/// `m` is the first position of `ix` in `xs`.
pub open spec fn is_first_position(xs: Seq<Intersection>, ix: Intersection, m: int) -> bool {
    &&& 0 <= m < xs.len()
    &&& xs[m] == ix
    &&& forall|j: int| 0 <= j < m ==> xs[j] != ix
}

/// The first position of `o` in `v`, if any.
fn position_of(v: &Vec<usize>, o: usize) -> (r: Option<usize>)
    ensures
        match r {
            Some(p) => p < v@.len() && v@[p as int] == o && forall|j: int|
                0 <= j < p ==> v@[j] != o,
            None => !v@.contains(o),
        },
{
    let mut p: usize = 0;
    while p < v.len()
        invariant
            p <= v@.len(),
            forall|j: int| 0 <= j < p ==> v@[j] != o,
        decreases v@.len() - p,
    {
        if v[p] == o {
            return Some(p);
        }
        p = p + 1;
    }
    None
}

/// The innermost container of a stack held in a vector.
fn last_of(v: &Vec<usize>) -> (r: Option<usize>)
    ensures
        r == innermost(v@),
{
    if v.len() == 0 {
        None
    } else {
        Some(v[v.len() - 1])
    }
}

/// Toggles primitive `o` on the stack.
fn toggle(containers: &mut Vec<usize>, o: usize)
    ensures
        final(containers)@ == toggled(old(containers)@, o),
{
    match position_of(containers, o) {
        Some(p) => {
            proof {
                let s = containers@;
                s.index_of_first_ensures(o);
                assert(s.contains(o)) by {
                    assert(s[p as int] == o);
                }
                let q = s.index_of_first(o).unwrap();
                assert(q == p) by {
                    if q < p {
                        assert(s[q] != o);
                    } else if q > p {
                        assert(s[p as int] != o);
                    }
                }
            }
            containers.remove(p);
        },
        None => {
            containers.push(o);
        },
    }
}

/// For the intersection `ix` of the sorted list `xs`, the primitive whose medium the ray leaves
/// and the one whose medium it enters there (`None`: vacuum). The walk stops at the first entry
/// equal to `ix`; if no entry is equal to it, both are `None`.
pub fn refractive_containers(ix: &Intersection, xs: &IntersectionList) -> (r: (
    Option<usize>,
    Option<usize>,
))
    ensures
        forall|m: int|
            is_first_position(xs.data@, *ix, m) ==> r == (
                innermost(containers_after(xs.data@, m)),
                innermost(containers_after(xs.data@, m + 1)),
            ),
        !xs.data@.contains(*ix) ==> r == (None::<usize>, None::<usize>),
{
    let mut containers: Vec<usize> = Vec::new();
    let mut i: usize = 0;
    while i < xs.data.len()
        invariant
            i <= xs.data@.len(),
            containers@ == containers_after(xs.data@, i as int),
            forall|j: int| 0 <= j < i ==> xs.data@[j] != *ix,
        decreases xs.data@.len() - i,
    {
        let entry = xs.data[i];
        let is_target = entry == *ix;
        let leaving = last_of(&containers);
        toggle(&mut containers, entry.object);
        if is_target {
            let entering = last_of(&containers);
            proof {
                assert(is_first_position(xs.data@, *ix, i as int));
                assert forall|m: int| is_first_position(xs.data@, *ix, m) implies m == i by {
                    if m < i {
                        assert(xs.data@[m] != *ix);
                    } else if m > i {
                        assert(xs.data@[i as int] != *ix);
                    }
                }
            }
            return (leaving, entering);
        }
        i = i + 1;
    }
    proof {
        assert forall|m: int| !is_first_position(xs.data@, *ix, m) by {
        }
        if xs.data@.contains(*ix) {
            let k = choose|k: int| 0 <= k < xs.data@.len() && xs.data@[k] == *ix;
            assert(xs.data@[k] != *ix);
        }
    }
    (None, None)
}

} // verus!
