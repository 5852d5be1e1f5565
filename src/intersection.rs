//! Intersections between a ray and the primitives of a scene, and the choice of the hit.
//!
//! An intersection time `t` is held as the bit pattern of an `f64` (`f64::to_bits`). Sorting uses
//! the same total order as `f64::total_cmp`; on the times that can be a hit (finite and strictly
//! positive) that order is the numeric one, and it agrees with the order of the bit patterns.
use vstd::prelude::*;
use vstd::multiset::Multiset;
use vstd::seq_lib::lemma_multiset_commutative;

verus! {

/// Bit pattern of `f64::INFINITY`; every finite positive `f64` has a smaller pattern.
pub const POSITIVE_INFINITY_BITS: u64 = 0x7ff0_0000_0000_0000;

/// The sign bit of an `f64` bit pattern.
pub const SIGN_BIT: u64 = 0x8000_0000_0000_0000;

/// A time that may be a hit: the bit pattern of a finite, strictly positive `f64`.
/// `+0.0` (pattern 0), negative values (sign bit set), infinities and NaNs are excluded.
pub open spec fn is_hit_time(t: u64) -> bool {
    0 < t && t < POSITIVE_INFINITY_BITS
}

/// The sort key of a time: the order of `f64::total_cmp`, as an integer.
/// Negative patterns are reversed below `2^63`; non-negative ones are moved above it.
pub open spec fn time_key(t: u64) -> int {
    if t >= SIGN_BIT {
        u64::MAX - t
    } else {
        t + SIGN_BIT
    }
}

/// Computes the sort key of a time.
pub fn sort_key(t: u64) -> (r: u64)
    ensures
        r == time_key(t),
{
    if t >= SIGN_BIT {
        u64::MAX - t
    } else {
        t + SIGN_BIT
    }
}

/// Whether a time may be a hit.
pub fn hit_time(t: u64) -> (r: bool)
    ensures
        r == is_hit_time(t),
{
    0 < t && t < POSITIVE_INFINITY_BITS
}

/// One intersection: the time along the ray, and the index of the primitive that was hit in the
/// scene's list of primitives.
#[derive(Clone, Copy, Debug, PartialEq, Eq, Structural)]
pub struct Intersection {
    /// Bit pattern of the `f64` time.
    pub t: u64,
    /// Index of the primitive in the scene.
    pub object: usize,
}

impl Intersection {
    /// Creates an intersection at time `t` (as `f64` bits) with primitive `object`.
    pub fn new(t: u64, object: usize) -> (r: Self)
        ensures
            r.t == t,
            r.object == object,
    {
        Intersection { t, object }
    }
}

/// Intersections in ascending order of their sort keys.
pub open spec fn sorted_by_time(s: Seq<Intersection>) -> bool {
    forall|i: int, j: int| 0 <= i < j < s.len() ==> time_key(s[i].t) <= time_key(s[j].t)
}

/// `x` is a hit of `s`: a member whose time may be a hit and is the least such time.
pub open spec fn is_hit_of(s: Seq<Intersection>, x: Intersection) -> bool {
    &&& s.contains(x)
    &&& is_hit_time(x.t)
    &&& forall|j: int| 0 <= j < s.len() && is_hit_time(#[trigger] s[j].t) ==> x.t <= s[j].t
}

/// `s` holds no time that may be a hit.
pub open spec fn has_no_hit(s: Seq<Intersection>) -> bool {
    forall|j: int| 0 <= j < s.len() ==> !is_hit_time(#[trigger] s[j].t)
}

/// On times that may be hits, the sort key orders as the bit patterns do.
pub proof fn lemma_key_orders_hit_times(a: u64, b: u64)
    requires
        is_hit_time(a),
        is_hit_time(b),
    ensures
        (a <= b) == (time_key(a) <= time_key(b)),
{
}

proof fn lemma_insert_to_multiset(s: Seq<Intersection>, i: int, x: Intersection)
    requires
        0 <= i <= s.len(),
    ensures
        s.insert(i, x).to_multiset() =~= s.to_multiset().insert(x),
{
    let a = s.subrange(0, i);
    let b = s.subrange(i, s.len() as int);
    assert(s =~= a + b);
    assert(s.insert(i, x) =~= a + (seq![x] + b));
    lemma_multiset_commutative(a, b);
    lemma_multiset_commutative(a, seq![x] + b);
    lemma_multiset_commutative(seq![x], b);
    assert(seq![x].to_multiset() =~= Multiset::empty().insert(x)) by {
        broadcast use vstd::seq_lib::group_to_multiset_ensures;

        assert(seq![x] =~= Seq::<Intersection>::empty().push(x));
    }
}

proof fn lemma_same_multiset_contains(a: Seq<Intersection>, b: Seq<Intersection>, y: Intersection)
    requires
        a.to_multiset() == b.to_multiset(),
    ensures
        a.contains(y) == b.contains(y),
{
    a.to_multiset_ensures();
    b.to_multiset_ensures();
    assert(a.contains(y) <==> a.to_multiset().count(y) > 0);
    assert(b.contains(y) <==> b.to_multiset().count(y) > 0);
}

/// Returns the entries of `list` sorted by time (in the order of `f64::total_cmp`), keeping every
/// entry.
pub fn sort_by_time(list: &Vec<Intersection>) -> (r: Vec<Intersection>)
    ensures
        sorted_by_time(r@),
        r@.to_multiset() == list@.to_multiset(),
{
    let mut out: Vec<Intersection> = Vec::new();
    let mut i: usize = 0;
    assert(out@ =~= list@.subrange(0, 0));
    while i < list.len()
        invariant
            i <= list.len(),
            sorted_by_time(out@),
            out@.to_multiset() == list@.subrange(0, i as int).to_multiset(),
        decreases list.len() - i,
    {
        let x = list[i];
        let kx = sort_key(x.t);
        let mut p: usize = 0;
        while p < out.len() && sort_key(out[p].t) <= kx
            invariant
                p <= out.len(),
                sorted_by_time(out@),
                forall|j: int| 0 <= j < p ==> time_key(#[trigger] out@[j].t) <= kx,
            decreases out.len() - p,
        {
            p = p + 1;
        }
        let ghost before = out@;
        out.insert(p, x);
        proof {
            assert(forall|j: int| p <= j < before.len() ==> kx < time_key(#[trigger] before[j].t))
                by {
                if p < before.len() {
                    assert(kx < time_key(before[p as int].t));
                }
            }
            assert(sorted_by_time(out@)) by {
                assert forall|a: int, b: int| 0 <= a < b < out@.len() implies time_key(
                    out@[a].t,
                ) <= time_key(out@[b].t) by {
                    if b < p {
                    } else if b == p {
                    } else if a < p {
                    } else if a == p {
                        assert(out@[b] == before[b - 1]);
                    } else {
                        assert(out@[a] == before[a - 1]);
                        assert(out@[b] == before[b - 1]);
                    }
                }
            }
            lemma_insert_to_multiset(before, p as int, x);
            assert(list@.subrange(0, i + 1) =~= list@.subrange(0, i as int).push(x));
            broadcast use vstd::seq_lib::group_to_multiset_ensures;

        }
        i = i + 1;
    }
    assert(list@.subrange(0, list.len() as int) =~= list@);
    out
}

/// A list of intersections, as collected from the primitives of a scene.
#[derive(Clone, Debug)]
pub struct IntersectionList {
    pub data: Vec<Intersection>,
}

impl IntersectionList {
    /// Creates a list from `list`, sorted by time.
    pub fn new(list: Vec<Intersection>) -> (r: Self)
        ensures
            sorted_by_time(r.data@),
            r.data@.to_multiset() == list@.to_multiset(),
    {
        IntersectionList { data: sort_by_time(&list) }
    }

    /// The number of intersections.
    pub fn len(&self) -> (r: usize)
        ensures
            r == self.data@.len(),
    {
        self.data.len()
    }

    /// The intersection at position `i`.
    pub fn get(&self, i: usize) -> (r: &Intersection)
        requires
            i < self.data@.len(),
        ensures
            *r == self.data@[i as int],
    {
        &self.data[i]
    }

    /// Sorts the list by time and returns the hit: among the intersections whose time is finite
    /// and strictly positive, one with the least time. `None` when there is no such time.
    pub fn hit(&mut self) -> (r: Option<Intersection>)
        ensures
            sorted_by_time(final(self).data@),
            final(self).data@.to_multiset() == old(self).data@.to_multiset(),
            match r {
                Some(x) => is_hit_of(old(self).data@, x),
                None => has_no_hit(old(self).data@),
            },
    {
        self.data = sort_by_time(&self.data);
        let mut i: usize = 0;
        while i < self.data.len()
            invariant
                i <= self.data@.len(),
                sorted_by_time(self.data@),
                self.data@.to_multiset() == old(self).data@.to_multiset(),
                forall|j: int| 0 <= j < i ==> !is_hit_time(#[trigger] self.data@[j].t),
            decreases self.data@.len() - i,
        {
            if hit_time(self.data[i].t) {
                let x = self.data[i];
                proof {
                    let s = self.data@;
                    assert(s.contains(x)) by {
                        assert(s[i as int] == x);
                    }
                    assert forall|j: int| 0 <= j < s.len() && is_hit_time(#[trigger] s[j].t) implies x.t
                        <= s[j].t by {
                        if j > i {
                            lemma_key_orders_hit_times(x.t, s[j].t);
                        }
                    }
                    assert forall|j: int|
                        0 <= j < old(self).data@.len() && is_hit_time(
                            #[trigger] old(self).data@[j].t,
                        ) implies x.t <= old(self).data@[j].t by {
                        let y = old(self).data@[j];
                        assert(old(self).data@.contains(y));
                        lemma_same_multiset_contains(old(self).data@, s, y);
                        let k = choose|k: int| 0 <= k < s.len() && s[k] == y;
                        assert(is_hit_time(s[k].t));
                    }
                    lemma_same_multiset_contains(old(self).data@, s, x);
                }
                return Some(x);
            }
            i = i + 1;
        }
        proof {
            let s = self.data@;
            assert forall|j: int| 0 <= j < old(self).data@.len() implies !is_hit_time(
                #[trigger] old(self).data@[j].t,
            ) by {
                let y = old(self).data@[j];
                assert(old(self).data@.contains(y));
                lemma_same_multiset_contains(old(self).data@, s, y);
                let k = choose|k: int| 0 <= k < s.len() && s[k] == y;
                assert(!is_hit_time(s[k].t));
            }
        }
        None
    }
}

/// The entries of all the lists in `parts`, list after list.
pub open spec fn joined(parts: Seq<IntersectionList>) -> Seq<Intersection> {
    parts.map_values(|l: IntersectionList| l.data@).flatten_alt()
}

/// The intersections of a whole scene: the entries of every primitive's list, in one list sorted
/// by time. The result is a list even when every part is empty.
pub fn union(parts: &Vec<IntersectionList>) -> (r: IntersectionList)
    ensures
        sorted_by_time(r.data@),
        r.data@.to_multiset() == joined(parts@).to_multiset(),
{
    let mut all: Vec<Intersection> = Vec::new();
    let mut k: usize = 0;
    assert(joined(parts@.subrange(0, 0)) =~= Seq::empty());
    while k < parts.len()
        invariant
            k <= parts@.len(),
            all@ == joined(parts@.subrange(0, k as int)),
        decreases parts@.len() - k,
    {
        let part = &parts[k];
        let mut j: usize = 0;
        assert(all@ =~= joined(parts@.subrange(0, k as int)) + part.data@.subrange(0, 0));
        while j < part.data.len()
            invariant
                j <= part.data@.len(),
                part == parts@[k as int],
                all@ == joined(parts@.subrange(0, k as int)) + part.data@.subrange(0, j as int),
            decreases part.data@.len() - j,
        {
            all.push(part.data[j]);
            j = j + 1;
            assert(all@ =~= joined(parts@.subrange(0, k as int)) + part.data@.subrange(
                0,
                j as int,
            ));
        }
        proof {
            let f = |l: IntersectionList| l.data@;
            let next = parts@.subrange(0, k + 1);
            assert(next.map_values(f).drop_last() =~= parts@.subrange(0, k as int).map_values(f));
            assert(next.map_values(f).last() == part.data@);
            assert(part.data@.subrange(0, j as int) =~= part.data@);
        }
        k = k + 1;
    }
    assert(parts@.subrange(0, parts@.len() as int) =~= parts@);
    IntersectionList::new(all)
}

} // verus!
