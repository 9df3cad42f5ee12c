//! Choosing the intersection that a ray sees.
//!
//! A distance along a ray is given here as an integer key: a smaller key
//! stands for a smaller distance, equal keys for equal distances. A sphere is
//! given by the two solutions of its equation along the ray, and a hit counts
//! only strictly inside the window of distances that the caller asks about.

use vstd::prelude::*;

verus! {

/// The two distances at which a ray meets the surface of a sphere: the
/// solution taken with the negative square root and the one taken with the
/// positive square root.
#[derive(Clone, Copy, Debug, PartialEq, Eq, Structural)]
pub struct Roots {
    pub minus: i64,
    pub plus: i64,
}

/// The nearest intersection of a ray with a list of spheres: the position of
/// the sphere in the list and the distance of the hit.
#[derive(Clone, Copy, Debug, PartialEq, Eq, Structural)]
pub struct Hit {
    pub index: usize,
    pub t: i64,
}

impl Roots {
    /// Whether the ray meets the sphere at distance `t`, strictly between
    /// `t_min` and `t_max`.
    pub open spec fn crosses_at(self, t: int, t_min: int, t_max: int) -> bool {
        (t == self.minus || t == self.plus) && t_min < t < t_max
    }

    /// The smaller of the two roots that lie strictly between `t_min` and
    /// `t_max`, if any does.
    pub fn nearest_within(&self, t_min: i64, t_max: i64) -> (hit: Option<i64>)
        ensures
            match hit {
                Some(t) => {
                    &&& self.crosses_at(t as int, t_min as int, t_max as int)
                    &&& self.crosses_at(self.minus as int, t_min as int, t_max as int) ==> t
                        <= self.minus
                    &&& self.crosses_at(self.plus as int, t_min as int, t_max as int) ==> t
                        <= self.plus
                },
                None => {
                    &&& !self.crosses_at(self.minus as int, t_min as int, t_max as int)
                    &&& !self.crosses_at(self.plus as int, t_min as int, t_max as int)
                },
            },
            t_max <= self.minus && t_max <= self.plus ==> hit is None,
    {
        let (lo, hi) = if self.minus <= self.plus {
            (self.minus, self.plus)
        } else {
            (self.plus, self.minus)
        };
        if t_min < lo && lo < t_max {
            Some(lo)
        } else if t_min < hi && hi < t_max {
            Some(hi)
        } else {
            None
        }
    }
}

/// Whether sphere `i` of the list is met at distance `t`, strictly between
/// `t_min` and `t_max`. A sphere that the ray's line does not cross is `None`
/// and is met nowhere.
pub open spec fn crossing(
    spheres: Seq<Option<Roots>>,
    i: int,
    t: int,
    t_min: int,
    t_max: int,
) -> bool {
    &&& 0 <= i < spheres.len()
    &&& spheres[i] is Some
    &&& spheres[i]->Some_0.crosses_at(t, t_min, t_max)
}

/// Whether `hit` is the nearest intersection with the first `n` spheres of
/// the list: no crossing inside the window is nearer, and among spheres met
/// at that same distance it names the first. `None` says that the window
/// holds no crossing at all.
pub open spec fn nearest_among(
    spheres: Seq<Option<Roots>>,
    n: int,
    t_min: int,
    t_max: int,
    hit: Option<Hit>,
) -> bool {
    match hit {
        Some(h) => {
            &&& h.index < n
            &&& crossing(spheres, h.index as int, h.t as int, t_min, t_max)
            &&& forall|j: int, u: int|
                j < n && #[trigger] crossing(spheres, j, u, t_min, t_max) ==> h.t <= u
            &&& forall|j: int, u: int|
                j < h.index && #[trigger] crossing(spheres, j, u, t_min, t_max) ==> h.t < u
        },
        None => forall|j: int, u: int|
            j < n ==> !#[trigger] crossing(spheres, j, u, t_min, t_max),
    }
}

/// Whether `hit` is the nearest intersection with the whole list.
pub open spec fn nearest(spheres: Seq<Option<Roots>>, t_min: int, t_max: int, hit: Option<Hit>) -> bool {
    nearest_among(spheres, spheres.len() as int, t_min, t_max, hit)
}

/// Finds the nearest intersection strictly between `t_min` and `t_max`. The
/// spheres are visited in order, and each is asked only for a hit nearer than
/// the nearest found so far.
pub fn nearest_hit(spheres: &Vec<Option<Roots>>, t_min: i64, t_max: i64) -> (hit: Option<Hit>)
    ensures
        nearest(spheres@, t_min as int, t_max as int, hit),
{
    let mut best: Option<Hit> = None;
    let mut closest_so_far: i64 = t_max;
    let mut i: usize = 0;
    while i < spheres.len()
        invariant
            i <= spheres@.len(),
            closest_so_far <= t_max,
            best is None ==> closest_so_far == t_max,
            best is Some ==> closest_so_far == best->Some_0.t,
            nearest_among(spheres@, i as int, t_min as int, t_max as int, best),
        decreases spheres@.len() - i,
    {
        let ghost before = best;
        let ghost bound = closest_so_far;
        let mut found: Option<i64> = None;
        if let Some(roots) = spheres[i] {
            found = roots.nearest_within(t_min, closest_so_far);
        }
        if let Some(t) = found {
            closest_so_far = t;
            best = Some(Hit { index: i, t });
        }
        proof {
            assert forall|j: int, u: int|
                j < i + 1 && #[trigger] crossing(
                    spheres@,
                    j,
                    u,
                    t_min as int,
                    t_max as int,
                ) implies best is Some && closest_so_far <= u && (found is Some && j < i
                ==> closest_so_far < u) by {
                if j == i {
                    let roots = spheres@[i as int]->Some_0;
                    if u < bound {
                        assert(roots.crosses_at(u, t_min as int, bound as int));
                    }
                } else {
                    assert(j < i);
                }
            }
        }
        i = i + 1;
    }
    best
}

/// A list of spheres and a window have one nearest intersection: two answers
/// that both meet the description are the same answer.
pub proof fn lemma_nearest_unique(
    spheres: Seq<Option<Roots>>,
    t_min: int,
    t_max: int,
    a: Option<Hit>,
    b: Option<Hit>,
)
    requires
        nearest(spheres, t_min, t_max, a),
        nearest(spheres, t_min, t_max, b),
    ensures
        a == b,
{
    if a is Some && b is Some {
        let h = a->Some_0;
        let g = b->Some_0;
        assert(crossing(spheres, h.index as int, h.t as int, t_min, t_max));
        assert(crossing(spheres, g.index as int, g.t as int, t_min, t_max));
        assert(h.t == g.t);
        assert(h.index == g.index);
    } else if a is Some {
        let h = a->Some_0;
        assert(crossing(spheres, h.index as int, h.t as int, t_min, t_max));
    } else if b is Some {
        let g = b->Some_0;
        assert(crossing(spheres, g.index as int, g.t as int, t_min, t_max));
    }
}

/// A sphere met in one list is met, at the same distance, in any list that
/// holds the same spheres.
proof fn lemma_crossing_carries_over(
    from: Seq<Option<Roots>>,
    to: Seq<Option<Roots>>,
    i: int,
    t: int,
    t_min: int,
    t_max: int,
) -> (k: int)
    requires
        from.to_multiset() == to.to_multiset(),
        crossing(from, i, t, t_min, t_max),
    ensures
        crossing(to, k, t, t_min, t_max),
{
    from.to_multiset_ensures();
    to.to_multiset_ensures();
    assert(from.contains(from[i]));
    assert(from.to_multiset().count(from[i]) > 0);
    assert(to.to_multiset().count(from[i]) > 0);
    assert(to.contains(from[i]));
    choose|k: int| 0 <= k < to.len() && to[k] == from[i]
}

/// The distance of the nearest intersection does not depend on the order in
/// which the spheres are listed: two lists that hold the same spheres, each
/// as often as the other, either both miss or both hit at the same distance.
pub proof fn lemma_nearest_order_independent(
    first: Seq<Option<Roots>>,
    second: Seq<Option<Roots>>,
    t_min: int,
    t_max: int,
    a: Option<Hit>,
    b: Option<Hit>,
)
    requires
        first.to_multiset() == second.to_multiset(),
        nearest(first, t_min, t_max, a),
        nearest(second, t_min, t_max, b),
    ensures
        a is Some <==> b is Some,
        a is Some ==> a->Some_0.t == b->Some_0.t,
{
    if a is Some {
        let h = a->Some_0;
        let k = lemma_crossing_carries_over(first, second, h.index as int, h.t as int, t_min, t_max);
        assert(crossing(second, k, h.t as int, t_min, t_max));
    }
    if b is Some {
        let g = b->Some_0;
        let k = lemma_crossing_carries_over(second, first, g.index as int, g.t as int, t_min, t_max);
        assert(crossing(first, k, g.t as int, t_min, t_max));
    }
}

} // verus!
