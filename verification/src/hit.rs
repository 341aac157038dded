//! Which surface a ray hits first.
//!
//! Distances along a ray are given here as ordinals: integers in the
//! order of the distances they stand for. An object is given by the two
//! distances at which the line of the ray crosses its surface, where it
//! does. The hit of an object within an interval is its nearer crossing
//! strictly inside the interval, or else its farther one there; the hit
//! of a scene is the nearest hit of its objects.

use vstd::prelude::*;

verus! {

/// The two crossings of a ray's line and a closed surface, the nearer first.
#[derive(Clone, Copy, Debug)]
pub struct Roots {
    near: i64,
    far: i64,
}

/// A hit: its distance, and the place of the object in the scene.
#[derive(Clone, Copy, Debug, PartialEq, Eq, Structural)]
pub struct HitRecord {
    pub t: i64,
    pub object: usize,
}

impl Roots {
    #[verifier::type_invariant]
    spec fn inv(self) -> bool {
        self.near <= self.far
    }

    /// The nearer crossing.
    pub closed spec fn near(self) -> int {
        self.near as int
    }

    /// The farther crossing.
    pub closed spec fn far(self) -> int {
        self.far as int
    }

    /// Whether the crossings are in order, as they are in every value
    /// that [`Roots::new`] gives.
    pub open spec fn ordered(self) -> bool {
        self.near() <= self.far()
    }

    /// The hit within the open interval from `lo` to `hi`: the nearer
    /// crossing if it lies strictly inside, else the farther one if that
    /// does.
    pub open spec fn crossing(self, lo: int, hi: int) -> Option<int> {
        if lo < self.near() < hi {
            Some(self.near())
        } else if lo < self.far() < hi {
            Some(self.far())
        } else {
            None
        }
    }

    /// The crossings `near` and `far`, if they are in order.
    pub fn new(near: i64, far: i64) -> (roots: Option<Roots>)
        ensures
            roots is Some <==> near <= far,
            roots matches Some(r) ==> r.near() == near && r.far() == far && r.ordered(),
    {
        if near <= far {
            Some(Roots { near, far })
        } else {
            None
        }
    }

    /// The hit within the open interval from `lo` to `hi`.
    pub fn hit(&self, lo: i64, hi: i64) -> (t: Option<i64>)
        ensures
            self.ordered(),
            t is Some <==> self.crossing(lo as int, hi as int) is Some,
            t matches Some(t) ==> self.crossing(lo as int, hi as int) == Some(t as int),
    {
        proof {
            use_type_invariant(self);
        }
        if lo < self.near && self.near < hi {
            Some(self.near)
        } else if lo < self.far && self.far < hi {
            Some(self.far)
        } else {
            None
        }
    }
}

/// The hit of an object is its least crossing strictly inside the
/// interval: it is one of the two crossings, it lies inside, and no
/// crossing inside is nearer. Where there is no hit, no crossing lies inside.
pub proof fn lemma_crossing_is_least(roots: Roots, lo: int, hi: int)
    requires
        roots.ordered(),
    ensures
        roots.crossing(lo, hi) matches Some(t) ==> {
            &&& t == roots.near() || t == roots.far()
            &&& lo < t < hi
            &&& lo < roots.near() < hi ==> t <= roots.near()
            &&& lo < roots.far() < hi ==> t <= roots.far()
        },
        roots.crossing(lo, hi) is None ==> !(lo < roots.near() < hi) && !(lo < roots.far() < hi),
{
}

/// Within a shorter interval an object is hit where it was hit before,
/// if that lies inside, and else not at all: to lower the upper bound to
/// the nearest hit so far loses no nearer hit.
pub proof fn lemma_crossing_below(roots: Roots, lo: int, hi: int, bound: int)
    requires
        roots.ordered(),
        bound <= hi,
    ensures
        roots.crossing(lo, bound) == match roots.crossing(lo, hi) {
            Some(t) => if t < bound {
                Some(t)
            } else {
                None
            },
            None => None,
        },
{
}

/// The hit of one object of a scene, where the ray's line crosses it at all.
pub open spec fn crossing_of(object: Option<Roots>, lo: int, hi: int) -> Option<int> {
    match object {
        Some(roots) => roots.crossing(lo, hi),
        None => None,
    }
}

/// Whether a hit, if it is one, lies no nearer than `t`.
pub open spec fn no_nearer(hit: Option<int>, t: int) -> bool {
    hit matches Some(u) ==> t <= u
}

/// Whether no object of the scene is hit within the interval.
pub open spec fn all_miss(objects: Seq<Option<Roots>>, lo: int, hi: int) -> bool {
    forall|k: int| 0 <= k < objects.len() ==> #[trigger] crossing_of(objects[k], lo, hi) is None
}

/// Whether `t` is the least distance at which an object of the scene is
/// hit within the interval.
pub open spec fn is_nearest_distance(
    objects: Seq<Option<Roots>>,
    lo: int,
    hi: int,
    t: int,
) -> bool {
    &&& exists|k: int|
        0 <= k < objects.len() && #[trigger] crossing_of(objects[k], lo, hi) == Some(t)
    &&& forall|k: int|
        0 <= k < objects.len() ==> no_nearer(#[trigger] crossing_of(objects[k], lo, hi), t)
}

/// Whether `hit` is the nearest hit of the scene within the interval:
/// the hit of the object it names, no farther than the hit of any other,
/// and nearer than the hit of any object before that one.
pub open spec fn is_nearest(
    objects: Seq<Option<Roots>>,
    lo: int,
    hi: int,
    hit: HitRecord,
) -> bool {
    &&& hit.object < objects.len()
    &&& crossing_of(objects[hit.object as int], lo, hi) == Some(hit.t as int)
    &&& forall|k: int|
        0 <= k < objects.len() ==> no_nearer(
            #[trigger] crossing_of(objects[k], lo, hi),
            hit.t as int,
        )
    &&& forall|k: int|
        0 <= k < hit.object ==> #[trigger] crossing_of(objects[k], lo, hi) != Some(hit.t as int)
}

/// A scene has one nearest hit at most.
pub proof fn lemma_nearest_is_unique(
    objects: Seq<Option<Roots>>,
    lo: int,
    hi: int,
    first: HitRecord,
    second: HitRecord,
)
    requires
        is_nearest(objects, lo, hi, first),
        is_nearest(objects, lo, hi, second),
    ensures
        first == second,
{
    assert(crossing_of(objects[first.object as int], lo, hi) is Some);
    assert(crossing_of(objects[second.object as int], lo, hi) is Some);
}

/// The nearest hit lies at the least distance at which any object is hit.
pub proof fn lemma_nearest_is_least(
    objects: Seq<Option<Roots>>,
    lo: int,
    hi: int,
    hit: HitRecord,
)
    requires
        is_nearest(objects, lo, hi, hit),
    ensures
        is_nearest_distance(objects, lo, hi, hit.t as int),
{
    assert(crossing_of(objects[hit.object as int], lo, hi) == Some(hit.t as int));
}

/// The order of the objects does not matter to the distance of the
/// nearest hit: a scene and the same objects in another order are hit
/// at the same least distance, or both not at all.
pub proof fn lemma_order_is_irrelevant(
    objects: Seq<Option<Roots>>,
    shuffled: Seq<Option<Roots>>,
    lo: int,
    hi: int,
    t: int,
)
    requires
        objects.to_multiset() == shuffled.to_multiset(),
    ensures
        all_miss(objects, lo, hi) <==> all_miss(shuffled, lo, hi),
        is_nearest_distance(objects, lo, hi, t) <==> is_nearest_distance(shuffled, lo, hi, t),
{
    lemma_same_objects(objects, shuffled, lo, hi, t);
    lemma_same_objects(shuffled, objects, lo, hi, t);
}

/// One direction of [`lemma_order_is_irrelevant`].
proof fn lemma_same_objects(
    objects: Seq<Option<Roots>>,
    shuffled: Seq<Option<Roots>>,
    lo: int,
    hi: int,
    t: int,
)
    requires
        objects.to_multiset() == shuffled.to_multiset(),
    ensures
        all_miss(objects, lo, hi) ==> all_miss(shuffled, lo, hi),
        is_nearest_distance(objects, lo, hi, t) ==> is_nearest_distance(shuffled, lo, hi, t),
{
    broadcast use vstd::seq_lib::group_to_multiset_ensures;

    // Each object of one scene stands somewhere in the other.
    assert forall|k: int| 0 <= k < shuffled.len() implies exists|j: int|
        0 <= j < objects.len() && objects[j] == #[trigger] shuffled[k] by {
        assert(shuffled.contains(shuffled[k]));
        assert(objects.to_multiset().count(shuffled[k]) > 0);
        assert(objects.contains(shuffled[k]));
    }
    assert forall|j: int| 0 <= j < objects.len() implies exists|k: int|
        0 <= k < shuffled.len() && shuffled[k] == #[trigger] objects[j] by {
        assert(objects.contains(objects[j]));
        assert(shuffled.to_multiset().count(objects[j]) > 0);
        assert(shuffled.contains(objects[j]));
    }
    if all_miss(objects, lo, hi) {
        assert forall|k: int| 0 <= k < shuffled.len() implies #[trigger] crossing_of(
            shuffled[k],
            lo,
            hi,
        ) is None by {
            let j = choose|j: int| 0 <= j < objects.len() && objects[j] == shuffled[k];
            assert(crossing_of(objects[j], lo, hi) is None);
        }
    }
    if is_nearest_distance(objects, lo, hi, t) {
        let j = choose|j: int|
            0 <= j < objects.len() && #[trigger] crossing_of(objects[j], lo, hi) == Some(t);
        let k = choose|k: int| 0 <= k < shuffled.len() && shuffled[k] == objects[j];
        assert(crossing_of(shuffled[k], lo, hi) == Some(t));
        assert forall|k: int| 0 <= k < shuffled.len() implies no_nearer(
            #[trigger] crossing_of(shuffled[k], lo, hi),
            t,
        ) by {
            let j = choose|j: int| 0 <= j < objects.len() && objects[j] == shuffled[k];
            assert(crossing_of(objects[j], lo, hi) == crossing_of(shuffled[k], lo, hi));
        }
    }
}

/// The nearest hit of the scene within the open interval from `lo` to
/// `hi`, or `None` where no object is hit there. Of two objects hit at
/// the same distance, the one that stands first is named.
pub fn nearest_hit(objects: &Vec<Option<Roots>>, lo: i64, hi: i64) -> (hit: Option<HitRecord>)
    ensures
        hit is None <==> all_miss(objects@, lo as int, hi as int),
        hit matches Some(h) ==> is_nearest(objects@, lo as int, hi as int, h),
{
    let mut closest: i64 = hi;
    let mut best: Option<HitRecord> = None;
    let mut k: usize = 0;
    while k < objects.len()
        invariant
            k <= objects.len(),
            closest <= hi,
            best is None ==> closest == hi && all_miss(
                objects@.take(k as int),
                lo as int,
                hi as int,
            ),
            best matches Some(h) ==> closest == h.t && is_nearest(
                objects@.take(k as int),
                lo as int,
                hi as int,
                h,
            ),
        decreases objects.len() - k,
    {
        let ghost seen = objects@.take(k as int);
        let ghost more = objects@.take(k + 1);
        assert(forall|j: int| 0 <= j < k ==> more[j] == seen[j]);
        match &objects[k] {
            Some(roots) => {
                match roots.hit(lo, closest) {
                    Some(t) => {
                        closest = t;
                        best = Some(HitRecord { t, object: k });
                    },
                    None => {},
                }
            },
            None => {},
        }
        assert forall|j: int| 0 <= j < k implies crossing_of(seen[j], lo as int, hi as int)
            == #[trigger] crossing_of(more[j], lo as int, hi as int) by {}
        k = k + 1;
    }
    assert(objects@.take(k as int) =~= objects@);
    best
}

} // verus!
