//! Crossings of a ray with shapes: which one is seen, and which media meet
//! there.

use crate::geometry::Vec4;
use crate::search::first_index;
use crate::search::lemma_first_index;
use crate::search::lemma_first_index_props;
use crate::scalar::Scalar;
use crate::scalar::ONE_BITS;
use crate::shape::ShapeId;
use crate::shape::Surface;
use vstd::prelude::*;
use vstd::seq_lib::*;

verus! {

/// A place where a ray crosses the boundary of a shape, at distance `t` along
/// the ray. `u` and `v` are the barycentric weights of the place on a
/// triangle, and zero on every other shape.
#[derive(Clone, Copy, Debug, PartialEq, Eq, Structural)]
pub struct Intersection {
    pub object: Surface,
    pub t: Scalar,
    pub u: Scalar,
    pub v: Scalar,
}

/// The media on both sides of a boundary, for the crossing at `t` of `object`.
#[derive(Clone, Copy, Debug, PartialEq, Eq, Structural)]
pub struct Comp {
    pub t: Scalar,
    pub object: Surface,
    /// The refractive index of the medium that the ray leaves.
    pub n1: Scalar,
    /// The refractive index of the medium that the ray enters.
    pub n2: Scalar,
}

/// The crossings in front of the ray's origin, in their order.
pub open spec fn in_front(xs: Seq<Intersection>) -> Seq<Intersection> {
    xs.filter(|x: Intersection| x.t.positive())
}

/// No distance is a not-a-number.
pub open spec fn all_numbers(xs: Seq<Intersection>) -> bool {
    forall|i: int| 0 <= i < xs.len() ==> !(#[trigger] xs[i]).t.nan()
}

/// The distances never decrease along the sequence.
pub open spec fn ascending(xs: Seq<Intersection>) -> bool {
    forall|i: int, j: int|
        0 <= i < j < xs.len() ==> (#[trigger] xs[i]).t.ordinal() <= (#[trigger] xs[j]).t.ordinal()
}

/// `xs` with `x` put in behind every crossing that is not further than `x`.
pub open spec fn put_in(xs: Seq<Intersection>, x: Intersection) -> Seq<Intersection> {
    xs.insert(first_index(xs, |y: Intersection| y.t.ordinal() > x.t.ordinal()), x)
}

/// The crossings in ascending order of distance, those at one distance in
/// the order that they had.
pub open spec fn in_order(xs: Seq<Intersection>) -> Seq<Intersection>
    decreases xs.len(),
{
    if xs.len() == 0 {
        xs
    } else {
        put_in(in_order(xs.drop_last()), xs.last())
    }
}

/// The shapes that a ray is inside of after one more crossing of `object`: a
/// shape that was among them is left, and any other is entered last.
pub open spec fn cross(inside: Seq<Surface>, object: Surface) -> Seq<Surface> {
    let at = first_index(inside, |s: Surface| s.id == object.id);
    if at < inside.len() {
        inside.remove(at)
    } else {
        inside.push(object)
    }
}

/// The shapes that a ray is inside of after the first `k` crossings of `xs`,
/// the one entered last at the end.
pub open spec fn containers(xs: Seq<Intersection>, k: int) -> Seq<Surface>
    decreases k,
{
    if k <= 0 {
        Seq::empty()
    } else {
        cross(containers(xs, k - 1), xs[k - 1].object)
    }
}

/// The refractive index where a ray is inside of `inside`: that of the shape
/// entered last, and 1 in empty space.
pub open spec fn medium(inside: Seq<Surface>) -> Scalar {
    if inside.len() == 0 {
        Scalar { bits: ONE_BITS }
    } else {
        inside.last().refraction
    }
}

/// How many crossings of `xs` lie on the way to `hit`: all up to and with the
/// first that is `hit`, or all of them where none is.
pub open spec fn way_to(xs: Seq<Intersection>, hit: Intersection) -> int {
    let at = first_index(xs, |x: Intersection| hit.is_crossing(x));
    if at < xs.len() {
        at + 1
    } else {
        xs.len() as int
    }
}

/// The refractive indices on both sides of `hit`, which lies among the
/// crossings `xs` of its ray: that of the medium the ray is in before the last
/// crossing on the way to `hit`, and after it. Both are 1 where no crossing
/// lies on the way.
pub open spec fn media(xs: Seq<Intersection>, hit: Intersection) -> (Scalar, Scalar) {
    let k = way_to(xs, hit);
    if k == 0 {
        (Scalar { bits: ONE_BITS }, Scalar { bits: ONE_BITS })
    } else {
        (medium(containers(xs, k - 1)), medium(containers(xs, k)))
    }
}

/// No shape is twice among the containers.
pub open spec fn distinct(inside: Seq<Surface>) -> bool {
    forall|i: int, j: int|
        0 <= i < j < inside.len() ==> (#[trigger] inside[i]).id != (#[trigger] inside[j]).id
}

/// Crossing a boundary keeps the containers free of repetitions.
pub proof fn lemma_cross_distinct(inside: Seq<Surface>, object: Surface)
    requires
        distinct(inside),
    ensures
        distinct(cross(inside, object)),
{
    let pred = |s: Surface| s.id == object.id;
    lemma_first_index_props(inside, pred);
    let at = first_index(inside, pred);
    let after = cross(inside, object);
    if at < inside.len() {
        assert forall|i: int, j: int| 0 <= i < j < after.len() implies (#[trigger] after[i]).id != (
        #[trigger] after[j]).id by {
            let ii = if i < at { i } else { i + 1 };
            let jj = if j < at { j } else { j + 1 };
            assert(after[i] == inside[ii]);
            assert(after[j] == inside[jj]);
        }
    } else {
        assert forall|i: int, j: int| 0 <= i < j < after.len() implies (#[trigger] after[i]).id != (
        #[trigger] after[j]).id by {
            if j == inside.len() {
                assert(!pred(inside[i]));
            }
        }
    }
}

/// Whatever the crossings, a ray is never inside one shape twice over.
pub proof fn lemma_containers_distinct(xs: Seq<Intersection>, k: int)
    ensures
        distinct(containers(xs, k)),
    decreases k,
{
    if k > 0 {
        lemma_containers_distinct(xs, k - 1);
        lemma_cross_distinct(containers(xs, k - 1), xs[k - 1].object);
    }
}

/// `in_order` sorts: what it gives is ascending and holds the same crossings,
/// each as often as before.
pub proof fn lemma_in_order_sorts(xs: Seq<Intersection>)
    ensures
        ascending(in_order(xs)),
        in_order(xs).to_multiset() == xs.to_multiset(),
        in_order(xs).len() == xs.len(),
    decreases xs.len(),
{
    broadcast use group_to_multiset_ensures;

    if xs.len() > 0 {
        let x = xs.last();
        let prior = in_order(xs.drop_last());
        lemma_in_order_sorts(xs.drop_last());
        let further = |y: Intersection| y.t.ordinal() > x.t.ordinal();
        lemma_first_index_props(prior, further);
        let at = first_index(prior, further);
        let sorted = in_order(xs);
        assert(sorted == prior.insert(at, x));
        to_multiset_insert(prior, at, x);
        to_multiset_build(xs.drop_last(), x);
        assert(xs.drop_last().push(x) =~= xs);
        assert forall|a: int, b: int| 0 <= a < b < sorted.len() implies (#[trigger] sorted[a]).t.ordinal()
            <= (#[trigger] sorted[b]).t.ordinal() by {
            if a < at {
                assert(sorted[a] == prior[a]);
                assert(!further(prior[a]));
            } else if a > at {
                assert(sorted[a] == prior[a - 1]);
            }
            if b < at {
                assert(sorted[b] == prior[b]);
            } else if b > at {
                assert(sorted[b] == prior[b - 1]);
                assert(further(prior[at]));
                assert(prior[at].t.ordinal() <= prior[b - 1].t.ordinal());
            }
        }
    }
}

/// In an ascending sequence that holds exactly the crossings of `all` that lie
/// in front of the origin, the first item is the nearest of them, and there is
/// a first item as soon as one crossing lies in front.
pub proof fn lemma_first_is_nearest(all: Seq<Intersection>, kept: Seq<Intersection>)
    requires
        ascending(kept),
        kept.to_multiset() == in_front(all).to_multiset(),
    ensures
        kept.len() == 0 <==> forall|i: int| 0 <= i < all.len() ==> !(#[trigger] all[i]).t.positive(),
        forall|i: int| 0 <= i < kept.len() ==> (#[trigger] kept[i]).t.positive() && all.contains(kept[i]),
        kept.len() > 0 ==> forall|i: int|
            0 <= i < all.len() && (#[trigger] all[i]).t.positive() ==> kept[0].t.ordinal()
                <= all[i].t.ordinal(),
{
    broadcast use group_to_multiset_ensures;
    let pred = |x: Intersection| x.t.positive();
    let front = in_front(all);
    assert forall|i: int| 0 <= i < kept.len() implies (#[trigger] kept[i]).t.positive()
        && all.contains(kept[i]) by {
        assert(kept.contains(kept[i]));
        assert(kept.to_multiset().count(kept[i]) > 0);
        assert(front.contains(kept[i]));
        let k = choose|k: int| 0 <= k < front.len() && front[k] == kept[i];
        all.lemma_filter_pred(pred, k);
        all.lemma_filter_contains_rev(pred, kept[i]);
    }
    assert forall|i: int| 0 <= i < all.len() && (#[trigger] all[i]).t.positive() implies kept.len() > 0
        && kept[0].t.ordinal() <= all[i].t.ordinal() by {
        assert(pred(all[i]));
        all.lemma_filter_contains(pred, i);
        assert(front.contains(all[i]));
        assert(front.to_multiset().count(all[i]) > 0);
        assert(kept.contains(all[i]));
        let j = choose|j: int| 0 <= j < kept.len() && kept[j] == all[i];
        assert(kept[0].t.ordinal() <= kept[j].t.ordinal());
    }
    if kept.len() > 0 {
        assert(kept[0].t.positive() && all.contains(kept[0]));
    }
}

/// The refractive index of the medium inside all of `inside`.
pub fn refractive_index(inside: &Vec<Surface>) -> (n: Scalar)
    ensures
        n == medium(inside@),
{
    if inside.len() == 0 {
        Scalar::one()
    } else {
        inside[inside.len() - 1].refraction
    }
}

/// Takes a ray across the boundary of `object`: out of it where the ray was
/// inside, else into it.
pub fn cross_boundary(inside: &mut Vec<Surface>, object: Surface)
    ensures
        final(inside)@ == cross(old(inside)@, object),
{
    let ghost pred = |s: Surface| s.id == object.id;
    let mut at: usize = 0;
    while at < inside.len() && inside[at].id != object.id
        invariant
            at <= inside@.len(),
            inside@ == old(inside)@,
            pred == (|s: Surface| s.id == object.id),
            forall|j: int| 0 <= j < at ==> !pred(#[trigger] inside@[j]),
        decreases inside@.len() - at,
    {
        at += 1;
    }
    proof {
        lemma_first_index(inside@, pred, at as int);
    }
    if at < inside.len() {
        inside.remove(at);
    } else {
        inside.push(object);
    }
}

/// Turns the normal of a surface towards the eye. `facing` is the dot
/// product of the normal and the direction to the eye: where it is below
/// zero the normal points away, the eye is inside the shape, and the normal
/// is turned round.
pub fn face_eye(normal: Vec4, facing: &Scalar) -> (r: (Vec4, bool))
    ensures
        r.1 == facing.less(Scalar { bits: 0 }),
        !r.1 ==> r.0 == normal,
        r.1 ==> r.0.elements@ == seq![
            normal.elements@[0].negated(),
            normal.elements@[1].negated(),
            normal.elements@[2].negated(),
            normal.elements@[3].negated(),
        ],
{
    let zero = Scalar::zero();
    if facing.lt(&zero) {
        (normal.neg(), true)
    } else {
        (normal, false)
    }
}

impl Intersection {
    /// A crossing of a shape that is no triangle.
    pub fn new(object: Surface, t: Scalar) -> (x: Intersection)
        ensures
            x == (Intersection { object, t, u: Scalar { bits: 0 }, v: Scalar { bits: 0 } }),
    {
        Intersection { object, t, u: Scalar::zero(), v: Scalar::zero() }
    }

    /// A crossing of a triangle at the barycentric weights `u` and `v`.
    pub fn from_uv(object: Surface, t: Scalar, u: Scalar, v: Scalar) -> (x: Intersection)
        ensures
            x == (Intersection { object, t, u, v }),
    {
        Intersection { object, t, u, v }
    }

    /// Whether `other` is this crossing: of the same shape, at the same
    /// distance.
    pub open spec fn is_crossing(self, other: Intersection) -> bool {
        self.object.id == other.object.id && self.t.same(other.t)
    }

    /// Puts the crossings in ascending order of distance. Crossings at one
    /// distance keep their order.
    pub fn sort_by_t(inter: &mut Vec<Intersection>)
        requires
            all_numbers(old(inter)@),
        ensures
            final(inter)@ == in_order(old(inter)@),
            ascending(final(inter)@),
            final(inter)@.to_multiset() == old(inter)@.to_multiset(),
            final(inter)@.len() == old(inter)@.len(),
            all_numbers(final(inter)@),
    {
        let ghost before = inter@;
        let mut sorted: Vec<Intersection> = Vec::new();
        let total: usize = inter.len();
        let mut i: usize = 0;
        while i < total
            invariant
                i <= total,
                total == before.len(),
                inter@ == before,
                all_numbers(before),
                sorted@.len() == i,
                sorted@ == in_order(before.take(i as int)),
                all_numbers(sorted@),
            decreases total - i,
        {
            let x: Intersection = inter[i];
            let key: i64 = x.t.key();
            let ghost further = |y: Intersection| y.t.ordinal() > x.t.ordinal();
            let mut at: usize = 0;
            while at < sorted.len() && sorted[at].t.key() <= key
                invariant
                    at <= sorted@.len(),
                    key == x.t.ordinal(),
                    forall|j: int| 0 <= j < at ==> (#[trigger] sorted@[j]).t.ordinal() <= key,
                decreases sorted@.len() - at,
            {
                at += 1;
            }
            let ghost prior = sorted@;
            sorted.insert(at, x);
            proof {
                lemma_first_index(prior, further, at as int);
                assert(before.take(i + 1).drop_last() =~= before.take(i as int));
                assert(before.take(i + 1).last() == x);
                assert forall|a: int| 0 <= a < sorted@.len() implies !(#[trigger] sorted@[a]).t.nan() by {
                    if a < at {
                        assert(sorted@[a] == prior[a]);
                    } else if a > at {
                        assert(sorted@[a] == prior[a - 1]);
                    }
                }
            }
            i += 1;
        }
        proof {
            assert(before.take(total as int) =~= before);
            lemma_in_order_sorts(before);
        }
        *inter = sorted;
    }

    /// The visible crossing: the nearest of those in front of the ray's
    /// origin, if there is one. The crossings at or behind the origin are
    /// dropped from `inter`, and the others are left in ascending order.
    pub fn hit(inter: &mut Vec<Intersection>) -> (nearest: Option<Intersection>)
        ensures
            final(inter)@ == in_order(in_front(old(inter)@)),
            ascending(final(inter)@),
            final(inter)@.to_multiset() == in_front(old(inter)@).to_multiset(),
            nearest == (if final(inter)@.len() > 0 {
                Some(final(inter)@[0])
            } else {
                None
            }),
            nearest is None <==> forall|i: int|
                0 <= i < old(inter)@.len() ==> !(#[trigger] old(inter)@[i]).t.positive(),
            nearest matches Some(h) ==> h.t.positive() && old(inter)@.contains(h) && forall|i: int|
                0 <= i < old(inter)@.len() && (#[trigger] old(inter)@[i]).t.positive()
                    ==> h.t.ordinal() <= old(inter)@[i].t.ordinal(),
    {
        let ghost before = inter@;
        let ghost pred = |x: Intersection| x.t.positive();
        let mut kept: Vec<Intersection> = Vec::new();
        let total: usize = inter.len();
        let mut i: usize = 0;
        while i < total
            invariant
                i <= total,
                total == before.len(),
                inter@ == before,
                pred == (|x: Intersection| x.t.positive()),
                kept@ == before.take(i as int).filter(pred),
                all_numbers(kept@),
            decreases total - i,
        {
            let x: Intersection = inter[i];
            proof {
                before.lemma_take_succ_push(i as int);
                before.take(i as int).lemma_filter_push(x, pred);
            }
            if x.t.is_positive() {
                kept.push(x);
            }
            i += 1;
        }
        proof {
            assert(before.take(total as int) =~= before);
        }
        Intersection::sort_by_t(&mut kept);
        proof {
            lemma_first_is_nearest(before, kept@);
            if kept@.len() > 0 {
                assert(kept@[0].t.positive() && before.contains(kept@[0]));
            }
        }
        let nearest = if kept.len() > 0 {
            Some(kept[0])
        } else {
            None
        };
        *inter = kept;
        nearest
    }

    /// The media that meet at this crossing, which is one of the crossings
    /// `xs` of its ray, given in ascending order: the ray is followed from
    /// empty space through every crossing up to this one. Without crossings
    /// both media are empty space.
    pub fn prepare_computations(&self, xs: Option<&Vec<Intersection>>) -> (comp: Comp)
        ensures
            comp.t == self.t,
            comp.object == self.object,
            xs matches Some(all) ==> (comp.n1, comp.n2) == media(all@, *self),
            xs is None ==> comp.n1 == (Scalar { bits: ONE_BITS }) && comp.n2 == (Scalar {
                bits: ONE_BITS,
            }),
    {
        let mut n1: Scalar = Scalar::one();
        let mut n2: Scalar = Scalar::one();
        if let Some(all) = xs {
            let ghost pred = |x: Intersection| self.is_crossing(x);
            let mut inside: Vec<Surface> = Vec::new();
            let total: usize = all.len();
            let mut i: usize = 0;
            let mut found: bool = false;
            while i < total && !found
                invariant
                    i <= total,
                    total == all@.len(),
                    pred == (|x: Intersection| self.is_crossing(x)),
                    inside@ == containers(all@, i as int),
                    !found ==> forall|j: int| 0 <= j < i ==> !pred(#[trigger] all@[j]),
                    found ==> i >= 1 && pred(all@[i - 1]) && forall|j: int|
                        0 <= j < i - 1 ==> !pred(#[trigger] all@[j]),
                    i == 0 ==> n1.bits == ONE_BITS && n2.bits == ONE_BITS,
                    i > 0 ==> n1 == medium(containers(all@, i - 1)) && n2 == medium(
                        containers(all@, i as int),
                    ),
                decreases total - i,
            {
                let inter: Intersection = all[i];
                n1 = refractive_index(&inside);
                cross_boundary(&mut inside, inter.object);
                n2 = refractive_index(&inside);
                if self.object.id == inter.object.id && self.t.same_value(&inter.t) {
                    found = true;
                }
                i += 1;
            }
            proof {
                if found {
                    lemma_first_index(all@, pred, i - 1);
                } else {
                    lemma_first_index(all@, pred, total as int);
                }
                assert(way_to(all@, *self) == i);
            }
        }
        Comp { t: self.t, object: self.object, n1, n2 }
    }

    /// Whether this crossing lies nearer than `distance`.
    pub fn nearer_than(&self, distance: &Scalar) -> (nearer: bool)
        ensures
            nearer == self.t.less(*distance),
    {
        self.t.lt(distance)
    }
}

} // verus!
