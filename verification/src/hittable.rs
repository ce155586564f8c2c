//! The closed sum of everything a ray can hit, the hit record, and the
//! composite shapes: lists and the two coordinate-transform wrappers.
//!
//! A hit test either returns a fully populated record or reports a miss;
//! no partial state is ever observable.  Materials live in an arena owned
//! by the scene, and records refer to them by index; `wf_hittable` says
//! every index in a tree is below the arena's length.

use vstd::prelude::*;

verus! {

use std::sync::Arc;
use crate::aabb::Aabb;
use crate::bvh::BvhNode;
use crate::fixed::{Fx, fx_add, fx_sub, fx_neg, fx_mul};
use crate::medium::Constant;
use crate::objects::{Sphere, MovingSphere, XY, XZ, YZ, Cube, sphere_hit_t};
use crate::ray::Ray;
use crate::rng::Prng;
use crate::vec3::{Point, Vec3, dot3, is_v3, to_fx};

/// Relies on Arc::clone: a fresh handle to the same shared value.
#[verifier::external_body]
pub(crate) fn share<T>(v: &Arc<T>) -> (res: Arc<T>)
    ensures
        res == *v,
{
    Arc::clone(v)
}

/// The result of a successful intersection.
pub struct HitRecord {
    pub p: Point,
    pub normal: Vec3,
    pub mat: usize,
    pub t: Fx,
    pub u: Fx,
    pub v: Fx,
    pub front_face: bool,
}

impl HitRecord {
    /// Orient the stored normal against the ray: remember which side the
    /// ray came from and keep the normal facing it.
    pub fn set_face_normal(&mut self, r: &Ray, outward_normal: &Vec3)
        ensures
            final(self).front_face == (dot3(r.dir, *outward_normal) < 0),
            final(self).front_face ==> final(self).normal == *outward_normal,
            !final(self).front_face ==> is_v3(
                final(self).normal,
                fx_neg(outward_normal.x@),
                fx_neg(outward_normal.y@),
                fx_neg(outward_normal.z@),
            ),
            final(self).p == old(self).p && final(self).mat == old(self).mat && final(self).t
                == old(self).t && final(self).u == old(self).u && final(self).v == old(self).v,
    {
        let (ff, normal) = crate::objects::face_normal(r, outward_normal);
        self.front_face = ff;
        self.normal = normal;
    }
}

/// Everything a ray can hit, as one closed sum.
pub enum Hittable {
    Sphere(Sphere),
    MovingSphere(MovingSphere),
    RectXY(XY),
    RectXZ(XZ),
    RectYZ(YZ),
    Cube(Cube),
    Translate(Translate),
    RotateY(RotateY),
    ConstantMedium(Constant),
    List(HittableList),
    Bvh(BvhNode),
}

pub struct HittableList {
    pub objects: Vec<Arc<Hittable>>,
}

pub struct Translate {
    pub child: Box<Hittable>,
    pub offset: Vec3,
}

pub struct RotateY {
    pub child: Box<Hittable>,
    pub sin_theta: Fx,
    pub cos_theta: Fx,
    pub bbox: Option<Aabb>,
}

/// Every material index in the tree is below `n`, and a participating
/// medium's inverted density is not positive.
pub open spec fn wf_hittable(h: Hittable, n: int) -> bool
    decreases h,
{
    match h {
        Hittable::Sphere(s) => (s.mat as int) < n,
        Hittable::MovingSphere(s) => (s.mat as int) < n,
        Hittable::RectXY(q) => (q.mp as int) < n,
        Hittable::RectXZ(q) => (q.mp as int) < n,
        Hittable::RectYZ(q) => (q.mp as int) < n,
        Hittable::Cube(c) => wf_olist(c.sides.objects@, n),
        Hittable::Translate(t) => wf_hittable(*t.child, n),
        Hittable::RotateY(ry) => wf_hittable(*ry.child, n),
        Hittable::ConstantMedium(m) => (m.phase_function as int) < n && m.neg_inv_density@ <= 0
            && wf_hittable(*m.boundary, n),
        Hittable::List(l) => wf_olist(l.objects@, n),
        Hittable::Bvh(b) => wf_hittable(*b.left, n) && wf_hittable(*b.right, n),
    }
}

/// Every element of a run of shared shapes is well formed for `n`.
pub open spec fn wf_olist(s: Seq<Arc<Hittable>>, n: int) -> bool
    decreases s,
{
    forall|j: int| 0 <= j < s.len() ==> wf_hittable(*#[trigger] s[j], n)
}

/// The box a shape reports over a time interval, as a value: every arm of
/// the dispatch is a pure function of the shape and the two times.
pub open spec fn bbox_spec(h: Hittable, t0: int, t1: int) -> Option<Aabb>
    decreases h, 0int,
{
    match h {
        Hittable::Sphere(s) => Option::Some(crate::objects::sphere_box(s)),
        Hittable::MovingSphere(s) => Option::Some(crate::objects::msph_box(s, t0, t1)),
        Hittable::RectXY(q) => Option::Some(crate::objects::xy_box(q)),
        Hittable::RectXZ(q) => Option::Some(crate::objects::xz_box(q)),
        Hittable::RectYZ(q) => Option::Some(crate::objects::yz_box(q)),
        Hittable::Cube(c) => Option::Some(Aabb { minimum: c.box_min, maximum: c.box_max }),
        Hittable::Translate(t) => match bbox_spec(*t.child, t0, t1) {
            Option::Some(b) => Option::Some(
                Aabb {
                    minimum: crate::vec3::v3_add(b.minimum, t.offset),
                    maximum: crate::vec3::v3_add(b.maximum, t.offset),
                },
            ),
            Option::None => Option::None,
        },
        Hittable::RotateY(ry) => ry.bbox,
        Hittable::ConstantMedium(m) => bbox_spec(*m.boundary, t0, t1),
        Hittable::List(l) => olist_box(l.objects@, t0, t1),
        Hittable::Bvh(b) => Option::Some(b.ibox),
    }
}

/// The left fold of the box union over a run of shapes, as the scan of a
/// list computes it: nothing for an empty run or one with an unbounded
/// member, the union of all members' boxes otherwise.
pub open spec fn olist_box(s: Seq<Arc<Hittable>>, t0: int, t1: int) -> Option<Aabb>
    decreases s, 1int, s.len(),
{
    if s.len() == 0 {
        Option::<Aabb>::None
    } else if s.len() == 1 {
        bbox_spec(*s[0], t0, t1)
    } else {
        match (olist_box(s.drop_last(), t0, t1), bbox_spec(*s.last(), t0, t1)) {
            (Option::Some(a), Option::Some(b)) => Option::Some(crate::aabb::box_union(a, b)),
            _ => Option::<Aabb>::None,
        }
    }
}

/// Whether the shape can always report a bounding box.
pub open spec fn bounded_tree(h: Hittable) -> bool
    decreases h,
{
    match h {
        Hittable::Sphere(_) => true,
        Hittable::MovingSphere(_) => true,
        Hittable::RectXY(_) => true,
        Hittable::RectXZ(_) => true,
        Hittable::RectYZ(_) => true,
        Hittable::Cube(_) => true,
        Hittable::Translate(t) => bounded_tree(*t.child),
        Hittable::RotateY(ry) => ry.bbox.is_some(),
        Hittable::ConstantMedium(m) => bounded_tree(*m.boundary),
        Hittable::List(l) => l.objects@.len() > 0 && bounded_olist(l.objects@),
        Hittable::Bvh(_) => true,
    }
}

/// Every element of a run of shared shapes is bounded.
pub open spec fn bounded_olist(s: Seq<Arc<Hittable>>) -> bool
    decreases s,
{
    forall|j: int| 0 <= j < s.len() ==> bounded_tree(*#[trigger] s[j])
}


/// Whether a shape's intersection outcome is a pure function of the
/// shape, the ray and the window: the leaves with exact hit
/// specifications.
pub open spec fn det_leaf(h: Hittable) -> bool {
    ||| h matches Hittable::Sphere(_)
    ||| h matches Hittable::MovingSphere(_)
    ||| h matches Hittable::RectXY(_)
    ||| h matches Hittable::RectXZ(_)
    ||| h matches Hittable::RectYZ(_)
}

/// Where a deterministic leaf is hit within the window, as a value.
pub open spec fn leaf_hit_t(h: Hittable, r: Ray, tmin: int, tmax: int) -> Option<int> {
    match h {
        Hittable::Sphere(s) => sphere_hit_t(s, r, tmin, tmax),
        Hittable::MovingSphere(s) => sphere_hit_t(
            crate::objects::msph_frozen(s, r.tm@),
            r,
            tmin,
            tmax,
        ),
        Hittable::RectXY(q) => crate::objects::rect_hit_t(
            q.k@,
            q.x.0@,
            q.x.1@,
            q.y.0@,
            q.y.1@,
            r.orig.z@,
            r.dir.z@,
            r.orig.x@,
            r.dir.x@,
            r.orig.y@,
            r.dir.y@,
            tmin,
            tmax,
        ),
        Hittable::RectXZ(q) => crate::objects::rect_hit_t(
            q.k@,
            q.x.0@,
            q.x.1@,
            q.z.0@,
            q.z.1@,
            r.orig.y@,
            r.dir.y@,
            r.orig.x@,
            r.dir.x@,
            r.orig.z@,
            r.dir.z@,
            tmin,
            tmax,
        ),
        Hittable::RectYZ(q) => crate::objects::rect_hit_t(
            q.k@,
            q.y.0@,
            q.y.1@,
            q.z.0@,
            q.z.1@,
            r.orig.x@,
            r.dir.x@,
            r.orig.y@,
            r.dir.y@,
            r.orig.z@,
            r.dir.z@,
            tmin,
            tmax,
        ),
        _ => Option::<int>::None,
    }
}

/// Narrowing and widening act on a deterministic leaf's hit the way they
/// act on a sphere's: the hit parameter does not depend on the window,
/// only its containment does.
pub proof fn lemma_leaf_window_faithful(h: &Hittable, r: Ray, tmin: int, tmax: int, u: int)
    requires
        u <= tmax,
    ensures
        leaf_hit_t(*h, r, tmin, tmax) matches Option::Some(t) ==> (t <= u ==> leaf_hit_t(
            *h,
            r,
            tmin,
            u,
        ) == Option::Some(t)) && (u < t ==> leaf_hit_t(*h, r, tmin, u) is None),
        leaf_hit_t(*h, r, tmin, tmax) is None ==> leaf_hit_t(*h, r, tmin, u) is None,
        leaf_hit_t(*h, r, tmin, u) matches Option::Some(t) ==> leaf_hit_t(*h, r, tmin, tmax)
            == Option::Some(t),
{
    match h {
        Hittable::Sphere(s) => {
            crate::objects::lemma_sphere_window_faithful(*s, r, tmin, tmax, u);
            if leaf_hit_t(*h, r, tmin, u).is_some() {
                let t = leaf_hit_t(*h, r, tmin, u).unwrap();
                crate::objects::lemma_sphere_window_widen(*s, r, tmin, u, tmax, t);
            }
        },
        Hittable::MovingSphere(s) => {
            let frozen = crate::objects::msph_frozen(*s, r.tm@);
            crate::objects::lemma_sphere_window_faithful(frozen, r, tmin, tmax, u);
            if leaf_hit_t(*h, r, tmin, u).is_some() {
                let t = leaf_hit_t(*h, r, tmin, u).unwrap();
                crate::objects::lemma_sphere_window_widen(frozen, r, tmin, u, tmax, t);
            }
        },
        Hittable::RectXY(q) => {
            crate::objects::lemma_rect_window_faithful(
                q.k@, q.x.0@, q.x.1@, q.y.0@, q.y.1@,
                r.orig.z@, r.dir.z@, r.orig.x@, r.dir.x@, r.orig.y@, r.dir.y@,
                tmin, tmax, u,
            );
        },
        Hittable::RectXZ(q) => {
            crate::objects::lemma_rect_window_faithful(
                q.k@, q.x.0@, q.x.1@, q.z.0@, q.z.1@,
                r.orig.y@, r.dir.y@, r.orig.x@, r.dir.x@, r.orig.z@, r.dir.z@,
                tmin, tmax, u,
            );
        },
        Hittable::RectYZ(q) => {
            crate::objects::lemma_rect_window_faithful(
                q.k@, q.y.0@, q.y.1@, q.z.0@, q.z.1@,
                r.orig.x@, r.dir.x@, r.orig.y@, r.dir.y@, r.orig.z@, r.dir.z@,
                tmin, tmax, u,
            );
        },
        _ => {},
    }
}

/// Whether every member of a run is a deterministic leaf.
pub open spec fn all_det_leaves(s: Seq<Arc<Hittable>>) -> bool {
    forall|j: int| 0 <= j < s.len() ==> det_leaf(*#[trigger] s[j])
}

/// The member at an index of a run, as a value.
pub open spec fn nth_leaf(s: Seq<Arc<Hittable>>, j: int) -> Hittable {
    *s[j]
}

/// The exhaustive reference traversal over a run of deterministic leaves:
/// test every member front to back, narrowing the upper bound to each hit
/// found, and keep the last hit standing — the closest one.
pub open spec fn scan_leaves(s: Seq<Arc<Hittable>>, r: Ray, tmin: int, cur_max: int) -> Option<
    int,
>
    decreases s.len(),
{
    if s.len() == 0 {
        Option::<int>::None
    } else {
        match leaf_hit_t(*s[0], r, tmin, cur_max) {
            Option::Some(t) => match scan_leaves(s.drop_first(), r, tmin, t) {
                Option::Some(t2) => Option::Some(t2),
                Option::None => Option::Some(t),
            },
            Option::None => scan_leaves(s.drop_first(), r, tmin, cur_max),
        }
    }
}

/// Whether an intersection outcome reports exactly the scan's parameter.
pub open spec fn agrees_with_scan(
    s: Seq<Arc<Hittable>>,
    r: Ray,
    tmin: int,
    tmax: int,
    res: Option<HitRecord>,
) -> bool {
    match scan_leaves(s, r, tmin, tmax) {
        Option::Some(t) => res.is_some() && res.unwrap().t@ == t,
        Option::None => res.is_none(),
    }
}

/// A partial outcome followed by the scan of the remainder.
pub open spec fn scan_then(res: Option<HitRecord>, rest: Option<int>) -> Option<int> {
    match rest {
        Option::Some(t) => Option::Some(t),
        Option::None => if res.is_some() {
            Option::Some(res.unwrap().t@)
        } else {
            Option::<int>::None
        },
    }
}


/// The ray a translation hands its child: the origin shifted back by the
/// offset.
pub open spec fn moved_ray(r: Ray, offset: Vec3) -> Ray {
    Ray {
        orig: Vec3 {
            x: to_fx(fx_sub(r.orig.x@, offset.x@)),
            y: to_fx(fx_sub(r.orig.y@, offset.y@)),
            z: to_fx(fx_sub(r.orig.z@, offset.z@)),
        },
        dir: r.dir,
        tm: r.tm,
    }
}

/// A vector rotated from world to object coordinates about the y axis, as
/// a value.
pub open spec fn rot_obj_spec(v: Vec3, s: int, c: int) -> Vec3 {
    Vec3 {
        x: to_fx(fx_sub(fx_mul(c, v.x@), fx_mul(s, v.z@))),
        y: to_fx(v.y@),
        z: to_fx(fx_add(fx_mul(s, v.x@), fx_mul(c, v.z@))),
    }
}

/// The ray a y-rotation hands its child: origin and direction rotated into
/// object coordinates.
pub open spec fn rotated_ray(r: Ray, s: int, c: int) -> Ray {
    Ray { orig: rot_obj_spec(r.orig, s, c), dir: rot_obj_spec(r.dir, s, c), tm: r.tm }
}

/// A vector rotated from object back to world coordinates about the y
/// axis, as a value.
pub open spec fn rot_world_spec(v: Vec3, s: int, c: int) -> Vec3 {
    Vec3 {
        x: to_fx(fx_add(fx_mul(c, v.x@), fx_mul(s, v.z@))),
        y: to_fx(v.y@),
        z: to_fx(fx_add(fx_neg(fx_mul(s, v.x@)), fx_mul(c, v.z@))),
    }
}

/// A record re-oriented against a ray: the facing flag and the normal
/// that orienting the given outward normal stores; every other field is
/// carried over.
pub open spec fn orient_rec(rec: HitRecord, r: Ray, outward: Vec3) -> HitRecord {
    let ff = dot3(r.dir, outward) < 0;
    HitRecord {
        front_face: ff,
        normal: if ff {
            outward
        } else {
            crate::vec3::v3_neg(outward)
        },
        ..rec
    }
}

/// The record a translation hands back for a child record: the hit point
/// shifted forward by the offset, the normal re-oriented against the
/// moved ray; parameter, surface coordinates and material carried over.
pub open spec fn translate_rec(crec: HitRecord, offset: Vec3, r: Ray) -> HitRecord {
    orient_rec(
        HitRecord { p: crate::vec3::v3_add(crec.p, offset), ..crec },
        moved_ray(r, offset),
        crec.normal,
    )
}

/// The record a y-rotation hands back for a child record: hit point and
/// normal rotated back to world coordinates, the normal re-oriented
/// against the rotated ray; parameter, surface coordinates and material
/// carried over.
pub open spec fn rotate_rec(crec: HitRecord, s: int, c: int, r: Ray) -> HitRecord {
    orient_rec(
        HitRecord { p: rot_world_spec(crec.p, s, c), ..crec },
        rotated_ray(r, s, c),
        rot_world_spec(crec.normal, s, c),
    )
}

/// A tree of bounding-volume nodes and coordinate transforms over
/// deterministic leaves: on such a tree the traversal's outcome is pinned
/// exactly.
pub open spec fn det_tree(h: Hittable) -> bool
    decreases h, 0int,
{
    match h {
        Hittable::Bvh(b) => det_tree(*b.left) && det_tree(*b.right),
        Hittable::Translate(tr) => det_tree(*tr.child),
        Hittable::RotateY(ry) => det_tree(*ry.child),
        Hittable::Cube(c) => all_det_trees(c.sides.objects@),
        Hittable::List(l) => all_det_trees(l.objects@),
        _ => det_leaf(h),
    }
}

/// Every member of a run is a deterministic tree.
pub open spec fn all_det_trees(s: Seq<Arc<Hittable>>) -> bool
    decreases s, 1int,
{
    forall|j: int| 0 <= j < s.len() ==> det_tree(*#[trigger] s[j])
}

/// Some leaf of the tree is hit at exactly parameter `t` within the
/// window, with the ray conjugated through each coordinate transform on
/// the way down.
pub open spec fn some_leaf_hits_at(h: Hittable, r: Ray, tmin: int, tmax: int, t: int) -> bool
    decreases h, 0int,
{
    match h {
        Hittable::Bvh(b) => some_leaf_hits_at(*b.left, r, tmin, tmax, t) || some_leaf_hits_at(
            *b.right,
            r,
            tmin,
            tmax,
            t,
        ),
        Hittable::Translate(tr) => some_leaf_hits_at(
            *tr.child,
            moved_ray(r, tr.offset),
            tmin,
            tmax,
            t,
        ),
        Hittable::RotateY(ry) => some_leaf_hits_at(
            *ry.child,
            rotated_ray(r, ry.sin_theta@, ry.cos_theta@),
            tmin,
            tmax,
            t,
        ),
        Hittable::Cube(c) => some_member_hits(c.sides.objects@, r, tmin, tmax, t),
        Hittable::List(l) => some_member_hits(l.objects@, r, tmin, tmax, t),
        _ => det_leaf(h) && leaf_hit_t(h, r, tmin, tmax) == Option::<int>::Some(t),
    }
}

/// The member at one index of the run has a leaf hit at exactly parameter
/// `t` within the window.
pub open spec fn leaf_hit_of(
    s: Seq<Arc<Hittable>>,
    j: int,
    r: Ray,
    tmin: int,
    tmax: int,
    t: int,
) -> bool {
    some_leaf_hits_at(*s[j], r, tmin, tmax, t)
}

/// Some member of the run has a leaf hit at exactly parameter `t` within
/// the window.
pub open spec fn some_member_hits(
    s: Seq<Arc<Hittable>>,
    r: Ray,
    tmin: int,
    tmax: int,
    t: int,
) -> bool
    decreases s, 1int,
{
    exists|j: int| 0 <= j < s.len() && some_leaf_hits_at(*#[trigger] s[j], r, tmin, tmax, t)
}

/// Widening the window preserves a leaf hit at its parameter, through the
/// whole tree.
pub proof fn lemma_leaf_hit_widen(h: &Hittable, r: Ray, tmin: int, u: int, tmax: int, t: int)
    requires
        u <= tmax,
    ensures
        some_leaf_hits_at(*h, r, tmin, u, t) ==> some_leaf_hits_at(*h, r, tmin, tmax, t),
    decreases *h, 0int,
{
    match h {
        Hittable::Bvh(b) => {
            lemma_leaf_hit_widen(&b.left, r, tmin, u, tmax, t);
            lemma_leaf_hit_widen(&b.right, r, tmin, u, tmax, t);
        },
        Hittable::Translate(tr) => {
            lemma_leaf_hit_widen(&tr.child, moved_ray(r, tr.offset), tmin, u, tmax, t);
        },
        Hittable::RotateY(ry) => {
            lemma_leaf_hit_widen(
                &ry.child,
                rotated_ray(r, ry.sin_theta@, ry.cos_theta@),
                tmin,
                u,
                tmax,
                t,
            );
        },
        Hittable::Cube(c) => {
            lemma_olist_hit_widen(c.sides.objects@, r, tmin, u, tmax, t);
        },
        Hittable::List(l) => {
            lemma_olist_hit_widen(l.objects@, r, tmin, u, tmax, t);
        },
        _ => {
            lemma_leaf_window_faithful(h, r, tmin, tmax, u);
        },
    }
}

/// Widening the window preserves a member's leaf hit, through a run.
proof fn lemma_olist_hit_widen(s: Seq<Arc<Hittable>>, r: Ray, tmin: int, u: int, tmax: int, t: int)
    requires
        u <= tmax,
    ensures
        some_member_hits(s, r, tmin, u, t) ==> some_member_hits(s, r, tmin, tmax, t),
    decreases s, 1int,
{
    if some_member_hits(s, r, tmin, u, t) {
        let j = choose|j: int|
            0 <= j < s.len() && some_leaf_hits_at(*#[trigger] s[j], r, tmin, u, t);
        let hj = nth_leaf(s, j);
        lemma_leaf_hit_widen(&hj, r, tmin, u, tmax, t);
        assert(some_leaf_hits_at(*s[j], r, tmin, tmax, t));
    }
}


/// No member of the run is itself an inner tree node.
pub open spec fn no_bvh_members(s: Seq<Arc<Hittable>>) -> bool {
    forall|j: int| 0 <= j < s.len() ==> !((*#[trigger] s[j]) matches Hittable::Bvh(_))
}

/// The shapes a built tree holds: an inner node's members are its
/// children's members, anything else is a member by itself.
pub open spec fn member_set(h: Hittable) -> Set<Hittable>
    decreases h,
{
    match h {
        Hittable::Bvh(b) => member_set(*b.left).union(member_set(*b.right)),
        _ => Set::empty().insert(h),
    }
}

/// The shapes a run of shared handles refers to.
pub open spec fn olist_set(s: Seq<Arc<Hittable>>) -> Set<Hittable> {
    Set::new(|h: Hittable| exists|j: int| 0 <= j < s.len() && *#[trigger] s[j] == h)
}



/// What the exhaustive scan reports is a genuine member hit: its
/// parameter is some member leaf's exact hit parameter within the full
/// window.
pub proof fn lemma_scan_reports_member_hit(
    s: Seq<Arc<Hittable>>,
    r: Ray,
    tmin: int,
    tmax: int,
    t: int,
)
    requires
        all_det_leaves(s),
        scan_leaves(s, r, tmin, tmax) == Option::<int>::Some(t),
    ensures
        exists|j: int|
            0 <= j < s.len() && leaf_hit_t(#[trigger] nth_leaf(s, j), r, tmin, tmax)
                == Option::<int>::Some(t),
    decreases s.len(), 0int,
{
    let rest = s.drop_first();
    assert forall|j: int| 0 <= j < rest.len() implies det_leaf(*#[trigger] rest[j]) by {
        assert(rest[j] == s[j + 1]);
    }
    let ghost head = leaf_hit_t(nth_leaf(s, 0), r, tmin, tmax);
    match head {
        Option::Some(th) => {
            let ghost rest_scan = scan_leaves(rest, r, tmin, th);
            match rest_scan {
                Option::Some(t2) => {
                    lemma_scan_narrow_member(rest, r, tmin, th, tmax, t2);
                    assert(t == t2);
                    let j = choose|j: int|
                        0 <= j < rest.len() && leaf_hit_t(
                            #[trigger] nth_leaf(rest, j),
                            r,
                            tmin,
                            tmax,
                        ) == Option::<int>::Some(t2);
                    assert(s[j + 1] == rest[j]);
                    assert(leaf_hit_t(nth_leaf(s, j + 1), r, tmin, tmax)
                        == Option::<int>::Some(t));
                },
                Option::None => {
                    assert(t == th);
                    assert(leaf_hit_t(nth_leaf(s, 0), r, tmin, tmax) == Option::<int>::Some(t));
                },
            }
        },
        Option::None => {
            lemma_scan_reports_member_hit(rest, r, tmin, tmax, t);
            let j = choose|j: int|
                0 <= j < rest.len() && leaf_hit_t(#[trigger] nth_leaf(rest, j), r, tmin, tmax)
                    == Option::<int>::Some(t);
            assert(s[j + 1] == rest[j]);
            assert(leaf_hit_t(nth_leaf(s, j + 1), r, tmin, tmax) == Option::<int>::Some(t));
        },
    }
}

/// A scan over a narrowed window still reports a member hit of the wide
/// window, at the same parameter.
proof fn lemma_scan_narrow_member(
    s: Seq<Arc<Hittable>>,
    r: Ray,
    tmin: int,
    u: int,
    tmax: int,
    t: int,
)
    requires
        all_det_leaves(s),
        u <= tmax,
        scan_leaves(s, r, tmin, u) == Option::<int>::Some(t),
    ensures
        exists|j: int|
            0 <= j < s.len() && leaf_hit_t(#[trigger] nth_leaf(s, j), r, tmin, tmax)
                == Option::<int>::Some(t),
    decreases s.len(), 1int,
{
    lemma_scan_reports_member_hit(s, r, tmin, u, t);
    let j = choose|j: int|
        0 <= j < s.len() && leaf_hit_t(#[trigger] nth_leaf(s, j), r, tmin, u)
            == Option::<int>::Some(t);
    let hj = nth_leaf(s, j);
    lemma_leaf_window_faithful(&hj, r, tmin, tmax, u);
}

/// The premise pruning rests on: at every inner node and every narrowing
/// of the window, a failed slab test really means no member sphere is hit
/// inside that window.  Exact real arithmetic would make this a theorem of
/// the builder; with fixed-point rounding it is stated as the explicit
/// hypothesis of the equivalence.
pub open spec fn boxes_cover(h: Hittable, r: Ray, tmin: int, tmax: int) -> bool
    decreases h, 0int,
{
    match h {
        Hittable::Bvh(b) => {
            &&& (forall|u: int, t: int|
                u <= tmax && !crate::aabb::aabb_hit_spec(b.ibox, r, tmin, u) ==> !(
                #[trigger] some_leaf_hits_at(Hittable::Bvh(b), r, tmin, u, t)))
            &&& boxes_cover(*b.left, r, tmin, tmax)
            &&& boxes_cover(*b.right, r, tmin, tmax)
        },
        Hittable::Translate(tr) => boxes_cover(*tr.child, moved_ray(r, tr.offset), tmin, tmax),
        Hittable::RotateY(ry) => boxes_cover(
            *ry.child,
            rotated_ray(r, ry.sin_theta@, ry.cos_theta@),
            tmin,
            tmax,
        ),
        Hittable::Cube(c) => covers_olist(c.sides.objects@, r, tmin, tmax),
        Hittable::List(l) => covers_olist(l.objects@, r, tmin, tmax),
        _ => true,
    }
}

/// Every member of a run satisfies the cover hypothesis.
pub open spec fn covers_olist(s: Seq<Arc<Hittable>>, r: Ray, tmin: int, tmax: int) -> bool
    decreases s, 1int,
{
    forall|j: int| 0 <= j < s.len() ==> boxes_cover(*#[trigger] s[j], r, tmin, tmax)
}

/// The cover hypothesis carries over to any narrower window.
pub proof fn lemma_boxes_cover_narrow(h: &Hittable, r: Ray, tmin: int, u: int, tmax: int)
    requires
        boxes_cover(*h, r, tmin, tmax),
        u <= tmax,
    ensures
        boxes_cover(*h, r, tmin, u),
    decreases *h, 0int,
{
    match h {
        Hittable::Bvh(b) => {
            lemma_boxes_cover_narrow(&b.left, r, tmin, u, tmax);
            lemma_boxes_cover_narrow(&b.right, r, tmin, u, tmax);
        },
        Hittable::Translate(tr) => {
            lemma_boxes_cover_narrow(&tr.child, moved_ray(r, tr.offset), tmin, u, tmax);
        },
        Hittable::RotateY(ry) => {
            lemma_boxes_cover_narrow(
                &ry.child,
                rotated_ray(r, ry.sin_theta@, ry.cos_theta@),
                tmin,
                u,
                tmax,
            );
        },
        Hittable::Cube(c) => {
            lemma_covers_olist_narrow(c.sides.objects@, r, tmin, u, tmax);
        },
        Hittable::List(l) => {
            lemma_covers_olist_narrow(l.objects@, r, tmin, u, tmax);
        },
        _ => {},
    }
}

/// The cover hypothesis of a run carries over to any narrower window.
proof fn lemma_covers_olist_narrow(s: Seq<Arc<Hittable>>, r: Ray, tmin: int, u: int, tmax: int)
    requires
        covers_olist(s, r, tmin, tmax),
        u <= tmax,
    ensures
        covers_olist(s, r, tmin, u),
    decreases s, 1int,
{
    assert forall|j: int| 0 <= j < s.len() implies boxes_cover(*#[trigger] s[j], r, tmin, u) by {
        let hj = nth_leaf(s, j);
        assert(boxes_cover(hj, r, tmin, tmax));
        lemma_boxes_cover_narrow(&hj, r, tmin, u, tmax);
    }
}

/// Narrowing the window past a leaf hit keeps that hit, through the whole
/// tree.
pub proof fn lemma_leaf_hit_narrow(h: &Hittable, r: Ray, tmin: int, u: int, tmax: int, t: int)
    requires
        u <= tmax,
        t <= u,
    ensures
        some_leaf_hits_at(*h, r, tmin, tmax, t) ==> some_leaf_hits_at(*h, r, tmin, u, t),
    decreases *h, 0int,
{
    match h {
        Hittable::Bvh(b) => {
            lemma_leaf_hit_narrow(&b.left, r, tmin, u, tmax, t);
            lemma_leaf_hit_narrow(&b.right, r, tmin, u, tmax, t);
        },
        Hittable::Translate(tr) => {
            lemma_leaf_hit_narrow(&tr.child, moved_ray(r, tr.offset), tmin, u, tmax, t);
        },
        Hittable::RotateY(ry) => {
            lemma_leaf_hit_narrow(
                &ry.child,
                rotated_ray(r, ry.sin_theta@, ry.cos_theta@),
                tmin,
                u,
                tmax,
                t,
            );
        },
        Hittable::Cube(c) => {
            lemma_olist_hit_narrow(c.sides.objects@, r, tmin, u, tmax, t);
        },
        Hittable::List(l) => {
            lemma_olist_hit_narrow(l.objects@, r, tmin, u, tmax, t);
        },
        _ => {
            lemma_leaf_window_faithful(h, r, tmin, tmax, u);
        },
    }
}

/// Narrowing the window past a member's leaf hit keeps it, through a run.
proof fn lemma_olist_hit_narrow(s: Seq<Arc<Hittable>>, r: Ray, tmin: int, u: int, tmax: int, t: int)
    requires
        u <= tmax,
        t <= u,
    ensures
        some_member_hits(s, r, tmin, tmax, t) ==> some_member_hits(s, r, tmin, u, t),
    decreases s, 1int,
{
    if some_member_hits(s, r, tmin, tmax, t) {
        let j = choose|j: int|
            0 <= j < s.len() && some_leaf_hits_at(*#[trigger] s[j], r, tmin, tmax, t);
        let hj = nth_leaf(s, j);
        lemma_leaf_hit_narrow(&hj, r, tmin, u, tmax, t);
        assert(some_leaf_hits_at(*s[j], r, tmin, u, t));
    }
}

/// The combination step of the tree traversal at one inner node, over the
/// children's outcome summaries: the combined outcome is a genuine leaf
/// hit, complete under the cover hypothesis, and the closest leaf hit of
/// the node.
proof fn lemma_bvh_combine(
    node: &BvhNode,
    r: Ray,
    tmin: int,
    using: int,
    tmax: int,
    lt: Option<int>,
    rt: Option<int>,
)
    requires
        boxes_cover(Hittable::Bvh(*node), r, tmin, tmax),
        lt is Some ==> using == lt.unwrap() && tmin <= lt.unwrap() <= tmax,
        lt is None ==> using == tmax,
        lt is Some ==> some_leaf_hits_at(*node.left, r, tmin, tmax, lt.unwrap()),
        (lt is None && boxes_cover(*node.left, r, tmin, tmax)) ==> forall|t: int|
            !some_leaf_hits_at(*node.left, r, tmin, tmax, t),
        (lt is Some && boxes_cover(*node.left, r, tmin, tmax)) ==> forall|t: int|
            #[trigger] some_leaf_hits_at(*node.left, r, tmin, tmax, t) ==> lt.unwrap() <= t,
        rt is Some ==> tmin <= rt.unwrap() <= using,
        rt is Some ==> some_leaf_hits_at(*node.right, r, tmin, using, rt.unwrap()),
        (rt is None && boxes_cover(*node.right, r, tmin, using)) ==> forall|t: int|
            !some_leaf_hits_at(*node.right, r, tmin, using, t),
        (rt is Some && boxes_cover(*node.right, r, tmin, using)) ==> forall|t: int|
            #[trigger] some_leaf_hits_at(*node.right, r, tmin, using, t) ==> rt.unwrap() <= t,
    ensures
        ({
            let out = if rt is Some {
                rt
            } else {
                lt
            };
            &&& (out is Some ==> some_leaf_hits_at(
                Hittable::Bvh(*node),
                r,
                tmin,
                tmax,
                out.unwrap(),
            ))
            &&& (out is None ==> forall|t: int|
                !some_leaf_hits_at(Hittable::Bvh(*node), r, tmin, tmax, t))
            &&& (out is Some ==> forall|t: int|
                #[trigger] some_leaf_hits_at(Hittable::Bvh(*node), r, tmin, tmax, t)
                    ==> out.unwrap() <= t)
        }),
{
    assert(boxes_cover(*node.left, r, tmin, tmax));
    assert(boxes_cover(*node.right, r, tmin, tmax));
    lemma_boxes_cover_narrow(&node.right, r, tmin, using, tmax);
    let out = if rt is Some {
        rt
    } else {
        lt
    };
    if out is Some {
        let ot = out.unwrap();
        if rt is Some {
            lemma_leaf_hit_widen(&node.right, r, tmin, using, tmax, rt.unwrap());
        }
        assert(some_leaf_hits_at(Hittable::Bvh(*node), r, tmin, tmax, ot));
        assert forall|t: int| #[trigger] some_leaf_hits_at(
            Hittable::Bvh(*node),
            r,
            tmin,
            tmax,
            t,
        ) implies ot <= t by {
            if some_leaf_hits_at(*node.left, r, tmin, tmax, t) {
                // The left traversal cannot have missed this hit.
                assert(lt is Some);
                assert(lt.unwrap() <= t);
                if rt is Some {
                    assert(ot <= using && using == lt.unwrap());
                }
            } else {
                assert(some_leaf_hits_at(*node.right, r, tmin, tmax, t));
                if rt is Some {
                    if t <= using {
                        lemma_leaf_hit_narrow(&node.right, r, tmin, using, tmax, t);
                        assert(ot <= t);
                    } else {
                        assert(ot <= using < t);
                    }
                } else {
                    // The right child reported a miss on the narrowed
                    // window, so no right leaf is hit in front of the left
                    // hit.
                    assert(lt is Some && ot == using);
                    if t < using {
                        lemma_leaf_hit_narrow(&node.right, r, tmin, using, tmax, t);
                        assert(false);
                    }
                }
            }
        }
    } else {
        assert forall|t: int| !some_leaf_hits_at(Hittable::Bvh(*node), r, tmin, tmax, t) by {
            assert(!some_leaf_hits_at(*node.left, r, tmin, tmax, t));
            assert(!some_leaf_hits_at(*node.right, r, tmin, tmax, t));
        }
    }
}

/// The closest leaf hit of a tree within a window, as a value: the least
/// parameter at which some leaf is hit, or nothing when no leaf is hit.
pub open spec fn closest_leaf_hit(h: Hittable, r: Ray, tmin: int, tmax: int) -> Option<int> {
    if exists|t: int| some_leaf_hits_at(h, r, tmin, tmax, t) {
        Option::Some(
            choose|t: int|
                some_leaf_hits_at(h, r, tmin, tmax, t) && forall|t2: int|
                    #[trigger] some_leaf_hits_at(h, r, tmin, tmax, t2) ==> t <= t2,
        )
    } else {
        Option::<int>::None
    }
}

/// A parameter that is a leaf hit and a lower bound of all leaf hits pins
/// the closest hit.
pub proof fn lemma_closest_is(h: &Hittable, r: Ray, tmin: int, tmax: int, w: int)
    requires
        some_leaf_hits_at(*h, r, tmin, tmax, w),
        forall|t: int| #[trigger] some_leaf_hits_at(*h, r, tmin, tmax, t) ==> w <= t,
    ensures
        closest_leaf_hit(*h, r, tmin, tmax) == Option::<int>::Some(w),
{
    assert(some_leaf_hits_at(*h, r, tmin, tmax, w) && forall|t2: int|
        #[trigger] some_leaf_hits_at(*h, r, tmin, tmax, t2) ==> w <= t2);
    let c = choose|t: int|
        some_leaf_hits_at(*h, r, tmin, tmax, t) && forall|t2: int|
            #[trigger] some_leaf_hits_at(*h, r, tmin, tmax, t2) ==> t <= t2;
    assert(w <= c && c <= w);
}

/// The two clauses every hit test honors: a reported hit lies inside the
/// queried window, and under a well-formed tree its material index is in
/// range.
pub open spec fn hit_ok(h: Hittable, res: Option<HitRecord>, tmin: int, tmax: int) -> bool {
    &&& res.is_some() ==> tmin <= res.unwrap().t@ <= tmax
    &&& forall|n: int|
        #[trigger] wf_hittable(h, n) && res.is_some() ==> (res.unwrap().mat as int) < n
}

impl Hittable {
    /// Intersect a ray with the shape inside the parameter window.
    #[verifier::rlimit(100)]
    pub fn hit(&self, r: &Ray, t_min: Fx, t_max: Fx, prng: &mut Prng) -> (res: Option<HitRecord>)
        ensures
            hit_ok(*self, res, t_min@, t_max@),
            det_leaf(*self) ==> res.is_some() == leaf_hit_t(
                *self,
                *r,
                t_min@,
                t_max@,
            ).is_some() && (res.is_some() ==> res.unwrap().t@ == leaf_hit_t(
                *self,
                *r,
                t_min@,
                t_max@,
            ).unwrap()),
            self matches Hittable::List(l) ==> (all_det_leaves(l.objects@) ==> agrees_with_scan(
                l.objects@,
                *r,
                t_min@,
                t_max@,
                res,
            )),
            det_tree(*self) && res.is_some() ==> some_leaf_hits_at(
                *self,
                *r,
                t_min@,
                t_max@,
                res.unwrap().t@,
            ),
            det_tree(*self) && boxes_cover(*self, *r, t_min@, t_max@) && res.is_none() ==> forall|
                t: int,
            | !some_leaf_hits_at(*self, *r, t_min@, t_max@, t),
            det_tree(*self) && boxes_cover(*self, *r, t_min@, t_max@) && res.is_some() ==> forall|
                t: int,
            |
                #[trigger] some_leaf_hits_at(*self, *r, t_min@, t_max@, t) ==> res.unwrap().t@
                    <= t,
            self matches Hittable::Translate(tr) ==> (res.is_some() ==> exists|crec: HitRecord|
                t_min@ <= crec.t@ <= t_max@ && res.unwrap() == #[trigger] translate_rec(
                    crec,
                    tr.offset,
                    *r,
                )),
            self matches Hittable::RotateY(ry) ==> (res.is_some() ==> exists|crec: HitRecord|
                t_min@ <= crec.t@ <= t_max@ && res.unwrap() == #[trigger] rotate_rec(
                    crec,
                    ry.sin_theta@,
                    ry.cos_theta@,
                    *r,
                )),
        decreases *self, 0int,
    {
        match self {
            Hittable::Sphere(s) => {
                let res = s.hit(r, t_min, t_max);
                proof {
                    lemma_leaf_mat(*self, res);
                    assert(res.is_some() == leaf_hit_t(*self, *r, t_min@, t_max@).is_some());
                    if res.is_some() {
                        assert(res.unwrap().t@ == leaf_hit_t(*self, *r, t_min@, t_max@).unwrap());
                        assert forall|t: int| #[trigger] some_leaf_hits_at(
                            *self,
                            *r,
                            t_min@,
                            t_max@,
                            t,
                        ) implies res.unwrap().t@ <= t by {}
                    } else {
                        assert forall|t: int| !some_leaf_hits_at(
                            *self,
                            *r,
                            t_min@,
                            t_max@,
                            t,
                        ) by {}
                    }
                }
                res
            },
            Hittable::MovingSphere(s) => {
                let res = s.hit(r, t_min, t_max);
                proof {
                    lemma_leaf_mat(*self, res);
                    assert(res.is_some() == leaf_hit_t(*self, *r, t_min@, t_max@).is_some());
                    if res.is_some() {
                        assert(res.unwrap().t@ == leaf_hit_t(*self, *r, t_min@, t_max@).unwrap());
                        assert forall|t: int| #[trigger] some_leaf_hits_at(
                            *self,
                            *r,
                            t_min@,
                            t_max@,
                            t,
                        ) implies res.unwrap().t@ <= t by {}
                    } else {
                        assert forall|t: int| !some_leaf_hits_at(
                            *self,
                            *r,
                            t_min@,
                            t_max@,
                            t,
                        ) by {}
                    }
                }
                res
            },
            Hittable::RectXY(q) => {
                let res = q.hit(r, t_min, t_max);
                proof {
                    lemma_leaf_mat(*self, res);
                    assert(res.is_some() == leaf_hit_t(*self, *r, t_min@, t_max@).is_some());
                    if res.is_some() {
                        assert(res.unwrap().t@ == leaf_hit_t(*self, *r, t_min@, t_max@).unwrap());
                        assert forall|t: int| #[trigger] some_leaf_hits_at(
                            *self,
                            *r,
                            t_min@,
                            t_max@,
                            t,
                        ) implies res.unwrap().t@ <= t by {}
                    } else {
                        assert forall|t: int| !some_leaf_hits_at(
                            *self,
                            *r,
                            t_min@,
                            t_max@,
                            t,
                        ) by {}
                    }
                }
                res
            },
            Hittable::RectXZ(q) => {
                let res = q.hit(r, t_min, t_max);
                proof {
                    lemma_leaf_mat(*self, res);
                    assert(res.is_some() == leaf_hit_t(*self, *r, t_min@, t_max@).is_some());
                    if res.is_some() {
                        assert(res.unwrap().t@ == leaf_hit_t(*self, *r, t_min@, t_max@).unwrap());
                        assert forall|t: int| #[trigger] some_leaf_hits_at(
                            *self,
                            *r,
                            t_min@,
                            t_max@,
                            t,
                        ) implies res.unwrap().t@ <= t by {}
                    } else {
                        assert forall|t: int| !some_leaf_hits_at(
                            *self,
                            *r,
                            t_min@,
                            t_max@,
                            t,
                        ) by {}
                    }
                }
                res
            },
            Hittable::RectYZ(q) => {
                let res = q.hit(r, t_min, t_max);
                proof {
                    lemma_leaf_mat(*self, res);
                    assert(res.is_some() == leaf_hit_t(*self, *r, t_min@, t_max@).is_some());
                    if res.is_some() {
                        assert(res.unwrap().t@ == leaf_hit_t(*self, *r, t_min@, t_max@).unwrap());
                        assert forall|t: int| #[trigger] some_leaf_hits_at(
                            *self,
                            *r,
                            t_min@,
                            t_max@,
                            t,
                        ) implies res.unwrap().t@ <= t by {}
                    } else {
                        assert forall|t: int| !some_leaf_hits_at(
                            *self,
                            *r,
                            t_min@,
                            t_max@,
                            t,
                        ) by {}
                    }
                }
                res
            },
            Hittable::Cube(c) => {
                let res = hit_list(&c.sides.objects, r, t_min, t_max, prng);
                proof {
                    assert forall|n: int| #[trigger] wf_hittable(*self, n) && res.is_some() implies (
                    res.unwrap().mat as int) < n by {
                        assert(wf_olist(c.sides.objects@, n));
                    }
                    if det_tree(*self) {
                        assert(all_det_trees(c.sides.objects@));
                        if res.is_some() {
                            assert(some_leaf_hits_at(*self, *r, t_min@, t_max@, res.unwrap().t@));
                        }
                    }
                    if det_tree(*self) && boxes_cover(*self, *r, t_min@, t_max@) {
                        assert(covers_olist(c.sides.objects@, *r, t_min@, t_max@));
                        if res.is_none() {
                            assert forall|t: int| !some_leaf_hits_at(
                                *self,
                                *r,
                                t_min@,
                                t_max@,
                                t,
                            ) by {
                                assert(!some_member_hits(c.sides.objects@, *r, t_min@, t_max@, t));
                            }
                        } else {
                            assert forall|t: int| #[trigger] some_leaf_hits_at(
                                *self,
                                *r,
                                t_min@,
                                t_max@,
                                t,
                            ) implies res.unwrap().t@ <= t by {
                                assert(some_member_hits(c.sides.objects@, *r, t_min@, t_max@, t));
                            }
                        }
                    }
                }
                res
            },
            Hittable::List(l) => {
                let res = hit_list(&l.objects, r, t_min, t_max, prng);
                proof {
                    assert forall|n: int| #[trigger] wf_hittable(*self, n) && res.is_some() implies (
                    res.unwrap().mat as int) < n by {
                        assert(wf_olist(l.objects@, n));
                    }
                    if det_tree(*self) {
                        assert(all_det_trees(l.objects@));
                        if res.is_some() {
                            assert(some_leaf_hits_at(*self, *r, t_min@, t_max@, res.unwrap().t@));
                        }
                    }
                    if det_tree(*self) && boxes_cover(*self, *r, t_min@, t_max@) {
                        assert(covers_olist(l.objects@, *r, t_min@, t_max@));
                        if res.is_none() {
                            assert forall|t: int| !some_leaf_hits_at(
                                *self,
                                *r,
                                t_min@,
                                t_max@,
                                t,
                            ) by {
                                assert(!some_member_hits(l.objects@, *r, t_min@, t_max@, t));
                            }
                        } else {
                            assert forall|t: int| #[trigger] some_leaf_hits_at(
                                *self,
                                *r,
                                t_min@,
                                t_max@,
                                t,
                            ) implies res.unwrap().t@ <= t by {
                                assert(some_member_hits(l.objects@, *r, t_min@, t_max@, t));
                            }
                        }
                    }
                }
                res
            },
            Hittable::Translate(tr) => {
                let moved = Ray::with_time(r.orig.sub(tr.offset), r.dir, r.tm);
                proof {
                    assert(moved == moved_ray(*r, tr.offset));
                }
                match tr.child.hit(&moved, t_min, t_max, prng) {
                    Option::None => {
                        proof {
                            if det_tree(*self) && boxes_cover(*self, *r, t_min@, t_max@) {
                                assert forall|t: int| !some_leaf_hits_at(
                                    *self,
                                    *r,
                                    t_min@,
                                    t_max@,
                                    t,
                                ) by {
                                    assert(!some_leaf_hits_at(
                                        *tr.child,
                                        moved_ray(*r, tr.offset),
                                        t_min@,
                                        t_max@,
                                        t,
                                    ));
                                }
                            }
                        }
                        None
                    },
                    Option::Some(crec) => {
                        let mut rec = crec;
                        rec.p = rec.p.add(tr.offset);
                        let normal = rec.normal;
                        rec.set_face_normal(&moved, &normal);
                        proof {
                            assert forall|n: int|
                                #[trigger] wf_hittable(*self, n) implies wf_hittable(
                                *tr.child,
                                n,
                            ) by {}
                            assert(rec.t == crec.t);
                            assert(rec == translate_rec(crec, tr.offset, *r));
                            if det_tree(*self) && boxes_cover(*self, *r, t_min@, t_max@) {
                                assert forall|t: int| #[trigger] some_leaf_hits_at(
                                    *self,
                                    *r,
                                    t_min@,
                                    t_max@,
                                    t,
                                ) implies rec.t@ <= t by {
                                    assert(some_leaf_hits_at(
                                        *tr.child,
                                        moved_ray(*r, tr.offset),
                                        t_min@,
                                        t_max@,
                                        t,
                                    ));
                                }
                            }
                        }
                        Some(rec)
                    },
                }
            },
            Hittable::RotateY(ry) => {
                let org = rot_object(&r.orig, ry.sin_theta, ry.cos_theta);
                let dir = rot_object(&r.dir, ry.sin_theta, ry.cos_theta);
                let rotated = Ray::with_time(org, dir, r.tm);
                proof {
                    assert(rotated == rotated_ray(*r, ry.sin_theta@, ry.cos_theta@));
                }
                match ry.child.hit(&rotated, t_min, t_max, prng) {
                    Option::None => {
                        proof {
                            if det_tree(*self) && boxes_cover(*self, *r, t_min@, t_max@) {
                                assert forall|t: int| !some_leaf_hits_at(
                                    *self,
                                    *r,
                                    t_min@,
                                    t_max@,
                                    t,
                                ) by {
                                    assert(!some_leaf_hits_at(
                                        *ry.child,
                                        rotated_ray(*r, ry.sin_theta@, ry.cos_theta@),
                                        t_min@,
                                        t_max@,
                                        t,
                                    ));
                                }
                            }
                        }
                        None
                    },
                    Option::Some(crec) => {
                        let mut rec = crec;
                        let p = rot_world(&rec.p, ry.sin_theta, ry.cos_theta);
                        let normal = rot_world(&rec.normal, ry.sin_theta, ry.cos_theta);
                        rec.p = p;
                        rec.set_face_normal(&rotated, &normal);
                        proof {
                            assert forall|n: int|
                                #[trigger] wf_hittable(*self, n) implies wf_hittable(
                                *ry.child,
                                n,
                            ) by {}
                            assert(rec.t == crec.t);
                            assert(rec == rotate_rec(crec, ry.sin_theta@, ry.cos_theta@, *r));
                            if det_tree(*self) && boxes_cover(*self, *r, t_min@, t_max@) {
                                assert forall|t: int| #[trigger] some_leaf_hits_at(
                                    *self,
                                    *r,
                                    t_min@,
                                    t_max@,
                                    t,
                                ) implies rec.t@ <= t by {
                                    assert(some_leaf_hits_at(
                                        *ry.child,
                                        rotated_ray(*r, ry.sin_theta@, ry.cos_theta@),
                                        t_min@,
                                        t_max@,
                                        t,
                                    ));
                                }
                            }
                        }
                        Some(rec)
                    },
                }
            },
            Hittable::ConstantMedium(m) => m.hit_medium(r, t_min, t_max, prng),
            Hittable::Bvh(node) => {
                if !node.ibox.hit(r, t_min, t_max) {
                    proof {
                        if det_tree(*self) && boxes_cover(*self, *r, t_min@, t_max@) {
                            assert forall|t: int| !some_leaf_hits_at(
                                *self,
                                *r,
                                t_min@,
                                t_max@,
                                t,
                            ) by {}
                        }
                    }
                    return None;
                }
                let left_hit = node.left.hit(r, t_min, t_max, prng);
                let using = match &left_hit {
                    Option::Some(lr) => lr.t,
                    Option::None => t_max,
                };
                let right_hit = node.right.hit(r, t_min, using, prng);
                let out = match right_hit {
                    Option::Some(rr) => Some(rr),
                    Option::None => left_hit,
                };
                proof {
                    assert forall|n: int| #[trigger] wf_hittable(*self, n) implies wf_hittable(
                    *node.left,
                    n,
                ) && wf_hittable(*node.right, n) by {}
                    if det_tree(*self) && right_hit.is_some() {
                        lemma_leaf_hit_widen(
                            &node.right,
                            *r,
                            t_min@,
                            using@,
                            t_max@,
                            right_hit.unwrap().t@,
                        );
                    }
                    if det_tree(*self) && boxes_cover(*self, *r, t_min@, t_max@) {
                        let lt: Option<int> = if left_hit.is_some() {
                            Option::Some(left_hit.unwrap().t@)
                        } else {
                            Option::None
                        };
                        let rt: Option<int> = if right_hit.is_some() {
                            Option::Some(right_hit.unwrap().t@)
                        } else {
                            Option::None
                        };
                        lemma_bvh_combine(node, *r, t_min@, using@, t_max@, lt, rt);
                    }
                }
                out
            },
        }
    }

    /// The shape's bounding box over a time interval, when it has one; a
    /// bounded tree always does, and the value is pinned to `bbox_spec`.
    pub fn bounding_box(&self, time0: Fx, time1: Fx) -> (res: Option<Aabb>)
        ensures
            bounded_tree(*self) ==> res.is_some(),
            res == bbox_spec(*self, time0@, time1@),
        decreases *self, 0int,
    {
        match self {
            Hittable::Sphere(s) => Some(s.bounding_box()),
            Hittable::MovingSphere(s) => Some(s.bounding_box(time0, time1)),
            Hittable::RectXY(q) => Some(q.bounding_box()),
            Hittable::RectXZ(q) => Some(q.bounding_box()),
            Hittable::RectYZ(q) => Some(q.bounding_box()),
            Hittable::Cube(c) => {
                let b = Aabb::new(c.box_min, c.box_max);
                proof {
                    assert(b == (Aabb { minimum: c.box_min, maximum: c.box_max }));
                }
                Some(b)
            },
            Hittable::Translate(t) => match t.child.bounding_box(time0, time1) {
                Option::Some(b) => {
                    let out = Aabb::new(b.minimum.add(t.offset), b.maximum.add(t.offset));
                    proof {
                        assert(out == (Aabb {
                            minimum: crate::vec3::v3_add(b.minimum, t.offset),
                            maximum: crate::vec3::v3_add(b.maximum, t.offset),
                        }));
                    }
                    Some(out)
                },
                Option::None => None,
            },
            Hittable::RotateY(ry) => ry.bbox,
            Hittable::ConstantMedium(m) => m.boundary.bounding_box(time0, time1),
            Hittable::List(l) => bounding_box_list(&l.objects, time0, time1),
            Hittable::Bvh(node) => Some(node.ibox),
        }
    }
}

/// The box of the member at an index of a run.
pub open spec fn nth_box(s: Seq<Arc<Hittable>>, j: int, t0: int, t1: int) -> Option<Aabb> {
    bbox_spec(*s[j], t0, t1)
}

/// A run's fold reports nothing exactly when the run is empty or some
/// member is unbounded.
pub proof fn lemma_olist_box_none(s: Seq<Arc<Hittable>>, t0: int, t1: int)
    ensures
        olist_box(s, t0, t1) is None <==> (s.len() == 0 || exists|j: int|
            0 <= j < s.len() && (#[trigger] nth_box(s, j, t0, t1)) is None),
    decreases s.len(),
{
    if s.len() > 1 {
        lemma_olist_box_none(s.drop_last(), t0, t1);
        if olist_box(s, t0, t1) is None {
            if nth_box(s, s.len() - 1, t0, t1) is None {
                assert(s[s.len() - 1] == s.last());
            } else {
                assert(olist_box(s.drop_last(), t0, t1) is None);
                let j = choose|j: int|
                    0 <= j < s.drop_last().len() && (#[trigger] nth_box(
                        s.drop_last(),
                        j,
                        t0,
                        t1,
                    )) is None;
                assert(s[j] == s.drop_last()[j]);
                assert(nth_box(s, j, t0, t1) is None);
            }
        }
        if exists|j: int| 0 <= j < s.len() && (#[trigger] nth_box(s, j, t0, t1)) is None {
            let j = choose|j: int| 0 <= j < s.len() && (#[trigger] nth_box(s, j, t0, t1)) is None;
            if j == s.len() - 1 {
                assert(s.last() == s[j]);
            } else {
                assert(s.drop_last()[j] == s[j]);
                assert(nth_box(s.drop_last(), j, t0, t1) is None);
            }
        }
    }
}

/// A bounded tree always reports a box.
pub proof fn lemma_bounded_bbox_some(h: Hittable, t0: int, t1: int)
    requires
        bounded_tree(h),
    ensures
        bbox_spec(h, t0, t1).is_some(),
    decreases h,
{
    match h {
        Hittable::Translate(t) => {
            lemma_bounded_bbox_some(*t.child, t0, t1);
        },
        Hittable::ConstantMedium(m) => {
            lemma_bounded_bbox_some(*m.boundary, t0, t1);
        },
        Hittable::List(l) => {
            assert(l.objects@.len() > 0 && bounded_olist(l.objects@));
            assert forall|j: int| 0 <= j < l.objects@.len() implies (#[trigger] nth_box(
                l.objects@,
                j,
                t0,
                t1,
            )).is_some() by {
                assert(bounded_tree(*l.objects@[j]));
                lemma_bounded_bbox_some(*l.objects@[j], t0, t1);
            }
            lemma_olist_box_none(l.objects@, t0, t1);
        },
        _ => {},
    }
}

/// A leaf's reported material is its own, so any arena that admits the
/// leaf admits the record.
proof fn lemma_leaf_mat(h: Hittable, res: Option<HitRecord>)
    requires
        res.is_some() ==> match h {
            Hittable::Sphere(s) => res.unwrap().mat == s.mat,
            Hittable::MovingSphere(s) => res.unwrap().mat == s.mat,
            Hittable::RectXY(q) => res.unwrap().mat == q.mp,
            Hittable::RectXZ(q) => res.unwrap().mat == q.mp,
            Hittable::RectYZ(q) => res.unwrap().mat == q.mp,
            _ => true,
        },
        h matches Hittable::Sphere(_) || h matches Hittable::MovingSphere(_) || h matches
            Hittable::RectXY(_) || h matches Hittable::RectXZ(_) || h matches Hittable::RectYZ(_),
    ensures
        forall|n: int|
            #[trigger] wf_hittable(h, n) && res.is_some() ==> (res.unwrap().mat as int) < n,
{
}

/// No member before index `i` has any leaf hit in the window.
pub open spec fn list_miss_upto(s: Seq<Arc<Hittable>>, i: int, r: Ray, tmin: int, tmax: int) -> bool {
    forall|k: int, t: int| 0 <= k < i ==> !(#[trigger] leaf_hit_of(s, k, r, tmin, tmax, t))
}

/// Every leaf hit of a member before index `i` lies at or past `rt`.
pub open spec fn list_min_upto(
    s: Seq<Arc<Hittable>>,
    i: int,
    r: Ray,
    tmin: int,
    tmax: int,
    rt: int,
) -> bool {
    forall|k: int, t: int|
        0 <= k < i && #[trigger] leaf_hit_of(s, k, r, tmin, tmax, t) ==> rt <= t
}

/// One step of the list scan: folding one member's outcome (queried on the
/// window narrowed to `cb`) into the running closest hit preserves the
/// scan's miss and minimality summaries, and a reported hit is a genuine
/// member leaf hit of the full window.
proof fn lemma_list_step(
    s: Seq<Arc<Hittable>>,
    i: int,
    r: Ray,
    tmin: int,
    tmax: int,
    cb: int,
    mt: Option<int>,
    rb: Option<int>,
)
    requires
        0 <= i < s.len(),
        all_det_trees(s),
        covers_olist(s, r, tmin, tmax),
        cb <= tmax,
        rb is Some ==> cb == rb.unwrap(),
        rb is None ==> cb == tmax,
        rb is None ==> list_miss_upto(s, i, r, tmin, tmax),
        rb is Some ==> list_min_upto(s, i, r, tmin, tmax, rb.unwrap()),
        mt is Some ==> tmin <= mt.unwrap() <= cb,
        mt is Some ==> some_leaf_hits_at(*s[i], r, tmin, cb, mt.unwrap()),
        boxes_cover(*s[i], r, tmin, cb) && mt is Some ==> forall|t: int|
            #[trigger] some_leaf_hits_at(*s[i], r, tmin, cb, t) ==> mt.unwrap() <= t,
        boxes_cover(*s[i], r, tmin, cb) && mt is None ==> forall|t: int|
            !some_leaf_hits_at(*s[i], r, tmin, cb, t),
    ensures
        ({
            let ra = if mt is Some {
                mt
            } else {
                rb
            };
            &&& (mt is Some ==> leaf_hit_of(s, i, r, tmin, tmax, mt.unwrap()))
            &&& (ra is None ==> list_miss_upto(s, i + 1, r, tmin, tmax))
            &&& (ra is Some ==> list_min_upto(s, i + 1, r, tmin, tmax, ra.unwrap()))
        }),
{
    let hi = nth_leaf(s, i);
    assert(boxes_cover(hi, r, tmin, tmax));
    lemma_boxes_cover_narrow(&hi, r, tmin, cb, tmax);
    if mt is Some {
        let m = mt.unwrap();
        lemma_leaf_hit_widen(&hi, r, tmin, cb, tmax, m);
        assert(some_leaf_hits_at(*s[i], r, tmin, tmax, m));
        assert forall|k: int, t: int|
            0 <= k < i + 1 && #[trigger] leaf_hit_of(s, k, r, tmin, tmax, t) implies m <= t by {
            if k == i {
                if t <= cb {
                    lemma_leaf_hit_narrow(&hi, r, tmin, cb, tmax, t);
                }
            } else {
                if rb is None {
                    assert(!leaf_hit_of(s, k, r, tmin, tmax, t));
                }
            }
        }
    } else {
        if rb is None {
            assert forall|k: int, t: int|
                0 <= k < i + 1 implies !(#[trigger] leaf_hit_of(s, k, r, tmin, tmax, t)) by {
                if k == i && leaf_hit_of(s, k, r, tmin, tmax, t) {
                    assert(some_leaf_hits_at(*s[i], r, tmin, cb, t));
                }
            }
        } else {
            let rv = rb.unwrap();
            assert forall|k: int, t: int|
                0 <= k < i + 1 && #[trigger] leaf_hit_of(s, k, r, tmin, tmax, t) implies rv
                <= t by {
                if k == i {
                    if t <= cb {
                        lemma_leaf_hit_narrow(&hi, r, tmin, cb, tmax, t);
                        assert(false);
                    }
                }
            }
        }
    }
}

/// Scan a run of shapes for the closest hit, narrowing the window to the
/// best parameter found so far.
#[verifier::rlimit(100)]
fn hit_list(
    objects: &Vec<Arc<Hittable>>,
    r: &Ray,
    t_min: Fx,
    t_max: Fx,
    prng: &mut Prng,
) -> (res: Option<HitRecord>)
    ensures
        res.is_some() ==> t_min@ <= res.unwrap().t@ <= t_max@,
        forall|n: int|
            #[trigger] wf_olist(objects@, n) && res.is_some() ==> (res.unwrap().mat as int) < n,
        all_det_leaves(objects@) ==> agrees_with_scan(objects@, *r, t_min@, t_max@, res),
        all_det_trees(objects@) && res.is_some() ==> some_member_hits(
            objects@,
            *r,
            t_min@,
            t_max@,
            res.unwrap().t@,
        ),
        all_det_trees(objects@) && covers_olist(objects@, *r, t_min@, t_max@) && res.is_none()
            ==> forall|t: int| !some_member_hits(objects@, *r, t_min@, t_max@, t),
        all_det_trees(objects@) && covers_olist(objects@, *r, t_min@, t_max@) && res.is_some()
            ==> forall|t: int|
            #[trigger] some_member_hits(objects@, *r, t_min@, t_max@, t) ==> res.unwrap().t@ <= t,
    decreases *objects, 1int,
{
    let ghost dt = all_det_trees(objects@) && covers_olist(objects@, *r, t_min@, t_max@);
    let mut res: Option<HitRecord> = None;
    let mut closest = t_max;
    let n = objects.len();
    let mut i: usize = 0;
    proof {
        assert(objects@.skip(0) =~= objects@);
    }
    while i < n
        invariant
            i <= n,
            n == objects@.len(),
            closest@ <= t_max@,
            res.is_none() ==> closest@ == t_max@,
            res.is_some() ==> t_min@ <= res.unwrap().t@ <= t_max@ && closest == res.unwrap().t,
            forall|m: int|
                #[trigger] wf_olist(objects@, m) && res.is_some() ==> (res.unwrap().mat as int) < m,
            all_det_leaves(objects@) ==> scan_leaves(objects@, *r, t_min@, t_max@) == scan_then(
                res,
                scan_leaves(objects@.skip(i as int), *r, t_min@, closest@),
            ),
            dt == (all_det_trees(objects@) && covers_olist(objects@, *r, t_min@, t_max@)),
            all_det_trees(objects@) && res.is_some() ==> some_member_hits(
                objects@,
                *r,
                t_min@,
                t_max@,
                res.unwrap().t@,
            ),
            dt && res.is_none() ==> list_miss_upto(objects@, i as int, *r, t_min@, t_max@),
            dt && res.is_some() ==> list_min_upto(
                objects@,
                i as int,
                *r,
                t_min@,
                t_max@,
                res.unwrap().t@,
            ),
        decreases n - i,
    {
        let ghost res_before = res;
        let ghost closest_before = closest@;
        let m_res = objects[i].hit(r, t_min, closest, prng);
        proof {
            if all_det_trees(objects@) && m_res.is_some() {
                let hi = nth_leaf(objects@, i as int);
                lemma_leaf_hit_widen(&hi, *r, t_min@, closest_before, t_max@, m_res.unwrap().t@);
                assert(leaf_hit_of(objects@, i as int, *r, t_min@, t_max@, m_res.unwrap().t@));
                assert(some_member_hits(objects@, *r, t_min@, t_max@, m_res.unwrap().t@));
            }
            if dt {
                let mt: Option<int> = if m_res.is_some() {
                    Option::Some(m_res.unwrap().t@)
                } else {
                    Option::<int>::None
                };
                let rb: Option<int> = if res_before.is_some() {
                    Option::Some(res_before.unwrap().t@)
                } else {
                    Option::<int>::None
                };
                lemma_list_step(objects@, i as int, *r, t_min@, t_max@, closest_before, mt, rb);
            }
        }
        match m_res {
            Option::Some(rec) => {
                proof {
                    assert forall|m: int| #[trigger] wf_olist(objects@, m) implies wf_hittable(
                    *objects@[i as int],
                    m,
                ) by {}
                }
                closest = rec.t;
                res = Some(rec);
            },
            Option::None => {},
        }
        proof {
            if all_det_leaves(objects@) {
                let rest = objects@.skip(i as int);
                assert(det_leaf(*objects@[i as int]));
                assert(rest[0] == objects@[i as int]);
                assert(rest.drop_first() =~= objects@.skip(i + 1));
                assert(scan_leaves(rest, *r, t_min@, closest_before) == (match leaf_hit_t(
                    nth_leaf(objects@, i as int),
                    *r,
                    t_min@,
                    closest_before,
                ) {
                    Option::Some(t) => match scan_leaves(
                        objects@.skip(i + 1),
                        *r,
                        t_min@,
                        t,
                    ) {
                        Option::Some(t2) => Option::Some(t2),
                        Option::None => Option::Some(t),
                    },
                    Option::None => scan_leaves(objects@.skip(i + 1), *r, t_min@, closest_before),
                }));
            }
        }
        i = i + 1;
    }
    proof {
        if all_det_leaves(objects@) {
            assert(objects@.skip(n as int) =~= Seq::<Arc<Hittable>>::empty());
        }
        if dt && res.is_none() {
            assert(list_miss_upto(objects@, n as int, *r, t_min@, t_max@));
            assert forall|t: int| !some_member_hits(objects@, *r, t_min@, t_max@, t) by {
                if some_member_hits(objects@, *r, t_min@, t_max@, t) {
                    let j = choose|j: int|
                        0 <= j < objects@.len() && some_leaf_hits_at(
                            *#[trigger] objects@[j],
                            *r,
                            t_min@,
                            t_max@,
                            t,
                        );
                    assert(leaf_hit_of(objects@, j, *r, t_min@, t_max@, t));
                }
            }
        }
        if dt && res.is_some() {
            assert(list_min_upto(objects@, n as int, *r, t_min@, t_max@, res.unwrap().t@));
            assert forall|t: int| #[trigger] some_member_hits(
                objects@,
                *r,
                t_min@,
                t_max@,
                t,
            ) implies res.unwrap().t@ <= t by {
                let j = choose|j: int|
                    0 <= j < objects@.len() && some_leaf_hits_at(
                        *#[trigger] objects@[j],
                        *r,
                        t_min@,
                        t_max@,
                        t,
                    );
                assert(leaf_hit_of(objects@, j, *r, t_min@, t_max@, t));
            }
        }
    }
    res
}

/// The union of the boxes of a run of shapes, or nothing if the run is
/// empty or some member is unbounded: exactly the fold `olist_box`.
fn bounding_box_list(objects: &Vec<Arc<Hittable>>, time0: Fx, time1: Fx) -> (res: Option<Aabb>)
    ensures
        objects@.len() > 0 && bounded_olist(objects@) ==> res.is_some(),
        res == olist_box(objects@, time0@, time1@),
    decreases *objects, 1int,
{
    let n = objects.len();
    if n == 0 {
        return None;
    }
    let mut out: Option<Aabb> = None;
    let mut i: usize = 0;
    while i < n
        invariant
            i <= n,
            n == objects@.len(),
            i > 0 ==> out.is_some(),
            out == olist_box(objects@.take(i as int), time0@, time1@),
            i == 0 ==> out is None,
        decreases n - i,
    {
        proof {
            if bounded_olist(objects@) {
                assert(bounded_tree(*objects@[i as int]));
            }
        }
        match objects[i].bounding_box(time0, time1) {
            Option::None => {
                proof {
                    assert(nth_box(objects@, i as int, time0@, time1@) is None);
                    lemma_olist_box_none(objects@, time0@, time1@);
                }
                return None;
            },
            Option::Some(b) => {
                out = match out {
                    Option::None => Some(b),
                    Option::Some(o) => Some(Aabb::surrounding_box(&o, &b)),
                };
                proof {
                    let pre = objects@.take(i as int);
                    let ext = objects@.take(i as int + 1);
                    assert(ext.last() == objects@[i as int]);
                    if i == 0 {
                        assert(ext.len() == 1);
                        assert(ext[0] == objects@[0]);
                    } else {
                        assert(ext.drop_last() =~= pre);
                    }
                }
            },
        }
        i = i + 1;
    }
    proof {
        assert(objects@.take(n as int) =~= objects@);
    }
    out
}

/// Rotate a vector from world to object coordinates about the y axis.
pub fn rot_object(v: &Vec3, sin_theta: Fx, cos_theta: Fx) -> (res: Vec3)
    ensures
        res.x@ == fx_sub(fx_mul(cos_theta@, v.x@), fx_mul(sin_theta@, v.z@)),
        res.y@ == v.y@,
        res.z@ == fx_add(fx_mul(sin_theta@, v.x@), fx_mul(cos_theta@, v.z@)),
{
    Vec3::new(
        cos_theta.mul(v.x).sub(sin_theta.mul(v.z)),
        v.y,
        sin_theta.mul(v.x).add(cos_theta.mul(v.z)),
    )
}

/// Rotate a vector from object back to world coordinates about the y axis.
pub fn rot_world(v: &Vec3, sin_theta: Fx, cos_theta: Fx) -> (res: Vec3)
    ensures
        res.x@ == fx_add(fx_mul(cos_theta@, v.x@), fx_mul(sin_theta@, v.z@)),
        res.y@ == v.y@,
        res.z@ == fx_add(fx_neg(fx_mul(sin_theta@, v.x@)), fx_mul(cos_theta@, v.z@)),
{
    Vec3::new(
        cos_theta.mul(v.x).add(sin_theta.mul(v.z)),
        v.y,
        sin_theta.mul(v.x).neg().add(cos_theta.mul(v.z)),
    )
}

impl HittableList {
    pub fn new() -> (r: HittableList)
        ensures
            r.objects@.len() == 0,
    {
        HittableList { objects: Vec::new() }
    }

    pub fn with_capacity(cap: usize) -> (r: HittableList)
        ensures
            r.objects@.len() == 0,
    {
        HittableList { objects: Vec::with_capacity(cap) }
    }

    /// Get a reference to the list's objects.
    pub fn objects(&self) -> (r: &Vec<Arc<Hittable>>)
        ensures
            r == &self.objects,
    {
        &self.objects
    }

    pub fn clear(&mut self)
        ensures
            final(self).objects@.len() == 0,
    {
        self.objects.clear()
    }

    /// Add a shape to the list.
    pub fn add(&mut self, object: Hittable)
        ensures
            final(self).objects@ == old(self).objects@.push(Arc::new(object)),
            final(self).objects@.len() == old(self).objects@.len() + 1,
    {
        self.objects.push(Arc::new(object))
    }
}

impl Translate {
    pub fn new(ptr: Hittable, offset: Vec3) -> (r: Translate)
        ensures
            *r.child == ptr && r.offset == offset,
    {
        Translate { child: Box::new(ptr), offset }
    }
}

impl RotateY {
    /// Wrap a shape rotated about the y axis; the caller supplies the sine
    /// and cosine of the angle as fixed-point values.
    pub fn new(p: Hittable, sin_theta: Fx, cos_theta: Fx) -> (r: RotateY)
        ensures
            *r.child == p && r.sin_theta == sin_theta && r.cos_theta == cos_theta,
            bounded_tree(p) ==> r.bbox.is_some(),
    {
        let bbox = p.bounding_box(Fx::zero(), Fx::one());
        let rotated = Self::calculate_bound(bbox, sin_theta, cos_theta);
        RotateY { child: Box::new(p), sin_theta, cos_theta, bbox: rotated }
    }

    /// The axis-aligned extent of the eight rotated corners of the child's
    /// box: each bound of the result is the exact minimum or maximum of the
    /// corresponding coordinate over all eight transformed corners.
    pub fn calculate_bound(bbox: Option<Aabb>, sin_theta: Fx, cos_theta: Fx) -> (res: Option<Aabb>)
        ensures
            res.is_some() == bbox.is_some(),
            bbox matches Option::Some(b) ==> res matches Option::Some(out) && ({
                let c0 = rot_corner_spec(b, false, false, false, sin_theta@, cos_theta@);
                let c1 = rot_corner_spec(b, false, false, true, sin_theta@, cos_theta@);
                let c2 = rot_corner_spec(b, false, true, false, sin_theta@, cos_theta@);
                let c3 = rot_corner_spec(b, false, true, true, sin_theta@, cos_theta@);
                let c4 = rot_corner_spec(b, true, false, false, sin_theta@, cos_theta@);
                let c5 = rot_corner_spec(b, true, false, true, sin_theta@, cos_theta@);
                let c6 = rot_corner_spec(b, true, true, false, sin_theta@, cos_theta@);
                let c7 = rot_corner_spec(b, true, true, true, sin_theta@, cos_theta@);
                &&& out.minimum.x@ == min8(c0.x@, c1.x@, c2.x@, c3.x@, c4.x@, c5.x@, c6.x@, c7.x@)
                &&& out.minimum.y@ == min8(c0.y@, c1.y@, c2.y@, c3.y@, c4.y@, c5.y@, c6.y@, c7.y@)
                &&& out.minimum.z@ == min8(c0.z@, c1.z@, c2.z@, c3.z@, c4.z@, c5.z@, c6.z@, c7.z@)
                &&& out.maximum.x@ == max8(c0.x@, c1.x@, c2.x@, c3.x@, c4.x@, c5.x@, c6.x@, c7.x@)
                &&& out.maximum.y@ == max8(c0.y@, c1.y@, c2.y@, c3.y@, c4.y@, c5.y@, c6.y@, c7.y@)
                &&& out.maximum.z@ == max8(c0.z@, c1.z@, c2.z@, c3.z@, c4.z@, c5.z@, c6.z@, c7.z@)
            }),
    {
        let b = match bbox {
            Option::None => {
                return None;
            },
            Option::Some(b) => b,
        };
        let c0 = rot_corner(&b, false, false, false, sin_theta, cos_theta);
        let c1 = rot_corner(&b, false, false, true, sin_theta, cos_theta);
        let c2 = rot_corner(&b, false, true, false, sin_theta, cos_theta);
        let c3 = rot_corner(&b, false, true, true, sin_theta, cos_theta);
        let c4 = rot_corner(&b, true, false, false, sin_theta, cos_theta);
        let c5 = rot_corner(&b, true, false, true, sin_theta, cos_theta);
        let c6 = rot_corner(&b, true, true, false, sin_theta, cos_theta);
        let c7 = rot_corner(&b, true, true, true, sin_theta, cos_theta);
        let minimum = Vec3::new(
            c0.x.min(c1.x).min(c2.x.min(c3.x)).min(c4.x.min(c5.x).min(c6.x.min(c7.x))),
            c0.y.min(c1.y).min(c2.y.min(c3.y)).min(c4.y.min(c5.y).min(c6.y.min(c7.y))),
            c0.z.min(c1.z).min(c2.z.min(c3.z)).min(c4.z.min(c5.z).min(c6.z.min(c7.z))),
        );
        let maximum = Vec3::new(
            c0.x.max(c1.x).max(c2.x.max(c3.x)).max(c4.x.max(c5.x).max(c6.x.max(c7.x))),
            c0.y.max(c1.y).max(c2.y.max(c3.y)).max(c4.y.max(c5.y).max(c6.y.max(c7.y))),
            c0.z.max(c1.z).max(c2.z.max(c3.z)).max(c4.z.max(c5.z).max(c6.z.max(c7.z))),
        );
        Some(Aabb::new(minimum, maximum))
    }
}

/// One corner of a box rotated into world coordinates, as a value: each
/// selector picks the maximum or the minimum coordinate on its axis.
pub open spec fn rot_corner_spec(b: Aabb, ix: bool, iy: bool, iz: bool, s: int, c: int) -> Vec3 {
    let x = if ix {
        b.maximum.x@
    } else {
        b.minimum.x@
    };
    let y = if iy {
        b.maximum.y@
    } else {
        b.minimum.y@
    };
    let z = if iz {
        b.maximum.z@
    } else {
        b.minimum.z@
    };
    Vec3 {
        x: crate::vec3::to_fx(fx_add(fx_mul(c, x), fx_mul(s, z))),
        y: crate::vec3::to_fx(y),
        z: crate::vec3::to_fx(fx_add(fx_neg(fx_mul(s, x)), fx_mul(c, z))),
    }
}

/// The least of eight values, associated as the corner fold computes it.
pub open spec fn min8(a0: int, a1: int, a2: int, a3: int, a4: int, a5: int, a6: int, a7: int) -> int {
    crate::aabb::imin(
        crate::aabb::imin(crate::aabb::imin(a0, a1), crate::aabb::imin(a2, a3)),
        crate::aabb::imin(crate::aabb::imin(a4, a5), crate::aabb::imin(a6, a7)),
    )
}

/// The greatest of eight values, associated as the corner fold computes it.
pub open spec fn max8(a0: int, a1: int, a2: int, a3: int, a4: int, a5: int, a6: int, a7: int) -> int {
    crate::aabb::imax(
        crate::aabb::imax(crate::aabb::imax(a0, a1), crate::aabb::imax(a2, a3)),
        crate::aabb::imax(crate::aabb::imax(a4, a5), crate::aabb::imax(a6, a7)),
    )
}

/// One corner of a box, rotated into world coordinates.
fn rot_corner(b: &Aabb, ix: bool, iy: bool, iz: bool, sin_theta: Fx, cos_theta: Fx) -> (res: Vec3)
    ensures
        res == rot_corner_spec(*b, ix, iy, iz, sin_theta@, cos_theta@),
{
    let x = if ix {
        b.maximum.x
    } else {
        b.minimum.x
    };
    let y = if iy {
        b.maximum.y
    } else {
        b.minimum.y
    };
    let z = if iz {
        b.maximum.z
    } else {
        b.minimum.z
    };
    let res = rot_world(&Vec3::new(x, y, z), sin_theta, cos_theta);
    proof {
        assert(res == rot_corner_spec(*b, ix, iy, iz, sin_theta@, cos_theta@));
    }
    res
}

} // verus!
