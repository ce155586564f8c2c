//! The bounding volume hierarchy: a binary tree over scene shapes, built
//! once by recursive partition along a randomly chosen axis, immutable
//! afterwards.
//!
//! Construction demands bounded shapes — a tree over unbounded geometry is
//! a scene-authoring error and is excluded by precondition, so the panic
//! of the original formulation cannot happen here.  The ordering pass
//! promises what traversal correctness rests on: the same shapes come out
//! that went in, in nondecreasing order of their box minimum along the
//! chosen axis; each node's box is the union of its children's and
//! contains every member's box.

use vstd::prelude::*;

verus! {

use std::sync::Arc;
use vstd::multiset::Multiset;
use vstd::seq_lib::group_to_multiset_ensures;
use crate::aabb::Aabb;
use crate::fixed::Fx;
use crate::hittable::{
    Hittable,
    bbox_spec,
    bounded_olist,
    bounded_tree,
    nth_box,
    wf_olist,
    wf_hittable,
    HittableList,
    share,
    no_bvh_members,
    member_set,
    olist_set,
};
use crate::rng::rand_below;

pub struct BvhNode {
    pub left: Arc<Hittable>,
    pub right: Arc<Hittable>,
    pub ibox: Aabb,
}

impl BvhNode {
    /// Build a tree over the objects of a list.  The list must be
    /// nonempty and every member bounded.
    pub fn from_hittable_list(list: &HittableList, time0: Fx, time1: Fx) -> (r: BvhNode)
        requires
            list.objects@.len() > 0,
            bounded_olist(list.objects@),
        ensures
            forall|n: int|
                #[trigger] wf_olist(list.objects@, n) ==> wf_hittable(Hittable::Bvh(r), n),
            no_bvh_members(list.objects@) ==> member_set(Hittable::Bvh(r)) == olist_set(
                list.objects@,
            ),
            list.objects@.len() == 1 ==> r.left == r.right,
            bbox_spec(*r.left, time0@, time1@).is_some() && bbox_spec(
                *r.right,
                time0@,
                time1@,
            ).is_some() && r.ibox == crate::aabb::box_union(
                bbox_spec(*r.left, time0@, time1@).unwrap(),
                bbox_spec(*r.right, time0@, time1@).unwrap(),
            ),
            forall|j: int|
                0 <= j < list.objects@.len() ==> (#[trigger] nth_box(
                    list.objects@,
                    j,
                    time0@,
                    time1@,
                )).is_some() && crate::aabb::box_contains(
                    r.ibox,
                    nth_box(list.objects@, j, time0@, time1@).unwrap(),
                ),
    {
        let mut copy: Vec<Arc<Hittable>> = Vec::new();
        let m = list.objects.len();
        let mut i: usize = 0;
        while i < m
            invariant
                i <= m,
                m == list.objects@.len(),
                copy@.len() == i,
                forall|j: int| 0 <= j < i ==> copy@[j] == list.objects@[j],
            decreases m - i,
        {
            copy.push(share(&list.objects[i]));
            i = i + 1;
        }
        proof {
            assert(copy@ =~= list.objects@);
        }
        Self::from_list(copy, time0, time1)
    }

    /// Build a tree over an owned run of shapes: one shape fills both
    /// child slots, two are ordered along a random axis, more are sorted
    /// along it and split in the middle.
    #[verifier::rlimit(100)]
    pub fn from_list(objects: Vec<Arc<Hittable>>, time0: Fx, time1: Fx) -> (r: BvhNode)
        requires
            objects@.len() > 0,
            bounded_olist(objects@),
        ensures
            forall|n: int| #[trigger] wf_olist(objects@, n) ==> wf_hittable(Hittable::Bvh(r), n),
            no_bvh_members(objects@) ==> member_set(Hittable::Bvh(r)) == olist_set(objects@),
            objects@.len() == 1 ==> r.left == r.right && *r.left == *objects@[0],
            bounded_tree(*r.left) && bounded_tree(*r.right),
            bbox_spec(*r.left, time0@, time1@).is_some() && bbox_spec(
                *r.right,
                time0@,
                time1@,
            ).is_some() && r.ibox == crate::aabb::box_union(
                bbox_spec(*r.left, time0@, time1@).unwrap(),
                bbox_spec(*r.right, time0@, time1@).unwrap(),
            ),
            forall|j: int|
                0 <= j < objects@.len() ==> (#[trigger] nth_box(
                    objects@,
                    j,
                    time0@,
                    time1@,
                )).is_some() && crate::aabb::box_contains(
                    r.ibox,
                    nth_box(objects@, j, time0@, time1@).unwrap(),
                ),
        decreases objects@.len(),
    {
        let axis = rand_below(3);
        let n = objects.len();
        if n == 1 {
            let only = &objects[0];
            let left = share(only);
            let right = share(only);
            let ibox = Self::pair_box(&left, &right, time0, time1);
            proof {
                assert(*objects@[0] == *left && *objects@[0] == *right);
                lemma_wf_two(objects@, left, right);
                if no_bvh_members(objects@) {
                    lemma_olist_set_small(objects@);
                    assert(member_set(*left) == Set::empty().insert(*left));
                    assert(member_set(*left).union(member_set(*right)) =~= olist_set(objects@));
                }
                let lbox = nth_box(objects@, 0, time0@, time1@);
                assert(bbox_spec(*left, time0@, time1@) == lbox);
                assert(bbox_spec(*right, time0@, time1@) == lbox);
                crate::aabb::lemma_union_contains(lbox.unwrap(), lbox.unwrap());
                assert forall|j: int| 0 <= j < objects@.len() implies (#[trigger] nth_box(
                    objects@,
                    j,
                    time0@,
                    time1@,
                )).is_some() && crate::aabb::box_contains(
                    ibox,
                    nth_box(objects@, j, time0@, time1@).unwrap(),
                ) by {
                    assert(nth_box(objects@, j, time0@, time1@) == lbox);
                }
            }
            BvhNode { left, right, ibox }
        } else if n == 2 {
            let a = &objects[0];
            let b = &objects[1];
            let ka = box_min_axis(a, axis, time0, time1);
            let kb = box_min_axis(b, axis, time0, time1);
            let (left, right) = if kb.to_micros() < ka.to_micros() {
                (share(b), share(a))
            } else {
                (share(a), share(b))
            };
            let ibox = Self::pair_box(&left, &right, time0, time1);
            proof {
                assert(*objects@[0] == *left || *objects@[1] == *left);
                assert(*objects@[0] == *right || *objects@[1] == *right);
                lemma_wf_two(objects@, left, right);
                if no_bvh_members(objects@) {
                    lemma_olist_set_small(objects@);
                    assert(member_set(*left) == Set::empty().insert(*left));
                    assert(member_set(*right) == Set::empty().insert(*right));
                    assert(member_set(*left).union(member_set(*right)) =~= olist_set(objects@));
                }
                let b0 = nth_box(objects@, 0, time0@, time1@);
                let b1 = nth_box(objects@, 1, time0@, time1@);
                assert(bbox_spec(*left, time0@, time1@) == b0 || bbox_spec(*left, time0@, time1@)
                    == b1);
                assert(bbox_spec(*right, time0@, time1@) == b0 || bbox_spec(*right, time0@, time1@)
                    == b1);
                crate::aabb::lemma_union_contains(b0.unwrap(), b1.unwrap());
                crate::aabb::lemma_union_contains(b1.unwrap(), b0.unwrap());
                assert forall|j: int| 0 <= j < objects@.len() implies (#[trigger] nth_box(
                    objects@,
                    j,
                    time0@,
                    time1@,
                )).is_some() && crate::aabb::box_contains(
                    ibox,
                    nth_box(objects@, j, time0@, time1@).unwrap(),
                ) by {
                    assert(nth_box(objects@, j, time0@, time1@) == b0 || nth_box(
                        objects@,
                        j,
                        time0@,
                        time1@,
                    ) == b1);
                }
            }
            BvhNode { left, right, ibox }
        } else {
            let mut sorted = sort_by_axis(objects, axis, time0, time1);
            let ghost sorted_view = sorted@;
            let mid = n / 2;
            proof {
                assert forall|j: int|
                    0 <= j < sorted_view.subrange(0, mid as int).len() implies bounded_tree(
                    *#[trigger] sorted_view.subrange(0, mid as int)[j],
                ) by {
                    assert(sorted_view.subrange(0, mid as int)[j] == sorted_view[j]);
                }
                assert forall|j: int|
                    0 <= j < sorted_view.subrange(mid as int, sorted_view.len() as int).len()
                    implies bounded_tree(
                    *#[trigger] sorted_view.subrange(mid as int, sorted_view.len() as int)[j],
                ) by {
                    assert(sorted_view.subrange(mid as int, sorted_view.len() as int)[j]
                        == sorted_view[j + mid as int]);
                }
            }
            let right_half = sorted.split_off(mid);
            let left_node = Self::from_list(sorted, time0, time1);
            let right_node = Self::from_list(right_half, time0, time1);
            let left: Arc<Hittable> = Arc::new(Hittable::Bvh(left_node));
            let right: Arc<Hittable> = Arc::new(Hittable::Bvh(right_node));
            let ibox = Self::pair_box(&left, &right, time0, time1);
            proof {
                assert forall|nn: int| #[trigger] wf_olist(objects@, nn) implies wf_hittable(
                *left,
                nn,
            ) && wf_hittable(*right, nn) by {
                    assert(wf_olist(sorted_view, nn));
                    assert forall|j: int|
                        0 <= j < sorted_view.subrange(0, mid as int).len() implies wf_hittable(
                        *#[trigger] sorted_view.subrange(0, mid as int)[j],
                        nn,
                    ) by {
                        assert(sorted_view.subrange(0, mid as int)[j] == sorted_view[j]);
                    }
                    assert forall|j: int|
                        0 <= j < sorted_view.subrange(mid as int, sorted_view.len() as int).len()
                        implies wf_hittable(
                        *#[trigger] sorted_view.subrange(mid as int, sorted_view.len() as int)[j],
                        nn,
                    ) by {
                        assert(sorted_view.subrange(mid as int, sorted_view.len() as int)[j]
                            == sorted_view[j + mid as int]);
                    }
                    assert(wf_olist(sorted_view.subrange(0, mid as int), nn));
                    assert(wf_olist(sorted_view.subrange(mid as int, sorted_view.len() as int), nn));
                }
                if no_bvh_members(objects@) {
                    lemma_multiset_same_olist_set(objects@, sorted_view);
                    lemma_olist_set_split(sorted_view, mid as int);
                    assert(member_set(*left) == olist_set(sorted_view.subrange(0, mid as int)));
                    assert(member_set(*right) == olist_set(
                        sorted_view.subrange(mid as int, sorted_view.len() as int),
                    ));
                    assert(member_set(*left).union(member_set(*right)) == olist_set(objects@));
                }
                assert(bbox_spec(*left, time0@, time1@) == Option::Some(left_node.ibox));
                assert(bbox_spec(*right, time0@, time1@) == Option::Some(right_node.ibox));
                crate::aabb::lemma_union_contains(left_node.ibox, right_node.ibox);
                lemma_multiset_same_members(sorted_view, objects@);
                let pre = sorted_view.subrange(0, mid as int);
                let suf = sorted_view.subrange(mid as int, sorted_view.len() as int);
                assert forall|j: int| 0 <= j < objects@.len() implies (#[trigger] nth_box(
                    objects@,
                    j,
                    time0@,
                    time1@,
                )).is_some() && crate::aabb::box_contains(
                    ibox,
                    nth_box(objects@, j, time0@, time1@).unwrap(),
                ) by {
                    assert(sorted_view.contains(objects@[j]));
                    let k = choose|k: int|
                        0 <= k < sorted_view.len() && #[trigger] sorted_view[k] == objects@[j];
                    if k < mid as int {
                        assert(pre[k] == sorted_view[k]);
                        assert(nth_box(pre, k, time0@, time1@) == nth_box(
                            objects@,
                            j,
                            time0@,
                            time1@,
                        ));
                        crate::aabb::lemma_contains_trans(
                            ibox,
                            left_node.ibox,
                            nth_box(pre, k, time0@, time1@).unwrap(),
                        );
                    } else {
                        assert(suf[k - mid as int] == sorted_view[k]);
                        assert(nth_box(suf, k - mid as int, time0@, time1@) == nth_box(
                            objects@,
                            j,
                            time0@,
                            time1@,
                        ));
                        crate::aabb::lemma_contains_trans(
                            ibox,
                            right_node.ibox,
                            nth_box(suf, k - mid as int, time0@, time1@).unwrap(),
                        );
                    }
                }
            }
            BvhNode { left, right, ibox }
        }
    }

    /// The union of two children's boxes, which bounded children always
    /// have.
    fn pair_box(left: &Arc<Hittable>, right: &Arc<Hittable>, time0: Fx, time1: Fx) -> (r: Aabb)
        requires
            bounded_tree(**left),
            bounded_tree(**right),
        ensures
            bbox_spec(**left, time0@, time1@).is_some(),
            bbox_spec(**right, time0@, time1@).is_some(),
            r == crate::aabb::box_union(
                bbox_spec(**left, time0@, time1@).unwrap(),
                bbox_spec(**right, time0@, time1@).unwrap(),
            ),
    {
        let lb = match left.bounding_box(time0, time1) {
            Option::Some(b) => b,
            Option::None => {
                proof {
                    assert(false);
                }
                Aabb::default()
            },
        };
        let rb = match right.bounding_box(time0, time1) {
            Option::Some(b) => b,
            Option::None => {
                proof {
                    assert(false);
                }
                Aabb::default()
            },
        };
        Aabb::surrounding_box(&lb, &rb)
    }

    /// Get a handle to the node's left child.
    pub fn left(&self) -> (r: Arc<Hittable>)
        ensures
            r == self.left,
    {
        share(&self.left)
    }

    /// Get a handle to the node's right child.
    pub fn right(&self) -> (r: Arc<Hittable>)
        ensures
            r == self.right,
    {
        share(&self.right)
    }

    /// Get a reference to the node's box.
    pub fn ibox(&self) -> (r: &Aabb)
        ensures
            *r == self.ibox,
    {
        &self.ibox
    }
}


/// Equal multisets of handles refer to the same members, each way.
proof fn lemma_multiset_same_members(s1: Seq<Arc<Hittable>>, s2: Seq<Arc<Hittable>>)
    requires
        s1.to_multiset() == s2.to_multiset(),
    ensures
        forall|j: int| 0 <= j < s2.len() ==> s1.contains(#[trigger] s2[j]),
{
    broadcast use group_to_multiset_ensures;

    assert forall|j: int| 0 <= j < s2.len() implies s1.contains(#[trigger] s2[j]) by {
        assert(s2.contains(s2[j]));
        assert(s2.to_multiset().count(s2[j]) > 0);
        assert(s1.to_multiset().count(s2[j]) > 0);
    }
}

/// Equal multisets of handles refer to equal member sets, and neither
/// side can smuggle in an inner node the other lacks.
proof fn lemma_multiset_same_olist_set(s1: Seq<Arc<Hittable>>, s2: Seq<Arc<Hittable>>)
    requires
        s1.to_multiset() == s2.to_multiset(),
    ensures
        olist_set(s1) == olist_set(s2),
        no_bvh_members(s1) ==> no_bvh_members(s2),
{
    lemma_multiset_same_members(s1, s2);
    lemma_multiset_same_members(s2, s1);
    assert forall|h: Hittable| #[trigger]
        olist_set(s1).contains(h) implies olist_set(s2).contains(h) by {
        let i = choose|i: int| 0 <= i < s1.len() && *#[trigger] s1[i] == h;
        assert(s2.contains(s1[i]));
        let j = choose|j: int| 0 <= j < s2.len() && #[trigger] s2[j] == s1[i];
        assert(*s2[j] == h);
    }
    assert forall|h: Hittable| #[trigger]
        olist_set(s2).contains(h) implies olist_set(s1).contains(h) by {
        let j = choose|j: int| 0 <= j < s2.len() && *#[trigger] s2[j] == h;
        assert(s1.contains(s2[j]));
        let i = choose|i: int| 0 <= i < s1.len() && #[trigger] s1[i] == s2[j];
        assert(*s1[i] == h);
    }
    assert(olist_set(s1) =~= olist_set(s2));
    if no_bvh_members(s1) {
        assert forall|j: int|
            0 <= j < s2.len() implies !((*#[trigger] s2[j]) matches Hittable::Bvh(_)) by {
            assert(s1.contains(s2[j]));
            let i = choose|i: int| 0 <= i < s1.len() && #[trigger] s1[i] == s2[j];
            assert(!((*s1[i]) matches Hittable::Bvh(_)));
        }
    }
}

/// The members of a run split at an index are the union of the halves'.
proof fn lemma_olist_set_split(s: Seq<Arc<Hittable>>, mid: int)
    requires
        0 <= mid <= s.len(),
    ensures
        olist_set(s) == olist_set(s.subrange(0, mid)).union(
            olist_set(s.subrange(mid, s.len() as int)),
        ),
        no_bvh_members(s) ==> no_bvh_members(s.subrange(0, mid)) && no_bvh_members(
            s.subrange(mid, s.len() as int),
        ),
{
    let a = s.subrange(0, mid);
    let b = s.subrange(mid, s.len() as int);
    assert forall|h: Hittable| #[trigger]
        olist_set(s).contains(h) implies olist_set(a).union(olist_set(b)).contains(h) by {
        let j = choose|j: int| 0 <= j < s.len() && *#[trigger] s[j] == h;
        if j < mid {
            assert(a[j] == s[j]);
            assert(olist_set(a).contains(h));
        } else {
            assert(b[j - mid] == s[j]);
            assert(olist_set(b).contains(h));
        }
    }
    assert forall|h: Hittable| #[trigger]
        olist_set(a).union(olist_set(b)).contains(h) implies olist_set(s).contains(h) by {
        if olist_set(a).contains(h) {
            let j = choose|j: int| 0 <= j < a.len() && *#[trigger] a[j] == h;
            assert(s[j] == a[j]);
        } else {
            let j = choose|j: int| 0 <= j < b.len() && *#[trigger] b[j] == h;
            assert(s[j + mid] == b[j]);
        }
    }
    assert(olist_set(s) =~= olist_set(a).union(olist_set(b)));
    if no_bvh_members(s) {
        assert forall|j: int|
            0 <= j < a.len() implies !((*#[trigger] a[j]) matches Hittable::Bvh(_)) by {
            assert(a[j] == s[j]);
        }
        assert forall|j: int|
            0 <= j < b.len() implies !((*#[trigger] b[j]) matches Hittable::Bvh(_)) by {
            assert(b[j] == s[j + mid]);
        }
    }
}

/// A run of one or two members refers to exactly those members.
proof fn lemma_olist_set_small(s: Seq<Arc<Hittable>>)
    requires
        1 <= s.len() <= 2,
    ensures
        s.len() == 1 ==> olist_set(s) == Set::empty().insert(*s[0]),
        s.len() == 2 ==> olist_set(s) == Set::empty().insert(*s[0]).insert(*s[1]),
{
    if s.len() == 1 {
        assert forall|h: Hittable| #[trigger]
            olist_set(s).contains(h) implies Set::empty().insert(*s[0]).contains(h) by {
            let j = choose|j: int| 0 <= j < s.len() && *#[trigger] s[j] == h;
        }
        assert(olist_set(s).contains(*s[0]));
        assert(olist_set(s) =~= Set::empty().insert(*s[0]));
    } else {
        assert forall|h: Hittable| #[trigger]
            olist_set(s).contains(h) implies Set::empty().insert(*s[0]).insert(*s[1]).contains(
            h,
        ) by {
            let j = choose|j: int| 0 <= j < s.len() && *#[trigger] s[j] == h;
        }
        assert(olist_set(s).contains(*s[0]));
        assert(olist_set(s).contains(*s[1]));
        assert(olist_set(s) =~= Set::empty().insert(*s[0]).insert(*s[1]));
    }
}

/// Two children drawn from a well-formed run keep any arena bound the run
/// keeps.
proof fn lemma_wf_two(s: Seq<Arc<Hittable>>, left: Arc<Hittable>, right: Arc<Hittable>)
    requires
        exists|i: int| 0 <= i < s.len() && *#[trigger] s[i] == *left,
        exists|i: int| 0 <= i < s.len() && *#[trigger] s[i] == *right,
    ensures
        forall|n: int|
            #[trigger] wf_olist(s, n) ==> wf_hittable(*left, n) && wf_hittable(*right, n),
{
    assert forall|n: int| #[trigger] wf_olist(s, n) implies wf_hittable(*left, n) && wf_hittable(
    *right,
    n,
) by {
        let i = choose|i: int| 0 <= i < s.len() && *#[trigger] s[i] == *left;
        assert(wf_hittable(*s[i], n));
        let j = choose|j: int| 0 <= j < s.len() && *#[trigger] s[j] == *right;
        assert(wf_hittable(*s[j], n));
    }
}

/// The sort key of the partition, as a value: the least coordinate of a
/// shape's box along an axis.
pub open spec fn axis_key(h: Hittable, axis: int, t0: int, t1: int) -> int {
    match bbox_spec(h, t0, t1) {
        Option::Some(b) => if axis == 0 {
            b.minimum.x@
        } else if axis == 1 {
            b.minimum.y@
        } else {
            b.minimum.z@
        },
        Option::None => 0,
    }
}

/// The sort key of the member at an index of a run.
pub open spec fn key_at(s: Seq<Arc<Hittable>>, j: int, axis: int, t0: int, t1: int) -> int {
    axis_key(*s[j], axis, t0, t1)
}

/// The least coordinate of a shape's box along an axis, the sort key of
/// the partition.
fn box_min_axis(h: &Arc<Hittable>, axis: usize, time0: Fx, time1: Fx) -> (r: Fx)
    requires
        bounded_tree(**h),
        axis < 3,
    ensures
        r@ == axis_key(**h, axis as int, time0@, time1@),
{
    let b = match h.bounding_box(time0, time1) {
        Option::Some(b) => b,
        Option::None => {
            proof {
                assert(false);
            }
            Aabb::default()
        },
    };
    if axis == 0 {
        b.minimum.x
    } else if axis == 1 {
        b.minimum.y
    } else {
        b.minimum.z
    }
}

/// Order a run of shapes by their box minimum along an axis, by repeated
/// selection of the least key.  Exactly the shapes that went in come out —
/// the multiset of members is preserved, and with it boundedness and any
/// arena bound — and they come out in nondecreasing key order.
fn sort_by_axis(v: Vec<Arc<Hittable>>, axis: usize, time0: Fx, time1: Fx) -> (out: Vec<
    Arc<Hittable>,
>)
    requires
        axis < 3,
        bounded_olist(v@),
    ensures
        out@.len() == v@.len(),
        out@.to_multiset() == v@.to_multiset(),
        bounded_olist(out@),
        forall|n: int| #[trigger] wf_olist(v@, n) ==> wf_olist(out@, n),
        forall|a: int, b: int|
            0 <= a < b < out@.len() ==> #[trigger] key_at(out@, a, axis as int, time0@, time1@)
                <= #[trigger] key_at(out@, b, axis as int, time0@, time1@),
{
    broadcast use group_to_multiset_ensures;

    let ghost orig = v@;
    let ghost ax = axis as int;
    let mut rem = v;
    let mut out: Vec<Arc<Hittable>> = Vec::new();
    while rem.len() > 0
        invariant
            axis < 3,
            ax == axis as int,
            out@.to_multiset().add(rem@.to_multiset()) =~= orig.to_multiset(),
            out@.len() + rem@.len() == orig.len(),
            bounded_olist(rem@),
            bounded_olist(out@),
            forall|n: int| #[trigger] wf_olist(orig, n) ==> wf_olist(out@, n) && wf_olist(rem@, n),
            forall|a: int, b: int|
                0 <= a < b < out@.len() ==> #[trigger] key_at(out@, a, ax, time0@, time1@)
                    <= #[trigger] key_at(out@, b, ax, time0@, time1@),
            forall|a: int, b: int|
                0 <= a < out@.len() && 0 <= b < rem@.len() ==> #[trigger] key_at(
                    out@,
                    a,
                    ax,
                    time0@,
                    time1@,
                ) <= #[trigger] key_at(rem@, b, ax, time0@, time1@),
        decreases rem@.len(),
    {
        broadcast use group_to_multiset_ensures;

        let mut best: usize = 0;
        let mut bk = box_min_axis(&rem[0], axis, time0, time1);
        let mut j: usize = 1;
        while j < rem.len()
            invariant
                best < rem@.len(),
                j <= rem@.len(),
                rem@.len() > 0,
                axis < 3,
                ax == axis as int,
                bounded_olist(rem@),
                bk@ == key_at(rem@, best as int, ax, time0@, time1@),
                forall|k: int|
                    0 <= k < j ==> bk@ <= #[trigger] key_at(rem@, k, ax, time0@, time1@),
            decreases rem@.len() - j,
        {
            let kj = box_min_axis(&rem[j], axis, time0, time1);
            if kj.to_micros() < bk.to_micros() {
                best = j;
                bk = kj;
            }
            j = j + 1;
        }
        let ghost rem_before = rem@;
        let x = rem.remove(best);
        let ghost out_before = out@;
        out.push(x);
        proof {
            assert forall|a: int, b: int|
                0 <= a < b < out@.len() implies #[trigger] key_at(out@, a, ax, time0@, time1@)
                <= #[trigger] key_at(out@, b, ax, time0@, time1@) by {
                assert(out@[a] == if a < out_before.len() {
                    out_before[a]
                } else {
                    x
                });
                if b < out_before.len() {
                    assert(key_at(out_before, a, ax, time0@, time1@) <= key_at(
                        out_before,
                        b,
                        ax,
                        time0@,
                        time1@,
                    ));
                } else {
                    assert(out@[b] == x);
                    if a < out_before.len() {
                        assert(key_at(out_before, a, ax, time0@, time1@) <= key_at(
                            rem_before,
                            best as int,
                            ax,
                            time0@,
                            time1@,
                        ));
                    }
                }
            }
            assert forall|a: int, b: int|
                0 <= a < out@.len() && 0 <= b < rem@.len() implies #[trigger] key_at(
                out@,
                a,
                ax,
                time0@,
                time1@,
            ) <= #[trigger] key_at(rem@, b, ax, time0@, time1@) by {
                assert(rem@[b] == if b < best as int {
                    rem_before[b]
                } else {
                    rem_before[b + 1]
                });
                let bb = if b < best as int {
                    b
                } else {
                    b + 1
                };
                assert(key_at(rem@, b, ax, time0@, time1@) == key_at(
                    rem_before,
                    bb,
                    ax,
                    time0@,
                    time1@,
                ));
                if a < out_before.len() {
                    assert(key_at(out@, a, ax, time0@, time1@) == key_at(
                        out_before,
                        a,
                        ax,
                        time0@,
                        time1@,
                    ));
                } else {
                    assert(out@[a] == x);
                    assert(key_at(out@, a, ax, time0@, time1@) == key_at(
                        rem_before,
                        best as int,
                        ax,
                        time0@,
                        time1@,
                    ));
                }
            }
            assert(rem@.to_multiset() =~= rem_before.to_multiset().remove(rem_before[best as int]));
            assert(out@.to_multiset() =~= out_before.to_multiset().insert(x));
            assert(out@.to_multiset().add(rem@.to_multiset()) =~= orig.to_multiset());
            assert forall|k: int| 0 <= k < rem@.len() implies bounded_tree(*#[trigger] rem@[k]) by {
                if k < best as int {
                    assert(rem@[k] == rem_before[k]);
                } else {
                    assert(rem@[k] == rem_before[k + 1]);
                }
            }
            assert forall|n: int| #[trigger] wf_olist(orig, n) implies wf_olist(out@, n)
                && wf_olist(rem@, n) by {
                assert forall|k: int| 0 <= k < rem@.len() implies wf_hittable(
                    *#[trigger] rem@[k],
                    n,
                ) by {
                    if k < best as int {
                        assert(rem@[k] == rem_before[k]);
                        assert(wf_hittable(*rem_before[k], n));
                    } else {
                        assert(rem@[k] == rem_before[k + 1]);
                        assert(wf_hittable(*rem_before[k + 1], n));
                    }
                }
                assert forall|k: int| 0 <= k < out@.len() implies wf_hittable(
                    *#[trigger] out@[k],
                    n,
                ) by {
                    if k < out_before.len() {
                        assert(wf_hittable(*out_before[k], n));
                    } else {
                        assert(out@[k] == x);
                        assert(wf_hittable(*rem_before[best as int], n));
                    }
                }
            }
        }
    }
    proof {
        vstd::multiset::lemma_multiset_empty_len(rem@.to_multiset());
        assert(rem@.to_multiset().len() == 0);
        assert(rem@.to_multiset() =~= Multiset::empty());
        assert(out@.to_multiset() =~= orig.to_multiset());
        assert(out@.to_multiset() == orig.to_multiset());
    }
    out
}

} // verus!
