use crate::aabb::Aabb;
use crate::random::random_upto;
use crate::scan::{
    closest_hit_query, deterministic, lemma_call_is_out, lemma_closest_unique, lemma_scan_acc,
    lemma_scan_all_miss, lemma_scan_append, lemma_scan_closest, no_ties, prim_out, scan,
};
use vstd::prelude::*;
use vstd::seq_lib::*;

verus! {

broadcast use group_to_multiset_ensures;

/// A node of a bounding volume hierarchy over primitives numbered `0..n`.
/// A leaf holds one primitive; an inner node holds two subtrees, split along
/// `axis`, and the box that surrounds both.
#[derive(Debug)]
pub enum BvhNode {
    Leaf { prim: usize, bbox: Aabb },
    Inner { axis: usize, left: Box<BvhNode>, right: Box<BvhNode>, bbox: Aabb },
}

/// Why a hierarchy cannot be built.
#[derive(Debug, PartialEq, Eq, Structural, Clone, Copy)]
pub enum BvhError {
    /// There is no primitive to build it over.
    Empty,
}

/// Sort key of primitive `i` along `axis`: the minimum of its box there.
pub open spec fn key_at(boxes: Seq<Aabb>, i: usize, axis: usize) -> u64 {
    boxes[i as int].minimum[axis as int]
}

/// `items` are in order of their key along `axis`.
pub open spec fn sorted_on(boxes: Seq<Aabb>, items: Seq<usize>, axis: usize) -> bool {
    forall|p: int, q: int|
        0 <= p < q < items.len() ==> key_at(boxes, items[p], axis) <= key_at(
            boxes,
            items[q],
            axis,
        )
}

/// Every item numbers one of the boxes.
pub open spec fn all_below(items: Seq<usize>, n: nat) -> bool {
    forall|p: int| 0 <= p < items.len() ==> items[p] < n
}

/// The numbers `0..n`.
pub open spec fn indices(n: nat) -> Seq<usize> {
    Seq::new(n, |i: int| i as usize)
}

impl BvhNode {
    /// The primitives of the tree, left to right.
    pub open spec fn prims(self) -> Seq<usize>
        decreases self,
    {
        match self {
            BvhNode::Leaf { prim, .. } => seq![prim],
            BvhNode::Inner { left, right, .. } => left.prims() + right.prims(),
        }
    }

    /// The box stored at the node.
    pub open spec fn bbox_spec(self) -> Aabb {
        match self {
            BvhNode::Leaf { bbox, .. } => bbox,
            BvhNode::Inner { bbox, .. } => bbox,
        }
    }

    /// The tree is built over `boxes`: a leaf stores its primitive's box; an
    /// inner node stores the box surrounding its subtrees, its left subtree
    /// holds half of its primitives (rounded down), and no primitive on the
    /// left has a larger key along the node's axis than one on the right.
    pub open spec fn wf(self, boxes: Seq<Aabb>) -> bool
        decreases self,
    {
        match self {
            BvhNode::Leaf { prim, bbox } => prim < boxes.len() && bbox == boxes[prim as int],
            BvhNode::Inner { axis, left, right, bbox } => {
                &&& axis < 3
                &&& left.wf(boxes)
                &&& right.wf(boxes)
                &&& bbox == Aabb::union_spec(left.bbox_spec(), right.bbox_spec())
                &&& left.prims().len() == (left.prims().len() + right.prims().len()) / 2
                &&& forall|i: usize, j: usize|
                    left.prims().contains(i) && right.prims().contains(j) ==> key_at(
                        boxes,
                        i,
                        axis,
                    ) <= key_at(boxes, j, axis)
            },
        }
    }

    /// The box test is conservative at every inner node: where `box_hit`
    /// says a ray misses the node's box below `t`, `prim_hit` finds none of
    /// the node's primitives below `t`.
    pub open spec fn bounded<H, B: Fn(Aabb, u64) -> bool, P: Fn(usize, u64) -> Option<(u64, H)>>(
        self,
        box_hit: B,
        prim_hit: P,
    ) -> bool
        decreases self,
    {
        match self {
            BvhNode::Leaf { .. } => true,
            BvhNode::Inner { left, right, bbox, .. } => {
                &&& forall|t: u64, p: usize|
                    box_hit.ensures((bbox, t), false) && self.prims().contains(p)
                        ==> #[trigger] prim_out(prim_hit, p, t) is None
                &&& left.bounded(box_hit, prim_hit)
                &&& right.bounded(box_hit, prim_hit)
            },
        }
    }

    /// Closest hit below `t_max` among the tree's primitives. `box_hit(b, t)`
    /// tests a ray against box `b` below `t`; `prim_hit(p, t)` intersects the
    /// ray with primitive `p` below `t` and gives the hit's distance key and
    /// record. A subtree whose box is missed is skipped; the right subtree is
    /// searched below the distance of the left subtree's hit, if there is one,
    /// and its hit, if there is one, is the closer.
    ///
    /// For a pure `prim_hit` and conservative box tests, the answer is that of
    /// the brute-force scan of the tree's primitives.
    pub fn hit<H, B: Fn(Aabb, u64) -> bool, P: Fn(usize, u64) -> Option<(u64, H)>>(
        &self,
        t_max: u64,
        box_hit: &B,
        prim_hit: &P,
    ) -> (r: Option<(u64, H)>)
        requires
            forall|b: Aabb, t: u64| box_hit.requires((b, t)),
            forall|p: usize, t: u64| prim_hit.requires((p, t)),
            deterministic(*prim_hit),
            self.bounded(*box_hit, *prim_hit),
        ensures
            scan(*prim_hit, self.prims(), t_max, None) == (
            match r {
                Some(h) => h.0,
                None => t_max,
            },
            r,
            ),
        decreases self,
    {
        match self {
            BvhNode::Leaf { prim, .. } => {
                let r = prim_hit(*prim, t_max);
                proof {
                    lemma_call_is_out(*prim_hit, *prim, t_max, r);
                    assert(self.prims().drop_first() =~= Seq::<usize>::empty());
                    reveal_with_fuel(scan, 2);
                }
                r
            },
            BvhNode::Inner { left, right, bbox, .. } => {
                let inside = box_hit(*bbox, t_max);
                if !inside {
                    proof {
                        let s = self.prims();
                        assert forall|i: int| 0 <= i < s.len() implies prim_out(
                            *prim_hit,
                            s[i],
                            t_max,
                        ) is None by {
                            assert(s.contains(s[i]));
                        }
                        lemma_scan_all_miss(*prim_hit, s, t_max, None);
                    }
                    return None;
                }
                let l = left.hit(t_max, box_hit, prim_hit);
                let t1 = match &l {
                    Some(h) => h.0,
                    None => t_max,
                };
                let r = right.hit(t1, box_hit, prim_hit);
                proof {
                    lemma_scan_append(*prim_hit, left.prims(), right.prims(), t_max, None);
                    lemma_scan_acc(*prim_hit, right.prims(), t1, l);
                }
                match r {
                    Some(h) => Some(h),
                    None => l,
                }
            },
        }
    }

    /// Builds the hierarchy over the primitives whose boxes are `boxes`, the
    /// primitive numbered `i` having box `boxes[i]`. Each primitive ends in
    /// exactly one leaf. Split axes are drawn at random.
    pub fn new(boxes: &Vec<Aabb>) -> (r: Result<BvhNode, BvhError>)
        ensures
            r is Err <==> boxes@.len() == 0,
            r matches Ok(t) ==> t.wf(boxes@) && t.prims().to_multiset() == indices(
                boxes@.len(),
            ).to_multiset(),
    {
        if boxes.len() == 0 {
            return Err(BvhError::Empty);
        }
        let mut items: Vec<usize> = Vec::new();
        let mut i: usize = 0;
        while i < boxes.len()
            invariant
                i <= boxes@.len(),
                items@ == indices(i as nat),
            decreases boxes@.len() - i,
        {
            items.push(i);
            i = i + 1;
            assert(items@ =~= indices(i as nat));
        }
        Ok(BvhNode::from_range(boxes, items))
    }

    /// The primitives of the tree, left to right.
    pub fn primitives(&self) -> (r: Vec<usize>)
        ensures
            r@ == self.prims(),
        decreases self,
    {
        match self {
            BvhNode::Leaf { prim, .. } => {
                let r = vec![*prim];
                assert(r@ =~= seq![*prim]);
                r
            },
            BvhNode::Inner { left, right, .. } => {
                let mut a = left.primitives();
                let mut b = right.primitives();
                a.append(&mut b);
                a
            },
        }
    }

    /// The box that the node stores.
    pub fn bounding_box(&self) -> (r: Aabb)
        ensures
            r == self.bbox_spec(),
    {
        match self {
            BvhNode::Leaf { bbox, .. } => *bbox,
            BvhNode::Inner { bbox, .. } => *bbox,
        }
    }

    /// Builds the subtree over `items`, numbers of boxes in `boxes`.
    fn from_range(boxes: &Vec<Aabb>, items: Vec<usize>) -> (r: BvhNode)
        requires
            items@.len() > 0,
            all_below(items@, boxes@.len()),
        ensures
            r.wf(boxes@),
            r.prims().to_multiset() == items@.to_multiset(),
        decreases items@.len(),
    {
        let axis = random_upto(2);
        let len = items.len();
        if len == 1 {
            let prim = items[0];
            assert(items@ =~= seq![prim]);
            BvhNode::Leaf { prim, bbox: boxes[prim] }
        } else if len == 2 {
            let mut a = items[0];
            let mut b = items[1];
            assert(items@ =~= seq![a].push(b));
            assert(seq![a].push(b).to_multiset() =~= seq![b].push(a).to_multiset());
            if boxes[a].minimum[axis] > boxes[b].minimum[axis] {
                let t = a;
                a = b;
                b = t;
            }
            let left = BvhNode::Leaf { prim: a, bbox: boxes[a] };
            let right = BvhNode::Leaf { prim: b, bbox: boxes[b] };
            let bbox = Aabb::surrounding_box(boxes[a], boxes[b]);
            assert(left.wf(boxes@) && right.wf(boxes@));
            assert(left.prims() + right.prims() =~= seq![a].push(b));
            assert forall|i: usize, j: usize|
                left.prims().contains(i) && right.prims().contains(j) implies key_at(
                boxes@,
                i,
                axis,
            ) <= key_at(boxes@, j, axis) by {
                assert(left.prims()[0] == a);
                assert(right.prims()[0] == b);
            }
            BvhNode::Inner { axis, left: Box::new(left), right: Box::new(right), bbox }
        } else {
            let mut sorted = sort_on_axis(boxes, &items, axis);
            let mid = len / 2;
            let ghost whole = sorted@;
            assert(whole.to_multiset().len() == whole.len());
            assert(items@.to_multiset().len() == items@.len());
            let upper = sorted.split_off(mid);
            let ghost lo = sorted@;
            let ghost hi = upper@;
            assert(whole =~= lo + hi);
            let left = BvhNode::from_range(boxes, sorted);
            let right = BvhNode::from_range(boxes, upper);
            let ghost lp = left.prims();
            let ghost rp = right.prims();
            assert forall|i: usize, j: usize| lp.contains(i) && rp.contains(j) implies key_at(
                boxes@,
                i,
                axis,
            ) <= key_at(boxes@, j, axis) by {
                assert(lp.to_multiset().count(i) > 0);
                assert(rp.to_multiset().count(j) > 0);
                assert(lo.contains(i));
                assert(hi.contains(j));
                let p0 = choose|p: int| 0 <= p < lo.len() && lo[p] == i;
                let q0 = choose|q: int| 0 <= q < hi.len() && hi[q] == j;
                assert(whole[p0] == i);
                assert(whole[mid + q0] == j);
            }
            proof {
                lemma_multiset_commutative(lp, rp);
                lemma_multiset_commutative(lo, hi);
                assert(lp.to_multiset().len() == lp.len());
                assert(rp.to_multiset().len() == rp.len());
                assert(lo.to_multiset().len() == lo.len());
                assert(hi.to_multiset().len() == hi.len());
            }
            let bbox = Aabb::surrounding_box(left.bounding_box(), right.bounding_box());
            BvhNode::Inner { axis, left: Box::new(left), right: Box::new(right), bbox }
        }
    }
}

/// The items in order of their key along `axis`, by insertion.
fn sort_on_axis(boxes: &Vec<Aabb>, items: &Vec<usize>, axis: usize) -> (r: Vec<usize>)
    requires
        axis < 3,
        all_below(items@, boxes@.len()),
    ensures
        r@.to_multiset() == items@.to_multiset(),
        sorted_on(boxes@, r@, axis),
        all_below(r@, boxes@.len()),
{
    let mut r: Vec<usize> = Vec::new();
    let mut i: usize = 0;
    while i < items.len()
        invariant
            axis < 3,
            i <= items@.len(),
            all_below(items@, boxes@.len()),
            all_below(r@, boxes@.len()),
            sorted_on(boxes@, r@, axis),
            r@.to_multiset() == items@.subrange(0, i as int).to_multiset(),
        decreases items@.len() - i,
    {
        let x = items[i];
        let k = boxes[x].minimum[axis];
        let mut p: usize = 0;
        while p < r.len() && boxes[r[p]].minimum[axis] <= k
            invariant
                axis < 3,
                p <= r@.len(),
                all_below(r@, boxes@.len()),
                forall|q: int| 0 <= q < p ==> key_at(boxes@, r@[q], axis) <= k,
            decreases r@.len() - p,
        {
            p = p + 1;
        }
        let ghost old_r = r@;
        r.insert(p, x);
        proof {
            old_r.insert_ensures(p as int, x);
            assert(items@.subrange(0, i + 1) =~= items@.subrange(0, i as int).push(x));
            assert forall|a: int, b: int| 0 <= a < b < r@.len() implies key_at(
                boxes@,
                r@[a],
                axis,
            ) <= key_at(boxes@, r@[b], axis) by {
                if b < p {
                } else if b == p {
                } else if a < p {
                    assert(r@[b] == old_r[b - 1]);
                    if p < old_r.len() {
                        assert(key_at(boxes@, old_r[p as int], axis) > k);
                    }
                } else if a == p {
                    assert(r@[b] == old_r[b - 1]);
                    assert(key_at(boxes@, old_r[p as int], axis) > k);
                } else {
                    assert(r@[a] == old_r[a - 1]);
                    assert(r@[b] == old_r[b - 1]);
                }
            }
        }
        i = i + 1;
    }
    assert(items@.subrange(0, i as int) =~= items@);
    r
}

/// Box tests are conservative: where `box_hit` says a ray misses box `b`
/// below `t`, `prim_hit` finds no primitive whose box lies within `b` below `t`.
pub open spec fn conservative<H, B: Fn(Aabb, u64) -> bool, P: Fn(usize, u64) -> Option<(u64, H)>>(
    box_hit: B,
    prim_hit: P,
    boxes: Seq<Aabb>,
) -> bool {
    forall|b: Aabb, t: u64, p: usize|
        #[trigger] box_hit.ensures((b, t), false) && p < boxes.len() && b.contains(boxes[p as int])
            ==> #[trigger] prim_out(prim_hit, p, t) is None
}

/// The box of a well-formed tree contains the box of each of its primitives.
pub proof fn lemma_bbox_contains_prims(tree: BvhNode, boxes: Seq<Aabb>)
    requires
        tree.wf(boxes),
    ensures
        forall|p: usize|
            tree.prims().contains(p) ==> p < boxes.len() && tree.bbox_spec().contains(
                boxes[p as int],
            ),
    decreases tree,
{
    match tree {
        BvhNode::Leaf { prim, bbox } => {
            assert forall|p: usize| tree.prims().contains(p) implies p < boxes.len()
                && tree.bbox_spec().contains(boxes[p as int]) by {
                assert(tree.prims()[0] == prim);
            }
        },
        BvhNode::Inner { left, right, bbox, .. } => {
            lemma_bbox_contains_prims(*left, boxes);
            lemma_bbox_contains_prims(*right, boxes);
            let u = Aabb::union_spec(left.bbox_spec(), right.bbox_spec());
            assert forall|a: int| 0 <= a < 3 implies u.minimum[a] <= left.bbox_spec().minimum[a]
                && u.minimum[a] <= right.bbox_spec().minimum[a] && left.bbox_spec().maximum[a]
                <= u.maximum[a] && right.bbox_spec().maximum[a] <= u.maximum[a] by {}
            assert forall|p: usize| tree.prims().contains(p) implies p < boxes.len()
                && tree.bbox_spec().contains(boxes[p as int]) by {
                let s = tree.prims();
                let i = choose|i: int| 0 <= i < s.len() && s[i] == p;
                if i < left.prims().len() {
                    assert(left.prims()[i] == p);
                    assert(left.prims().contains(p));
                } else {
                    assert(right.prims()[i - left.prims().len()] == p);
                    assert(right.prims().contains(p));
                }
            }
        },
    }
}

/// Conservative box tests make the tests at every node of a well-formed tree
/// conservative.
pub proof fn lemma_conservative_bounded<H, B: Fn(Aabb, u64) -> bool, P: Fn(usize, u64) -> Option<(u64, H)>>(
    tree: BvhNode,
    boxes: Seq<Aabb>,
    box_hit: B,
    prim_hit: P,
)
    requires
        tree.wf(boxes),
        conservative(box_hit, prim_hit, boxes),
    ensures
        tree.bounded(box_hit, prim_hit),
    decreases tree,
{
    if let BvhNode::Inner { left, right, bbox, .. } = tree {
        lemma_bbox_contains_prims(tree, boxes);
        lemma_conservative_bounded(*left, boxes, box_hit, prim_hit);
        lemma_conservative_bounded(*right, boxes, box_hit, prim_hit);
    }
}

/// A hierarchy built over `boxes` answers a closest-hit query as the
/// brute-force scan of the primitives `0..n` in their own order does: both find
/// a hit or neither does, at the same distance, and the same hit where no two
/// primitives are hit at one distance. `BvhNode::hit` gives the scan of the
/// tree's own order.
pub proof fn lemma_bvh_agrees_with_scan<H, P: Fn(usize, u64) -> Option<(u64, H)>>(
    tree: BvhNode,
    boxes: Seq<Aabb>,
    prim_hit: P,
    t_max: u64,
)
    requires
        tree.wf(boxes),
        tree.prims().to_multiset() == indices(boxes.len()).to_multiset(),
        closest_hit_query(prim_hit),
    ensures
        ({
            let by_tree = scan(prim_hit, tree.prims(), t_max, None).1;
            let by_list = scan(prim_hit, indices(boxes.len()), t_max, None).1;
            &&& by_tree is None <==> by_list is None
            &&& by_tree matches Some(a) ==> by_list matches Some(b) && a.0 == b.0
            &&& no_ties(prim_hit, indices(boxes.len()), t_max) ==> by_tree == by_list
        }),
{
    let s1 = tree.prims();
    let s2 = indices(boxes.len());
    assert forall|p: usize| s1.contains(p) <==> s2.contains(p) by {
        assert(s1.contains(p) <==> s1.to_multiset().count(p) > 0);
        assert(s2.contains(p) <==> s2.to_multiset().count(p) > 0);
    }
    lemma_scan_closest(prim_hit, s1, t_max);
    lemma_scan_closest(prim_hit, s2, t_max);
    let r1 = scan(prim_hit, s1, t_max, None).1;
    let r2 = scan(prim_hit, s2, t_max, None).1;
    lemma_closest_unique(prim_hit, s2, s1, t_max, r2, r1);
}

} // verus!
