use vstd::prelude::*;

verus! {

/// A binary bounding-volume hierarchy. Leaves own one primitive each; every
/// node carries a bounding box `B` that covers all primitives below it.
pub enum BvhNode<T, B> {
    Leaf { object: T, bbox: B },
    Interior { left: Box<BvhNode<T, B>>, right: Box<BvhNode<T, B>>, bbox: B },
}

/// A primitive hit `h` lies within distance `t_max`.
pub open spec fn reaches(h: Option<u64>, t_max: u64) -> bool {
    h is Some && h->0 <= t_max
}

/// The primitive hit test is a function: one primitive and one lower bound
/// give one answer.
///
/// Distances are ray parameters given as order-preserving keys: a smaller key
/// is a nearer point on the ray. `leaf_hit(o, t_min)` answers the nearest hit
/// of primitive `o` at a distance of at least `t_min`, or `None`.
pub open spec fn hit_is_function<T, FH: Fn(T, u64) -> Option<u64>>(leaf_hit: FH) -> bool {
    forall|o: T, lo: u64, h1: Option<u64>, h2: Option<u64>|
        #![trigger leaf_hit.ensures((o, lo), h1), leaf_hit.ensures((o, lo), h2)]
        leaf_hit.ensures((o, lo), h1) && leaf_hit.ensures((o, lo), h2) ==> h1 == h2
}

/// The primitive hit test answers no distance below the lower bound it was
/// given.
pub open spec fn hit_respects_bound<T, FH: Fn(T, u64) -> Option<u64>>(leaf_hit: FH) -> bool {
    forall|o: T, lo: u64, h: Option<u64>|
        #[trigger] leaf_hit.ensures((o, lo), h) && h is Some ==> lo <= h->0
}

/// No primitive of `objects` hits within `[t_min, t_max]`.
pub open spec fn all_miss<T, FH: Fn(T, u64) -> Option<u64>>(
    leaf_hit: FH,
    objects: Seq<T>,
    t_min: u64,
    t_max: u64,
) -> bool {
    forall|i: int, h: Option<u64>|
        0 <= i < objects.len() && #[trigger] leaf_hit.ensures((objects[i], t_min), h) ==> !reaches(
            h,
            t_max,
        )
}

/// `r` is a nearest hit among `objects` no farther than `t_max`: `None` when
/// no primitive hits in range; otherwise a primitive of `objects` with its
/// hit distance, which no other primitive's hit undercuts.
pub open spec fn nearest_hit<T, FH: Fn(T, u64) -> Option<u64>>(
    leaf_hit: FH,
    objects: Seq<T>,
    t_min: u64,
    t_max: u64,
    r: Option<(u64, T)>,
) -> bool {
    match r {
        None => all_miss(leaf_hit, objects, t_min, t_max),
        Some((t, o)) => {
            &&& objects.contains(o)
            &&& leaf_hit.ensures((o, t_min), Some(t))
            &&& t_min <= t <= t_max
            &&& forall|i: int, h: Option<u64>|
                0 <= i < objects.len() && #[trigger] leaf_hit.ensures((objects[i], t_min), h)
                    && h is Some ==> t <= h->0
        },
    }
}

/// `e` is a box that folding `merge` over the `bound` boxes of `objects`,
/// first to last, can give.
pub open spec fn merged_bounds<T, B, FB: Fn(T) -> B, FM: Fn(B, B) -> B>(
    bound: FB,
    merge: FM,
    objects: Seq<T>,
    e: B,
) -> bool
    decreases objects.len(),
{
    if objects.len() <= 1 {
        objects.len() == 1 && bound.ensures((objects[0],), e)
    } else {
        exists|prefix: B, last: B|
            #![trigger merge.ensures((prefix, last), e)]
            merged_bounds(bound, merge, objects.drop_last(), prefix) && bound.ensures(
                (objects.last(),),
                last,
            ) && merge.ensures((prefix, last), e)
    }
}

impl<T, B> BvhNode<T, B> {
    /// The primitives under this node, left subtree first.
    pub open spec fn leaves(&self) -> Seq<T>
        decreases self,
    {
        match self {
            BvhNode::Leaf { object, .. } => seq![*object],
            BvhNode::Interior { left, right, .. } => left.leaves() + right.leaves(),
        }
    }

    /// Nodes on the longest path from here down to a leaf, both ends counted.
    pub open spec fn spec_depth(&self) -> nat
        decreases self,
    {
        match self {
            BvhNode::Leaf { .. } => 1,
            BvhNode::Interior { left, right, .. } => {
                let l = left.spec_depth();
                let r = right.spec_depth();
                1 + if l >= r {
                    l
                } else {
                    r
                }
            },
        }
    }

    pub open spec fn spec_bbox(&self) -> B {
        match self {
            BvhNode::Leaf { bbox, .. } => *bbox,
            BvhNode::Interior { bbox, .. } => *bbox,
        }
    }

    /// Every interior node splits its primitives at the midpoint: the left
    /// child holds half of them, rounded down.
    pub open spec fn split_at_midpoint(&self) -> bool
        decreases self,
    {
        match self {
            BvhNode::Leaf { .. } => true,
            BvhNode::Interior { left, right, .. } => {
                &&& left.leaves().len() == (left.leaves().len() + right.leaves().len()) / 2
                &&& left.split_at_midpoint()
                &&& right.split_at_midpoint()
            },
        }
    }

    /// Every interior node splits the primitives below it by an order that
    /// `arrange` produced for them, given the merge of all their boxes: the
    /// left child holds a leading part of that order.
    pub open spec fn split_by<FB: Fn(T) -> B, FM: Fn(B, B) -> B, FA: Fn(B, Vec<T>) -> Vec<T>>(
        &self,
        bound: FB,
        merge: FM,
        arrange: FA,
    ) -> bool
        decreases self,
    {
        match self {
            BvhNode::Leaf { .. } => true,
            BvhNode::Interior { left, right, .. } => {
                &&& exists|e: B, v: Vec<T>, w: Vec<T>|
                    #![trigger arrange.ensures((e, v), w)]
                    arrange.ensures((e, v), w) && v@.to_multiset() == self.leaves().to_multiset()
                        && merged_bounds(bound, merge, v@, e) && left.leaves().to_multiset()
                        == w@.subrange(0, left.leaves().len() as int).to_multiset()
                &&& left.split_by(bound, merge, arrange)
                &&& right.split_by(bound, merge, arrange)
            },
        }
    }

    /// Each leaf's box is one that `bound` gives for its primitive, and each
    /// interior box is one that `merge` gives for the two child boxes.
    pub open spec fn boxes_from<FB: Fn(T) -> B, FM: Fn(B, B) -> B>(
        &self,
        bound: FB,
        merge: FM,
    ) -> bool
        decreases self,
    {
        match self {
            BvhNode::Leaf { object, bbox } => bound.ensures((*object,), *bbox),
            BvhNode::Interior { left, right, bbox } => {
                &&& merge.ensures((left.spec_bbox(), right.spec_bbox()), *bbox)
                &&& left.boxes_from(bound, merge)
                &&& right.boxes_from(bound, merge)
            },
        }
    }

    /// The box test is conservative at every node: whenever `box_hit` rejects
    /// a node's box for `[t_min, t_max]`, no primitive below that node hits
    /// within that range.
    pub open spec fn boxes_prune<FX: Fn(B, u64, u64) -> bool, FH: Fn(T, u64) -> Option<u64>>(
        &self,
        box_hit: FX,
        leaf_hit: FH,
    ) -> bool
        decreases self,
    {
        &&& forall|lo: u64, hi: u64|
            #[trigger] box_hit.ensures((self.spec_bbox(), lo, hi), false) ==> all_miss(
                leaf_hit,
                self.leaves(),
                lo,
                hi,
            )
        &&& match self {
            BvhNode::Leaf { .. } => true,
            BvhNode::Interior { left, right, .. } => {
                &&& left.boxes_prune(box_hit, leaf_hit)
                &&& right.boxes_prune(box_hit, leaf_hit)
            },
        }
    }
}

impl<T: Copy, B: Copy> BvhNode<T, B> {
    /// Builds a hierarchy over a non-empty list of primitives.
    ///
    /// One primitive becomes a leaf boxed by `bound`. More are enclosed in the
    /// `merge` of all their boxes, put in order by `arrange` (which sees that
    /// enclosing box, and is expected to sort along its longest axis), split
    /// at the middle index, and built into two subtrees whose boxes `merge`
    /// joins.
    pub fn build<FB, FM, FA>(objects: Vec<T>, bound: &FB, merge: &FM, arrange: &FA) -> (r:
        BvhNode<T, B>) where FB: Fn(T) -> B, FM: Fn(B, B) -> B, FA: Fn(B, Vec<T>) -> Vec<T>
        requires
            objects@.len() > 0,
            forall|o: T| bound.requires((o,)),
            forall|a: B, b: B| merge.requires((a, b)),
            forall|e: B, v: Vec<T>| arrange.requires((e, v)),
            forall|e: B, v: Vec<T>, w: Vec<T>|
                #[trigger] arrange.ensures((e, v), w) ==> w@.to_multiset() == v@.to_multiset(),
        ensures
            r.leaves().to_multiset() == objects@.to_multiset(),
            r.split_at_midpoint(),
            r.split_by(*bound, *merge, *arrange),
            r.boxes_from(*bound, *merge),
        decreases objects@.len(),
    {
        broadcast use vstd::seq_lib::group_to_multiset_ensures;

        let n = objects.len();
        if n == 1 {
            let object = objects[0];
            let bbox = bound(object);
            assert(objects@ =~= seq![object]);
            return BvhNode::Leaf { object, bbox };
        }
        let mut enclosing = bound(objects[0]);
        assert(merged_bounds(*bound, *merge, objects@.subrange(0, 1), enclosing));
        let mut i: usize = 1;
        while i < n
            invariant
                1 <= i <= n,
                n == objects@.len(),
                forall|o: T| bound.requires((o,)),
                forall|a: B, b: B| merge.requires((a, b)),
                merged_bounds(*bound, *merge, objects@.subrange(0, i as int), enclosing),
            decreases n - i,
        {
            let b = bound(objects[i]);
            let ghost prefix = enclosing;
            enclosing = merge(enclosing, b);
            proof {
                let s = objects@.subrange(0, i + 1);
                assert(s.drop_last() =~= objects@.subrange(0, i as int));
                assert(s.last() == objects@[i as int]);
                assert(merge.ensures((prefix, b), enclosing));
            }
            i = i + 1;
        }
        assert(objects@.subrange(0, n as int) =~= objects@);
        let ghost input = objects@;
        let ghost given = objects;
        let mut ordered = arrange(enclosing, objects);
        let ghost arranged = ordered;
        assert(ordered@.to_multiset() == input.to_multiset());
        assert(ordered@.to_multiset().len() == ordered@.len());
        assert(input.to_multiset().len() == input.len());
        let mid = n / 2;
        let ghost whole = ordered@;
        let upper = ordered.split_off(mid);
        let ghost ordered_left = ordered@;
        proof {
            assert(ordered@.to_multiset().len() == mid);
            assert(upper@.to_multiset().len() == n - mid);
            assert(whole =~= ordered@ + upper@);
            vstd::seq_lib::lemma_multiset_commutative(ordered@, upper@);
        }
        let left = BvhNode::build(ordered, bound, merge, arrange);
        let right = BvhNode::build(upper, bound, merge, arrange);
        let bbox = merge(left.bounding_box(), right.bounding_box());
        let r = BvhNode::Interior { left: Box::new(left), right: Box::new(right), bbox };
        proof {
            assert(left.leaves().to_multiset().len() == left.leaves().len());
            assert(right.leaves().to_multiset().len() == right.leaves().len());
            vstd::seq_lib::lemma_multiset_commutative(left.leaves(), right.leaves());
            assert(r.leaves() == left.leaves() + right.leaves());
            assert(arrange.ensures((enclosing, given), arranged));
            assert(arranged@.subrange(0, mid as int) == whole.subrange(0, mid as int));
            assert(whole.subrange(0, mid as int) =~= ordered_left);
        }
        r
    }

    /// The box of this node.
    pub fn bounding_box(&self) -> (r: B)
        ensures
            r == self.spec_bbox(),
    {
        match self {
            BvhNode::Leaf { bbox, .. } => *bbox,
            BvhNode::Interior { bbox, .. } => *bbox,
        }
    }
}


impl<T: Copy, B: Copy> BvhNode<T, B> {
    /// Finds a nearest primitive hit within `[t_min, t_max]`.
    ///
    /// A node whose box `box_hit` rejects is skipped whole. At an interior
    /// node the left subtree is searched first; the right one is then searched
    /// only up to the left hit's distance, and its hit, if any, is preferred.
    pub fn hit<FX, FH>(&self, box_hit: &FX, leaf_hit: &FH, t_min: u64, t_max: u64) -> (r: Option<
        (u64, T),
    >) where FX: Fn(B, u64, u64) -> bool, FH: Fn(T, u64) -> Option<u64>
        requires
            forall|b: B, lo: u64, hi: u64| box_hit.requires((b, lo, hi)),
            forall|o: T, lo: u64| leaf_hit.requires((o, lo)),
            hit_is_function(*leaf_hit),
            hit_respects_bound(*leaf_hit),
            self.boxes_prune(*box_hit, *leaf_hit),
        ensures
            nearest_hit(*leaf_hit, self.leaves(), t_min, t_max, r),
        decreases self,
    {
        match self {
            BvhNode::Leaf { object, bbox } => {
                if !box_hit(*bbox, t_min, t_max) {
                    proof {
                        assert(self.spec_bbox() == *bbox);
                        assert(box_hit.ensures((self.spec_bbox(), t_min, t_max), false));
                    }
                    return None;
                }
                let h = leaf_hit(*object, t_min);
                proof {
                    assert(self.leaves()[0] == *object);
                }
                match h {
                    Some(t) => {
                        if t <= t_max {
                            Some((t, *object))
                        } else {
                            None
                        }
                    },
                    None => None,
                }
            },
            BvhNode::Interior { left, right, bbox } => {
                if !box_hit(*bbox, t_min, t_max) {
                    proof {
                        assert(self.spec_bbox() == *bbox);
                        assert(box_hit.ensures((self.spec_bbox(), t_min, t_max), false));
                    }
                    return None;
                }
                let hit_left = left.hit(box_hit, leaf_hit, t_min, t_max);
                let far = match hit_left {
                    Some((t, _)) => t,
                    None => t_max,
                };
                let hit_right = right.hit(box_hit, leaf_hit, t_min, far);
                let ghost ls = left.leaves();
                let ghost rs = right.leaves();
                proof {
                    assert(self.leaves() == ls + rs);
                    assert forall|i: int|
                        0 <= i < (ls + rs).len() implies #[trigger] (ls + rs)[i] == if i < ls.len() {
                        ls[i]
                    } else {
                        rs[i - ls.len()]
                    } by {}
                }
                match hit_right {
                    Some(found) => {
                        proof {
                            let (t, o) = found;
                            let j = choose|j: int| 0 <= j < rs.len() && rs[j] == o;
                            assert((ls + rs)[ls.len() + j] == o);
                            assert forall|i: int, h: Option<u64>|
                                0 <= i < (ls + rs).len() && #[trigger] leaf_hit.ensures(
                                    ((ls + rs)[i], t_min),
                                    h,
                                ) && h is Some implies t <= h->0 by {
                                if i >= ls.len() {
                                    assert(leaf_hit.ensures((rs[i - ls.len()], t_min), h));
                                } else {
                                    assert(leaf_hit.ensures((ls[i], t_min), h));
                                }
                            }
                        }
                        Some(found)
                    },
                    None => {
                        proof {
                            match hit_left {
                                Some((t, o)) => {
                                    let j = choose|j: int| 0 <= j < ls.len() && ls[j] == o;
                                    assert((ls + rs)[j] == o);
                                    assert forall|i: int, h: Option<u64>|
                                        0 <= i < (ls + rs).len() && #[trigger] leaf_hit.ensures(
                                            ((ls + rs)[i], t_min),
                                            h,
                                        ) && h is Some implies t <= h->0 by {
                                        if i >= ls.len() {
                                            assert(leaf_hit.ensures((rs[i - ls.len()], t_min), h));
                                        } else {
                                            assert(leaf_hit.ensures((ls[i], t_min), h));
                                        }
                                    }
                                },
                                None => {
                                    assert forall|i: int, h: Option<u64>|
                                        0 <= i < (ls + rs).len() && #[trigger] leaf_hit.ensures(
                                            ((ls + rs)[i], t_min),
                                            h,
                                        ) implies !reaches(h, t_max) by {
                                        if i >= ls.len() {
                                            assert(leaf_hit.ensures((rs[i - ls.len()], t_min), h));
                                        } else {
                                            assert(leaf_hit.ensures((ls[i], t_min), h));
                                        }
                                    }
                                },
                            }
                        }
                        hit_left
                    },
                }
            },
        }
    }

    /// Number of primitives in the hierarchy.
    pub fn leaf_count(&self) -> (r: usize)
        requires
            self.leaves().len() <= usize::MAX,
        ensures
            r == self.leaves().len(),
        decreases self,
    {
        match self {
            BvhNode::Leaf { .. } => 1,
            BvhNode::Interior { left, right, .. } => {
                assert(self.leaves().len() == left.leaves().len() + right.leaves().len());
                left.leaf_count() + right.leaf_count()
            },
        }
    }

    /// Nodes on the longest path from the root to a leaf.
    pub fn depth(&self) -> (r: usize)
        requires
            self.leaves().len() <= usize::MAX,
        ensures
            r == self.spec_depth(),
        decreases self,
    {
        proof {
            self.lemma_depth_bounded();
        }
        match self {
            BvhNode::Leaf { .. } => 1,
            BvhNode::Interior { left, right, .. } => {
                assert(self.leaves().len() == left.leaves().len() + right.leaves().len());
                let l = left.depth();
                let r = right.depth();
                if l >= r {
                    1 + l
                } else {
                    1 + r
                }
            },
        }
    }
}

impl<T, B> BvhNode<T, B> {
    /// A path from the root never holds more nodes than there are leaves.
    pub proof fn lemma_depth_bounded(&self)
        ensures
            self.spec_depth() <= self.leaves().len(),
        decreases self,
    {
        match self {
            BvhNode::Leaf { .. } => {},
            BvhNode::Interior { left, right, .. } => {
                left.lemma_depth_bounded();
                right.lemma_depth_bounded();
                assert(self.leaves().len() == left.leaves().len() + right.leaves().len());
                assert(left.leaves().len() >= 1) by {
                    left.lemma_has_leaf();
                }
                assert(right.leaves().len() >= 1) by {
                    right.lemma_has_leaf();
                }
            },
        }
    }

    /// Every node has at least one primitive below it.
    pub proof fn lemma_has_leaf(&self)
        ensures
            self.leaves().len() >= 1,
        decreases self,
    {
        match self {
            BvhNode::Leaf { .. } => {},
            BvhNode::Interior { left, right, .. } => {
                left.lemma_has_leaf();
            },
        }
    }
}

/// Tests every primitive in turn and keeps the nearest hit within
/// `[t_min, t_max]`; of equally near hits the later one is kept.
pub fn scan<T: Copy, FH>(objects: &Vec<T>, leaf_hit: &FH, t_min: u64, t_max: u64) -> (r: Option<
    (u64, T),
>) where FH: Fn(T, u64) -> Option<u64>
    requires
        forall|o: T, lo: u64| leaf_hit.requires((o, lo)),
        hit_is_function(*leaf_hit),
        hit_respects_bound(*leaf_hit),
    ensures
        nearest_hit(*leaf_hit, objects@, t_min, t_max, r),
{
    let mut best: Option<(u64, T)> = None;
    let mut closest = t_max;
    let mut i: usize = 0;
    while i < objects.len()
        invariant
            forall|o: T, lo: u64| leaf_hit.requires((o, lo)),
            hit_is_function(*leaf_hit),
            hit_respects_bound(*leaf_hit),
            i <= objects@.len(),
            nearest_hit(*leaf_hit, objects@.subrange(0, i as int), t_min, t_max, best),
            closest == match best {
                Some((t, _)) => t,
                None => t_max,
            },
        decreases objects@.len() - i,
    {
        let o = objects[i];
        let h = leaf_hit(o, t_min);
        let ghost prev = objects@.subrange(0, i as int);
        let ghost next = objects@.subrange(0, i + 1);
        proof {
            assert(next == prev.push(o));
            assert(next[i as int] == o);
        }
        let mut taken = false;
        match h {
            Some(t) => {
                if t <= closest {
                    best = Some((t, o));
                    closest = t;
                    taken = true;
                }
            },
            None => {},
        }
        proof {
            if taken {
                assert forall|k: int, g: Option<u64>|
                    0 <= k < next.len() && #[trigger] leaf_hit.ensures((next[k], t_min), g)
                        && g is Some implies closest <= g->0 by {
                    if k < i {
                        assert(next[k] == prev[k]);
                        assert(leaf_hit.ensures((prev[k], t_min), g));
                    }
                }
            } else {
                match best {
                    Some((bt, bo)) => {
                        let j = choose|j: int| 0 <= j < prev.len() && prev[j] == bo;
                        assert(next[j] == bo);
                        assert forall|k: int, g: Option<u64>|
                            0 <= k < next.len() && #[trigger] leaf_hit.ensures((next[k], t_min), g)
                                && g is Some implies bt <= g->0 by {
                            if k < i {
                                assert(next[k] == prev[k]);
                                assert(leaf_hit.ensures((prev[k], t_min), g));
                            }
                        }
                    },
                    None => {
                        assert forall|k: int, g: Option<u64>|
                            0 <= k < next.len() && #[trigger] leaf_hit.ensures((next[k], t_min), g)
                                implies !reaches(g, t_max) by {
                            if k < i {
                                assert(next[k] == prev[k]);
                                assert(leaf_hit.ensures((prev[k], t_min), g));
                            }
                        }
                    },
                }
            }
        }
        i = i + 1;
    }
    proof {
        assert(objects@.subrange(0, objects@.len() as int) == objects@);
    }
    best
}

/// A search of a hierarchy and a linear scan over the same primitives
/// agree: either both find a hit within range or neither does, and when
/// they do, at the same distance.
pub proof fn lemma_hierarchy_agrees_with_scan<T, FH: Fn(T, u64) -> Option<u64>>(
    leaf_hit: FH,
    tree_objects: Seq<T>,
    scanned: Seq<T>,
    t_min: u64,
    t_max: u64,
    from_tree: Option<(u64, T)>,
    from_scan: Option<(u64, T)>,
)
    requires
        hit_is_function(leaf_hit),
        tree_objects.to_multiset() == scanned.to_multiset(),
        nearest_hit(leaf_hit, tree_objects, t_min, t_max, from_tree),
        nearest_hit(leaf_hit, scanned, t_min, t_max, from_scan),
    ensures
        from_tree is Some <==> from_scan is Some,
        from_tree is Some ==> (from_tree->0).0 == (from_scan->0).0,
{
    lemma_nearest_dominates(leaf_hit, tree_objects, scanned, t_min, t_max, from_tree, from_scan);
    lemma_nearest_dominates(leaf_hit, scanned, tree_objects, t_min, t_max, from_scan, from_tree);
}

/// A hit found among `a` is matched or undercut by any nearest hit among a
/// rearrangement `b` of the same primitives.
proof fn lemma_nearest_dominates<T, FH: Fn(T, u64) -> Option<u64>>(
    leaf_hit: FH,
    a: Seq<T>,
    b: Seq<T>,
    t_min: u64,
    t_max: u64,
    ra: Option<(u64, T)>,
    rb: Option<(u64, T)>,
)
    requires
        hit_is_function(leaf_hit),
        a.to_multiset() == b.to_multiset(),
        nearest_hit(leaf_hit, a, t_min, t_max, ra),
        nearest_hit(leaf_hit, b, t_min, t_max, rb),
    ensures
        ra is Some ==> rb is Some && (rb->0).0 <= (ra->0).0,
{
    broadcast use vstd::seq_lib::group_to_multiset_ensures;

    if let Some((t, o)) = ra {
        assert(a.to_multiset().count(o) > 0);
        assert(b.contains(o));
        let j = choose|j: int| 0 <= j < b.len() && b[j] == o;
        assert(leaf_hit.ensures((b[j], t_min), Some(t)));
    }
}


/// The axis (0 for x, 1 for y, 2 for z) along which a box is longest, given
/// its three extents as order-preserving keys; a tie goes to the earlier axis.
pub fn longest_axis(dx: u64, dy: u64, dz: u64) -> (r: usize)
    ensures
        r < 3,
        r == 0 <==> dx >= dy && dx >= dz,
        r == 1 <==> !(dx >= dy && dx >= dz) && dy >= dz,
{
    if dx >= dy && dx >= dz {
        0
    } else if dy >= dz {
        1
    } else {
        2
    }
}

} // verus!
