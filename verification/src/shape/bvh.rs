//! A flattened median-split bounding volume hierarchy over scaled integer
//! points, laid out for consumption by a GPU kernel.

use vstd::prelude::*;
use vstd::seq_lib::*;

use crate::shape::sorting::{
    ascending, follows, keeps_order, lemma_stable_sort_unique, stable_sorted,
};
use crate::shape::types::Position;
use crate::shape::words::{le_bytes, push_signed_word, push_word, word_of, words_le};
use crate::shape::words::lemma_words_le_concat;

verus! {

/// A leaf holds at most this many points.
pub const MAX_LEAF_SIZE: usize = 8;

/// The largest point set a hierarchy can index with 32-bit node indices.
pub const MAX_POINTS: usize = 0xffff_ffff;

/// One node of the flattened hierarchy.
///
/// For an internal node `left_first` and `right_child` are node indices and
/// `count` is zero. For a leaf `left_first` is the index of its first point,
/// `right_child` is zero and `count` is the number of its points.
#[derive(Debug, Clone, Copy, PartialEq, Eq, Structural)]
pub struct BvhNode {
    pub min_lat: i32,
    pub max_lat: i32,
    pub min_lon: i32,
    pub max_lon: i32,
    pub left_first: u32,
    pub right_child: u32,
    pub count: u32,
}

/// A hierarchy over `points`, which are `(lon, lat)` pairs in traversal
/// order, so that every leaf indexes a contiguous range of them.
#[derive(Debug, Clone)]
pub struct PointBvh {
    pub nodes: Vec<BvhNode>,
    pub points: Vec<(i32, i32)>,
}

/// The coordinate of `p` along the latitude or the longitude axis.
pub open spec fn axis_value(p: (i32, i32), on_lat: bool) -> int {
    if on_lat {
        p.1 as int
    } else {
        p.0 as int
    }
}

/// `points` read through `indices`: element `i` is `points[indices[i]]`.
pub open spec fn arranged(points: Seq<(i32, i32)>, indices: Seq<usize>) -> Seq<(i32, i32)> {
    Seq::new(indices.len(), |i: int| points[indices[i] as int])
}

/// The sequence `0, 1, .., n - 1`.
pub open spec fn identity_order(n: nat) -> Seq<usize> {
    Seq::new(n, |i: int| i as usize)
}

/// Whether `order` lists each of `0, .., n - 1` exactly once.
pub open spec fn is_order(order: Seq<usize>, n: nat) -> bool {
    order.to_multiset() == identity_order(n).to_multiset()
}

/// Whether `out` holds the elements of `input` in some other order.
pub open spec fn is_reordering(out: Seq<(i32, i32)>, input: Seq<(i32, i32)>) -> bool {
    exists|order: Seq<usize>| #[trigger] is_order(order, input.len()) && out == arranged(input, order)
}

/// The `(lon, lat)` pairs of `positions`.
pub open spec fn coordinate_pairs(positions: Seq<Position>) -> Seq<(i32, i32)> {
    Seq::new(positions.len(), |i: int| (positions[i].x, positions[i].y))
}

/// The number of nodes in the hierarchy over `count` points.
pub open spec fn node_count(count: nat) -> nat
    decreases count,
{
    if count <= MAX_LEAF_SIZE {
        1
    } else {
        1 + node_count(count / 2) + node_count((count - count / 2) as nat)
    }
}

/// Whether the box of `node` contains `pts[start..end]` and touches a point
/// on each of its four sides.
pub open spec fn tight_bounds(node: BvhNode, pts: Seq<(i32, i32)>, start: int, end: int) -> bool {
    &&& forall|i: int|
        start <= i < end ==> {
            &&& node.min_lon <= (#[trigger] pts[i]).0 <= node.max_lon
            &&& node.min_lat <= pts[i].1 <= node.max_lat
        }
    &&& exists|i: int| start <= i < end && (#[trigger] pts[i]).1 == node.min_lat
    &&& exists|i: int| start <= i < end && (#[trigger] pts[i]).1 == node.max_lat
    &&& exists|i: int| start <= i < end && (#[trigger] pts[i]).0 == node.min_lon
    &&& exists|i: int| start <= i < end && (#[trigger] pts[i]).0 == node.max_lon
}

/// Whether a node with the box of `node` is split along latitude: only when
/// its latitude extent is strictly the longer one.
pub open spec fn splits_on_latitude(node: BvhNode) -> bool {
    node.max_lat - node.min_lat > node.max_lon - node.min_lon
}

/// Whether every point of `pts[start..mid]` precedes or equals every point
/// of `pts[mid..end]` along the chosen axis.
pub open spec fn split_ordered(
    pts: Seq<(i32, i32)>,
    start: int,
    mid: int,
    end: int,
    on_lat: bool,
) -> bool {
    forall|i: int, j: int|
        start <= i < mid && mid <= j < end ==> axis_value(#[trigger] pts[i], on_lat) <= axis_value(
            #[trigger] pts[j],
            on_lat,
        )
}

/// The key that a range is sorted by: the coordinate of the indexed point
/// along the chosen axis.
pub open spec fn axis_key_of(points: Seq<(i32, i32)>, on_lat: bool) -> spec_fn(usize) -> int {
    |index: usize| axis_value(points[index as int], on_lat)
}

/// `order` with its range `start..end` stably sorted by `key`.
pub open spec fn sorted_range(
    order: Seq<usize>,
    start: int,
    end: int,
    key: spec_fn(usize) -> int,
) -> Seq<usize> {
    order.subrange(0, start) + stable_sorted(order.subrange(start, end), key) + order.subrange(
        end,
        order.len() as int,
    )
}

/// Whether the bounding box of `pts[start..end]` is strictly longer along
/// latitude than along longitude.
pub open spec fn range_splits_on_latitude(pts: Seq<(i32, i32)>, start: int, end: int) -> bool {
    exists|node: BvhNode| #[trigger] tight_bounds(node, pts, start, end) && splits_on_latitude(node)
}

/// The order in which the hierarchy over `points[order[start..end]]` leaves
/// the indices `order`: a range of more than [`MAX_LEAF_SIZE`] indices is
/// stably sorted along the longer axis of its bounding box, longitude on a
/// tie, and then each half is ordered in the same way, the first half
/// holding `len / 2` indices.
#[verifier::opaque]
pub open spec fn build_order(
    points: Seq<(i32, i32)>,
    order: Seq<usize>,
    start: int,
    end: int,
) -> Seq<usize>
    decreases end - start,
{
    if end - start <= MAX_LEAF_SIZE || !(0 <= start <= end <= order.len()) {
        order
    } else {
        let on_lat = range_splits_on_latitude(arranged(points, order), start, end);
        let sorted = sorted_range(order, start, end, axis_key_of(points, on_lat));
        let mid = start + (end - start) / 2;
        build_order(points, build_order(points, sorted, start, mid), mid, end)
    }
}

/// The order in which the hierarchy over `points` arranges them.
pub open spec fn built_order(points: Seq<(i32, i32)>) -> Seq<usize> {
    build_order(points, identity_order(points.len()), 0, points.len() as int)
}

/// Whether the nodes from `root` on form, in pre-order, the hierarchy over
/// the non-empty range `pts[start..end]`.
pub open spec fn covers(
    nodes: Seq<BvhNode>,
    pts: Seq<(i32, i32)>,
    root: int,
    start: int,
    end: int,
) -> bool
    decreases end - start,
{
    &&& 0 <= start < end <= pts.len()
    &&& 0 <= root
    &&& root + node_count((end - start) as nat) <= nodes.len()
    &&& tight_bounds(nodes[root], pts, start, end)
    &&& if end - start <= MAX_LEAF_SIZE {
        &&& nodes[root].count == end - start
        &&& nodes[root].left_first == start
        &&& nodes[root].right_child == 0
    } else {
        let mid = start + (end - start) / 2;
        let right = root + 1 + node_count((mid - start) as nat);
        &&& nodes[root].count == 0
        &&& nodes[root].left_first == root + 1
        &&& nodes[root].right_child == right
        &&& covers(nodes, pts, root + 1, start, mid)
        &&& covers(nodes, pts, right, mid, end)
        &&& split_ordered(pts, start, mid, end, splits_on_latitude(nodes[root]))
    }
}

/// The seven words of a node, in buffer order.
pub open spec fn node_words(node: BvhNode) -> Seq<u32> {
    seq![
        word_of(node.min_lat),
        word_of(node.max_lat),
        word_of(node.min_lon),
        word_of(node.max_lon),
        node.left_first,
        node.right_child,
        node.count,
    ]
}

/// The words of `nodes`, seven per node.
pub open spec fn all_node_words(nodes: Seq<BvhNode>) -> Seq<u32>
    decreases nodes.len(),
{
    if nodes.len() == 0 {
        Seq::empty()
    } else {
        all_node_words(nodes.drop_last()) + node_words(nodes.last())
    }
}

/// The words of `points`, longitude then latitude for each.
pub open spec fn all_point_words(points: Seq<(i32, i32)>) -> Seq<u32>
    decreases points.len(),
{
    if points.len() == 0 {
        Seq::empty()
    } else {
        all_point_words(points.drop_last()) + seq![
            word_of(points.last().0),
            word_of(points.last().1),
        ]
    }
}

pub proof fn lemma_all_node_words_len(nodes: Seq<BvhNode>)
    ensures
        all_node_words(nodes).len() == 7 * nodes.len(),
    decreases nodes.len(),
{
    if nodes.len() > 0 {
        lemma_all_node_words_len(nodes.drop_last());
    }
}

pub proof fn lemma_all_point_words_len(points: Seq<(i32, i32)>)
    ensures
        all_point_words(points).len() == 2 * points.len(),
    decreases points.len(),
{
    if points.len() > 0 {
        lemma_all_point_words_len(points.drop_last());
    }
}

/// A hierarchy has no more nodes than points, and fewer where it has more
/// than one point.
pub proof fn lemma_node_count_bound(count: nat)
    requires
        count >= 1,
    ensures
        1 <= node_count(count) <= count,
        count >= 2 ==> node_count(count) < count,
    decreases count,
{
    if count > MAX_LEAF_SIZE {
        lemma_node_count_bound(count / 2);
        lemma_node_count_bound((count - count / 2) as nat);
    }
}

/// For ranges with equal multisets, each element of `b[s..e]` occurs in
/// `a[s..e]`.
proof fn lemma_range_member(a: Seq<usize>, b: Seq<usize>, s: int, e: int, j: int) -> (i: int)
    requires
        0 <= s <= j < e,
        e <= a.len(),
        e <= b.len(),
        a.subrange(s, e).to_multiset() == b.subrange(s, e).to_multiset(),
    ensures
        s <= i < e,
        a[i] == b[j],
{
    let ra = a.subrange(s, e);
    let rb = b.subrange(s, e);
    ra.to_multiset_ensures();
    rb.to_multiset_ensures();
    assert(rb[j - s] == b[j]);
    assert(rb.contains(b[j]));
    assert(rb.to_multiset().count(b[j]) > 0);
    assert(ra.contains(b[j]));
    let k = choose|k: int| 0 <= k < ra.len() && ra[k] == b[j];
    assert(ra[k] == a[s + k]);
    s + k
}

/// Sequences that agree outside `[s, e)` and have equal multisets inside it
/// have equal multisets on every enclosing range.
proof fn lemma_enclosing_multiset(a: Seq<usize>, b: Seq<usize>, s: int, e: int, lo: int, hi: int)
    requires
        0 <= lo <= s <= e <= hi <= a.len(),
        a.len() == b.len(),
        forall|i: int| (0 <= i < s || e <= i < a.len()) ==> a[i] == b[i],
        a.subrange(s, e).to_multiset() == b.subrange(s, e).to_multiset(),
    ensures
        a.subrange(lo, hi).to_multiset() == b.subrange(lo, hi).to_multiset(),
{
    let a1 = a.subrange(lo, s);
    let a2 = a.subrange(s, e);
    let a3 = a.subrange(e, hi);
    let b1 = b.subrange(lo, s);
    let b2 = b.subrange(s, e);
    let b3 = b.subrange(e, hi);
    assert(a1 =~= b1);
    assert(a3 =~= b3);
    assert(a.subrange(lo, hi) =~= (a1 + a2) + a3);
    assert(b.subrange(lo, hi) =~= (b1 + b2) + b3);
    lemma_multiset_commutative(a1, a2);
    lemma_multiset_commutative(a1 + a2, a3);
    lemma_multiset_commutative(b1, b2);
    lemma_multiset_commutative(b1 + b2, b3);
}

/// Tight bounds survive a reordering within the range.
proof fn lemma_bounds_reordered(
    node: BvhNode,
    points: Seq<(i32, i32)>,
    a: Seq<usize>,
    b: Seq<usize>,
    s: int,
    e: int,
)
    requires
        0 <= s < e <= a.len(),
        a.len() == b.len(),
        a.subrange(s, e).to_multiset() == b.subrange(s, e).to_multiset(),
        tight_bounds(node, arranged(points, a), s, e),
    ensures
        tight_bounds(node, arranged(points, b), s, e),
{
    let pa = arranged(points, a);
    let pb = arranged(points, b);
    assert forall|j: int| s <= j < e implies {
        &&& node.min_lon <= (#[trigger] pb[j]).0 <= node.max_lon
        &&& node.min_lat <= pb[j].1 <= node.max_lat
    } by {
        let i = lemma_range_member(a, b, s, e, j);
        assert(pa[i] == pb[j]);
    }
    let i1 = choose|i: int| s <= i < e && (#[trigger] pa[i]).1 == node.min_lat;
    let j1 = lemma_range_member(b, a, s, e, i1);
    assert(pb[j1] == pa[i1]);
    let i2 = choose|i: int| s <= i < e && (#[trigger] pa[i]).1 == node.max_lat;
    let j2 = lemma_range_member(b, a, s, e, i2);
    assert(pb[j2] == pa[i2]);
    let i3 = choose|i: int| s <= i < e && (#[trigger] pa[i]).0 == node.min_lon;
    let j3 = lemma_range_member(b, a, s, e, i3);
    assert(pb[j3] == pa[i3]);
    let i4 = choose|i: int| s <= i < e && (#[trigger] pa[i]).0 == node.max_lon;
    let j4 = lemma_range_member(b, a, s, e, i4);
    assert(pb[j4] == pa[i4]);
}

/// `covers` reads only the nodes of its subtree and the points of its range.
proof fn lemma_covers_frame(
    first_nodes: Seq<BvhNode>,
    first_points: Seq<(i32, i32)>,
    second_nodes: Seq<BvhNode>,
    second_points: Seq<(i32, i32)>,
    root: int,
    start: int,
    end: int,
)
    requires
        covers(first_nodes, first_points, root, start, end),
        end <= second_points.len(),
        forall|i: int| start <= i < end ==> second_points[i] == first_points[i],
        root + node_count((end - start) as nat) <= second_nodes.len(),
        forall|k: int| root <= k < root + node_count((end - start) as nat) ==> second_nodes[k] == first_nodes[k],
    ensures
        covers(second_nodes, second_points, root, start, end),
    decreases end - start,
{
    lemma_node_count_bound((end - start) as nat);
    assert(second_nodes[root] == first_nodes[root]);
    let node = first_nodes[root];
    assert(tight_bounds(node, second_points, start, end)) by {
        let i1 = choose|i: int| start <= i < end && (#[trigger] first_points[i]).1 == node.min_lat;
        assert(second_points[i1] == first_points[i1]);
        let i2 = choose|i: int| start <= i < end && (#[trigger] first_points[i]).1 == node.max_lat;
        assert(second_points[i2] == first_points[i2]);
        let i3 = choose|i: int| start <= i < end && (#[trigger] first_points[i]).0 == node.min_lon;
        assert(second_points[i3] == first_points[i3]);
        let i4 = choose|i: int| start <= i < end && (#[trigger] first_points[i]).0 == node.max_lon;
        assert(second_points[i4] == first_points[i4]);
        assert forall|i: int| start <= i < end implies {
            &&& node.min_lon <= (#[trigger] second_points[i]).0 <= node.max_lon
            &&& node.min_lat <= second_points[i].1 <= node.max_lat
        } by {
            assert(second_points[i] == first_points[i]);
        }
    }
    if end - start > MAX_LEAF_SIZE {
        let mid = start + (end - start) / 2;
        let right = root + 1 + node_count((mid - start) as nat);
        lemma_covers_frame(first_nodes, first_points, second_nodes, second_points, root + 1, start, mid);
        lemma_covers_frame(first_nodes, first_points, second_nodes, second_points, right, mid, end);
        let on_lat = splits_on_latitude(node);
        assert forall|i: int, j: int| start <= i < mid && mid <= j < end implies axis_value(
            #[trigger] second_points[i],
            on_lat,
        ) <= axis_value(#[trigger] second_points[j], on_lat) by {
            assert(second_points[i] == first_points[i]);
            assert(second_points[j] == first_points[j]);
        }
    }
}

/// Every node of a subtree is itself the root of a hierarchy over a
/// sub-range of the subtree's points.
pub proof fn lemma_node_range(
    nodes: Seq<BvhNode>,
    pts: Seq<(i32, i32)>,
    root: int,
    start: int,
    end: int,
    k: int,
) -> (range: (int, int))
    requires
        covers(nodes, pts, root, start, end),
        root <= k < root + node_count((end - start) as nat),
    ensures
        start <= range.0 < range.1 <= end,
        covers(nodes, pts, k, range.0, range.1),
    decreases end - start,
{
    if k == root {
        (start, end)
    } else {
        let mid = start + (end - start) / 2;
        let right = root + 1 + node_count((mid - start) as nat);
        if k < right {
            lemma_node_range(nodes, pts, root + 1, start, mid, k)
        } else {
            lemma_node_range(nodes, pts, right, mid, end, k)
        }
    }
}

/// The number of points in the leaves among `nodes[lo..hi]`: the sum of
/// their counts, an internal node counting none.
pub open spec fn points_in_leaves(nodes: Seq<BvhNode>, lo: int, hi: int) -> int
    decreases hi - lo,
{
    if hi <= lo {
        0
    } else {
        points_in_leaves(nodes, lo, hi - 1) + nodes[hi - 1].count
    }
}

/// The points of two adjoining stretches of nodes add up.
proof fn lemma_points_in_leaves_join(nodes: Seq<BvhNode>, lo: int, mid: int, hi: int)
    requires
        lo <= mid <= hi,
    ensures
        points_in_leaves(nodes, lo, hi) == points_in_leaves(nodes, lo, mid) + points_in_leaves(
            nodes,
            mid,
            hi,
        ),
    decreases hi - mid,
{
    if mid < hi {
        lemma_points_in_leaves_join(nodes, lo, mid, hi - 1);
    }
}

/// The leaves of a subtree hold as many points as its range.
proof fn lemma_subtree_points(
    nodes: Seq<BvhNode>,
    pts: Seq<(i32, i32)>,
    root: int,
    start: int,
    end: int,
)
    requires
        covers(nodes, pts, root, start, end),
    ensures
        points_in_leaves(nodes, root, root + node_count((end - start) as nat)) == end - start,
    decreases end - start,
{
    assert(points_in_leaves(nodes, root, root + 1) == points_in_leaves(nodes, root, root)
        + nodes[root].count);
    if end - start > MAX_LEAF_SIZE {
        let mid = start + (end - start) / 2;
        let right = root + 1 + node_count((mid - start) as nat);
        let last = right + node_count((end - mid) as nat);
        lemma_subtree_points(nodes, pts, root + 1, start, mid);
        lemma_subtree_points(nodes, pts, right, mid, end);
        lemma_points_in_leaves_join(nodes, root, root + 1, right);
        lemma_points_in_leaves_join(nodes, root, right, last);
    }
}

/// The range of a node of a subtree begins after the points of the leaves
/// that precede the node in the subtree.
proof fn lemma_range_follows_leaves(
    nodes: Seq<BvhNode>,
    pts: Seq<(i32, i32)>,
    root: int,
    start: int,
    end: int,
    k: int,
) -> (range: (int, int))
    requires
        covers(nodes, pts, root, start, end),
        root <= k < root + node_count((end - start) as nat),
    ensures
        covers(nodes, pts, k, range.0, range.1),
        range.0 == start + points_in_leaves(nodes, root, k),
    decreases end - start,
{
    if k == root {
        (start, end)
    } else {
        let mid = start + (end - start) / 2;
        let right = root + 1 + node_count((mid - start) as nat);
        assert(points_in_leaves(nodes, root, root + 1) == points_in_leaves(nodes, root, root)
            + nodes[root].count);
        if k < right {
            lemma_points_in_leaves_join(nodes, root, root + 1, k);
            lemma_range_follows_leaves(nodes, pts, root + 1, start, mid, k)
        } else {
            lemma_subtree_points(nodes, pts, root + 1, start, mid);
            lemma_points_in_leaves_join(nodes, root, root + 1, right);
            lemma_points_in_leaves_join(nodes, root, right, k);
            lemma_range_follows_leaves(nodes, pts, right, mid, end, k)
        }
    }
}

/// Assembles the hierarchy of an internal node from those of its halves.
///
/// `s_old`, `s0`, `s1` and `s2` are the indices before sorting, after
/// sorting, after building the left half and after building the right half;
/// `first_nodes` and `second_nodes` are the nodes after each half, `nf` the nodes once the
/// parent is filled in.
proof fn lemma_split_covers(
    points: Seq<(i32, i32)>,
    s_old: Seq<usize>,
    s0: Seq<usize>,
    s1: Seq<usize>,
    s2: Seq<usize>,
    first_nodes: Seq<BvhNode>,
    second_nodes: Seq<BvhNode>,
    nf: Seq<BvhNode>,
    root: int,
    s: int,
    m: int,
    e: int,
    box_node: BvhNode,
    parent: BvhNode,
)
    requires
        0 <= root,
        0 <= s < e <= s_old.len(),
        e - s > MAX_LEAF_SIZE,
        m == s + (e - s) / 2,
        s0.len() == s_old.len(),
        s1.len() == s_old.len(),
        s2.len() == s_old.len(),
        tight_bounds(box_node, arranged(points, s_old), s, e),
        parent.min_lat == box_node.min_lat,
        parent.max_lat == box_node.max_lat,
        parent.min_lon == box_node.min_lon,
        parent.max_lon == box_node.max_lon,
        parent.count == 0,
        parent.left_first == root + 1,
        parent.right_child == root + 1 + node_count((m - s) as nat),
        s0.subrange(s, e).to_multiset() == s_old.subrange(s, e).to_multiset(),
        forall|i: int, j: int|
            s <= i <= j < e ==> axis_value(
                points[#[trigger] s0[i] as int],
                splits_on_latitude(parent),
            ) <= axis_value(points[#[trigger] s0[j] as int], splits_on_latitude(parent)),
        forall|i: int| (0 <= i < s || m <= i < s0.len()) ==> s1[i] == s0[i],
        s1.subrange(s, m).to_multiset() == s0.subrange(s, m).to_multiset(),
        forall|i: int| (0 <= i < m || e <= i < s1.len()) ==> s2[i] == s1[i],
        s2.subrange(m, e).to_multiset() == s1.subrange(m, e).to_multiset(),
        first_nodes.len() == root + 1 + node_count((m - s) as nat),
        second_nodes.len() == first_nodes.len() + node_count((e - m) as nat),
        forall|k: int| 0 <= k < first_nodes.len() ==> second_nodes[k] == first_nodes[k],
        covers(first_nodes, arranged(points, s1), root + 1, s, m),
        covers(second_nodes, arranged(points, s2), root + 1 + node_count((m - s) as nat), m, e),
        nf == second_nodes.update(root, parent),
    ensures
        covers(nf, arranged(points, s2), root, s, e),
        s2.subrange(s, e).to_multiset() == s_old.subrange(s, e).to_multiset(),
{
    let right = root + 1 + node_count((m - s) as nat);
    let first_points = arranged(points, s1);
    let second_points = arranged(points, s2);
    let on_lat = splits_on_latitude(parent);
    lemma_node_count_bound((m - s) as nat);
    lemma_node_count_bound((e - m) as nat);
    assert((e - s) as nat / 2 == (m - s) as nat);
    assert(((e - s) as nat - (e - s) as nat / 2) as nat == (e - m) as nat);
    assert(node_count((e - s) as nat) == 1 + node_count((m - s) as nat) + node_count(
        (e - m) as nat,
    ));

    // the range as a whole keeps its indices
    lemma_enclosing_multiset(s0, s1, s, m, s, e);
    lemma_enclosing_multiset(s1, s2, m, e, s, e);

    // the box computed before sorting is still tight
    lemma_bounds_reordered(box_node, points, s_old, s2, s, e);
    assert(tight_bounds(parent, second_points, s, e)) by {
        let i1 = choose|i: int| s <= i < e && (#[trigger] second_points[i]).1 == box_node.min_lat;
        let i2 = choose|i: int| s <= i < e && (#[trigger] second_points[i]).1 == box_node.max_lat;
        let i3 = choose|i: int| s <= i < e && (#[trigger] second_points[i]).0 == box_node.min_lon;
        let i4 = choose|i: int| s <= i < e && (#[trigger] second_points[i]).0 == box_node.max_lon;
        assert(second_points[i1].1 == parent.min_lat && second_points[i2].1 == parent.max_lat && second_points[i3].0
            == parent.min_lon && second_points[i4].0 == parent.max_lon);
    }

    // the subtrees are untouched by what followed them
    assert forall|i: int| s <= i < m implies second_points[i] == first_points[i] by {
        assert(s2[i] == s1[i]);
    }
    lemma_covers_frame(first_nodes, first_points, nf, second_points, root + 1, s, m);
    lemma_covers_frame(second_nodes, second_points, nf, second_points, right, m, e);

    // the halves stay ordered against each other
    assert forall|i: int, j: int| s <= i < m && m <= j < e implies axis_value(
        #[trigger] second_points[i],
        on_lat,
    ) <= axis_value(#[trigger] second_points[j], on_lat) by {
        let i0 = lemma_range_member(s0, s1, s, m, i);
        let j1 = lemma_range_member(s1, s2, m, e, j);
        assert(s2[i] == s1[i]);
        assert(s1[j1] == s0[j1]);
        assert(second_points[i] == points[s0[i0] as int]);
        assert(second_points[j] == points[s0[j1] as int]);
    }
    assert(nf[root] == parent);
}

/// The order of a leaf's range is the order it is given.
proof fn lemma_build_order_leaf(points: Seq<(i32, i32)>, order: Seq<usize>, start: int, end: int)
    requires
        end - start <= MAX_LEAF_SIZE,
    ensures
        build_order(points, order, start, end) == order,
{
    reveal(build_order);
}

/// The order of a split range: sorted along the axis of its box, then each
/// half ordered in turn.
proof fn lemma_build_order_split(
    points: Seq<(i32, i32)>,
    order: Seq<usize>,
    sorted: Seq<usize>,
    left: Seq<usize>,
    right: Seq<usize>,
    start: int,
    mid: int,
    end: int,
    node: BvhNode,
)
    requires
        0 <= start <= end <= order.len(),
        end - start > MAX_LEAF_SIZE,
        mid == start + (end - start) / 2,
        tight_bounds(node, arranged(points, order), start, end),
        sorted == sorted_range(order, start, end, axis_key_of(points, splits_on_latitude(node))),
        left == build_order(points, sorted, start, mid),
        right == build_order(points, left, mid, end),
    ensures
        right == build_order(points, order, start, end),
{
    reveal(build_order);
    lemma_tight_bounds_decide(node, arranged(points, order), start, end);
}

/// A tight box decides the axis of its range: no other box is tight.
proof fn lemma_tight_bounds_decide(node: BvhNode, pts: Seq<(i32, i32)>, start: int, end: int)
    requires
        tight_bounds(node, pts, start, end),
    ensures
        range_splits_on_latitude(pts, start, end) == splits_on_latitude(node),
{
    if range_splits_on_latitude(pts, start, end) {
        let other = choose|other: BvhNode| #[trigger]
            tight_bounds(other, pts, start, end) && splits_on_latitude(other);
        let a1 = choose|i: int| start <= i < end && (#[trigger] pts[i]).1 == node.min_lat;
        let a2 = choose|i: int| start <= i < end && (#[trigger] pts[i]).1 == node.max_lat;
        let a3 = choose|i: int| start <= i < end && (#[trigger] pts[i]).0 == node.min_lon;
        let a4 = choose|i: int| start <= i < end && (#[trigger] pts[i]).0 == node.max_lon;
        let b1 = choose|i: int| start <= i < end && (#[trigger] pts[i]).1 == other.min_lat;
        let b2 = choose|i: int| start <= i < end && (#[trigger] pts[i]).1 == other.max_lat;
        let b3 = choose|i: int| start <= i < end && (#[trigger] pts[i]).0 == other.min_lon;
        let b4 = choose|i: int| start <= i < end && (#[trigger] pts[i]).0 == other.max_lon;
        assert(node.min_lat == other.min_lat);
        assert(node.max_lat == other.max_lat);
        assert(node.min_lon == other.min_lon);
        assert(node.max_lon == other.max_lon);
    }
}

/// A sequence with the elements of one without duplicates has none either.
proof fn lemma_no_duplicates_kept(a: Seq<usize>, b: Seq<usize>)
    requires
        a.no_duplicates(),
        a.to_multiset() == b.to_multiset(),
    ensures
        b.no_duplicates(),
{
    a.lemma_multiset_has_no_duplicates();
    b.lemma_multiset_has_no_duplicates_conv();
}

/// What sorting a range promises leaves no choice: the indices afterwards
/// are the range's stable sort, within the unchanged rest.
proof fn lemma_sorted_range(
    points: Seq<(i32, i32)>,
    before: Seq<usize>,
    after: Seq<usize>,
    start: int,
    end: int,
    on_lat: bool,
)
    requires
        0 <= start <= end <= before.len(),
        before.no_duplicates(),
        after.len() == before.len(),
        forall|i: int| (0 <= i < start || end <= i < before.len()) ==> after[i] == before[i],
        after.subrange(start, end).to_multiset() == before.subrange(start, end).to_multiset(),
        forall|i: int, j: int|
            start <= i <= j < end ==> axis_value(points[#[trigger] after[i] as int], on_lat)
                <= axis_value(points[#[trigger] after[j] as int], on_lat),
        forall|a: int, b: int|
            start <= a < b < end && axis_value(points[before[a] as int], on_lat) == axis_value(
                points[before[b] as int],
                on_lat,
            ) ==> exists|i: int, j: int|
                start <= i < j < end && #[trigger] after[i] == before[a] && #[trigger] after[j]
                    == before[b],
    ensures
        after == sorted_range(before, start, end, axis_key_of(points, on_lat)),
        after.no_duplicates(),
{
    let key = axis_key_of(points, on_lat);
    let a = before.subrange(start, end);
    let b = after.subrange(start, end);
    assert(a.no_duplicates()) by {
        assert forall|i: int, j: int| 0 <= i < a.len() && 0 <= j < a.len() && i != j implies a[i]
            != a[j] by {
            assert(a[i] == before[start + i] && a[j] == before[start + j]);
        }
    }
    assert(ascending(b, key)) by {
        assert forall|i: int, j: int| 0 <= i <= j < b.len() implies key(#[trigger] b[i]) <= key(
            #[trigger] b[j],
        ) by {
            assert(b[i] == after[start + i] && b[j] == after[start + j]);
        }
    }
    assert(keeps_order(a, b, key)) by {
        assert forall|p: int, q: int| 0 <= p < q < a.len() && key(a[p]) == key(a[q])
            implies #[trigger] follows(b, a[p], a[q]) by {
            assert(a[p] == before[start + p] && a[q] == before[start + q]);
            let (i, j) = choose|i: int, j: int|
                start <= i < j < end && #[trigger] after[i] == before[start + p]
                    && #[trigger] after[j] == before[start + q];
            assert(b[i - start] == after[i] && b[j - start] == after[j]);
        }
    }
    lemma_stable_sort_unique(a, b, key);
    assert(after =~= sorted_range(before, start, end, key));
    lemma_enclosing_multiset(before, after, start, end, 0, before.len() as int);
    assert(before.subrange(0, before.len() as int) =~= before);
    assert(after.subrange(0, after.len() as int) =~= after);
    lemma_no_duplicates_kept(before, after);
}

impl BvhNode {
    /// Words per serialized node.
    pub const SIZE_U32: usize = 7;

    /// The leaf of a hierarchy over no points: zero bounds and no points.
    pub open spec fn empty_leaf() -> BvhNode {
        BvhNode {
            min_lat: 0,
            max_lat: 0,
            min_lon: 0,
            max_lon: 0,
            left_first: 0,
            right_child: 0,
            count: 0,
        }
    }

    /// Makes [`BvhNode::empty_leaf`].
    pub fn empty() -> (node: Self)
        ensures
            node == Self::empty_leaf(),
    {
        BvhNode {
            min_lat: 0,
            max_lat: 0,
            min_lon: 0,
            max_lon: 0,
            left_first: 0,
            right_child: 0,
            count: 0,
        }
    }

    /// Appends the seven little-endian words of the node to `buffer`.
    pub fn write_to_buffer(&self, buffer: &mut Vec<u8>)
        ensures
            final(buffer)@ == old(buffer)@ + words_le(node_words(*self)),
    {
        push_signed_word(buffer, self.min_lat);
        push_signed_word(buffer, self.max_lat);
        push_signed_word(buffer, self.min_lon);
        push_signed_word(buffer, self.max_lon);
        push_word(buffer, self.left_first);
        push_word(buffer, self.right_child);
        push_word(buffer, self.count);
        proof {
            let w = node_words(*self);
            reveal_with_fuel(words_le, 8);
            assert(w.drop_last().drop_last().drop_last().drop_last().drop_last().drop_last().drop_last()
                =~= Seq::<u32>::empty());
            assert(words_le(w) =~= le_bytes(w[0]) + le_bytes(w[1]) + le_bytes(w[2]) + le_bytes(w[3])
                + le_bytes(w[4]) + le_bytes(w[5]) + le_bytes(w[6]));
            assert(buffer@ =~= old(buffer)@ + words_le(w));
        }
    }
}

/// The coordinate of point `index` along the chosen axis.
fn axis_key(points: &Vec<(i32, i32)>, index: usize, on_lat: bool) -> (key: i32)
    requires
        index < points.len(),
    ensures
        key == axis_value(points@[index as int], on_lat),
{
    if on_lat {
        points[index].1
    } else {
        points[index].0
    }
}

/// Sorts `range` with the standard library's `slice::sort_by_key`, keyed
/// by the coordinate of the indexed point.
///
/// Trusted: the slice afterwards holds the same indices, in ascending key
/// order, with indices of equal key in their earlier relative order (the
/// sort is stable).
#[verifier::external_body]
fn sort_by_axis(range: &mut [usize], points: &Vec<(i32, i32)>, on_lat: bool)
    requires
        forall|i: int| 0 <= i < old(range)@.len() ==> old(range)@[i] < points.len(),
    ensures
        final(range)@.len() == old(range)@.len(),
        final(range)@.to_multiset() == old(range)@.to_multiset(),
        forall|i: int, j: int|
            0 <= i <= j < final(range)@.len() ==> axis_value(
                points@[#[trigger] final(range)@[i] as int],
                on_lat,
            ) <= axis_value(points@[#[trigger] final(range)@[j] as int], on_lat),
        forall|a: int, b: int|
            0 <= a < b < old(range)@.len() && axis_value(points@[old(range)@[a] as int], on_lat)
                == axis_value(points@[old(range)@[b] as int], on_lat) ==> exists|i: int, j: int|
                0 <= i < j < final(range)@.len() && #[trigger] final(range)@[i] == old(range)@[a]
                    && #[trigger] final(range)@[j] == old(range)@[b],
{
    range.sort_by_key(|&i| axis_key(points, i, on_lat));
}

/// Sorts `indices[start..end]` by the coordinate of the indexed point: the
/// range afterwards holds the same indices, in ascending key order, with
/// indices of equal key in their earlier relative order; nothing outside
/// the range moves.
fn sort_indices_by_axis(
    indices: &mut Vec<usize>,
    points: &Vec<(i32, i32)>,
    start: usize,
    end: usize,
    on_lat: bool,
)
    requires
        start <= end <= old(indices).len(),
        forall|i: int| start <= i < end ==> old(indices)[i] < points.len(),
    ensures
        final(indices).len() == old(indices).len(),
        forall|i: int|
            (0 <= i < start || end <= i < old(indices).len()) ==> final(indices)[i] == old(
                indices,
            )[i],
        final(indices)@.subrange(start as int, end as int).to_multiset() == old(indices)@.subrange(
            start as int,
            end as int,
        ).to_multiset(),
        forall|i: int, j: int|
            start <= i <= j < end ==> axis_value(
                points@[#[trigger] final(indices)[i] as int],
                on_lat,
            ) <= axis_value(points@[#[trigger] final(indices)[j] as int], on_lat),
        forall|a: int, b: int|
            start <= a < b < end && axis_value(points@[old(indices)[a] as int], on_lat)
                == axis_value(points@[old(indices)[b] as int], on_lat) ==> exists|i: int, j: int|
                start <= i < j < end && #[trigger] final(indices)[i] == old(indices)[a]
                    && #[trigger] final(indices)[j] == old(indices)[b],
{
    let ghost before = indices@;
    let whole = indices.as_mut_slice();
    let (head, rest) = whole.split_at_mut(start);
    let (range, tail) = rest.split_at_mut(end - start);
    let ghost unsorted = range@;
    assert(unsorted =~= before.subrange(start as int, end as int));
    sort_by_axis(range, points, on_lat);
    proof {
        let sorted = range@;
        assert(indices@ =~= head@ + (sorted + tail@));
        assert(indices@.subrange(start as int, end as int) =~= sorted);
        assert forall|a: int, b: int|
            start <= a < b < end && axis_value(points@[before[a] as int], on_lat) == axis_value(
                points@[before[b] as int],
                on_lat,
            ) implies exists|i: int, j: int|
            start <= i < j < end && #[trigger] indices@[i] == before[a] && #[trigger] indices@[j]
                == before[b] by {
            assert(unsorted[a - start] == before[a] && unsorted[b - start] == before[b]);
            let (i, j) = choose|i: int, j: int|
                0 <= i < j < sorted.len() && #[trigger] sorted[i] == unsorted[a - start]
                    && #[trigger] sorted[j] == unsorted[b - start];
            assert(indices@[i + start] == before[a] && indices@[j + start] == before[b]);
        }
    }
}

/// Sorts `indices[start..end]` stably by the coordinate of the indexed
/// point along the chosen axis.
fn sort_range(
    indices: &mut Vec<usize>,
    points: &Vec<(i32, i32)>,
    start: usize,
    end: usize,
    on_lat: bool,
)
    requires
        start <= end <= old(indices).len(),
        forall|i: int| 0 <= i < old(indices).len() ==> old(indices)[i] < points.len(),
        old(indices)@.no_duplicates(),
    ensures
        final(indices)@ == sorted_range(
            old(indices)@,
            start as int,
            end as int,
            axis_key_of(points@, on_lat),
        ),
        final(indices)@.no_duplicates(),
        final(indices).len() == old(indices).len(),
        forall|i: int| 0 <= i < final(indices).len() ==> final(indices)[i] < points.len(),
        forall|i: int|
            (0 <= i < start || end <= i < old(indices).len()) ==> final(indices)[i] == old(
                indices,
            )[i],
        final(indices)@.subrange(start as int, end as int).to_multiset() == old(indices)@.subrange(
            start as int,
            end as int,
        ).to_multiset(),
        forall|i: int, j: int|
            start <= i <= j < end ==> axis_value(
                points@[#[trigger] final(indices)[i] as int],
                on_lat,
            ) <= axis_value(points@[#[trigger] final(indices)[j] as int], on_lat),
{
    let ghost before = indices@;
    sort_indices_by_axis(indices, points, start, end, on_lat);
    proof {
        lemma_sorted_range(points@, before, indices@, start as int, end as int, on_lat);
        assert forall|i: int| 0 <= i < indices@.len() implies indices@[i] < points.len() by {
            if start <= i < end {
                let w = lemma_range_member(before, indices@, start as int, end as int, i);
            }
        }
    }
}

impl PointBvh {
    /// Whether the nodes form the pre-order median-split hierarchy over the
    /// points: a single empty leaf when there are no points.
    pub open spec fn wf(&self) -> bool {
        if self.points@.len() == 0 {
            self.nodes@ == seq![BvhNode::empty_leaf()]
        } else {
            &&& self.nodes@.len() == node_count(self.points@.len())
            &&& self.nodes@.len() <= u32::MAX
            &&& self.points@.len() <= MAX_POINTS
            &&& covers(self.nodes@, self.points@, 0, 0, self.points@.len() as int)
        }
    }

    /// The words of the serialized hierarchy: node count, point count, the
    /// nodes, then the points.
    pub open spec fn words(&self) -> Seq<u32> {
        seq![self.nodes@.len() as u32, self.points@.len() as u32] + all_node_words(self.nodes@)
            + all_point_words(self.points@)
    }

    /// Builds the hierarchy over `points`.
    ///
    /// Ranges of more than [`MAX_LEAF_SIZE`] points are sorted along the
    /// longer axis of their bounding box (longitude on a tie) and split at
    /// the median; nodes are numbered in pre-order.
    pub fn build(points: &[Position]) -> (bvh: Self)
        requires
            points.len() <= MAX_POINTS,
        ensures
            bvh.wf(),
            bvh.points@ == arranged(
                coordinate_pairs(points@),
                built_order(coordinate_pairs(points@)),
            ),
            is_reordering(bvh.points@, coordinate_pairs(points@)),
    {
        if points.len() == 0 {
            let mut nodes: Vec<BvhNode> = Vec::new();
            nodes.push(BvhNode::empty());
            let bvh = PointBvh { nodes, points: Vec::new() };
            proof {
                let order = Seq::<usize>::empty();
                assert(order =~= identity_order(0));
                lemma_build_order_leaf(coordinate_pairs(points@), order, 0, 0);
                assert(is_order(order, coordinate_pairs(points@).len()));
                assert(bvh.points@ =~= arranged(coordinate_pairs(points@), order));
                assert(bvh.nodes@ =~= seq![BvhNode::empty_leaf()]);
            }
            return bvh;
        }
        let n = points.len();
        let mut scaled: Vec<(i32, i32)> = Vec::new();
        let mut indices: Vec<usize> = Vec::new();
        let mut i: usize = 0;
        while i < n
            invariant
                i <= n,
                n == points.len(),
                scaled@ == coordinate_pairs(points@).subrange(0, i as int),
                indices@ == identity_order(i as nat),
            decreases n - i,
        {
            scaled.push((points[i].x, points[i].y));
            indices.push(i);
            i += 1;
            proof {
                assert(scaled@ =~= coordinate_pairs(points@).subrange(0, i as int));
                assert(indices@ =~= identity_order(i as nat));
            }
        }
        proof {
            assert(scaled@ =~= coordinate_pairs(points@));
            lemma_node_count_bound(n as nat);
        }
        let mut nodes: Vec<BvhNode> = Vec::new();
        let ghost before = indices@;
        assert(before.no_duplicates());
        Self::build_recursive(&mut nodes, &mut indices, &scaled, 0, n);
        proof {
            assert(indices@.subrange(0, n as int) =~= indices@);
            assert(before.subrange(0, n as int) =~= before);
            assert(is_order(indices@, n as nat));
        }
        let mut reordered: Vec<(i32, i32)> = Vec::new();
        let mut k: usize = 0;
        while k < n
            invariant
                k <= n,
                indices.len() == n,
                scaled.len() == n,
                forall|i: int| 0 <= i < n ==> indices[i] < n,
                reordered@ == arranged(scaled@, indices@).subrange(0, k as int),
            decreases n - k,
        {
            reordered.push(scaled[indices[k]]);
            k += 1;
            proof {
                assert(reordered@ =~= arranged(scaled@, indices@).subrange(0, k as int));
            }
        }
        let bvh = PointBvh { nodes, points: reordered };
        proof {
            let input = coordinate_pairs(points@);
            assert(bvh.points@ =~= arranged(input, indices@));
            assert(is_order(indices@, input.len()));
        }
        bvh
    }

    /// The bounding box `(min_lat, max_lat, min_lon, max_lon)` of the points
    /// indexed by `indices[start..end]`.
    fn compute_bounds(
        indices: &Vec<usize>,
        points: &Vec<(i32, i32)>,
        start: usize,
        end: usize,
    ) -> (bounds: (i32, i32, i32, i32))
        requires
            start < end <= indices.len(),
            forall|i: int| start <= i < end ==> indices[i] < points.len(),
        ensures
            tight_bounds(
                BvhNode {
                    min_lat: bounds.0,
                    max_lat: bounds.1,
                    min_lon: bounds.2,
                    max_lon: bounds.3,
                    left_first: 0,
                    right_child: 0,
                    count: 0,
                },
                arranged(points@, indices@),
                start as int,
                end as int,
            ),
    {
        let first = points[indices[start]];
        let mut min_lat = first.1;
        let mut max_lat = first.1;
        let mut min_lon = first.0;
        let mut max_lon = first.0;
        let ghost pts = arranged(points@, indices@);
        assert(pts[start as int] == first);
        let mut i: usize = start + 1;
        while i < end
            invariant
                start < i <= end <= indices.len(),
                forall|j: int| start <= j < end ==> indices[j] < points.len(),
                pts == arranged(points@, indices@),
                tight_bounds(
                    BvhNode {
                        min_lat,
                        max_lat,
                        min_lon,
                        max_lon,
                        left_first: 0,
                        right_child: 0,
                        count: 0,
                    },
                    pts,
                    start as int,
                    i as int,
                ),
            decreases end - i,
        {
            let (lon, lat) = points[indices[i]];
            let ghost w1 = choose|j: int| start <= j < i && (#[trigger] pts[j]).1 == min_lat;
            let ghost w2 = choose|j: int| start <= j < i && (#[trigger] pts[j]).1 == max_lat;
            let ghost w3 = choose|j: int| start <= j < i && (#[trigger] pts[j]).0 == min_lon;
            let ghost w4 = choose|j: int| start <= j < i && (#[trigger] pts[j]).0 == max_lon;
            if lat < min_lat {
                min_lat = lat;
            }
            if lat > max_lat {
                max_lat = lat;
            }
            if lon < min_lon {
                min_lon = lon;
            }
            if lon > max_lon {
                max_lon = lon;
            }
            proof {
                let here = i as int;
                assert(pts[here] == (lon, lat));
                assert(pts[if lat == min_lat { here } else { w1 }].1 == min_lat);
                assert(pts[if lat == max_lat { here } else { w2 }].1 == max_lat);
                assert(pts[if lon == min_lon { here } else { w3 }].0 == min_lon);
                assert(pts[if lon == max_lon { here } else { w4 }].0 == max_lon);
            }
            i += 1;
        }
        (min_lat, max_lat, min_lon, max_lon)
    }

    /// Builds the subtree over `indices[start..end]`, appending its nodes to
    /// `nodes` in pre-order, and returns the index of its root.
    fn build_recursive(
        nodes: &mut Vec<BvhNode>,
        indices: &mut Vec<usize>,
        points: &Vec<(i32, i32)>,
        start: usize,
        end: usize,
    ) -> (node_index: usize)
        requires
            start < end <= old(indices).len(),
            end <= MAX_POINTS,
            forall|i: int| 0 <= i < old(indices).len() ==> old(indices)[i] < points.len(),
            old(indices)@.no_duplicates(),
            old(nodes).len() + node_count((end - start) as nat) <= u32::MAX,
        ensures
            node_index == old(nodes).len(),
            final(indices)@ == build_order(points@, old(indices)@, start as int, end as int),
            final(indices)@.no_duplicates(),
            final(nodes).len() == old(nodes).len() + node_count((end - start) as nat),
            forall|k: int| 0 <= k < old(nodes).len() ==> final(nodes)[k] == old(nodes)[k],
            final(indices).len() == old(indices).len(),
            forall|i: int| 0 <= i < final(indices).len() ==> final(indices)[i] < points.len(),
            forall|i: int|
                (0 <= i < start || end <= i < old(indices).len()) ==> final(indices)[i] == old(
                    indices,
                )[i],
            final(indices)@.subrange(start as int, end as int).to_multiset() == old(
                indices,
            )@.subrange(start as int, end as int).to_multiset(),
            covers(
                final(nodes)@,
                arranged(points@, final(indices)@),
                node_index as int,
                start as int,
                end as int,
            ),
        decreases end - start,
    {
        let (min_lat, max_lat, min_lon, max_lon) = Self::compute_bounds(indices, points, start, end);
        let count = end - start;
        let node_index = nodes.len();
        let ghost box_node = BvhNode {
            min_lat,
            max_lat,
            min_lon,
            max_lon,
            left_first: 0,
            right_child: 0,
            count: 0,
        };

        if count <= MAX_LEAF_SIZE {
            let leaf = BvhNode {
                min_lat,
                max_lat,
                min_lon,
                max_lon,
                left_first: start as u32,
                right_child: 0,
                count: count as u32,
            };
            nodes.push(leaf);
            proof {
                let pts = arranged(points@, indices@);
                let i1 = choose|i: int| start <= i < end && (#[trigger] pts[i]).1 == box_node.min_lat;
                let i2 = choose|i: int| start <= i < end && (#[trigger] pts[i]).1 == box_node.max_lat;
                let i3 = choose|i: int| start <= i < end && (#[trigger] pts[i]).0 == box_node.min_lon;
                let i4 = choose|i: int| start <= i < end && (#[trigger] pts[i]).0 == box_node.max_lon;
                assert(pts[i1].1 == leaf.min_lat && pts[i2].1 == leaf.max_lat && pts[i3].0
                    == leaf.min_lon && pts[i4].0 == leaf.max_lon);
                assert(tight_bounds(leaf, pts, start as int, end as int));
                lemma_build_order_leaf(points@, indices@, start as int, end as int);
            }
            return node_index;
        }
        let lat_extent: i64 = max_lat as i64 - min_lat as i64;
        let lon_extent: i64 = max_lon as i64 - min_lon as i64;
        let split_on_lat = lat_extent > lon_extent;

        let ghost s_old = indices@;
        sort_range(indices, points, start, end, split_on_lat);
        let ghost s0 = indices@;
        let mid = start + count / 2;

        proof {
            lemma_node_count_bound((mid - start) as nat);
            lemma_node_count_bound((end - mid) as nat);
            assert(count / 2 == (mid - start) as nat);
            assert((count - count / 2) as nat == (end - mid) as nat);
        }

        let placeholder = BvhNode {
            min_lat,
            max_lat,
            min_lon,
            max_lon,
            left_first: 0,
            right_child: 0,
            count: 0,
        };
        nodes.push(placeholder);
        let ghost placed_nodes = nodes@;

        let left_child = Self::build_recursive(nodes, indices, points, start, mid);
        let ghost first_nodes = nodes@;
        let ghost s1 = indices@;
        let right_child = Self::build_recursive(nodes, indices, points, mid, end);
        let ghost second_nodes = nodes@;
        let ghost s2 = indices@;

        let parent = BvhNode {
            min_lat,
            max_lat,
            min_lon,
            max_lon,
            left_first: left_child as u32,
            right_child: right_child as u32,
            count: 0,
        };
        nodes.set(node_index, parent);

        proof {
            lemma_split_covers(
                points@,
                s_old,
                s0,
                s1,
                s2,
                first_nodes,
                second_nodes,
                nodes@,
                node_index as int,
                start as int,
                mid as int,
                end as int,
                box_node,
                parent,
            );
            lemma_build_order_split(
                points@,
                s_old,
                s0,
                s1,
                s2,
                start as int,
                mid as int,
                end as int,
                box_node,
            );
        }
        node_index
    }

    /// Total size in 32-bit words when serialized: two header words, seven
    /// per node and two per point.
    pub fn serialized_size_u32(&self) -> (size: usize)
        requires
            2 + self.nodes@.len() * 7 + self.points@.len() * 2 <= usize::MAX,
        ensures
            size == 2 + 7 * self.nodes@.len() + 2 * self.points@.len(),
            size == self.words().len(),
    {
        proof {
            lemma_all_node_words_len(self.nodes@);
            lemma_all_point_words_len(self.points@);
        }
        2 + self.nodes.len() * BvhNode::SIZE_U32 + self.points.len() * 2
    }

    /// Appends the serialized hierarchy to `buffer`:
    /// `[node_count, point_count, nodes.., points..]`, all little-endian.
    pub fn write_to_buffer(&self, buffer: &mut Vec<u8>)
        requires
            self.nodes@.len() <= u32::MAX,
            self.points@.len() <= u32::MAX,
        ensures
            final(buffer)@ == old(buffer)@ + words_le(self.words()),
    {
        let ghost header = seq![self.nodes@.len() as u32, self.points@.len() as u32];
        push_word(buffer, self.nodes.len() as u32);
        push_word(buffer, self.points.len() as u32);
        proof {
            reveal_with_fuel(words_le, 3);
            assert(header.drop_last().drop_last() =~= Seq::<u32>::empty());
            assert(header.drop_last().last() == header[0]);
            assert(buffer@ =~= old(buffer)@ + words_le(header));
        }
        let mut i: usize = 0;
        while i < self.nodes.len()
            invariant
                i <= self.nodes.len(),
                buffer@ == old(buffer)@ + words_le(
                    header + all_node_words(self.nodes@.subrange(0, i as int)),
                ),
            decreases self.nodes.len() - i,
        {
            let ghost done = all_node_words(self.nodes@.subrange(0, i as int));
            self.nodes[i].write_to_buffer(buffer);
            proof {
                let next = self.nodes@.subrange(0, i + 1);
                assert(next.drop_last() =~= self.nodes@.subrange(0, i as int));
                assert(next.last() == self.nodes@[i as int]);
                let added = node_words(self.nodes@[i as int]);
                assert(all_node_words(next) == done + added);
                lemma_words_le_concat(header + done, added);
                assert(header + all_node_words(next) =~= (header + done) + added);
                assert(buffer@ =~= old(buffer)@ + words_le(header + all_node_words(next)));
            }
            i += 1;
        }
        let ghost node_part = header + all_node_words(self.nodes@);
        proof {
            assert(self.nodes@.subrange(0, self.nodes@.len() as int) =~= self.nodes@);
            assert(node_part + all_point_words(self.points@.subrange(0, 0)) =~= node_part);
        }
        let mut j: usize = 0;
        while j < self.points.len()
            invariant
                j <= self.points.len(),
                node_part == header + all_node_words(self.nodes@),
                buffer@ == old(buffer)@ + words_le(
                    node_part + all_point_words(self.points@.subrange(0, j as int)),
                ),
            decreases self.points.len() - j,
        {
            let ghost done = all_point_words(self.points@.subrange(0, j as int));
            let ghost mark = buffer@;
            let (lon, lat) = self.points[j];
            push_signed_word(buffer, lon);
            push_signed_word(buffer, lat);
            proof {
                let next = self.points@.subrange(0, j + 1);
                assert(next.drop_last() =~= self.points@.subrange(0, j as int));
                assert(next.last() == self.points@[j as int]);
                let added = seq![word_of(lon), word_of(lat)];
                assert(all_point_words(next) == done + added);
                reveal_with_fuel(words_le, 3);
                assert(added.drop_last().drop_last() =~= Seq::<u32>::empty());
                assert(added.drop_last().last() == added[0]);
                assert(words_le(added) =~= le_bytes(word_of(lon)) + le_bytes(word_of(lat)));
                lemma_words_le_concat(node_part + done, added);
                assert(node_part + all_point_words(next) =~= (node_part + done) + added);
                assert(buffer@ =~= mark + words_le(added));
                assert(buffer@ =~= old(buffer)@ + words_le(node_part + all_point_words(next)));
            }
            j += 1;
        }
        proof {
            assert(self.points@.subrange(0, self.points@.len() as int) =~= self.points@);
            assert(node_part + all_point_words(self.points@) =~= self.words());
        }
    }
}

/// Every node's box contains every point of its subtree, and every leaf
/// holds at most [`MAX_LEAF_SIZE`] points, which are exactly the `count`
/// consecutive points from `left_first` on.
pub proof fn law_bvh_sound(bvh: PointBvh, k: int) -> (range: (int, int))
    requires
        bvh.wf(),
        bvh.points@.len() > 0,
        0 <= k < bvh.nodes@.len(),
    ensures
        0 <= range.0 < range.1 <= bvh.points@.len(),
        covers(bvh.nodes@, bvh.points@, k, range.0, range.1),
        forall|i: int|
            range.0 <= i < range.1 ==> {
                &&& bvh.nodes@[k].min_lon <= (#[trigger] bvh.points@[i]).0 <= bvh.nodes@[k].max_lon
                &&& bvh.nodes@[k].min_lat <= bvh.points@[i].1 <= bvh.nodes@[k].max_lat
            },
        bvh.nodes@[k].count <= MAX_LEAF_SIZE,
        bvh.nodes@[k].count > 0 ==> bvh.nodes@[k].left_first == range.0 && bvh.nodes@[k].left_first
            + bvh.nodes@[k].count == range.1,
        bvh.nodes@[k].count == 0 ==> range.1 - range.0 > MAX_LEAF_SIZE,
{
    lemma_node_range(bvh.nodes@, bvh.points@, 0, 0, bvh.points@.len() as int, k)
}

/// The leaves tile the point array in node order: each leaf begins where
/// the leaves before it end, and all leaves together hold every point, so
/// the leaf ranges are consecutive, disjoint and leave no point out.
pub proof fn law_leaves_tile_points(bvh: PointBvh, k: int)
    requires
        bvh.wf(),
        0 <= k < bvh.nodes@.len(),
    ensures
        points_in_leaves(bvh.nodes@, 0, bvh.nodes@.len() as int) == bvh.points@.len(),
        bvh.nodes@[k].count > 0 ==> bvh.nodes@[k].left_first == points_in_leaves(bvh.nodes@, 0, k),
{
    let nodes = bvh.nodes@;
    if bvh.points@.len() == 0 {
        assert(points_in_leaves(nodes, 0, 1) == points_in_leaves(nodes, 0, 0) + nodes[0].count);
    } else {
        let end = bvh.points@.len() as int;
        lemma_subtree_points(nodes, bvh.points@, 0, 0, end);
        let range = lemma_range_follows_leaves(nodes, bvh.points@, 0, 0, end, k);
    }
}

} // verus!
