//! Reading-order assignment by geometric column clustering.
//!
//! Two blocks belong to the same column when their left edges are within
//! 15% of the page width of each other, or when their horizontal overlap
//! exceeds 30% of the narrower box's width.  Columns are the connected
//! components of that relation; they are ranked left-to-right by their
//! minimum member x, members are ranked top-to-bottom by y inside each
//! column, and orders `0..n-1` are assigned in that nested sequence.

use vstd::prelude::*;
use crate::blocks::LayoutBlock;
use crate::geom::{BBox, spec_overlap_x};

verus! {

/// Direct same-column test: left edges within `0.15 * page_width`, or
/// horizontal overlap above `0.3` of the narrower box's width.
pub open spec fn spec_same_column_edge(a: BBox, b: BBox, page_width: i64) -> bool {
    let dx = if a.x >= b.x { a.x - b.x } else { b.x - a.x };
    let min_w = if a.w <= b.w { a.w as int } else { b.w as int };
    20 * dx < 3 * page_width
        || (min_w > 0 && 10 * spec_overlap_x(a, b) > 3 * min_w)
}

/// Decides the direct same-column relation.
pub fn same_column_edge(a: &BBox, b: &BBox, page_width: i64) -> (r: bool)
    requires
        a.wf(),
        b.wf(),
        0 < page_width <= crate::COORD_LIMIT,
    ensures
        r == spec_same_column_edge(*a, *b, page_width),
{
    let dx = if a.x >= b.x { a.x - b.x } else { b.x - a.x };
    let min_w = if a.w <= b.w { a.w } else { b.w };
    if 20 * dx < 3 * page_width {
        return true;
    }
    let lo = if a.x >= b.x { a.x } else { b.x };
    let hi_a = a.x + a.w;
    let hi_b = b.x + b.w;
    let hi = if hi_a <= hi_b { hi_a } else { hi_b };
    let ov = if hi >= lo { hi - lo } else { 0 };
    min_w > 0 && 10 * ov > 3 * min_w
}

/// `p` is a sequence of block indices in which every consecutive pair is
/// directly same-column.
pub open spec fn is_column_path(blocks: Seq<LayoutBlock>, p: Seq<int>, page_width: i64) -> bool {
    &&& p.len() >= 1
    &&& forall|k: int| 0 <= k < p.len() ==> 0 <= #[trigger] p[k] < blocks.len()
    &&& forall|k: int| 0 <= k < p.len() - 1
        ==> spec_same_column_edge(blocks[#[trigger] p[k]].bbox, blocks[p[k + 1]].bbox, page_width)
}

/// Blocks `i` and `j` share a column: some chain of direct same-column
/// pairs connects them.
pub open spec fn spec_same_column(blocks: Seq<LayoutBlock>, i: int, j: int, page_width: i64) -> bool {
    exists|p: Seq<int>|
        #[trigger] is_column_path(blocks, p, page_width) && p.first() == i && p.last() == j
}

pub proof fn lemma_same_column_refl(blocks: Seq<LayoutBlock>, i: int, page_width: i64)
    requires
        0 <= i < blocks.len(),
    ensures
        spec_same_column(blocks, i, i, page_width),
{
    let p: Seq<int> = seq![i];
    assert(is_column_path(blocks, p, page_width));
    assert(p.first() == i && p.last() == i);
}

pub proof fn lemma_same_column_sym(blocks: Seq<LayoutBlock>, i: int, j: int, page_width: i64)
    requires
        spec_same_column(blocks, i, j, page_width),
    ensures
        spec_same_column(blocks, j, i, page_width),
{
    let p = choose|p: Seq<int>|
        is_column_path(blocks, p, page_width) && p.first() == i && p.last() == j;
    let q = Seq::new(p.len(), |k: int| p[p.len() - 1 - k]);
    assert forall|k: int| 0 <= k < q.len() - 1
        implies spec_same_column_edge(blocks[#[trigger] q[k]].bbox, blocks[q[k + 1]].bbox, page_width) by {
        let t = p.len() - 2 - k;
        assert(q[k] == p[t + 1] && q[k + 1] == p[t]);
        assert(spec_same_column_edge(blocks[p[t]].bbox, blocks[p[t + 1]].bbox, page_width));
    }
    assert(is_column_path(blocks, q, page_width));
    assert(q.first() == j && q.last() == i);
}

pub proof fn lemma_same_column_trans(blocks: Seq<LayoutBlock>, i: int, j: int, k: int, page_width: i64)
    requires
        spec_same_column(blocks, i, j, page_width),
        spec_same_column(blocks, j, k, page_width),
    ensures
        spec_same_column(blocks, i, k, page_width),
{
    let p = choose|p: Seq<int>|
        is_column_path(blocks, p, page_width) && p.first() == i && p.last() == j;
    let q = choose|q: Seq<int>|
        is_column_path(blocks, q, page_width) && q.first() == j && q.last() == k;
    let r = p + q.drop_first();
    assert forall|t: int| 0 <= t < r.len() - 1
        implies spec_same_column_edge(blocks[#[trigger] r[t]].bbox, blocks[r[t + 1]].bbox, page_width) by {
        if t < p.len() - 1 {
            assert(r[t] == p[t] && r[t + 1] == p[t + 1]);
        } else if t == p.len() - 1 {
            assert(r[t] == p.last() && r[t + 1] == q[1]);
            assert(spec_same_column_edge(blocks[q[0]].bbox, blocks[q[1]].bbox, page_width));
        } else {
            assert(r[t] == q[t - p.len() + 1] && r[t + 1] == q[t - p.len() + 2]);
        }
    }
    assert forall|t: int| 0 <= t < r.len() implies 0 <= #[trigger] r[t] < blocks.len() by {
        if t < p.len() {
            assert(r[t] == p[t]);
        } else {
            assert(r[t] == q[t - p.len() + 1]);
        }
    }
    assert(is_column_path(blocks, r, page_width));
    assert(r.first() == i && r.last() == k);
}

/// A single direct edge is a chain of length two.
pub proof fn lemma_edge_implies_same_column(blocks: Seq<LayoutBlock>, i: int, j: int, page_width: i64)
    requires
        0 <= i < blocks.len(),
        0 <= j < blocks.len(),
        spec_same_column_edge(blocks[i].bbox, blocks[j].bbox, page_width),
    ensures
        spec_same_column(blocks, i, j, page_width),
{
    let p: Seq<int> = seq![i, j];
    assert(p[0] == i && p[1] == j);
    assert(is_column_path(blocks, p, page_width));
    assert(p.first() == i && p.last() == j);
}

/// Equal labels only ever join blocks that share a column.
pub open spec fn labels_sound(blocks: Seq<LayoutBlock>, labels: Seq<usize>, page_width: i64) -> bool {
    forall|x: int, y: int|
        0 <= x < blocks.len() && 0 <= y < blocks.len() && #[trigger] labels[x] == #[trigger] labels[y]
            ==> spec_same_column(blocks, x, y, page_width)
}

/// Every directly same-column pair carries equal labels.
pub open spec fn labels_edge_complete(blocks: Seq<LayoutBlock>, labels: Seq<usize>, page_width: i64) -> bool {
    forall|x: int, y: int|
        0 <= x < blocks.len() && 0 <= y < blocks.len()
            && spec_same_column_edge((#[trigger] blocks[x]).bbox, (#[trigger] blocks[y]).bbox, page_width)
            ==> labels[x] == labels[y]
}

/// Along any column path, edge-complete labels stay constant.
pub proof fn lemma_path_implies_equal_labels(
    blocks: Seq<LayoutBlock>,
    labels: Seq<usize>,
    p: Seq<int>,
    page_width: i64,
)
    requires
        labels.len() == blocks.len(),
        labels_edge_complete(blocks, labels, page_width),
        is_column_path(blocks, p, page_width),
    ensures
        labels[p.first()] == labels[p.last()],
    decreases p.len(),
{
    if p.len() > 1 {
        let q = p.drop_first();
        assert(spec_same_column_edge(blocks[p[0]].bbox, blocks[p[1]].bbox, page_width));
        assert forall|k: int| 0 <= k < q.len() - 1
            implies spec_same_column_edge(blocks[#[trigger] q[k]].bbox, blocks[q[k + 1]].bbox, page_width) by {
            assert(q[k] == p[k + 1] && q[k + 1] == p[k + 2]);
        }
        assert(is_column_path(blocks, q, page_width));
        lemma_path_implies_equal_labels(blocks, labels, q, page_width);
    }
}

/// Sharing a column is the same as carrying equal labels, for labels that
/// are sound and edge-complete.
pub proof fn lemma_labels_match_columns(
    blocks: Seq<LayoutBlock>,
    labels: Seq<usize>,
    x: int,
    y: int,
    page_width: i64,
)
    requires
        labels.len() == blocks.len(),
        labels_sound(blocks, labels, page_width),
        labels_edge_complete(blocks, labels, page_width),
        0 <= x < blocks.len(),
        0 <= y < blocks.len(),
    ensures
        spec_same_column(blocks, x, y, page_width) == (labels[x] == labels[y]),
{
    if spec_same_column(blocks, x, y, page_width) {
        let p = choose|p: Seq<int>|
            #[trigger] is_column_path(blocks, p, page_width) && p.first() == x && p.last() == y;
        lemma_path_implies_equal_labels(blocks, labels, p, page_width);
    }
}

/// Rewrites every occurrence of label `from` to `to`.
fn relabel(labels: &Vec<usize>, from: usize, to: usize) -> (r: Vec<usize>)
    ensures
        r@.len() == labels@.len(),
        forall|k: int| 0 <= k < labels@.len()
            ==> #[trigger] r@[k] == (if labels@[k] == from { to } else { labels@[k] }),
{
    let mut r: Vec<usize> = Vec::new();
    let mut k: usize = 0;
    while k < labels.len()
        invariant
            k <= labels@.len(),
            r@.len() == k,
            forall|t: int| 0 <= t < k
                ==> #[trigger] r@[t] == (if labels@[t] == from { to } else { labels@[t] }),
        decreases labels@.len() - k,
    {
        if labels[k] == from {
            r.push(to);
        } else {
            r.push(labels[k]);
        }
        k = k + 1;
    }
    r
}

/// Clusters the blocks into columns: two blocks receive the same label
/// exactly when a chain of direct same-column pairs connects them.
fn compute_column_labels(blocks: &Vec<LayoutBlock>, page_width: i64) -> (labels: Vec<usize>)
    requires
        crate::nms::blocks_wf(blocks@),
        0 < page_width <= crate::COORD_LIMIT,
    ensures
        labels@.len() == blocks@.len(),
        labels_sound(blocks@, labels@, page_width),
        labels_edge_complete(blocks@, labels@, page_width),
{
    let n = blocks.len();
    let mut labels: Vec<usize> = Vec::new();
    let mut v: usize = 0;
    while v < n
        invariant
            v <= n,
            labels@.len() == v,
            forall|t: int| 0 <= t < v ==> #[trigger] labels@[t] == t,
        decreases n - v,
    {
        labels.push(v);
        v = v + 1;
    }
    proof {
        assert forall|x: int, y: int|
            0 <= x < blocks@.len() && 0 <= y < blocks@.len()
                && #[trigger] labels@[x] == #[trigger] labels@[y]
            implies spec_same_column(blocks@, x, y, page_width) by {
            assert(x == y);
            lemma_same_column_refl(blocks@, x, page_width);
        }
    }

    let mut i: usize = 0;
    while i < n
        invariant
            n == blocks@.len(),
            i <= n,
            labels@.len() == n,
            0 < page_width <= crate::COORD_LIMIT,
            crate::nms::blocks_wf(blocks@),
            labels_sound(blocks@, labels@, page_width),
            forall|a: int, b: int|
                0 <= a < b < n && a < i
                    && spec_same_column_edge((#[trigger] blocks@[a]).bbox, (#[trigger] blocks@[b]).bbox, page_width)
                    ==> labels@[a] == labels@[b],
        decreases n - i,
    {
        let mut j: usize = i + 1;
        while j < n
            invariant
                n == blocks@.len(),
                i < n,
                i < j <= n + 1,
                j <= n,
                labels@.len() == n,
                0 < page_width <= crate::COORD_LIMIT,
                crate::nms::blocks_wf(blocks@),
                labels_sound(blocks@, labels@, page_width),
                forall|a: int, b: int|
                    0 <= a < b < n && (a < i || (a == i && b < j))
                        && spec_same_column_edge((#[trigger] blocks@[a]).bbox, (#[trigger] blocks@[b]).bbox, page_width)
                        ==> labels@[a] == labels@[b],
            decreases n - j,
        {
            if same_column_edge(&blocks[i].bbox, &blocks[j].bbox, page_width) {
                let li = labels[i];
                let lj = labels[j];
                if li != lj {
                    let ghost before = labels@;
                    labels = relabel(&labels, lj, li);
                    proof {
                        lemma_edge_implies_same_column(blocks@, i as int, j as int, page_width);
                        assert forall|x: int, y: int|
                            0 <= x < blocks@.len() && 0 <= y < blocks@.len()
                                && #[trigger] labels@[x] == #[trigger] labels@[y]
                            implies spec_same_column(blocks@, x, y, page_width) by {
                            if before[x] == before[y] {
                            } else if before[x] == lj && before[y] == li {
                                assert(spec_same_column(blocks@, x, j as int, page_width));
                                assert(spec_same_column(blocks@, i as int, y, page_width));
                                lemma_same_column_sym(blocks@, i as int, j as int, page_width);
                                lemma_same_column_trans(blocks@, x, j as int, i as int, page_width);
                                lemma_same_column_trans(blocks@, x, i as int, y, page_width);
                            } else {
                                assert(before[x] == li && before[y] == lj);
                                assert(spec_same_column(blocks@, x, i as int, page_width));
                                assert(spec_same_column(blocks@, j as int, y, page_width));
                                lemma_same_column_trans(blocks@, x, i as int, j as int, page_width);
                                lemma_same_column_trans(blocks@, x, j as int, y, page_width);
                            }
                        }
                    }
                }
            }
            j = j + 1;
        }
        i = i + 1;
    }
    proof {
        assert forall|x: int, y: int|
            0 <= x < blocks@.len() && 0 <= y < blocks@.len()
                && spec_same_column_edge((#[trigger] blocks@[x]).bbox, (#[trigger] blocks@[y]).bbox, page_width)
            implies labels@[x] == labels@[y] by {
            if x < y {
            } else if y < x {
                assert(spec_same_column_edge(blocks@[y].bbox, blocks@[x].bbox, page_width));
            }
        }
    }
    labels
}

/// `v` is the minimum left edge over `i`'s column.
pub open spec fn column_min_x_is(blocks: Seq<LayoutBlock>, i: int, v: i64, page_width: i64) -> bool {
    &&& exists|t: int| 0 <= t < blocks.len()
        && #[trigger] spec_same_column(blocks, i, t, page_width) && blocks[t].bbox.x == v
    &&& forall|t: int| 0 <= t < blocks.len()
        && #[trigger] spec_same_column(blocks, i, t, page_width) ==> blocks[t].bbox.x >= v
}

/// `m[v]` is attained inside `v`'s label class.
pub open spec fn min_x_witnessed(blocks: Seq<LayoutBlock>, labels: Seq<usize>, m: Seq<i64>, v: int) -> bool {
    exists|w: int| 0 <= w < blocks.len()
        && #[trigger] labels[w] == labels[v] && blocks[w].bbox.x == m[v]
}

/// For each block, the minimum left edge over the blocks of its label class.
fn column_min_x(blocks: &Vec<LayoutBlock>, labels: &Vec<usize>) -> (m: Vec<i64>)
    requires
        labels@.len() == blocks@.len(),
    ensures
        m@.len() == blocks@.len(),
        forall|v: int| 0 <= v < blocks@.len()
            ==> #[trigger] min_x_witnessed(blocks@, labels@, m@, v),
        forall|v: int, w: int|
            0 <= v < blocks@.len() && 0 <= w < blocks@.len() && labels@[w] == labels@[v]
                ==> (#[trigger] blocks@[w]).bbox.x >= #[trigger] m@[v],
{
    let n = blocks.len();
    let mut m: Vec<i64> = Vec::new();
    let mut v: usize = 0;
    while v < n
        invariant
            n == blocks@.len(),
            labels@.len() == n,
            v <= n,
            m@.len() == v,
            forall|t: int| 0 <= t < v
                ==> #[trigger] min_x_witnessed(blocks@, labels@, m@, t),
            forall|t: int, w: int|
                0 <= t < v && 0 <= w < n && labels@[w] == labels@[t]
                    ==> (#[trigger] blocks@[w]).bbox.x >= #[trigger] m@[t],
        decreases n - v,
    {
        let mut mv: i64 = blocks[v].bbox.x;
        let mut arg: usize = v;
        let mut w: usize = 0;
        while w < n
            invariant
                n == blocks@.len(),
                labels@.len() == n,
                v < n,
                w <= n,
                arg < n,
                labels@[arg as int] == labels@[v as int],
                blocks@[arg as int].bbox.x == mv,
                forall|t: int| 0 <= t < w && labels@[t] == labels@[v as int]
                    ==> (#[trigger] blocks@[t]).bbox.x >= mv,
            decreases n - w,
        {
            if labels[w] == labels[v] && blocks[w].bbox.x < mv {
                mv = blocks[w].bbox.x;
                arg = w;
            }
            w = w + 1;
        }
        let ghost m_before = m@;
        m.push(mv);
        proof {
            assert forall|t: int| 0 <= t < v + 1
                implies #[trigger] min_x_witnessed(blocks@, labels@, m@, t) by {
                if t < v {
                    assert(min_x_witnessed(blocks@, labels@, m_before, t));
                    let w = choose|w: int| 0 <= w < blocks@.len()
                        && #[trigger] labels@[w] == labels@[t] && blocks@[w].bbox.x == m_before[t];
                    assert(m@[t] == m_before[t]);
                    assert(labels@[w] == labels@[t] && blocks@[w].bbox.x == m@[t]);
                } else {
                    assert(labels@[arg as int] == labels@[t] && blocks@[arg as int].bbox.x == m@[t]);
                }
            }
        }
        v = v + 1;
    }
    m
}

/// Lexicographic rank key of a block: column minimum x, then y, then index.
pub open spec fn spec_key_lt(
    mv: i64, yv: i64, v: int,
    mw: i64, yw: i64, w: int,
) -> bool {
    mv < mw || (mv == mw && (yv < yw || (yv == yw && v < w)))
}

/// Some block of `s` holds reading-order rank `t`.
pub open spec fn order_taken(s: Seq<LayoutBlock>, t: int) -> bool {
    exists|k: int| 0 <= k < s.len() && (#[trigger] s[k]).order == t
}

/// Some block of `s` outside the pending set holds rank `t`.
pub open spec fn rank_held(s: Seq<LayoutBlock>, pending: Seq<usize>, t: int) -> bool {
    exists|k: int| 0 <= k < s.len() && !pending.contains(k as usize) && (#[trigger] s[k]).order == t
}

/// All fields except the reading-order rank agree.
pub open spec fn same_but_order(a: LayoutBlock, b: LayoutBlock) -> bool {
    a.bbox == b.bbox && a.class_id == b.class_id && a.confidence == b.confidence
        && a.lines == b.lines
}

/// Assigns reading-order ranks `0..n-1`: columns left-to-right by minimum
/// member x, members top-to-bottom by y inside each column (ties by input
/// position).  Only the `order` field of each block changes.
#[verifier::rlimit(50)]
pub fn assign_reading_order(blocks: &mut Vec<LayoutBlock>, page_width: i64)
    requires
        crate::nms::blocks_wf(old(blocks)@),
        0 < page_width <= crate::COORD_LIMIT,
    ensures
        final(blocks)@.len() == old(blocks)@.len(),
        forall|k: int| 0 <= k < old(blocks)@.len()
            ==> same_but_order(#[trigger] old(blocks)@[k], final(blocks)@[k]),
        forall|k: int| 0 <= k < old(blocks)@.len()
            ==> (#[trigger] final(blocks)@[k]).order < old(blocks)@.len(),
        forall|k1: int, k2: int|
            0 <= k1 < old(blocks)@.len() && 0 <= k2 < old(blocks)@.len() && k1 != k2
                ==> (#[trigger] final(blocks)@[k1]).order != (#[trigger] final(blocks)@[k2]).order,
        forall|t: int| 0 <= t < old(blocks)@.len() ==> #[trigger] order_taken(final(blocks)@, t),
        // top-to-bottom within a shared column
        forall|i: int, j: int|
            0 <= i < old(blocks)@.len() && 0 <= j < old(blocks)@.len()
                && #[trigger] spec_same_column(old(blocks)@, i, j, page_width)
                && old(blocks)@[i].bbox.y < old(blocks)@[j].bbox.y
                ==> final(blocks)@[i].order < final(blocks)@[j].order,
        // ties on y inside a column keep input position order
        forall|i: int, j: int|
            0 <= i < j < old(blocks)@.len()
                && #[trigger] spec_same_column(old(blocks)@, i, j, page_width)
                && old(blocks)@[i].bbox.y == old(blocks)@[j].bbox.y
                ==> final(blocks)@[i].order < final(blocks)@[j].order,
        // left-to-right across distinct columns
        forall|i: int, j: int, vi: i64, vj: i64|
            0 <= i < old(blocks)@.len() && 0 <= j < old(blocks)@.len()
                && !spec_same_column(old(blocks)@, i, j, page_width)
                && #[trigger] column_min_x_is(old(blocks)@, i, vi, page_width)
                && #[trigger] column_min_x_is(old(blocks)@, j, vj, page_width)
                && vi < vj
                ==> final(blocks)@[i].order < final(blocks)@[j].order,
{
    let ghost orig = old(blocks)@;
    let n = blocks.len();
    if n == 0 {
        return;
    }
    let labels = compute_column_labels(blocks, page_width);
    let m = column_min_x(blocks, &labels);
    proof {
        // equal labels share one column minimum
        assert forall|x: int, y: int|
            0 <= x < n && 0 <= y < n && #[trigger] labels@[x] == #[trigger] labels@[y]
            implies m@[x] == m@[y] by {
            assert(min_x_witnessed(blocks@, labels@, m@, x));
            assert(min_x_witnessed(blocks@, labels@, m@, y));
            let wx = choose|w: int| 0 <= w < blocks@.len()
                && #[trigger] labels@[w] == labels@[x] && blocks@[w].bbox.x == m@[x];
            let wy = choose|w: int| 0 <= w < blocks@.len()
                && #[trigger] labels@[w] == labels@[y] && blocks@[w].bbox.x == m@[y];
            assert(blocks@[wx].bbox.x >= m@[y]);
            assert(blocks@[wy].bbox.x >= m@[x]);
        }
    }

    let mut list: Vec<usize> = Vec::new();
    let mut v: usize = 0;
    while v < n
        invariant
            v <= n,
            list@.len() == v,
            forall|k: int| 0 <= k < v ==> #[trigger] list@[k] == k,
        decreases n - v,
    {
        list.push(v);
        v = v + 1;
    }

    proof {
        assert forall|x: usize| x < n implies list@.contains(x) by {
            assert(list@[x as int] == x);
        }
    }
    let mut counter: usize = 0;
    while list.len() > 0
        invariant
            n == orig.len(),
            blocks@.len() == n,
            labels@.len() == n,
            m@.len() == n,
            0 < page_width <= crate::COORD_LIMIT,
            counter + list@.len() == n,
            forall|k: int| 0 <= k < list@.len() ==> #[trigger] list@[k] < n,
            forall|k1: int, k2: int| 0 <= k1 < k2 < list@.len()
                ==> #[trigger] list@[k1] != #[trigger] list@[k2],
            forall|k: int| 0 <= k < n ==> same_but_order(#[trigger] orig[k], blocks@[k]),
            // already-ranked blocks hold ranks below `counter`
            forall|x: int| 0 <= x < n && !list@.contains(x as usize)
                ==> (#[trigger] blocks@[x]).order < counter,
            // every rank below `counter` is held by a ranked block
            forall|t: int| 0 <= t < counter ==> #[trigger] rank_held(blocks@, list@, t),
            // ranks are distinct among ranked blocks
            forall|x: int, y: int|
                0 <= x < n && 0 <= y < n && x != y
                    && !list@.contains(x as usize) && !list@.contains(y as usize)
                    ==> (#[trigger] blocks@[x]).order != (#[trigger] blocks@[y]).order,
            // ranked blocks precede pending blocks in key order
            forall|x: int, k: int| #![trigger blocks@[x], list@[k]]
                0 <= x < n && !list@.contains(x as usize) && 0 <= k < list@.len()
                    ==> spec_key_lt(
                        m@[x], blocks@[x].bbox.y, x,
                        m@[list@[k] as int], blocks@[list@[k] as int].bbox.y, list@[k] as int),
            // ranks agree with key order among ranked blocks
            forall|x: int, y: int|
                0 <= x < n && 0 <= y < n && x != y
                    && !list@.contains(x as usize) && !list@.contains(y as usize)
                    && spec_key_lt(m@[x], (#[trigger] blocks@[x]).bbox.y, x,
                                   m@[y], (#[trigger] blocks@[y]).bbox.y, y)
                    ==> blocks@[x].order < blocks@[y].order,
        decreases list@.len(),
    {
        // position of the pending block with the smallest key
        let mut pos: usize = 0;
        let mut t: usize = 1;
        while t < list.len()
            invariant
                n == orig.len(),
                blocks@.len() == n,
                labels@.len() == n,
                m@.len() == n,
                list@.len() > 0,
                forall|k: int| 0 <= k < list@.len() ==> #[trigger] list@[k] < n,
                forall|k1: int, k2: int| 0 <= k1 < k2 < list@.len()
                    ==> #[trigger] list@[k1] != #[trigger] list@[k2],
                pos < t <= list@.len() || (pos == 0 && t == 1 && list@.len() == 1),
                pos < list@.len(),
                forall|k: int| 0 <= k < t && k != pos
                    ==> spec_key_lt(
                        m@[list@[pos as int] as int], blocks@[list@[pos as int] as int].bbox.y, list@[pos as int] as int,
                        m@[#[trigger] list@[k] as int], blocks@[list@[k] as int].bbox.y, list@[k] as int),
            decreases list@.len() - t,
        {
            let a = list[t];
            let b = list[pos];
            let a_lt = if m[a] < m[b] {
                true
            } else if m[a] == m[b] {
                if blocks[a].bbox.y < blocks[b].bbox.y {
                    true
                } else if blocks[a].bbox.y == blocks[b].bbox.y {
                    a < b
                } else {
                    false
                }
            } else {
                false
            };
            if a_lt {
                pos = t;
            }
            t = t + 1;
        }

        let ghost list_before = list@;
        let ghost blocks_before = blocks@;
        let u = list.remove(pos);
        proof {
            assert forall|x: usize| x < n
                implies (#[trigger] list@.contains(x) <==> (list_before.contains(x) && x != u)) by {
                if list_before.contains(x) && x != u {
                    let k = choose|k: int| 0 <= k < list_before.len() && list_before[k] == x;
                    if k < pos {
                        assert(list@[k] == x);
                    } else {
                        assert(list@[k - 1] == x);
                    }
                }
                if list@.contains(x) {
                    let k = choose|k: int| 0 <= k < list@.len() && list@[k] == x;
                    if k < pos {
                        assert(list_before[k] == x);
                    } else {
                        assert(list_before[k + 1] == x);
                    }
                    assert(x != u);
                }
            }
            assert forall|k1: int, k2: int| 0 <= k1 < k2 < list@.len()
                implies #[trigger] list@[k1] != #[trigger] list@[k2] by {
                let a1: int = if k1 < pos { k1 } else { k1 + 1 };
                let a2: int = if k2 < pos { k2 } else { k2 + 1 };
                assert(list@[k1] == list_before[a1] && list@[k2] == list_before[a2]);
            }
            // u has the smallest key among formerly pending blocks
            assert forall|k: int| 0 <= k < list@.len()
                implies spec_key_lt(
                    m@[u as int], blocks@[u as int].bbox.y, u as int,
                    m@[#[trigger] list@[k] as int], blocks@[list@[k] as int].bbox.y, list@[k] as int) by {
                let a: int = if k < pos { k } else { k + 1 };
                assert(list@[k] == list_before[a] && a != pos);
            }
        }

        let b = blocks.remove(u);
        let nb = LayoutBlock {
            bbox: b.bbox,
            class_id: b.class_id,
            confidence: b.confidence,
            order: counter,
            lines: b.lines,
        };
        blocks.insert(u, nb);
        proof {
            assert(blocks@ =~= blocks_before.update(u as int, nb));
            assert(list_before[pos as int] == u);
            assert(list_before.contains(u));
            assert forall|t2: int| 0 <= t2 < counter + 1
                implies #[trigger] rank_held(blocks@, list@, t2) by {
                if t2 < counter {
                    assert(rank_held(blocks_before, list_before, t2));
                    let x = choose|x: int| 0 <= x < blocks_before.len()
                        && !list_before.contains(x as usize)
                        && (#[trigger] blocks_before[x]).order == t2;
                    assert(x != u as int);
                    assert(blocks@[x].order == t2 && !list@.contains(x as usize));
                } else {
                    assert(blocks@[u as int].order == t2 && !list@.contains(u));
                }
            }
        }
        counter = counter + 1;
    }

    proof {
        assert forall|t: int| 0 <= t < n implies #[trigger] order_taken(blocks@, t) by {
            assert(rank_held(blocks@, list@, t));
            let k = choose|k: int| 0 <= k < blocks@.len() && !list@.contains(k as usize)
                && (#[trigger] blocks@[k]).order == t;
            assert(blocks@[k].order == t);
        }
        // translate the key ordering into the stated column properties
        assert forall|i: int, j: int|
            0 <= i < n && 0 <= j < n
                && #[trigger] spec_same_column(orig, i, j, page_width)
                && orig[i].bbox.y < orig[j].bbox.y
            implies blocks@[i].order < blocks@[j].order by {
            lemma_labels_match_columns(orig, labels@, i, j, page_width);
            assert(m@[i] == m@[j]);
            assert(blocks@[i].bbox.y == orig[i].bbox.y);
            assert(spec_key_lt(m@[i], blocks@[i].bbox.y, i, m@[j], blocks@[j].bbox.y, j));
        }
        assert forall|i: int, j: int|
            0 <= i < j < n
                && #[trigger] spec_same_column(orig, i, j, page_width)
                && orig[i].bbox.y == orig[j].bbox.y
            implies blocks@[i].order < blocks@[j].order by {
            lemma_labels_match_columns(orig, labels@, i, j, page_width);
            assert(m@[i] == m@[j]);
            assert(spec_key_lt(m@[i], blocks@[i].bbox.y, i, m@[j], blocks@[j].bbox.y, j));
        }
        assert forall|i: int, j: int, vi: i64, vj: i64|
            0 <= i < n && 0 <= j < n
                && !spec_same_column(orig, i, j, page_width)
                && #[trigger] column_min_x_is(orig, i, vi, page_width)
                && #[trigger] column_min_x_is(orig, j, vj, page_width)
                && vi < vj
            implies blocks@[i].order < blocks@[j].order by {
            lemma_column_min_matches(orig, labels@, m@, i, vi, page_width);
            lemma_column_min_matches(orig, labels@, m@, j, vj, page_width);
            lemma_labels_match_columns(orig, labels@, i, j, page_width);
            assert(spec_key_lt(m@[i], blocks@[i].bbox.y, i, m@[j], blocks@[j].bbox.y, j));
        }
    }
}

/// The exec column minimum agrees with the specification-level column
/// minimum, for sound, edge-complete labels.
proof fn lemma_column_min_matches(
    blocks: Seq<LayoutBlock>,
    labels: Seq<usize>,
    m: Seq<i64>,
    i: int,
    v: i64,
    page_width: i64,
)
    requires
        labels.len() == blocks.len(),
        m.len() == blocks.len(),
        labels_sound(blocks, labels, page_width),
        labels_edge_complete(blocks, labels, page_width),
        0 <= i < blocks.len(),
        column_min_x_is(blocks, i, v, page_width),
        min_x_witnessed(blocks, labels, m, i),
        forall|w: int| 0 <= w < blocks.len() && labels[w] == labels[i]
            ==> (#[trigger] blocks[w]).bbox.x >= m[i],
    ensures
        m[i] == v,
{
    let t = choose|t: int| 0 <= t < blocks.len()
        && #[trigger] spec_same_column(blocks, i, t, page_width) && blocks[t].bbox.x == v;
    lemma_labels_match_columns(blocks, labels, i, t, page_width);
    assert(blocks[t].bbox.x >= m[i]);
    let w = choose|w: int| 0 <= w < blocks.len()
        && #[trigger] labels[w] == labels[i] && blocks[w].bbox.x == m[i];
    lemma_labels_match_columns(blocks, labels, i, w, page_width);
    assert(blocks[w].bbox.x >= v);
}

} // verus!
