use vstd::prelude::*;
use crate::geometry::{Point, Edge, Pt3, SegV, pt_eq, det3, seg_cross, seg_nondegen, lemma_seg_cross_symm};

verus! {

// ---------------------------------------------------------------------------
// The model of a visibility graph.
// ---------------------------------------------------------------------------

/// The abstract state of a visibility graph: the point sequence, the set of
/// committed ("real") edges and the set of candidate ("visibility") edges,
/// both as normalized index pairs.
pub ghost struct VgModel {
    pub points: Seq<Pt3>,
    pub reals: Set<(int, int)>,
    pub vis: Set<(int, int)>,
}

/// The pair (i, j) with the smaller index first.
pub open spec fn npair(i: int, j: int) -> (int, int) {
    if i <= j {
        (i, j)
    } else {
        (j, i)
    }
}

/// The segment joining the two indexed points.
pub open spec fn seg_of(points: Seq<Pt3>, pr: (int, int)) -> SegV {
    SegV { a: points[pr.0], b: points[pr.1] }
}

/// The set of index pairs held by a vector of edges.
pub open spec fn pair_set(s: Seq<[usize; 2]>) -> Set<(int, int)> {
    Set::new(|pr: (int, int)| exists |k: int| 0 <= k < s.len() && pr == (#[trigger] s[k][0] as int, s[k][1] as int))
}

/// Every entry is an ordered pair of distinct indices below `n`.
pub open spec fn edge_vec_ok(s: Seq<[usize; 2]>, n: int) -> bool {
    forall |k: int| 0 <= k < s.len() ==> (#[trigger] s[k])[0] < s[k][1] && (s[k][1] as int) < n
}

/// No committed edge's segment crosses the segment of the pair `q`.
pub open spec fn no_real_crossing(m: VgModel, q: (int, int)) -> bool {
    forall |f: (int, int)| #[trigger] m.reals.contains(f) ==> !seg_cross(
        seg_of(m.points, f),
        seg_of(m.points, q),
    )
}

/// The authoritative-candidate-set invariant: an index pair is a visibility
/// edge exactly when it is not itself committed and its segment crosses no
/// committed edge.
pub open spec fn vis_exact(m: VgModel) -> bool {
    forall |q: (int, int)| 0 <= q.0 < q.1 < m.points.len() ==> (#[trigger] m.vis.contains(q)
        <==> (!m.reals.contains(q) && no_real_crossing(m, q)))
}

/// No two committed edges cross.
pub open spec fn reals_non_crossing(m: VgModel) -> bool {
    forall |f: (int, int), g: (int, int)| #[trigger] m.reals.contains(f) && #[trigger] m.reals.contains(g) && f != g
        ==> !seg_cross(seg_of(m.points, f), seg_of(m.points, g))
}

/// The model after committing the visibility pair `pr`: the pair moves into
/// the committed set, and every visibility pair whose segment crosses the
/// new segment is pruned, the pair itself included.
pub open spec fn committed(m: VgModel, pr: (int, int)) -> VgModel {
    VgModel {
        points: m.points,
        reals: m.reals.insert(pr),
        vis: Set::new(
            |q: (int, int)|
                m.vis.contains(q) && q != pr && !seg_cross(
                    seg_of(m.points, pr),
                    seg_of(m.points, q),
                ),
        ),
    }
}

/// No committed edge's segment crosses the segment from point `j` to the
/// new point `q`.
pub open spec fn new_vertex_visible(m: VgModel, q: Pt3, j: int) -> bool {
    forall |f: (int, int)| #[trigger] m.reals.contains(f) ==> !seg_cross(
        seg_of(m.points, f),
        SegV { a: m.points[j], b: q },
    )
}

/// The model after appending the point `q`: it gets the next index, and for
/// every older index `j` the pair (j, new) becomes a visibility edge when
/// its segment crosses no committed edge.
pub open spec fn vertex_added(m: VgModel, q: Pt3) -> VgModel {
    VgModel {
        points: m.points.push(q),
        reals: m.reals,
        vis: Set::new(
            |pr: (int, int)|
                m.vis.contains(pr) || (pr.1 == m.points.len() && 0 <= pr.0 < m.points.len()
                    && new_vertex_visible(m, q, pr.0)),
        ),
    }
}

/// An existing point coincides with `q`.
pub open spec fn has_duplicate(m: VgModel, q: Pt3) -> bool {
    exists |k: int| 0 <= k < m.points.len() && pt_eq(#[trigger] m.points[k], q)
}

/// `q` lies exactly on a line through two existing points, violating the
/// general-position requirement.
pub open spec fn makes_collinear(m: VgModel, q: Pt3) -> bool {
    exists |i: int, j: int| 0 <= i < j < m.points.len() && #[trigger] det3(m.points[i], m.points[j], q) == 0
}

/// The indices visible from `i` among indices below `j`, in increasing order.
pub open spec fn visible_upto(m: VgModel, i: int, j: int) -> Seq<usize>
    decreases j,
{
    if j <= 0 {
        Seq::empty()
    } else if m.vis.contains(npair(i, j - 1)) {
        visible_upto(m, i, j - 1).push((j - 1) as usize)
    } else {
        visible_upto(m, i, j - 1)
    }
}

/// The indices visible from `i`, in increasing order.
pub open spec fn visible_seq(m: VgModel, i: int) -> Seq<usize> {
    visible_upto(m, i, m.points.len() as int)
}

/// Why a mutation of the visibility graph was rejected.
#[derive(Clone, Copy, PartialEq, Eq, Structural, Debug)]
pub enum GraphError {
    /// The new point coincides with an existing vertex.
    DuplicatePoint,
    /// The new point is exactly collinear with two existing vertices.
    CollinearPoint,
    /// An index does not name a vertex.
    IndexOutOfBounds,
    /// The pair is not currently a visibility edge.
    NotVisible,
}

// ---------------------------------------------------------------------------
// Executable types.
// ---------------------------------------------------------------------------

/// An ordered, append-only set of points; an index into `vertices` is the
/// stable identity of a vertex.
pub struct PointSet {
    pub vertices: Vec<Point>,
}

impl PointSet {
    /// All points are well-formed and pairwise distinct by position.
    pub open spec fn wf(self) -> bool {
        &&& forall |i: int| 0 <= i < self.vertices@.len() ==> (#[trigger] self.vertices@[i]).wf()
        &&& forall |i: int, j: int| 0 <= i < j < self.vertices@.len() ==> !pt_eq(
            self.vertices@[i]@,
            self.vertices@[j]@,
        )
    }

    /// The points as homogeneous triples.
    pub open spec fn model(self) -> Seq<Pt3> {
        self.vertices@.map_values(|p: Point| p@)
    }

    /// The edge joining the two indexed vertices, recomputed from the live
    /// point sequence.
    pub fn as_edge(&self, e: &[usize; 2]) -> (r: Edge)
        requires
            self.wf(),
            (e[0] as int) < self.vertices@.len(),
            (e[1] as int) < self.vertices@.len(),
        ensures
            r.wf(),
            r@ == seg_of(self.model(), (e[0] as int, e[1] as int)),
    {
        let r = Edge::new(&self.vertices[e[0]], &self.vertices[e[1]]);
        proof {
            assert(self.model()[e[0] as int] == self.vertices@[e[0] as int]@);
            assert(self.model()[e[1] as int] == self.vertices@[e[1] as int]@);
        }
        r
    }
}

/// A point set together with its committed edges.
pub struct Graph {
    pub ps: PointSet,
    pub edges: Vec<[usize; 2]>,
}

impl Graph {
    /// A copy of the point sequence.
    pub fn vertices(&self) -> (r: Vec<Point>)
        requires
            self.ps.wf(),
        ensures
            r@.len() == self.ps.vertices@.len(),
            forall |i: int| 0 <= i < r@.len() ==> (#[trigger] r@[i])@ == self.ps.vertices@[i]@
                && r@[i].wf(),
    {
        let mut r: Vec<Point> = Vec::new();
        let mut k: usize = 0;
        while k < self.ps.vertices.len()
            invariant
                self.ps.wf(),
                k <= self.ps.vertices@.len(),
                r@.len() == k,
                forall |i: int| 0 <= i < k ==> (#[trigger] r@[i])@ == self.ps.vertices@[i]@
                    && r@[i].wf(),
            decreases self.ps.vertices@.len() - k,
        {
            r.push(self.ps.vertices[k].clone_point());
            k = k + 1;
        }
        r
    }
}

/// The visibility graph: the point set, the committed edges, and the
/// authoritative set of candidate edges — the pairs of vertices whose
/// connecting segment crosses no committed edge.
pub struct VisibilityGraph {
    pub g: Graph,
    pub vis_edges: Vec<[usize; 2]>,
}

impl View for VisibilityGraph {
    type V = VgModel;

    open spec fn view(&self) -> VgModel {
        VgModel {
            points: self.g.ps.model(),
            reals: pair_set(self.g.edges@),
            vis: pair_set(self.vis_edges@),
        }
    }
}

/// Scans a vector of edges for the pair (a, b).
fn contains_pair(v: &Vec<[usize; 2]>, a: usize, b: usize) -> (r: bool)
    ensures
        r == pair_set(v@).contains((a as int, b as int)),
{
    let mut k: usize = 0;
    while k < v.len()
        invariant
            k <= v@.len(),
            forall |t: int| 0 <= t < k ==> !((a as int, b as int) == (#[trigger] v@[t][0] as int, v@[t][1] as int)),
        decreases v@.len() - k,
    {
        if v[k][0] == a && v[k][1] == b {
            return true;
        }
        k = k + 1;
    }
    false
}

/// Appending an edge to a vector adds exactly its pair to the pair set.
proof fn lemma_pair_set_push(s: Seq<[usize; 2]>, e: [usize; 2])
    ensures
        pair_set(s.push(e)) =~= pair_set(s).insert((e[0] as int, e[1] as int)),
{
    assert forall |q: (int, int)| pair_set(s.push(e)).contains(q) implies pair_set(s).insert(
        (e[0] as int, e[1] as int),
    ).contains(q) by {
        let t = choose |t: int| 0 <= t < s.push(e).len() && q == (#[trigger] s.push(e)[t][0] as int, s.push(e)[t][1] as int);
        if t < s.len() {
            assert(s.push(e)[t] == s[t]);
            assert(q == (s[t][0] as int, s[t][1] as int));
        } else {
            assert(s.push(e)[t] == e);
        }
    }
    assert forall |q: (int, int)| pair_set(s).insert((e[0] as int, e[1] as int)).contains(q)
        implies pair_set(s.push(e)).contains(q) by {
        if q == (e[0] as int, e[1] as int) {
            assert(s.push(e)[s.len() as int] == e);
            assert(q == (s.push(e)[s.len() as int][0] as int, s.push(e)[s.len() as int][1] as int));
        } else {
            let t = choose |t: int| 0 <= t < s.len() && q == (#[trigger] s[t][0] as int, s[t][1] as int);
            assert(s.push(e)[t] == s[t]);
            assert(q == (s.push(e)[t][0] as int, s.push(e)[t][1] as int));
        }
    }
}

impl VisibilityGraph {
    /// The standing invariant: well-formed distinct points, index pairs in
    /// range and ordered, the candidate set exact, and no two committed
    /// edges crossing.
    pub open spec fn wf(self) -> bool {
        &&& self.g.ps.wf()
        &&& edge_vec_ok(self.g.edges@, self.g.ps.vertices@.len() as int)
        &&& edge_vec_ok(self.vis_edges@, self.g.ps.vertices@.len() as int)
        &&& vis_exact(self@)
        &&& reals_non_crossing(self@)
    }

    /// An empty visibility graph.
    pub fn new() -> (r: VisibilityGraph)
        ensures
            r.wf(),
            r@.points.len() == 0,
            r@.reals =~= Set::empty(),
            r@.vis =~= Set::empty(),
    {
        VisibilityGraph { g: Graph { ps: PointSet { vertices: Vec::new() }, edges: Vec::new() }, vis_edges: Vec::new() }
    }

    /// A copy of the point sequence.
    pub fn vertices(&self) -> (r: Vec<Point>)
        requires
            self.wf(),
        ensures
            r@.len() == self@.points.len(),
            forall |i: int| 0 <= i < r@.len() ==> (#[trigger] r@[i])@ == self@.points[i]
                && r@[i].wf(),
    {
        self.g.vertices()
    }

    /// A copy of the committed edges.
    pub fn edges(&self) -> (r: Vec<[usize; 2]>)
        requires
            self.wf(),
        ensures
            r@ == self.g.edges@,
            pair_set(r@) == self@.reals,
    {
        let mut r: Vec<[usize; 2]> = Vec::new();
        let mut k: usize = 0;
        while k < self.g.edges.len()
            invariant
                k <= self.g.edges@.len(),
                r@ == self.g.edges@.subrange(0, k as int),
            decreases self.g.edges@.len() - k,
        {
            r.push(self.g.edges[k]);
            proof {
                assert(r@ =~= self.g.edges@.subrange(0, k + 1 as int));
            }
            k = k + 1;
        }
        proof {
            assert(r@ =~= self.g.edges@);
        }
        r
    }

    /// The number of vertices.
    pub fn vertex_count(&self) -> (r: usize)
        ensures
            r as int == self@.points.len(),
    {
        self.g.ps.vertices.len()
    }

    /// Whether the pair {i, j} is currently a visibility edge.
    pub fn is_visible(&self, i: usize, j: usize) -> (r: bool)
        ensures
            r == self@.vis.contains(npair(i as int, j as int)),
    {
        if i <= j {
            contains_pair(&self.vis_edges, i, j)
        } else {
            contains_pair(&self.vis_edges, j, i)
        }
    }

    /// Every vertex visible from `i`: each `j` such that {i, j} is a
    /// visibility edge, in increasing order. Querying mutates nothing, so
    /// repeated calls return the same sequence.
    pub fn visible_from(&self, i: usize) -> (r: Vec<usize>)
        requires
            self.wf(),
        ensures
            r@ == visible_seq(self@, i as int),
    {
        let n = self.g.ps.vertices.len();
        let mut r: Vec<usize> = Vec::new();
        let mut j: usize = 0;
        while j < n
            invariant
                j <= n,
                n as int == self@.points.len(),
                r@ == visible_upto(self@, i as int, j as int),
            decreases n - j,
        {
            if self.is_visible(i, j) {
                r.push(j);
            }
            j = j + 1;
        }
        r
    }

    /// Commits the visibility pair `e` as a real edge. Requires the pair to
    /// be a current visibility edge (with valid indices); then the pair
    /// moves into the committed set, and every candidate pair whose segment
    /// crosses the new edge is pruned — including the pair itself. On a bad
    /// index or a non-visible pair the call fails and the graph is
    /// unchanged.
    pub fn add_edge(&mut self, e: [usize; 2]) -> (res: Result<(), GraphError>)
        requires
            old(self).wf(),
        ensures
            final(self).wf(),
            match res {
                Ok(()) => {
                    let pr = npair(e[0] as int, e[1] as int);
                    &&& (e[0] as int) < old(self)@.points.len()
                    &&& (e[1] as int) < old(self)@.points.len()
                    &&& old(self)@.vis.contains(pr)
                    &&& final(self)@.points == old(self)@.points
                    &&& final(self)@.reals =~= committed(old(self)@, pr).reals
                    &&& final(self)@.vis =~= committed(old(self)@, pr).vis
                },
                Err(GraphError::IndexOutOfBounds) => {
                    &&& !((e[0] as int) < old(self)@.points.len() && (e[1] as int) < old(
                        self,
                    )@.points.len())
                    &&& *final(self) == *old(self)
                },
                Err(GraphError::NotVisible) => {
                    &&& (e[0] as int) < old(self)@.points.len()
                    &&& (e[1] as int) < old(self)@.points.len()
                    &&& !old(self)@.vis.contains(npair(e[0] as int, e[1] as int))
                    &&& *final(self) == *old(self)
                },
                Err(_) => false,
            },
    {
        let n = self.g.ps.vertices.len();
        if e[0] >= n || e[1] >= n {
            return Err(GraphError::IndexOutOfBounds);
        }
        let a = if e[0] <= e[1] { e[0] } else { e[1] };
        let b = if e[0] <= e[1] { e[1] } else { e[0] };
        if !contains_pair(&self.vis_edges, a, b) {
            return Err(GraphError::NotVisible);
        }
        let ghost m0 = self@;
        let ghost pr = (a as int, b as int);
        proof {
            let k = choose |k: int| 0 <= k < self.vis_edges@.len() && pr == (self.vis_edges@[k][0] as int, self.vis_edges@[k][1] as int);
            assert(self.vis_edges@[k][0] < self.vis_edges@[k][1]);
        }
        let new_edge = self.g.ps.as_edge(&[a, b]);
        let mut kept: Vec<[usize; 2]> = Vec::new();
        let mut k: usize = 0;
        while k < self.vis_edges.len()
            invariant
                old(self).wf(),
                *self == *old(self),
                m0 == self@,
                pr == (a as int, b as int),
                a < b,
                (b as int) < m0.points.len(),
                new_edge.wf(),
                new_edge@ == seg_of(m0.points, pr),
                seg_nondegen(new_edge@),
                k <= self.vis_edges@.len(),
                edge_vec_ok(kept@, m0.points.len() as int),
                forall |q: (int, int)| #[trigger] pair_set(kept@).contains(q) <==> (
                    (exists |t: int| 0 <= t < k && q == (#[trigger] self.vis_edges@[t][0] as int, self.vis_edges@[t][1] as int))
                    && q != pr && !seg_cross(seg_of(m0.points, pr), seg_of(m0.points, q))),
            decreases self.vis_edges@.len() - k,
        {
            let f = self.vis_edges[k];
            let fe = self.g.ps.as_edge(&f);
            let ghost fq = (f[0] as int, f[1] as int);
            let ghost kept0 = kept@;
            let same = f[0] == a && f[1] == b;
            let crossing = new_edge.intersect(&fe);
            if !same && !crossing {
                kept.push(f);
                proof {
                    lemma_pair_set_push(kept0, f);
                }
            }
            proof {
                assert(same == (fq == pr));
                assert(crossing == seg_cross(seg_of(m0.points, pr), seg_of(m0.points, fq)));
                assert forall |q: (int, int)| #[trigger] pair_set(kept@).contains(q) <==> (
                    (exists |t: int| 0 <= t < k + 1 && q == (#[trigger] self.vis_edges@[t][0] as int, self.vis_edges@[t][1] as int))
                    && q != pr && !seg_cross(seg_of(m0.points, pr), seg_of(m0.points, q))) by {
                    assert(q == fq ==> 0 <= k < k + 1 && q == (self.vis_edges@[k as int][0] as int, self.vis_edges@[k as int][1] as int));
                    if pair_set(kept@).contains(q) && !pair_set(kept0).contains(q) {
                        assert(!same && !crossing && q == fq);
                    }
                    if q != fq && (exists |t: int| 0 <= t < k + 1 && q == (#[trigger] self.vis_edges@[t][0] as int, self.vis_edges@[t][1] as int)) {
                        let t = choose |t: int| 0 <= t < k + 1 && q == (#[trigger] self.vis_edges@[t][0] as int, self.vis_edges@[t][1] as int);
                        assert(t != k);
                        assert(0 <= t < k && q == (self.vis_edges@[t][0] as int, self.vis_edges@[t][1] as int));
                    }
                }
            }
            k = k + 1;
        }
        self.g.edges.push([a, b]);
        self.vis_edges = kept;
        proof {
            let m1 = self@;
            let cm = committed(m0, pr);
            assert(m1.points =~= m0.points);
            assert forall |q: (int, int)| #[trigger] m1.reals.contains(q) <==> cm.reals.contains(q) by {
                if m1.reals.contains(q) {
                    let t = choose |t: int| 0 <= t < self.g.edges@.len() && q == (#[trigger] self.g.edges@[t][0] as int, self.g.edges@[t][1] as int);
                    if t < self.g.edges@.len() - 1 {
                        assert(old(self).g.edges@[t] == self.g.edges@[t]);
                        assert(m0.reals.contains(q));
                    } else {
                        assert(q == pr);
                    }
                }
                if cm.reals.contains(q) {
                    if q == pr {
                        assert(self.g.edges@[self.g.edges@.len() - 1] == [a, b]);
                        assert(q == (self.g.edges@[self.g.edges@.len() - 1][0] as int, self.g.edges@[self.g.edges@.len() - 1][1] as int));
                    } else {
                        let t = choose |t: int| 0 <= t < old(self).g.edges@.len() && q == (#[trigger] old(self).g.edges@[t][0] as int, old(self).g.edges@[t][1] as int);
                        assert(self.g.edges@[t] == old(self).g.edges@[t]);
                    }
                }
            }
            assert(m1.reals =~= cm.reals);
            assert forall |q: (int, int)| #[trigger] m1.vis.contains(q) <==> cm.vis.contains(q) by {
                if m1.vis.contains(q) {
                    assert(m0.vis.contains(q)) by {
                        let t = choose |t: int| 0 <= t < old(self).vis_edges@.len() && q == (#[trigger] old(self).vis_edges@[t][0] as int, old(self).vis_edges@[t][1] as int);
                        assert(0 <= t < old(self).vis_edges@.len());
                    }
                }
                if cm.vis.contains(q) {
                    let t = choose |t: int| 0 <= t < old(self).vis_edges@.len() && q == (#[trigger] old(self).vis_edges@[t][0] as int, old(self).vis_edges@[t][1] as int);
                    assert(0 <= t < old(self).vis_edges@.len());
                }
            }
            assert(m1.vis =~= cm.vis);
            // the invariant is maintained
            assert(edge_vec_ok(self.g.edges@, m1.points.len() as int)) by {
                assert forall |t: int| 0 <= t < self.g.edges@.len() implies (#[trigger] self.g.edges@[t])[0] < self.g.edges@[t][1] && (self.g.edges@[t][1] as int) < m1.points.len() by {
                    if t < self.g.edges@.len() - 1 {
                        assert(self.g.edges@[t] == old(self).g.edges@[t]);
                    }
                }
            }
            assert(vis_exact(m1)) by {
                assert forall |q: (int, int)| 0 <= q.0 < q.1 < m1.points.len() implies (#[trigger] m1.vis.contains(q)
                    <==> (!m1.reals.contains(q) && no_real_crossing(m1, q))) by {
                    assert(m0.vis.contains(q) <==> (!m0.reals.contains(q) && no_real_crossing(m0, q)));
                    if m1.vis.contains(q) {
                        assert(m0.vis.contains(q) && q != pr && !seg_cross(seg_of(m0.points, pr), seg_of(m0.points, q)));
                        assert(!m1.reals.contains(q));
                        assert forall |f: (int, int)| #[trigger] m1.reals.contains(f) implies !seg_cross(seg_of(m1.points, f), seg_of(m1.points, q)) by {
                            if f != pr {
                                assert(m0.reals.contains(f));
                            }
                        }
                    }
                    if !m1.reals.contains(q) && no_real_crossing(m1, q) {
                        assert(!m0.reals.contains(q));
                        assert(q != pr) by {
                            assert(m1.reals.contains(pr));
                        }
                        assert forall |f: (int, int)| #[trigger] m0.reals.contains(f) implies !seg_cross(seg_of(m0.points, f), seg_of(m0.points, q)) by {
                            assert(m1.reals.contains(f));
                        }
                        assert(m0.vis.contains(q));
                        assert(cm.reals.contains(pr));
                        assert(m1.reals.contains(pr));
                        assert(!seg_cross(seg_of(m1.points, pr), seg_of(m1.points, q)));
                        assert(seg_of(m1.points, pr) == seg_of(m0.points, pr));
                        assert(seg_of(m1.points, q) == seg_of(m0.points, q));
                        assert(cm.vis.contains(q));
                        assert(m1.vis.contains(q));
                    }
                }
            }
            assert(reals_non_crossing(m1)) by {
                assert forall |f: (int, int), g2: (int, int)| #[trigger] m1.reals.contains(f) && #[trigger] m1.reals.contains(g2) && f != g2
                    implies !seg_cross(seg_of(m1.points, f), seg_of(m1.points, g2)) by {
                    if f != pr && g2 != pr {
                        assert(m0.reals.contains(f) && m0.reals.contains(g2));
                    } else if f == pr && g2 != pr {
                        assert(m0.reals.contains(g2));
                        assert(m0.vis.contains(pr));
                        assert(!seg_cross(seg_of(m0.points, g2), seg_of(m0.points, pr)));
                        lemma_seg_cross_symm(seg_of(m0.points, f), seg_of(m0.points, g2));
                    } else if f != pr && g2 == pr {
                        assert(m0.reals.contains(f));
                        assert(m0.vis.contains(pr));
                    }
                }
            }
        }
        Ok(())
    }

    /// Appends a point as a new vertex. The point is rejected when it
    /// coincides with an existing vertex or lies exactly on a line through
    /// two existing vertices (the general-position requirement); otherwise
    /// it receives the next index, and for every older vertex `j` the pair
    /// {j, new} becomes a visibility edge exactly when its segment crosses
    /// no committed edge. Committed edges are never touched.
    pub fn add_vertex(&mut self, p: Point) -> (res: Result<usize, GraphError>)
        requires
            old(self).wf(),
            p.wf(),
        ensures
            final(self).wf(),
            match res {
                Ok(i) => {
                    &&& i as int == old(self)@.points.len()
                    &&& !has_duplicate(old(self)@, p@)
                    &&& !makes_collinear(old(self)@, p@)
                    &&& final(self)@.points == old(self)@.points.push(p@)
                    &&& final(self)@.reals =~= old(self)@.reals
                    &&& final(self)@.vis =~= vertex_added(old(self)@, p@).vis
                },
                Err(GraphError::DuplicatePoint) => {
                    &&& has_duplicate(old(self)@, p@)
                    &&& *final(self) == *old(self)
                },
                Err(GraphError::CollinearPoint) => {
                    &&& !has_duplicate(old(self)@, p@)
                    &&& makes_collinear(old(self)@, p@)
                    &&& *final(self) == *old(self)
                },
                Err(_) => false,
            },
    {
        let ghost m0 = old(self)@;
        let n = self.g.ps.vertices.len();
        let mut k: usize = 0;
        while k < n
            invariant
                *self == *old(self),
                old(self).wf(),
                p.wf(),
                n as int == m0.points.len(),
                m0 == old(self)@,
                k <= n,
                forall |t: int| 0 <= t < k ==> !pt_eq(#[trigger] m0.points[t], p@),
            decreases n - k,
        {
            if self.g.ps.vertices[k].coincides(&p) {
                proof {
                    assert(pt_eq(m0.points[k as int], p@));
                }
                return Err(GraphError::DuplicatePoint);
            }
            k = k + 1;
        }
        let mut i: usize = 0;
        while i < n
            invariant
                *self == *old(self),
                old(self).wf(),
                p.wf(),
                n as int == m0.points.len(),
                m0 == old(self)@,
                i <= n,
                forall |t: int| 0 <= t < n ==> !pt_eq(#[trigger] m0.points[t], p@),
                forall |t: int, u: int| 0 <= t < i && t < u < n ==> #[trigger] det3(
                    m0.points[t],
                    m0.points[u],
                    p@,
                ) != 0,
            decreases n - i,
        {
            let mut j: usize = i + 1;
            while j < n
                invariant
                    *self == *old(self),
                    old(self).wf(),
                    p.wf(),
                    n as int == m0.points.len(),
                    m0 == old(self)@,
                    i < n,
                    i < j <= n || (i + 1 == j && j > n),
                    forall |t: int| 0 <= t < n ==> !pt_eq(#[trigger] m0.points[t], p@),
                    forall |t: int, u: int| 0 <= t < i && t < u < n ==> #[trigger] det3(
                        m0.points[t],
                        m0.points[u],
                        p@,
                    ) != 0,
                    forall |u: int| i < u < j ==> #[trigger] det3(
                        m0.points[i as int],
                        m0.points[u],
                        p@,
                    ) != 0,
                decreases n - j,
            {
                let e = self.g.ps.as_edge(&[i, j]);
                if e.line_contains_point(&p) {
                    proof {
                        assert(det3(m0.points[i as int], m0.points[j as int], p@) == 0);
                        assert(makes_collinear(m0, p@));
                        assert(!has_duplicate(m0, p@));
                    }
                    return Err(GraphError::CollinearPoint);
                }
                j = j + 1;
            }
            i = i + 1;
        }
        proof {
            assert(!has_duplicate(m0, p@));
            assert(!makes_collinear(m0, p@));
        }
        self.g.ps.vertices.push(p);
        proof {
            assert(self.g.ps.model() =~= m0.points.push(p@));
            assert forall |t: int, u: int| 0 <= t < u < self.g.ps.vertices@.len() implies !pt_eq(
                self.g.ps.vertices@[t]@,
                self.g.ps.vertices@[u]@,
            ) by {
                if u < n {
                    assert(self.g.ps.vertices@[t] == old(self).g.ps.vertices@[t]);
                    assert(self.g.ps.vertices@[u] == old(self).g.ps.vertices@[u]);
                    assert(m0.points[t] == old(self).g.ps.vertices@[t]@);
                    assert(m0.points[u] == old(self).g.ps.vertices@[u]@);
                } else {
                    assert(self.g.ps.vertices@[t] == old(self).g.ps.vertices@[t]);
                    assert(m0.points[t] == old(self).g.ps.vertices@[t]@);
                    assert(self.g.ps.vertices@[u] == p);
                    assert(!pt_eq(m0.points[t], p@));
                }
            }
            assert(self.g.ps.wf());
        }
        let mut j: usize = 0;
        while j < n
            invariant
                old(self).wf(),
                p.wf(),
                n as int == m0.points.len(),
                m0 == old(self)@,
                j <= n,
                self.g.edges@ == old(self).g.edges@,
                self.g.ps.vertices@ == old(self).g.ps.vertices@.push(p),
                self.g.ps.wf(),
                self@.points == m0.points.push(p@),
                self@.reals == m0.reals,
                forall |t: int| 0 <= t < n ==> !pt_eq(#[trigger] m0.points[t], p@),
                edge_vec_ok(self.vis_edges@, n as int + 1),
                forall |q: (int, int)| #[trigger] pair_set(self.vis_edges@).contains(q) <==> (
                    m0.vis.contains(q) || (q.1 == n && 0 <= q.0 < j && new_vertex_visible(
                        m0,
                        p@,
                        q.0,
                    ))),
            decreases n - j,
        {
            let cand = self.g.ps.as_edge(&[j, n]);
            proof {
                assert(self@.points[j as int] == m0.points[j as int]);
                assert(self@.points[n as int] == p@);
                assert(cand@ == (SegV { a: m0.points[j as int], b: p@ }));
                assert(seg_nondegen(cand@));
            }
            let mut crossed = false;
            let mut t: usize = 0;
            while t < self.g.edges.len()
                invariant
                    old(self).wf(),
                    p.wf(),
                    n as int == m0.points.len(),
                    m0 == old(self)@,
                    j < n,
                    self.g.edges@ == old(self).g.edges@,
                    self.g.ps.vertices@ == old(self).g.ps.vertices@.push(p),
                    self.g.ps.wf(),
                    self@.points == m0.points.push(p@),
                    cand.wf(),
                    cand@ == (SegV { a: m0.points[j as int], b: p@ }),
                    seg_nondegen(cand@),
                    t <= self.g.edges@.len(),
                    !crossed ==> forall |u: int| 0 <= u < t ==> !seg_cross(
                        seg_of(
                            m0.points,
                            (#[trigger] self.g.edges@[u][0] as int, self.g.edges@[u][1] as int),
                        ),
                        SegV { a: m0.points[j as int], b: p@ },
                    ),
                    crossed ==> !new_vertex_visible(m0, p@, j as int),
                decreases self.g.edges@.len() - t,
            {
                let fe = self.g.ps.as_edge(&self.g.edges[t]);
                let ghost fq = (self.g.edges@[t as int][0] as int, self.g.edges@[t as int][1] as int);
                proof {
                    assert(self@.points[fq.0] == m0.points[fq.0]);
                    assert(self@.points[fq.1] == m0.points[fq.1]);
                    assert(fe@ == seg_of(m0.points, fq));
                    assert(!pt_eq(m0.points[fq.0], m0.points[fq.1]));
                }
                if fe.intersect(&cand) {
                    crossed = true;
                    proof {
                        assert(m0.reals.contains(fq));
                        assert(!new_vertex_visible(m0, p@, j as int)) by {
                            if new_vertex_visible(m0, p@, j as int) {
                                assert(!seg_cross(
                                    seg_of(m0.points, fq),
                                    SegV { a: m0.points[j as int], b: p@ },
                                ));
                            }
                        }
                    }
                }
                t = t + 1;
            }
            let ghost vis0 = self.vis_edges@;
            if !crossed {
                proof {
                    assert forall |f: (int, int)| #[trigger] m0.reals.contains(f) implies !seg_cross(
                        seg_of(m0.points, f),
                        SegV { a: m0.points[j as int], b: p@ },
                    ) by {
                        let u = choose |u: int| 0 <= u < old(self).g.edges@.len() && f == (
                            #[trigger] old(self).g.edges@[u][0] as int,
                            old(self).g.edges@[u][1] as int,
                        );
                        assert(0 <= u < self.g.edges@.len());
                    }
                    assert(new_vertex_visible(m0, p@, j as int));
                }
                self.vis_edges.push([j, n]);
                proof {
                    lemma_pair_set_push(vis0, [j, n]);
                }
            }
            proof {
                assert forall |q: (int, int)| #[trigger] pair_set(self.vis_edges@).contains(q) <==> (
                    m0.vis.contains(q) || (q.1 == n && 0 <= q.0 < j + 1 && new_vertex_visible(
                        m0,
                        p@,
                        q.0,
                    ))) by {
                    if q == ((j as int, n as int)) {
                        assert(!m0.vis.contains(q)) by {
                            if m0.vis.contains(q) {
                                let u = choose |u: int| 0 <= u < old(self).vis_edges@.len() && q == (
                                    #[trigger] old(self).vis_edges@[u][0] as int,
                                    old(self).vis_edges@[u][1] as int,
                                );
                                assert((old(self).vis_edges@[u][1] as int) < n);
                            }
                        }
                    }
                }
            }
            j = j + 1;
        }
        proof {
            let m1 = self@;
            let va = vertex_added(m0, p@);
            assert forall |q: (int, int)| #[trigger] m1.vis.contains(q) <==> va.vis.contains(q) by {
                if q.1 == n && 0 <= q.0 < n {
                    assert((m1.vis.contains(q)) == (m0.vis.contains(q) || (q.1 == n && 0 <= q.0 < n
                        && new_vertex_visible(m0, p@, q.0))));
                }
            }
            assert(m1.vis =~= va.vis);
            assert(edge_vec_ok(self.g.edges@, m1.points.len() as int)) by {
                assert forall |u: int| 0 <= u < self.g.edges@.len() implies (#[trigger] self.g.edges@[u])[0]
                    < self.g.edges@[u][1] && (self.g.edges@[u][1] as int) < m1.points.len() by {
                    assert(self.g.edges@[u] == old(self).g.edges@[u]);
                }
            }
            assert forall |f: (int, int)| #[trigger] m1.reals.contains(f) implies 0 <= f.0 < f.1 < n
                && seg_of(m1.points, f) == seg_of(m0.points, f) by {
                let u = choose |u: int| 0 <= u < self.g.edges@.len() && f == (
                    #[trigger] self.g.edges@[u][0] as int,
                    self.g.edges@[u][1] as int,
                );
                assert(m1.points[f.0] == m0.points[f.0]);
                assert(m1.points[f.1] == m0.points[f.1]);
            }
            assert(vis_exact(m1)) by {
                assert forall |q: (int, int)| 0 <= q.0 < q.1 < m1.points.len() implies (
                    #[trigger] m1.vis.contains(q) <==> (!m1.reals.contains(q) && no_real_crossing(
                        m1,
                        q,
                    ))) by {
                    if q.1 < n {
                        assert(m0.vis.contains(q) <==> (!m0.reals.contains(q) && no_real_crossing(
                            m0,
                            q,
                        )));
                        assert(seg_of(m1.points, q) == seg_of(m0.points, q)) by {
                            assert(m1.points[q.0] == m0.points[q.0]);
                            assert(m1.points[q.1] == m0.points[q.1]);
                        }
                        assert(no_real_crossing(m1, q) == no_real_crossing(m0, q)) by {
                            if no_real_crossing(m1, q) {
                                assert forall |f: (int, int)| #[trigger] m0.reals.contains(f)
                                    implies !seg_cross(seg_of(m0.points, f), seg_of(m0.points, q)) by {
                                    assert(m1.reals.contains(f));
                                }
                            }
                            if no_real_crossing(m0, q) {
                                assert forall |f: (int, int)| #[trigger] m1.reals.contains(f)
                                    implies !seg_cross(seg_of(m1.points, f), seg_of(m1.points, q)) by {
                                    assert(m0.reals.contains(f));
                                }
                            }
                        }
                        assert(m1.vis.contains(q) == m0.vis.contains(q)) by {
                            if q.1 == n {
                            }
                        }
                    } else {
                        assert(q.1 == n);
                        assert(!m1.reals.contains(q));
                        assert(seg_of(m1.points, q) == (SegV { a: m0.points[q.0], b: p@ }));
                        assert(m1.vis.contains(q) == new_vertex_visible(m0, p@, q.0));
                        assert(new_vertex_visible(m0, p@, q.0) == no_real_crossing(m1, q)) by {
                            if new_vertex_visible(m0, p@, q.0) {
                                assert forall |f: (int, int)| #[trigger] m1.reals.contains(f)
                                    implies !seg_cross(seg_of(m1.points, f), seg_of(m1.points, q)) by {
                                    assert(m0.reals.contains(f));
                                }
                            }
                            if no_real_crossing(m1, q) {
                                assert forall |f: (int, int)| #[trigger] m0.reals.contains(f)
                                    implies !seg_cross(
                                    seg_of(m0.points, f),
                                    SegV { a: m0.points[q.0], b: p@ },
                                ) by {
                                    assert(m1.reals.contains(f));
                                }
                            }
                        }
                    }
                }
            }
            assert(reals_non_crossing(m1)) by {
                assert forall |f: (int, int), g2: (int, int)| #[trigger] m1.reals.contains(f)
                    && #[trigger] m1.reals.contains(g2) && f != g2 implies !seg_cross(
                    seg_of(m1.points, f),
                    seg_of(m1.points, g2),
                ) by {
                    assert(m0.reals.contains(f) && m0.reals.contains(g2));
                }
            }
        }
        Ok(n)
    }

    /// An independent copy of the whole graph, with the same model. The
    /// enumerator copies the graph once per search branch, so no branch can
    /// observe a sibling's commitments.
    pub fn duplicate(&self) -> (r: VisibilityGraph)
        requires
            self.wf(),
        ensures
            r.wf(),
            r@ == self@,
    {
        let mut vs: Vec<Point> = Vec::new();
        let mut k: usize = 0;
        while k < self.g.ps.vertices.len()
            invariant
                self.wf(),
                k <= self.g.ps.vertices@.len(),
                vs@.len() == k,
                forall |i: int| 0 <= i < k ==> (#[trigger] vs@[i])@ == self.g.ps.vertices@[i]@
                    && vs@[i].wf(),
            decreases self.g.ps.vertices@.len() - k,
        {
            vs.push(self.g.ps.vertices[k].clone_point());
            k = k + 1;
        }
        let es = copy_pairs(&self.g.edges);
        let ve = copy_pairs(&self.vis_edges);
        let r = VisibilityGraph { g: Graph { ps: PointSet { vertices: vs }, edges: es }, vis_edges: ve };
        proof {
            assert(r.g.ps.model() =~= self.g.ps.model());
            assert(r@ == self@);
            assert forall |i: int, j: int| 0 <= i < j < r.g.ps.vertices@.len() implies !pt_eq(
                r.g.ps.vertices@[i]@,
                r.g.ps.vertices@[j]@,
            ) by {
                assert(r.g.ps.vertices@[i]@ == self.g.ps.vertices@[i]@);
                assert(r.g.ps.vertices@[j]@ == self.g.ps.vertices@[j]@);
            }
            assert(r.wf());
        }
        r
    }
}

/// Visibility monotonicity: once an edge has been committed, the segment of
/// every pair that remains in the visibility set does not cross it. This
/// holds after every mutation, since the candidate set is kept exact.
pub proof fn lemma_visibility_monotonic(m: VgModel, pr: (int, int), q: (int, int))
    requires
        vis_exact(m),
        m.reals.contains(pr),
        m.vis.contains(q),
        0 <= q.0 < q.1 < m.points.len(),
    ensures
        !seg_cross(seg_of(m.points, pr), seg_of(m.points, q)),
{
    assert(no_real_crossing(m, q));
}

/// The no-crossing invariant of the committed edges: in a well-formed
/// graph, reached by any sequence of successful mutations, no two committed
/// edges cross.
pub proof fn lemma_real_edges_non_crossing(g: VisibilityGraph, f: (int, int), h: (int, int))
    requires
        g.wf(),
        g@.reals.contains(f),
        g@.reals.contains(h),
        f != h,
    ensures
        !seg_cross(seg_of(g@.points, f), seg_of(g@.points, h)),
{
}

/// Copies a vector of index pairs.
fn copy_pairs(v: &Vec<[usize; 2]>) -> (r: Vec<[usize; 2]>)
    ensures
        r@ == v@,
{
    let mut r: Vec<[usize; 2]> = Vec::new();
    let mut k: usize = 0;
    while k < v.len()
        invariant
            k <= v@.len(),
            r@ == v@.subrange(0, k as int),
        decreases v@.len() - k,
    {
        r.push(v[k]);
        proof {
            assert(r@ =~= v@.subrange(0, k + 1 as int));
        }
        k = k + 1;
    }
    proof {
        assert(r@ =~= v@);
    }
    r
}

} // verus!
