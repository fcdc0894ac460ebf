use vstd::prelude::*;
use vstd::set_lib::{set_int_range, lemma_int_range, lemma_len_subset};
use crate::geometry::Point;
use crate::graph::{VisibilityGraph, VgModel, GraphError, npair, committed};

verus! {

// ---------------------------------------------------------------------------
// The counting specification.
// ---------------------------------------------------------------------------

/// What a branch that has visited every vertex contributes. With
/// `close_cycle` off, every completed path counts as one; with it on, the
/// path counts only when the closing edge, from the path's endpoint back to
/// its anchor, is still a visibility edge (a single-vertex path needs no
/// closing edge).
pub open spec fn terminal_count(m: VgModel, cyc: Seq<usize>, close_cycle: bool) -> nat {
    if !close_cycle || cyc.len() <= 1 || m.vis.contains(npair(cyc.last() as int, cyc[0] as int)) {
        1
    } else {
        0
    }
}

/// The number of crossing-free Hamiltonian paths that extend the partial
/// path `cyc` in the graph `m`. A branch that has visited every vertex
/// contributes its `terminal_count`; otherwise the count is the sum over
/// every extension of the path by a vertex that is unvisited and visible
/// from the path's endpoint, where extending commits the connecting edge
/// and prunes the visibility set. Each geometric cycle is reached twice,
/// once per traversal direction.
pub open spec fn num_paths(m: VgModel, cyc: Seq<usize>, close_cycle: bool) -> nat
    decreases m.points.len() - cyc.len() + 1, m.points.len() + 1,
{
    if cyc.len() >= m.points.len() {
        terminal_count(m, cyc, close_cycle)
    } else {
        num_paths_from(m, cyc, 0, close_cycle)
    }
}

/// The part of `num_paths` contributed by candidate vertices `j` and above.
pub open spec fn num_paths_from(m: VgModel, cyc: Seq<usize>, j: int, close_cycle: bool) -> nat
    decreases m.points.len() - cyc.len() + 1, m.points.len() - j,
{
    if j < 0 || j >= m.points.len() || cyc.len() >= m.points.len() {
        0
    } else {
        (if !cyc.contains(j as usize) && m.vis.contains(npair(cyc.last() as int, j)) {
            num_paths(committed(m, npair(cyc.last() as int, j)), cyc.push(j as usize), close_cycle)
        } else {
            0
        }) + num_paths_from(m, cyc, j + 1, close_cycle)
    }
}

// ---------------------------------------------------------------------------
// The search state.
// ---------------------------------------------------------------------------

/// The model of a search state: a visibility-graph model and the partial
/// path, whose first entry is the anchor vertex.
pub ghost struct CycleModel {
    pub g: VgModel,
    pub cyc: Seq<usize>,
}

/// A visibility graph paired with the ordered partial path of the
/// Hamiltonian cycle under construction. Each search branch owns its state
/// exclusively.
pub struct PartialCycleGraph {
    pub vg: VisibilityGraph,
    pub cycle: Vec<usize>,
}

impl View for PartialCycleGraph {
    type V = CycleModel;

    open spec fn view(&self) -> CycleModel {
        CycleModel { g: self.vg@, cyc: self.cycle@ }
    }
}

impl PartialCycleGraph {
    /// The graph is well-formed and the path is a nonempty sequence of
    /// distinct valid vertex indices.
    pub open spec fn wf(self) -> bool {
        &&& self.vg.wf()
        &&& self.cycle@.len() >= 1
        &&& forall |k: int| 0 <= k < self.cycle@.len() ==> (#[trigger] self.cycle@[k] as int)
            < self.vg@.points.len()
        &&& self.cycle@.no_duplicates()
    }

    /// Starts a search state at the anchor vertex.
    pub fn new(vg: VisibilityGraph, anchor: usize) -> (res: Result<PartialCycleGraph, GraphError>)
        requires
            vg.wf(),
        ensures
            match res {
                Ok(pcg) => {
                    &&& (anchor as int) < vg@.points.len()
                    &&& pcg.wf()
                    &&& pcg@.g == vg@
                    &&& pcg@.cyc =~= seq![anchor]
                },
                Err(GraphError::IndexOutOfBounds) => (anchor as int) >= vg@.points.len(),
                Err(_) => false,
            },
    {
        let n = vg.vertex_count();
        if anchor >= n {
            return Err(GraphError::IndexOutOfBounds);
        }
        let mut cycle: Vec<usize> = Vec::new();
        cycle.push(anchor);
        Ok(PartialCycleGraph { vg, cycle })
    }

    /// A copy of the point sequence.
    pub fn vertices(&self) -> (r: Vec<Point>)
        requires
            self.wf(),
        ensures
            r@.len() == self@.g.points.len(),
            forall |i: int| 0 <= i < r@.len() ==> (#[trigger] r@[i])@ == self@.g.points[i],
    {
        self.vg.vertices()
    }

    /// A copy of the committed edges.
    pub fn edges(&self) -> (r: Vec<[usize; 2]>)
        requires
            self.wf(),
    {
        self.vg.edges()
    }

    /// The child state that extends the path with vertex `j`: an
    /// independent copy of the graph in which the edge from the path's
    /// endpoint to `j` has been committed, with `j` appended to the path.
    fn branch(&self, j: usize) -> (r: PartialCycleGraph)
        requires
            self.wf(),
            (j as int) < self@.g.points.len(),
            !self@.cyc.contains(j),
            self@.g.vis.contains(npair(self@.cyc.last() as int, j as int)),
        ensures
            r.wf(),
            r@.g == committed(self@.g, npair(self@.cyc.last() as int, j as int)),
            r@.cyc =~= self@.cyc.push(j),
    {
        let mut vg2 = self.vg.duplicate();
        let last = self.cycle[self.cycle.len() - 1];
        let res = vg2.add_edge([last, j]);
        proof {
            assert(last == self@.cyc.last());
            assert(res.is_ok());
            let cm = committed(self@.g, npair(last as int, j as int));
            assert(vg2@.points =~= cm.points);
            assert(vg2@.reals =~= cm.reals);
            assert(vg2@.vis =~= cm.vis);
        }
        let mut c2 = copy_usizes(&self.cycle);
        c2.push(j);
        proof {
            assert(c2@.no_duplicates()) by {
                assert(forall |k: int| 0 <= k < self.cycle@.len() ==> self.cycle@[k] != j) by {
                    assert forall |k: int| 0 <= k < self.cycle@.len() implies #[trigger] self.cycle@[k] != j by {
                        if self.cycle@[k] == j {
                            assert(self@.cyc.contains(j));
                        }
                    }
                }
            }
        }
        PartialCycleGraph { vg: vg2, cycle: c2 }
    }
}

/// Copies a vector of vertex indices.
fn copy_usizes(v: &Vec<usize>) -> (r: Vec<usize>)
    ensures
        r@ == v@,
{
    let mut r: Vec<usize> = Vec::new();
    let mut k: usize = 0;
    while k < v.len()
        invariant
            k <= v@.len(),
            r@ == v@.subrange(0, k as int),
        decreases v@.len() - k,
    {
        r.push(v[k]);
        proof {
            assert(r@ =~= v@.subrange(0, k + 1 as int));
        }
        k = k + 1;
    }
    proof {
        assert(r@ =~= v@);
    }
    r
}

/// Scans a vector of indices for `x`.
fn contains_usize(v: &Vec<usize>, x: usize) -> (r: bool)
    ensures
        r == v@.contains(x),
{
    let mut k: usize = 0;
    while k < v.len()
        invariant
            k <= v@.len(),
            forall |t: int| 0 <= t < k ==> #[trigger] v@[t] != x,
        decreases v@.len() - k,
    {
        if v[k] == x {
            return true;
        }
        k = k + 1;
    }
    proof {
        if v@.contains(x) {
            let t = choose |t: int| 0 <= t < v@.len() && v@[t] == x;
            assert(v@[t] == x);
        }
    }
    false
}

/// A sequence of distinct indices all below `n` has at most `n` entries.
proof fn lemma_distinct_bounded_len(s: Seq<usize>, n: int)
    requires
        s.no_duplicates(),
        forall |k: int| 0 <= k < s.len() ==> (#[trigger] s[k] as int) < n,
        0 <= n,
    ensures
        s.len() <= n,
{
    let t = s.map_values(|u: usize| u as int);
    assert(t.no_duplicates()) by {
        assert forall |i: int, k: int| 0 <= i < t.len() && 0 <= k < t.len() && i != k implies t[i]
            != t[k] by {
            assert(s[i] != s[k]);
        }
    }
    t.unique_seq_to_set();
    assert(t.to_set().subset_of(set_int_range(0, n))) by {
        assert forall |x: int| t.to_set().contains(x) implies set_int_range(0, n).contains(x) by {
            let k = choose |k: int| 0 <= k < t.len() && t[k] == x;
            assert((s[k] as int) < n);
        }
    }
    lemma_int_range(0, n);
    lemma_len_subset(t.to_set(), set_int_range(0, n));
}

/// The recursive backtracking search shared by both terminal policies.
/// Returns `None` exactly when the count does not fit in `usize`.
fn count_search(pcg: &PartialCycleGraph, close_cycle: bool) -> (r: Option<usize>)
    requires
        pcg.wf(),
    ensures
        (match r {
            Some(c) => c as nat == num_paths(pcg@.g, pcg@.cyc, close_cycle),
            None => num_paths(pcg@.g, pcg@.cyc, close_cycle) > usize::MAX,
        }),
    decreases pcg@.g.points.len() - pcg@.cyc.len(),
{
    let n = pcg.vg.vertex_count();
    proof {
        lemma_distinct_bounded_len(pcg.cycle@, n as int);
    }
    if pcg.cycle.len() == n {
        if !close_cycle || n == 1 {
            return Some(1);
        }
        let endpoint = pcg.cycle[pcg.cycle.len() - 1];
        let anchor = pcg.cycle[0];
        if pcg.vg.is_visible(endpoint, anchor) {
            return Some(1);
        } else {
            return Some(0);
        }
    }
    let last = pcg.cycle[pcg.cycle.len() - 1];
    let mut acc: usize = 0;
    let mut j: usize = 0;
    while j < n
        invariant
            pcg.wf(),
            n as int == pcg@.g.points.len(),
            pcg@.cyc.len() < n,
            j <= n,
            last == pcg@.cyc.last(),
            acc as nat + num_paths_from(pcg@.g, pcg@.cyc, j as int, close_cycle) == num_paths(
                pcg@.g,
                pcg@.cyc,
                close_cycle,
            ),
        decreases n - j,
    {
        let ghost m = pcg@.g;
        let ghost cyc = pcg@.cyc;
        let ghost before = num_paths_from(m, cyc, j as int, close_cycle);
        let ghost rest = num_paths_from(m, cyc, j as int + 1, close_cycle);
        let visible = pcg.vg.is_visible(last, j);
        let in_cycle = contains_usize(&pcg.cycle, j);
        if visible && !in_cycle {
            let ghost pr = npair(cyc.last() as int, j as int);
            let ghost child_count = num_paths(committed(m, pr), cyc.push(j), close_cycle);
            proof {
                assert(before == child_count + rest);
            }
            let child = pcg.branch(j);
            proof {
                assert(child@.cyc =~= cyc.push(j));
                assert(num_paths(child@.g, child@.cyc, close_cycle) == child_count);
            }
            let cr = count_search(&child, close_cycle);
            match cr {
                None => {
                    proof {
                        assert(num_paths(m, cyc, close_cycle) >= child_count);
                    }
                    return None;
                },
                Some(c) => {
                    match acc.checked_add(c) {
                        None => {
                            proof {
                                assert(num_paths(m, cyc, close_cycle) >= acc + child_count);
                            }
                            return None;
                        },
                        Some(v) => {
                            acc = v;
                        },
                    }
                },
            }
        } else {
            proof {
                assert(before == rest);
            }
        }
        j = j + 1;
    }
    proof {
        assert(num_paths_from(pcg@.g, pcg@.cyc, n as int, close_cycle) == 0);
    }
    Some(acc)
}

/// Counts the crossing-free Hamiltonian paths rooted at the state's anchor:
/// the search branches over every unvisited vertex visible from the path's
/// endpoint, committing the connecting edge for the branch, and every
/// branch that visits all vertices counts once. The closing edge back to
/// the anchor is not re-checked, so the result counts simple Hamiltonian
/// paths; see `num_simp_ham_closed` for the other terminal policy. Each
/// geometric cycle is reached twice, once per traversal direction. Returns
/// `None` exactly when the count does not fit in `usize`.
pub fn num_simp_ham(pcg: &PartialCycleGraph) -> (r: Option<usize>)
    requires
        pcg.wf(),
    ensures
        (match r {
            Some(c) => c as nat == num_paths(pcg@.g, pcg@.cyc, false),
            None => num_paths(pcg@.g, pcg@.cyc, false) > usize::MAX,
        }),
{
    count_search(pcg, false)
}

/// Like `num_simp_ham`, but a branch that visits every vertex counts only
/// when the closing edge, from the path's endpoint back to the anchor, is
/// still a visibility edge: the count of crossing-free Hamiltonian cycles,
/// each counted twice (once per traversal direction).
pub fn num_simp_ham_closed(pcg: &PartialCycleGraph) -> (r: Option<usize>)
    requires
        pcg.wf(),
    ensures
        (match r {
            Some(c) => c as nat == num_paths(pcg@.g, pcg@.cyc, true),
            None => num_paths(pcg@.g, pcg@.cyc, true) > usize::MAX,
        }),
{
    count_search(pcg, true)
}

} // verus!
