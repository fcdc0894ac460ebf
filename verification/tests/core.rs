use hamcycle::{Edge, GraphError, PartialCycleGraph, Point, VisibilityGraph};
use hamcycle::geometry::xor_option;
use hamcycle::{num_simp_ham, num_simp_ham_closed};

fn triangle_graph() -> VisibilityGraph {
    let mut g = VisibilityGraph::new();
    assert_eq!(g.add_vertex(Point::from_ints(0, 0)), Ok(0));
    assert_eq!(g.add_vertex(Point::from_ints(1, 0)), Ok(1));
    assert_eq!(g.add_vertex(Point::from_ints(0, 1)), Ok(2));
    g
}

fn square_graph() -> VisibilityGraph {
    let mut g = VisibilityGraph::new();
    assert_eq!(g.add_vertex(Point::from_ints(0, 0)), Ok(0));
    assert_eq!(g.add_vertex(Point::from_ints(1, 0)), Ok(1));
    assert_eq!(g.add_vertex(Point::from_ints(1, 1)), Ok(2));
    assert_eq!(g.add_vertex(Point::from_ints(0, 1)), Ok(3));
    g
}

#[test]
fn orientation_antisymmetry_concrete() {
    let a = Point::from_ints(0, 0);
    let b = Point::from_ints(1, 0);
    let p = Point::from_ints(0, 1);
    let ab = Edge::new(&a, &b);
    let ba = Edge::new(&b, &a);
    assert_eq!(ab.orient_point(&p), Some(true));
    assert_eq!(ba.orient_point(&p), Some(false));
    let on_line = Point::from_ints(2, 0);
    assert_eq!(ab.orient_point(&on_line), None);
    assert_eq!(ba.orient_point(&on_line), None);
}

#[test]
fn containment_exactness_concrete() {
    let a = Point::from_ints(0, 0);
    let b = Point::from_ints(2, 2);
    let s = Edge::new(&a, &b);
    // exactly on the segment, by construction
    assert!(s.contains_point(&Point::from_ints(1, 1)));
    assert!(s.contains_point(&Point::from_fracs(1, 2, 1, 2)));
    assert!(s.contains_point(&Point::from_ints(0, 0)));
    assert!(s.contains_point(&Point::from_ints(2, 2)));
    // on the line but outside the segment
    assert!(!s.contains_point(&Point::from_ints(3, 3)));
    assert!(!s.contains_point(&Point::from_ints(-1, -1)));
    // strictly off the line
    assert!(!s.contains_point(&Point::from_ints(1, 0)));
}

#[test]
fn shared_endpoint_segments_do_not_cross() {
    let a = Point::from_ints(0, 0);
    let b = Point::from_ints(1, 0);
    let c = Point::from_ints(0, 1);
    let ab = Edge::new(&a, &b);
    let ac = Edge::new(&a, &c);
    assert!(!ab.intersect(&ac));
    assert!(!ac.intersect(&ab));
    let bc = Edge::new(&b, &c);
    assert!(!ab.intersect(&bc));
    assert!(!ac.intersect(&bc));
}

#[test]
fn crossing_diagonals_intersect() {
    let d1 = Edge::new(&Point::from_ints(0, 0), &Point::from_ints(1, 1));
    let d2 = Edge::new(&Point::from_ints(1, 0), &Point::from_ints(0, 1));
    assert!(d1.intersect(&d2));
    assert!(d2.intersect(&d1));
    let far = Edge::new(&Point::from_ints(5, 5), &Point::from_ints(6, 7));
    assert!(!d1.intersect(&far));
}

#[test]
fn touching_endpoint_on_interior_counts_as_crossing() {
    // one endpoint of the second segment lies in the interior of the first,
    // and no endpoints are shared
    let s = Edge::new(&Point::from_ints(0, 0), &Point::from_ints(2, 0));
    let t = Edge::new(&Point::from_ints(1, 0), &Point::from_ints(1, 5));
    assert!(s.intersect(&t));
    assert!(t.intersect(&s));
}

#[test]
fn xor_option_truth_table() {
    assert_eq!(xor_option(Some(true), Some(true)), Some(false));
    assert_eq!(xor_option(Some(true), Some(false)), Some(true));
    assert_eq!(xor_option(Some(false), Some(true)), Some(true));
    assert_eq!(xor_option(Some(false), Some(false)), Some(false));
    assert_eq!(xor_option(None, Some(true)), None);
    assert_eq!(xor_option(Some(true), None), None);
    assert_eq!(xor_option(None, None), None);
}

#[test]
fn collinear_vertex_rejected() {
    let mut g = VisibilityGraph::new();
    assert_eq!(g.add_vertex(Point::from_ints(0, 0)), Ok(0));
    assert_eq!(g.add_vertex(Point::from_ints(2, 2)), Ok(1));
    // exactly on the segment between the two existing points
    assert_eq!(
        g.add_vertex(Point::from_ints(1, 1)),
        Err(GraphError::CollinearPoint)
    );
    // on the same line but outside the segment: still degenerate
    assert_eq!(
        g.add_vertex(Point::from_ints(3, 3)),
        Err(GraphError::CollinearPoint)
    );
    // a rejected point leaves the graph unchanged
    assert_eq!(g.vertices().len(), 2);
}

#[test]
fn duplicate_vertex_rejected() {
    let mut g = VisibilityGraph::new();
    assert_eq!(g.add_vertex(Point::from_ints(0, 0)), Ok(0));
    assert_eq!(
        g.add_vertex(Point::from_ints(0, 0)),
        Err(GraphError::DuplicatePoint)
    );
    assert_eq!(
        g.add_vertex(Point::from_fracs(0, 5, 0, 7)),
        Err(GraphError::DuplicatePoint)
    );
}

#[test]
fn triangle_initially_fully_visible() {
    let g = triangle_graph();
    assert_eq!(g.visible_from(0), vec![1, 2]);
    assert_eq!(g.visible_from(1), vec![0, 2]);
    assert_eq!(g.visible_from(2), vec![0, 1]);
    assert_eq!(g.edges().len(), 0);
}

#[test]
fn visible_from_is_idempotent() {
    let mut g = square_graph();
    assert_eq!(g.visible_from(0), g.visible_from(0));
    g.add_edge([0, 2]).unwrap();
    assert_eq!(g.visible_from(1), g.visible_from(1));
    assert_eq!(g.visible_from(3), g.visible_from(3));
}

#[test]
fn add_edge_prunes_crossing_pairs() {
    let mut g = square_graph();
    // both diagonals start visible
    assert!(g.is_visible(0, 2));
    assert!(g.is_visible(1, 3));
    assert_eq!(g.add_edge([0, 2]), Ok(()));
    // the committed pair leaves the visibility set, and so does the
    // crossing diagonal
    assert!(!g.is_visible(0, 2));
    assert!(!g.is_visible(1, 3));
    // edges sharing an endpoint with the diagonal stay visible
    assert!(g.is_visible(0, 1));
    assert!(g.is_visible(1, 2));
    assert!(g.is_visible(2, 3));
    assert!(g.is_visible(0, 3));
    assert_eq!(g.edges(), vec![[0, 2]]);
}

#[test]
fn add_edge_rejects_non_visible_pair() {
    let mut g = square_graph();
    assert_eq!(g.add_edge([0, 2]), Ok(()));
    assert_eq!(g.add_edge([1, 3]), Err(GraphError::NotVisible));
    assert_eq!(g.add_edge([0, 2]), Err(GraphError::NotVisible));
    assert_eq!(g.add_edge([0, 7]), Err(GraphError::IndexOutOfBounds));
    assert_eq!(g.add_edge([4, 0]), Err(GraphError::IndexOutOfBounds));
    assert_eq!(g.add_edge([1, 1]), Err(GraphError::NotVisible));
}

#[test]
fn vertices_returns_the_point_set() {
    let g = triangle_graph();
    let vs = g.vertices();
    assert_eq!(vs.len(), 3);
    assert!(vs[0].coincides(&Point::from_ints(0, 0)));
    assert!(vs[1].coincides(&Point::from_ints(1, 0)));
    assert!(vs[2].coincides(&Point::from_ints(0, 1)));
}

#[test]
fn single_vertex_counts_one() {
    let mut g = VisibilityGraph::new();
    assert_eq!(g.add_vertex(Point::from_ints(0, 0)), Ok(0));
    let pcg = PartialCycleGraph::new(g, 0).unwrap();
    assert_eq!(num_simp_ham(&pcg), Some(1));
}

#[test]
fn two_vertices_count_one() {
    let mut g = VisibilityGraph::new();
    assert_eq!(g.add_vertex(Point::from_ints(0, 0)), Ok(0));
    assert_eq!(g.add_vertex(Point::from_ints(1, 0)), Ok(1));
    let pcg = PartialCycleGraph::new(g, 0).unwrap();
    assert_eq!(num_simp_ham(&pcg), Some(1));
    // no two-vertex path closes into a simple cycle: its closing edge is
    // the already-committed edge itself
    assert_eq!(num_simp_ham_closed(&pcg), Some(0));
}

#[test]
fn triangle_counts_two() {
    let g = triangle_graph();
    let pcg = PartialCycleGraph::new(g, 0).unwrap();
    assert_eq!(num_simp_ham(&pcg), Some(2));
}

#[test]
fn triangle_counts_two_under_both_policies() {
    let g = triangle_graph();
    let pcg = PartialCycleGraph::new(g, 0).unwrap();
    assert_eq!(num_simp_ham_closed(&pcg), Some(2));
}

#[test]
fn square_counts_two_closed_cycles() {
    // only the two boundary traversals close without a crossing: a path
    // that used one diagonal would need the other diagonal, no longer
    // visible, as its closing edge
    let g = square_graph();
    let pcg = PartialCycleGraph::new(g, 0).unwrap();
    assert_eq!(num_simp_ham_closed(&pcg), Some(2));
}

#[test]
fn square_counts_four_open_paths() {
    // without the closing-edge check, the two one-diagonal paths also count
    let g = square_graph();
    let pcg = PartialCycleGraph::new(g, 0).unwrap();
    assert_eq!(num_simp_ham(&pcg), Some(4));
}

#[test]
fn anchor_out_of_range_rejected() {
    let g = triangle_graph();
    match PartialCycleGraph::new(g, 3) {
        Err(GraphError::IndexOutOfBounds) => {}
        _ => panic!("expected an out-of-bounds anchor to be rejected"),
    }
}

#[test]
fn search_state_exposes_graph() {
    let g = triangle_graph();
    let pcg = PartialCycleGraph::new(g, 1).unwrap();
    assert_eq!(pcg.vertices().len(), 3);
    assert_eq!(pcg.edges().len(), 0);
}

#[test]
fn fractional_coordinates_are_exact() {
    // a near-degenerate configuration: (1/3, 1/3) is exactly on the segment
    // from the origin to (1, 1), while (333333/1000000, 333333/1000000 + tiny)
    // is not
    let s = Edge::new(&Point::from_ints(0, 0), &Point::from_ints(1, 1));
    assert!(s.contains_point(&Point::from_fracs(1, 3, 1, 3)));
    assert!(!s.contains_point(&Point::from_fracs(1, 3, 333333334, 1000000000)));
}
