//! Exact rational planar geometry, an incrementally maintained visibility
//! graph over a point set in general position, and a backtracking enumerator
//! that counts crossing-free Hamiltonian paths rooted at an anchor vertex.
//!
//! All arithmetic is arbitrary-precision rational arithmetic, so every
//! geometric predicate is decided by an exact sign, never by a tolerance.

pub mod frac;
pub mod exact;
pub mod geometry;
pub mod graph;
pub mod cycle;

pub use frac::Frac;
pub use geometry::{Point, Vect2D, Edge, Pt3, SegV};
pub use graph::{PointSet, Graph, VisibilityGraph, VgModel, GraphError};
pub use cycle::{PartialCycleGraph, CycleModel, num_simp_ham, num_simp_ham_closed};
