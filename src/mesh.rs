//! Facts shared by every triangle list: indices grouped by three, each one
//! naming an existing vertex.
use vstd::prelude::*;

verus! {

/// Every entry of `indices` names one of the first `vertex_count` vertices.
pub open spec fn indices_below(indices: Seq<u16>, vertex_count: int) -> bool {
    forall|i: int| 0 <= i < indices.len() ==> #[trigger] indices[i] < vertex_count
}

/// Triangle `t` of `indices` uses three different vertices.
pub open spec fn triangle_is_proper(indices: Seq<u16>, t: int) -> bool {
    &&& indices[3 * t] != indices[3 * t + 1]
    &&& indices[3 * t] != indices[3 * t + 2]
    &&& indices[3 * t + 1] != indices[3 * t + 2]
}

/// A well-formed triangle list over `vertex_count` vertices: whole triangles
/// only, every index in range, no triangle that collapses to a line or point
/// by repeating a vertex.
pub open spec fn is_triangle_list(indices: Seq<u16>, vertex_count: int) -> bool {
    &&& indices.len() % 3 == 0
    &&& indices_below(indices, vertex_count)
    &&& forall|t: int| 0 <= t < indices.len() / 3 ==> #[trigger] triangle_is_proper(indices, t)
}

} // verus!
