//! Output triangles with their face normals.
use vstd::prelude::*;
use crate::geometry::{normal_spec, Triangle, Vertex};

verus! {

/// A triangle of the output mesh and its normal.
#[derive(Clone, Copy, PartialEq, Eq, Structural, Debug)]
pub struct MeshTriangle {
    pub normal: Vertex,
    pub vertices: Triangle,
}

/// Each triangle with the normal that its vertex order gives.
pub open spec fn mesh_spec(ts: Seq<Triangle>) -> Seq<MeshTriangle> {
    ts.map_values(|t: Triangle| MeshTriangle { normal: normal_spec(t), vertices: t })
}

/// Gives each triangle its normal, keeping the order of the triangles.
pub fn assemble(ts: &Vec<Triangle>) -> (r: Vec<MeshTriangle>)
    ensures
        r@ == mesh_spec(ts@),
{
    let mut out: Vec<MeshTriangle> = Vec::new();
    let mut j: usize = 0;
    while j < ts.len()
        invariant
            j <= ts@.len(),
            out@ == mesh_spec(ts@.take(j as int)),
        decreases ts@.len() - j,
    {
        let t = ts[j];
        out.push(MeshTriangle { normal: t.surface_normal(), vertices: t });
        j = j + 1;
        assert(mesh_spec(ts@.take(j as int)) =~= mesh_spec(ts@.take(j - 1)).push(out@.last()));
    }
    assert(ts@.take(j as int) =~= ts@);
    out
}

} // verus!
