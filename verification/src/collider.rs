//! Collision-shape construction from the same height data the visual
//! meshes use: a compact heightfield for grid surfaces, or an exact
//! triangle-mesh shape where true block structure needs it. Degenerate
//! input is rejected with an explicit error, never turned into an empty
//! collider.

use vstd::prelude::*;

use crate::geometry::Triangle;
use crate::geometry::V3;
use crate::mesh::grid_wf;

verus! {

/// Why a collider could not be built.
#[derive(Clone, Copy, PartialEq, Eq, Structural, Debug)]
pub enum ColliderError {
    /// The height grid or triangle batch held no data at all.
    EmptyInput,
    /// The height grid's rows did not all have the same length.
    RaggedGrid,
}

/// A compact heightfield collision shape: the grid flattened row-major,
/// its dimensions, and the world-space scale of one cell along each
/// axis.
#[derive(Debug)]
pub struct HeightfieldDescriptor {
    pub heights: Vec<i64>,
    pub row_count: usize,
    pub col_count: usize,
    pub scale_x: u32,
    pub scale_y: u32,
    pub scale_z: u32,
}

/// An exact triangle-mesh collision shape: the flat vertex run of a
/// batch and an index buffer that counts its vertices off in threes.
#[derive(Debug)]
pub struct TrimeshDescriptor {
    pub vertices: Vec<V3>,
    pub pos_den: i128,
    pub triangle_indices: Vec<u32>,
}

/// Rows all as long as the first one.
pub open spec fn grid_uniform(grid: Seq<Vec<i64>>) -> bool {
    forall|i: int| 0 <= i < grid.len() ==> (#[trigger] grid[i])@.len() == grid[0]@.len()
}

/// A heightfield collider over a rectangular height grid, scaled so the
/// whole field spans one region edge. An empty or ragged grid is
/// rejected with an explicit error.
#[verifier::loop_isolation(false)]
pub fn heightfield_collider(grid: &Vec<Vec<i64>>, region_size: u32) -> (r: Result<
    HeightfieldDescriptor,
    ColliderError,
>)
    ensures
        r is Ok <==> grid@.len() >= 1 && grid_uniform(grid@) && grid@[0]@.len() >= 1,
        grid@.len() == 0 ==> r == Result::<HeightfieldDescriptor, ColliderError>::Err(
            ColliderError::EmptyInput,
        ),
        grid@.len() >= 1 && !grid_uniform(grid@) ==> r == Result::<
            HeightfieldDescriptor,
            ColliderError,
        >::Err(ColliderError::RaggedGrid),
        grid@.len() >= 1 && grid_uniform(grid@) && grid@[0]@.len() == 0 ==> r == Result::<
            HeightfieldDescriptor,
            ColliderError,
        >::Err(ColliderError::EmptyInput),
        r matches Ok(d) ==> {
            &&& d.row_count == grid@.len()
            &&& d.col_count == grid@[0]@.len()
            &&& d.heights@.len() == grid@.len() * grid@[0]@.len()
            &&& forall|i: int, j: int|
                0 <= i < grid@.len() && 0 <= j < grid@[0]@.len() ==> (#[trigger] d.heights@[i
                    * grid@[0]@.len() + j]) == grid@[i]@[j]
            &&& d.scale_x == region_size
            &&& d.scale_y == 1
            &&& d.scale_z == region_size
        },
{
    if grid.len() == 0 {
        return Err(ColliderError::EmptyInput);
    }
    let cols: usize = grid[0].len();
    let mut i: usize = 0;
    while i < grid.len()
        invariant
            i <= grid@.len(),
            forall|a: int| 0 <= a < i ==> (#[trigger] grid@[a])@.len() == cols,
        decreases grid@.len() - i,
    {
        if grid[i].len() != cols {
            return Err(ColliderError::RaggedGrid);
        }
        i = i + 1;
    }
    if cols == 0 {
        return Err(ColliderError::EmptyInput);
    }
    let mut heights: Vec<i64> = Vec::new();
    let mut a: usize = 0;
    while a < grid.len()
        invariant
            a <= grid@.len(),
            heights@.len() == a * cols,
            forall|p: int, q: int|
                0 <= p < a && 0 <= q < cols ==> (#[trigger] heights@[p * cols + q])
                    == grid@[p]@[q],
        decreases grid@.len() - a,
    {
        let mut b: usize = 0;
        while b < cols
            invariant
                b <= cols,
                a < grid@.len(),
                heights@.len() == a * cols + b,
                forall|p: int, q: int|
                    0 <= p < a && 0 <= q < cols ==> (#[trigger] heights@[p * cols + q])
                        == grid@[p]@[q],
                forall|q: int|
                    0 <= q < b ==> (#[trigger] heights@[a as int * cols + q]) == grid@[a as int]@[q],
            decreases cols - b,
        {
            heights.push(grid[a][b]);
            b = b + 1;
            proof {
                assert forall|p: int, q: int| 0 <= p < a && 0 <= q < cols implies (
                #[trigger] heights@[p * cols + q]) == grid@[p]@[q] by {
                    assert(p * cols + q < a as int * cols) by (nonlinear_arith)
                        requires
                            0 <= p < a,
                            0 <= q < cols,
                    ;
                }
            }
        }
        a = a + 1;
        proof {
            assert(a as int * cols == (a - 1) * cols + cols) by (nonlinear_arith);
            assert forall|p: int, q: int| 0 <= p < a && 0 <= q < cols implies (
            #[trigger] heights@[p * cols + q]) == grid@[p]@[q] by {
                if p < a - 1 {
                    assert(p * cols + q < (a - 1) * cols) by (nonlinear_arith)
                        requires
                            0 <= p < a - 1,
                            0 <= q < cols,
                    ;
                } else {
                    assert(p * cols + q == (a - 1) * cols + q) by (nonlinear_arith)
                        requires
                            p == a - 1,
                    ;
                }
            }
        }
    }
    Ok(
        HeightfieldDescriptor {
            heights,
            row_count: grid.len(),
            col_count: cols,
            scale_x: region_size,
            scale_y: 1,
            scale_z: region_size,
        },
    )
}

/// An exact triangle-mesh collider from the same triangle batch as the
/// visual mesh. An empty batch is rejected with an explicit error.
#[verifier::loop_isolation(false)]
pub fn trimesh_collider(batch: &Triangle) -> (r: Result<TrimeshDescriptor, ColliderError>)
    requires
        batch@.wf(),
        batch@.points.len() <= u32::MAX,
    ensures
        r is Ok <==> batch@.points.len() >= 3,
        batch@.points.len() < 3 ==> r == Result::<TrimeshDescriptor, ColliderError>::Err(
            ColliderError::EmptyInput,
        ),
        r matches Ok(d) ==> {
            &&& d.vertices@ == batch@.points
            &&& d.pos_den == batch@.pos_den
            &&& d.triangle_indices@.len() == batch@.points.len()
            &&& forall|i: int|
                0 <= i < d.triangle_indices@.len() ==> (#[trigger] d.triangle_indices@[i]) as int
                    == i
        },
{
    if batch.points.len() < 3 {
        return Err(ColliderError::EmptyInput);
    }
    let count: usize = batch.points.len();
    let mut indices: Vec<u32> = Vec::new();
    let mut i: usize = 0;
    while i < count
        invariant
            i <= count,
            count <= u32::MAX,
            indices@.len() == i,
            forall|q: int| 0 <= q < i ==> (#[trigger] indices@[q]) as int == q,
        decreases count - i,
    {
        indices.push(i as u32);
        i = i + 1;
    }
    let mut vertices: Vec<V3> = Vec::new();
    let mut j: usize = 0;
    while j < count
        invariant
            j <= count,
            count == batch@.points.len(),
            vertices@ == batch@.points.take(j as int),
        decreases count - j,
    {
        vertices.push(batch.points[j]);
        j = j + 1;
        proof {
            assert(vertices@ =~= batch@.points.take(j as int));
        }
    }
    proof {
        assert(batch@.points.take(count as int) =~= batch@.points);
    }
    Ok(TrimeshDescriptor { vertices, pos_den: batch.pos_den, triangle_indices: indices })
}

} // verus!
