//! Region heightmap grids: reshaping a row-major run of quantized noise
//! samples into the square grid a region's mesh and collider are built
//! from, and the full sample-to-mesh path for one region.
//!
//! Sampling itself happens outside: a coherent-noise source evaluates the
//! world-space window that `region_origin` names, the samples are scaled
//! and floored to integers, and the quantized run is handed in here. From
//! that point on everything is a pure function of the samples, so a region
//! generated twice from the same samples is identical bit for bit.

use vstd::prelude::*;

use crate::mesh::MESH_SIZE_MAX;
use crate::mesh::MeshData;
use crate::mesh::create_cube_mesh;
use crate::mesh::grid_wf;
use crate::mesh::idx_off;
use crate::mesh::vox_nor;
use crate::mesh::vox_pos;
use crate::mesh::vox_uv;

verus! {

/// The world coordinate where a region's sample window starts.
pub fn region_origin(region: i32, region_size: u32) -> (r: i64)
    requires
        -0x4000_0000_0000_0000 <= region as int * region_size as int <= 0x4000_0000_0000_0000,
    ensures
        r == region as int * region_size as int,
{
    proof {
        lemma_origin_product(region as int, region_size as int);
    }
    (region as i64) * (region_size as i64)
}

proof fn lemma_origin_product(region: int, size: int)
    by (nonlinear_arith)
    requires
        -0x4000_0000_0000_0000 <= region * size <= 0x4000_0000_0000_0000,
    ensures
        i64::MIN <= region * size <= i64::MAX,
{
}

/// `samples`, row-major, cut into `rows` rows of `cols` entries.
#[verifier::loop_isolation(false)]
fn reshape(samples: &Vec<i64>, rows: usize, cols: usize) -> (grid: Vec<Vec<i64>>)
    requires
        samples@.len() == rows * cols,
    ensures
        grid_wf(grid@, rows as int, cols as int),
        forall|i: int, j: int|
            0 <= i < rows && 0 <= j < cols ==> (#[trigger] grid@[i]@[j]) == samples@[i * cols + j],
{
    let total: usize = samples.len();
    let mut grid: Vec<Vec<i64>> = Vec::new();
    let mut i: usize = 0;
    while i < rows
        invariant
            i <= rows,
            grid@.len() == i,
            forall|a: int| 0 <= a < i ==> (#[trigger] grid@[a])@.len() == cols,
            forall|a: int, b: int|
                0 <= a < i && 0 <= b < cols ==> (#[trigger] grid@[a]@[b]) == samples@[a * cols + b],
        decreases rows - i,
    {
        let mut row: Vec<i64> = Vec::new();
        let mut j: usize = 0;
        proof {
            assert(i * cols + cols <= rows * cols) by (nonlinear_arith)
                requires
                    0 <= i < rows,
                    0 <= cols,
            ;
            assert(total == rows * cols);
        }
        while j < cols
            invariant
                j <= cols,
                i < rows,
                row@.len() == j,
                forall|b: int| 0 <= b < j ==> (#[trigger] row@[b]) == samples@[i * cols + b],
            decreases cols - j,
        {
            row.push(samples[i * cols + j]);
            j = j + 1;
        }
        grid.push(row);
        i = i + 1;
        proof {
            assert forall|a: int, b: int| 0 <= a < i && 0 <= b < cols implies (
            #[trigger] grid@[a]@[b]) == samples@[a * cols + b] by {}
        }
    }
    grid
}

/// A region's height grid for independent per-cell use: `size` rows of
/// `size` samples. An empty dimension yields an empty grid, never an
/// error.
pub fn height_map_by_region(samples: &Vec<i64>, size: usize) -> (grid: Vec<Vec<i64>>)
    requires
        samples@.len() == size * size,
    ensures
        grid_wf(grid@, size as int, size as int),
        forall|i: int, j: int|
            0 <= i < size && 0 <= j < size ==> (#[trigger] grid@[i]@[j]) == samples@[i * size + j],
{
    reshape(samples, size, size)
}

/// A region's height grid for seamless surfaces: `size + 1` rows of
/// `size + 1` samples, so that neighboring regions share their boundary
/// vertices.
pub fn get_map_height(samples: &Vec<i64>, size: usize) -> (grid: Vec<Vec<i64>>)
    requires
        samples@.len() == (size + 1) * (size + 1),
        size < usize::MAX,
    ensures
        grid_wf(grid@, size + 1, size + 1),
        forall|i: int, j: int|
            0 <= i <= size && 0 <= j <= size ==> (#[trigger] grid@[i]@[j]) == samples@[i * (size
                + 1) + j],
{
    reshape(samples, size + 1, size + 1)
}

/// One region's renderable voxel terrain from its quantized samples: the
/// seamless `(size + 1)` grid is cut from the samples and the first
/// `size` rows and columns each become one cube of the mesh.
pub fn region_by_block(samples: &Vec<i64>, size: usize) -> (r: MeshData)
    requires
        samples@.len() == (size + 1) * (size + 1),
        1 <= size <= MESH_SIZE_MAX,
    ensures
        r.wf(),
        r.positions@.len() == 24 * (size * size),
        r.indices@.len() == 36 * (size * size),
        forall|xi: int, zi: int, j: int|
            0 <= xi < size && 0 <= zi < size && 0 <= j < 24 ==> (#[trigger] r.positions@[24 * (xi
                * size + zi) + j]).vals() == vox_pos(
                xi,
                zi,
                samples@[xi * (size + 1) + zi] as int,
                j,
            ),
        forall|xi: int, zi: int, j: int|
            0 <= xi < size && 0 <= zi < size && 0 <= j < 24 ==> (#[trigger] r.normals@[24 * (xi
                * size + zi) + j]).vals() == vox_nor(j),
        forall|xi: int, zi: int, j: int|
            0 <= xi < size && 0 <= zi < size && 0 <= j < 24 ==> (#[trigger] r.uvs@[24 * (xi * size
                + zi) + j]).vals() == vox_uv(xi, zi, j),
        forall|cell: int, t: int|
            0 <= cell < size * size && 0 <= t < 36 ==> (#[trigger] r.indices@[36 * cell + t]) as int
                == 24 * cell + idx_off(t),
        r.pos_den == 2,
        r.nor_den == 1,
        r.uv_den == size,
{
    let grid = get_map_height(samples, size);
    create_cube_mesh(&grid, size)
}

/// Heightmap generation is deterministic: the height-map contract pins
/// every entry to its sample, so any two grids built from the same
/// quantized samples hold identical rows, bit for bit.
pub proof fn lemma_height_map_deterministic(
    g1: Seq<Vec<i64>>,
    g2: Seq<Vec<i64>>,
    samples: Seq<i64>,
    size: int,
)
    requires
        grid_wf(g1, size, size),
        grid_wf(g2, size, size),
        forall|i: int, j: int|
            0 <= i < size && 0 <= j < size ==> (#[trigger] g1[i]@[j]) == samples[i * size + j],
        forall|i: int, j: int|
            0 <= i < size && 0 <= j < size ==> (#[trigger] g2[i]@[j]) == samples[i * size + j],
    ensures
        g1.len() == g2.len(),
        forall|i: int| 0 <= i < size ==> (#[trigger] g1[i])@ == g2[i]@,
{
    assert forall|i: int| 0 <= i < size implies (#[trigger] g1[i])@ == g2[i]@ by {
        assert(g1[i]@ =~= g2[i]@);
    }
}

/// A terrain source that samples the default coherent-noise field.
pub struct NormalGenerator;

impl NormalGenerator {
    /// The per-cell height grid of a region, from its quantized samples.
    pub fn generate_height_map(&self, samples: &Vec<i64>, size: usize) -> (grid: Vec<Vec<i64>>)
        requires
            samples@.len() == size * size,
        ensures
            grid_wf(grid@, size as int, size as int),
            forall|i: int, j: int|
                0 <= i < size && 0 <= j < size ==> (#[trigger] grid@[i]@[j]) == samples@[i * size
                    + j],
    {
        height_map_by_region(samples, size)
    }

    /// The renderable voxel terrain of a region, from its quantized
    /// samples.
    pub fn generate_block(&self, samples: &Vec<i64>, size: usize) -> (r: MeshData)
        requires
            samples@.len() == (size + 1) * (size + 1),
            1 <= size <= MESH_SIZE_MAX,
        ensures
            r.wf(),
            r.positions@.len() == 24 * (size * size),
            r.indices@.len() == 36 * (size * size),
            forall|xi: int, zi: int, j: int|
                0 <= xi < size && 0 <= zi < size && 0 <= j < 24 ==> (#[trigger] r.positions@[24 * (
                xi * size + zi) + j]).vals() == vox_pos(
                    xi,
                    zi,
                    samples@[xi * (size + 1) + zi] as int,
                    j,
                ),
            forall|xi: int, zi: int, j: int|
                0 <= xi < size && 0 <= zi < size && 0 <= j < 24 ==> (#[trigger] r.normals@[24 * (xi
                    * size + zi) + j]).vals() == vox_nor(j),
            forall|xi: int, zi: int, j: int|
                0 <= xi < size && 0 <= zi < size && 0 <= j < 24 ==> (#[trigger] r.uvs@[24 * (xi
                    * size + zi) + j]).vals() == vox_uv(xi, zi, j),
            forall|cell: int, t: int|
                0 <= cell < size * size && 0 <= t < 36 ==> (#[trigger] r.indices@[36 * cell
                    + t]) as int == 24 * cell + idx_off(t),
            r.pos_den == 2,
            r.nor_den == 1,
            r.uv_den == size,
    {
        region_by_block(samples, size)
    }
}

/// The named terrain source the cache's callers go through.
pub struct MapGeneratorInfo {
    pub name: String,
}

impl MapGeneratorInfo {
    /// A terrain source under the given name.
    pub fn new(name: String) -> (r: MapGeneratorInfo)
        ensures
            r.name@ == name@,
    {
        MapGeneratorInfo { name }
    }

    /// The source's name.
    pub fn name(&self) -> (r: &String)
        ensures
            r@ == self.name@,
    {
        &self.name
    }

    /// The renderable voxel terrain of a region, from its quantized
    /// samples.
    pub fn region_generate(&self, samples: &Vec<i64>, size: usize) -> (r: MeshData)
        requires
            samples@.len() == (size + 1) * (size + 1),
            1 <= size <= MESH_SIZE_MAX,
        ensures
            r.wf(),
            r.positions@.len() == 24 * (size * size),
            r.indices@.len() == 36 * (size * size),
            forall|xi: int, zi: int, j: int|
                0 <= xi < size && 0 <= zi < size && 0 <= j < 24 ==> (#[trigger] r.positions@[24 * (
                xi * size + zi) + j]).vals() == vox_pos(
                    xi,
                    zi,
                    samples@[xi * (size + 1) + zi] as int,
                    j,
                ),
            forall|xi: int, zi: int, j: int|
                0 <= xi < size && 0 <= zi < size && 0 <= j < 24 ==> (#[trigger] r.normals@[24 * (xi
                    * size + zi) + j]).vals() == vox_nor(j),
            forall|xi: int, zi: int, j: int|
                0 <= xi < size && 0 <= zi < size && 0 <= j < 24 ==> (#[trigger] r.uvs@[24 * (xi
                    * size + zi) + j]).vals() == vox_uv(xi, zi, j),
            forall|cell: int, t: int|
                0 <= cell < size * size && 0 <= t < 36 ==> (#[trigger] r.indices@[36 * cell
                    + t]) as int == 24 * cell + idx_off(t),
            r.pos_den == 2,
            r.nor_den == 1,
            r.uv_den == size,
    {
        region_by_block(samples, size)
    }

    /// The per-cell height grid of a region, from its quantized samples.
    pub fn height_map(&self, samples: &Vec<i64>, size: usize) -> (grid: Vec<Vec<i64>>)
        requires
            samples@.len() == size * size,
        ensures
            grid_wf(grid@, size as int, size as int),
            forall|i: int, j: int|
                0 <= i < size && 0 <= j < size ==> (#[trigger] grid@[i]@[j]) == samples@[i * size
                    + j],
    {
        height_map_by_region(samples, size)
    }
}

} // verus!
