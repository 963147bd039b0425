//! Renderable mesh construction from quantized height grids: a continuous
//! grid surface, or one cube per height sample, both as indexed vertex
//! buffers with exact rational attributes.

use vstd::prelude::*;

use crate::geometry::Triangle;
use crate::geometry::V3;

verus! {

/// An indexed mesh: parallel position, normal and texture-coordinate
/// buffers, one denominator per channel, and a triangle index buffer.
/// Every index addresses a vertex; indices come in threes.
pub struct MeshData {
    pub positions: Vec<V3>,
    pub normals: Vec<V3>,
    pub uvs: Vec<V3>,
    pub indices: Vec<u32>,
    pub pos_den: i128,
    pub nor_den: i128,
    pub uv_den: i128,
}

impl MeshData {
    pub open spec fn wf(self) -> bool {
        &&& self.positions@.len() == self.normals@.len()
        &&& self.positions@.len() == self.uvs@.len()
        &&& self.indices@.len() % 3 == 0
        &&& forall|i: int|
            0 <= i < self.indices@.len() ==> (#[trigger] self.indices@[i] as int)
                < self.positions@.len()
        &&& self.pos_den >= 1
        &&& self.nor_den >= 1
        &&& self.uv_den >= 1
    }

    /// Number of triangles described by the index buffer.
    pub open spec fn tri_count(self) -> int {
        self.indices@.len() as int / 3
    }
}

impl Triangle {
    /// An indexed mesh from a flat batch: the vertex buffers are the
    /// batch's channels unchanged, and the index buffer counts the
    /// vertices off in order.
    pub fn build(self) -> (r: MeshData)
        requires
            self@.wf(),
            self@.points.len() <= u32::MAX,
        ensures
            r.wf(),
            r.positions@ == self@.points,
            r.normals@ == self@.normal,
            r.uvs@ == self@.uv,
            r.pos_den == self@.pos_den,
            r.nor_den == self@.nor_den,
            r.uv_den == self@.uv_den,
            r.indices@.len() == self@.points.len(),
            forall|i: int| 0 <= i < r.indices@.len() ==> (#[trigger] r.indices@[i]) as int == i,
    {
        let count: usize = self.points.len();
        let mut indices: Vec<u32> = Vec::new();
        let mut i: usize = 0;
        while i < count
            invariant
                i <= count,
                count == self@.points.len(),
                count <= u32::MAX,
                indices@.len() == i,
                forall|q: int| 0 <= q < i ==> (#[trigger] indices@[q]) as int == q,
            decreases count - i,
        {
            indices.push(i as u32);
            i = i + 1;
        }
        MeshData {
            positions: self.points,
            normals: self.normal,
            uvs: self.uv,
            indices,
            pos_den: self.pos_den,
            nor_den: self.nor_den,
            uv_den: self.uv_den,
        }
    }
}

/// A rectangular height grid: `rows` rows of `cols` samples each.
pub open spec fn grid_wf(grid: Seq<Vec<i64>>, rows: int, cols: int) -> bool {
    &&& grid.len() == rows
    &&& forall|i: int| 0 <= i < rows ==> (#[trigger] grid[i])@.len() == cols
}

/// The position of grid vertex `(xi, zi)`: one world unit per sample,
/// offset by the region's world translation, at the sampled height.
pub open spec fn plain_position(
    grid: Seq<Vec<i64>>,
    off_x: int,
    off_z: int,
    xi: int,
    zi: int,
) -> (int, int, int) {
    (xi + off_x, grid[xi]@[zi] as int, zi + off_z)
}

/// The six vertex indices of grid cell `(x, z)`: two counter-clockwise
/// triangles over the cell's four corners, split along one fixed diagonal.
pub open spec fn plain_index(size: int, x: int, z: int, t: int) -> int {
    let s = x * (size + 1) + z;
    if t == 0 {
        s
    } else if t == 1 {
        s + 1
    } else if t == 2 {
        s + size + 1
    } else if t == 3 {
        s + 1
    } else if t == 4 {
        s + size + 2
    } else {
        s + size + 1
    }
}

/// The flat index of grid vertex `(a, b)` lies inside an
/// `edge * edge` vertex buffer.
proof fn lemma_plain_vertex_index(len: int, edge: int, a: int, b: int)
    by (nonlinear_arith)
    requires
        len == edge * edge,
        0 <= a < edge,
        0 <= b < edge,
    ensures
        0 <= a * edge + b,
        a * edge + b < len,
{
}

/// Largest grid edge the mesh builders admit; keeps every vertex index
/// inside `u32`.
pub const MESH_SIZE_MAX: usize = 0x1000;

/// A continuous triangulated surface over an `(size+1) x (size+1)` vertex
/// grid: one vertex per height sample, flat upward normals, texture
/// coordinates linear in the sample position, and two triangles per unit
/// cell. `off_x` and `off_z` translate the surface to its region's place
/// in the world.
#[verifier::loop_isolation(false)]
pub fn create_plain_mesh(grid: &Vec<Vec<i64>>, size: usize, off_x: i64, off_z: i64) -> (r: MeshData)
    requires
        grid_wf(grid@, size + 1, size + 1),
        size <= MESH_SIZE_MAX,
    ensures
        r.wf(),
        r.positions@.len() == (size + 1) * (size + 1),
        r.indices@.len() == 6 * (size * size),
        forall|xi: int, zi: int|
            0 <= xi <= size && 0 <= zi <= size ==> (#[trigger] r.positions@[xi * (size + 1)
                + zi]).vals() == plain_position(grid@, off_x as int, off_z as int, xi, zi),
        forall|xi: int, zi: int|
            0 <= xi <= size && 0 <= zi <= size ==> #[trigger] r.normals@[xi * (size + 1) + zi]
                == (V3 { x: 0, y: 1, z: 0 }),
        forall|xi: int, zi: int|
            0 <= xi <= size && 0 <= zi <= size ==> #[trigger] r.uvs@[xi * (size + 1) + zi] == (V3 {
                x: xi as i128,
                y: zi as i128,
                z: 0,
            }),
        forall|x: int, z: int, t: int|
            0 <= x < size && 0 <= z < size && 0 <= t < 6 ==> (#[trigger] r.indices@[6 * (x * size
                + z) + t]) as int == plain_index(size as int, x, z, t),
        r.pos_den == 1,
        r.nor_den == 1,
        r.uv_den == (if size == 0 {
            1int
        } else {
            size as int
        }),
{
    let edge: usize = size + 1;
    let ghost ge = edge as int;
    let mut positions: Vec<V3> = Vec::new();
    let mut normals: Vec<V3> = Vec::new();
    let mut uvs: Vec<V3> = Vec::new();
    let mut xi: usize = 0;
    while xi < edge
        invariant
            xi <= edge,
            positions@.len() == xi * ge,
            normals@.len() == positions@.len(),
            uvs@.len() == positions@.len(),
            forall|i: int|
                0 <= i < positions@.len() ==> (#[trigger] positions@[i]).vals() == plain_position(
                    grid@,
                    off_x as int,
                    off_z as int,
                    i / ge,
                    i % ge,
                ),
            forall|i: int|
                0 <= i < positions@.len() ==> #[trigger] normals@[i] == (V3 { x: 0, y: 1, z: 0 }),
            forall|i: int|
                0 <= i < positions@.len() ==> #[trigger] uvs@[i] == (V3 {
                    x: (i / ge) as i128,
                    y: (i % ge) as i128,
                    z: 0,
                }),
        decreases edge - xi,
    {
        let mut zi: usize = 0;
        while zi < edge
            invariant
                zi <= edge,
                xi < edge,
                positions@.len() == xi * ge + zi,
                normals@.len() == positions@.len(),
                uvs@.len() == positions@.len(),
                forall|i: int|
                    0 <= i < positions@.len() ==> (#[trigger] positions@[i]).vals()
                        == plain_position(grid@, off_x as int, off_z as int, i / ge, i % ge),
                forall|i: int|
                    0 <= i < positions@.len() ==> #[trigger] normals@[i] == (V3 {
                        x: 0,
                        y: 1,
                        z: 0,
                    }),
                forall|i: int|
                    0 <= i < positions@.len() ==> #[trigger] uvs@[i] == (V3 {
                        x: (i / ge) as i128,
                        y: (i % ge) as i128,
                        z: 0,
                    }),
            decreases edge - zi,
        {
            proof {
                vstd::arithmetic::div_mod::lemma_fundamental_div_mod_converse(
                    xi as int * ge + zi,
                    ge,
                    xi as int,
                    zi as int,
                );
            }
            let h: i64 = grid[xi][zi];
            positions.push(
                V3 {
                    x: xi as i128 + off_x as i128,
                    y: h as i128,
                    z: zi as i128 + off_z as i128,
                },
            );
            normals.push(V3 { x: 0, y: 1, z: 0 });
            uvs.push(V3 { x: xi as i128, y: zi as i128, z: 0 });
            zi = zi + 1;
        }
        xi = xi + 1;
        proof {
            assert(xi as int * ge == (xi - 1) * ge + ge) by (nonlinear_arith);
        }
    }
    proof {
        assert(positions@.len() == (size + 1) * (size + 1));
    }
    let mut indices: Vec<u32> = Vec::new();
    let mut x: usize = 0;
    while x < size
        invariant
            x <= size,
            indices@.len() == 6 * (x * size),
            forall|i: int|
                0 <= i < indices@.len() ==> (#[trigger] indices@[i]) as int == plain_index(
                    size as int,
                    (i / 6) / (size as int),
                    (i / 6) % (size as int),
                    i % 6,
                ),
            forall|i: int|
                0 <= i < indices@.len() ==> (#[trigger] indices@[i] as int) < (size + 1) * (size
                    + 1),
        decreases size - x,
    {
        let mut z: usize = 0;
        while z < size
            invariant
                z <= size,
                x < size,
                indices@.len() == 6 * (x * size + z),
                forall|i: int|
                    0 <= i < indices@.len() ==> (#[trigger] indices@[i]) as int == plain_index(
                        size as int,
                        (i / 6) / (size as int),
                        (i / 6) % (size as int),
                        i % 6,
                    ),
                forall|i: int|
                    0 <= i < indices@.len() ==> (#[trigger] indices@[i] as int) < (size + 1) * (size
                        + 1),
            decreases size - z,
        {
            proof {
                assert(x * (size + 1) + z + (size as int + 2) < (size + 1) * (size + 1) && (size
                    + 1) * (size + 1) <= 0x1002001 && x * (size as int + 1) >= 0 && 6 * (x * size
                    + z) + 6 <= 6 * (size * size)) by (nonlinear_arith)
                    requires
                        0 <= x < size,
                        0 <= z < size,
                        size <= MESH_SIZE_MAX,
                        MESH_SIZE_MAX == 0x1000,
                ;
            }
            let s: u32 = (x * (size + 1) + z) as u32;
            let ghost c = x as int * size + z;
            let ghost len0 = indices@.len() as int;
            indices.push(s);
            indices.push(s + 1);
            indices.push(s + (size as u32) + 1);
            indices.push(s + 1);
            indices.push(s + (size as u32) + 2);
            indices.push(s + (size as u32) + 1);
            proof {
                vstd::arithmetic::div_mod::lemma_fundamental_div_mod_converse(
                    c,
                    size as int,
                    x as int,
                    z as int,
                );
                assert forall|t: int| 0 <= t < 6 implies (#[trigger] ((6 * c + t) / 6)) == c && (6
                    * c + t) % 6 == t by {
                    vstd::arithmetic::div_mod::lemma_fundamental_div_mod_converse(
                        6 * c + t,
                        6,
                        c,
                        t,
                    );
                }
                assert(len0 == 6 * c);
                assert forall|i: int| 0 <= i < indices@.len() implies (#[trigger] indices@[i]) as int
                    == plain_index(size as int, (i / 6) / (size as int), (i / 6) % (size as int), i % 6) by {
                    if i >= len0 {
                        let t = i - len0;
                        assert(i == 6 * c + t);
                        assert((6 * c + t) / 6 == c && (6 * c + t) % 6 == t);
                    }
                }
            }
            z = z + 1;
        }
        x = x + 1;
        proof {
            assert(x as int * size == (x - 1) * size + size) by (nonlinear_arith);
        }
    }
    proof {
        assert(indices@.len() == 6 * (size * size));
        assert forall|a: int, b: int| 0 <= a <= size && 0 <= b <= size implies (
        #[trigger] positions@[a * (size + 1) + b]).vals() == plain_position(
            grid@,
            off_x as int,
            off_z as int,
            a,
            b,
        ) by {
            lemma_plain_vertex_index(positions@.len() as int, ge, a, b);
            vstd::arithmetic::div_mod::lemma_fundamental_div_mod_converse(a * ge + b, ge, a, b);
        }
        assert forall|a: int, b: int| 0 <= a <= size && 0 <= b <= size implies #[trigger] normals@[a
            * (size + 1) + b] == (V3 { x: 0, y: 1, z: 0 }) by {
            lemma_plain_vertex_index(positions@.len() as int, ge, a, b);
            vstd::arithmetic::div_mod::lemma_fundamental_div_mod_converse(a * ge + b, ge, a, b);
        }
        assert forall|a: int, b: int| 0 <= a <= size && 0 <= b <= size implies #[trigger] uvs@[a * (
        size + 1) + b] == (V3 { x: a as i128, y: b as i128, z: 0 }) by {
            lemma_plain_vertex_index(positions@.len() as int, ge, a, b);
            vstd::arithmetic::div_mod::lemma_fundamental_div_mod_converse(a * ge + b, ge, a, b);
        }
        assert forall|a: int, b: int, t: int|
            0 <= a < size && 0 <= b < size && 0 <= t < 6 implies (#[trigger] indices@[6 * (a * size
            + b) + t]) as int == plain_index(size as int, a, b, t) by {
            let c = a * size + b;
            let i = 6 * c + t;
            assert(0 <= a * size + b && a * size + b + 1 <= size * size) by (nonlinear_arith)
                requires
                    0 <= a < size,
                    0 <= b < size,
            ;
            vstd::arithmetic::div_mod::lemma_fundamental_div_mod_converse(c, size as int, a, b);
            vstd::arithmetic::div_mod::lemma_fundamental_div_mod_converse(i, 6, c, t);
        }
    }
    let uv_den: i128 = if size == 0 {
        1
    } else {
        size as i128
    };
    MeshData { positions, normals, uvs, indices, pos_den: 1, nor_den: 1, uv_den }
}

/// One vertex of the unit-cube template: position offsets (in half
/// units around the cube's center), the face normal, and the face-local
/// texture corner. Vertex `j` of the template belongs to face `j / 4`,
/// corner `j % 4`.
pub ghost struct CubeEntry {
    pub dx: int,
    pub dy: int,
    pub dz: int,
    pub nx: int,
    pub ny: int,
    pub nz: int,
    pub u: int,
    pub v: int,
}

/// The 24-vertex unit-cube template: six faces of four corners each, in
/// the order top, bottom, east, west, south, north.
pub open spec fn cube_entry_spec(j: int) -> CubeEntry {
    let f = j / 4;
    let c = j % 4;
    if f == 0 {
        if c == 0 {
            CubeEntry { dx: -1, dy: 1, dz: -1, nx: 0, ny: 1, nz: 0, u: 0, v: 0 }
        } else if c == 1 {
            CubeEntry { dx: -1, dy: 1, dz: 1, nx: 0, ny: 1, nz: 0, u: 1, v: 0 }
        } else if c == 2 {
            CubeEntry { dx: 1, dy: 1, dz: 1, nx: 0, ny: 1, nz: 0, u: 1, v: 1 }
        } else {
            CubeEntry { dx: 1, dy: 1, dz: -1, nx: 0, ny: 1, nz: 0, u: 0, v: 1 }
        }
    } else if f == 1 {
        if c == 0 {
            CubeEntry { dx: -1, dy: -1, dz: -1, nx: 0, ny: -1, nz: 0, u: 0, v: 0 }
        } else if c == 1 {
            CubeEntry { dx: 1, dy: -1, dz: -1, nx: 0, ny: -1, nz: 0, u: 1, v: 0 }
        } else if c == 2 {
            CubeEntry { dx: 1, dy: -1, dz: 1, nx: 0, ny: -1, nz: 0, u: 1, v: 1 }
        } else {
            CubeEntry { dx: -1, dy: -1, dz: 1, nx: 0, ny: -1, nz: 0, u: 0, v: 1 }
        }
    } else if f == 2 {
        if c == 0 {
            CubeEntry { dx: 1, dy: -1, dz: -1, nx: 1, ny: 0, nz: 0, u: 0, v: 0 }
        } else if c == 1 {
            CubeEntry { dx: 1, dy: 1, dz: -1, nx: 1, ny: 0, nz: 0, u: 1, v: 0 }
        } else if c == 2 {
            CubeEntry { dx: 1, dy: 1, dz: 1, nx: 1, ny: 0, nz: 0, u: 1, v: 1 }
        } else {
            CubeEntry { dx: 1, dy: -1, dz: 1, nx: 1, ny: 0, nz: 0, u: 0, v: 1 }
        }
    } else if f == 3 {
        if c == 0 {
            CubeEntry { dx: -1, dy: -1, dz: -1, nx: -1, ny: 0, nz: 0, u: 0, v: 0 }
        } else if c == 1 {
            CubeEntry { dx: -1, dy: -1, dz: 1, nx: -1, ny: 0, nz: 0, u: 1, v: 0 }
        } else if c == 2 {
            CubeEntry { dx: -1, dy: 1, dz: 1, nx: -1, ny: 0, nz: 0, u: 1, v: 1 }
        } else {
            CubeEntry { dx: -1, dy: 1, dz: -1, nx: -1, ny: 0, nz: 0, u: 0, v: 1 }
        }
    } else if f == 4 {
        if c == 0 {
            CubeEntry { dx: -1, dy: -1, dz: 1, nx: 0, ny: 0, nz: 1, u: 0, v: 0 }
        } else if c == 1 {
            CubeEntry { dx: 1, dy: -1, dz: 1, nx: 0, ny: 0, nz: 1, u: 1, v: 0 }
        } else if c == 2 {
            CubeEntry { dx: 1, dy: 1, dz: 1, nx: 0, ny: 0, nz: 1, u: 1, v: 1 }
        } else {
            CubeEntry { dx: -1, dy: 1, dz: 1, nx: 0, ny: 0, nz: 1, u: 0, v: 1 }
        }
    } else {
        if c == 0 {
            CubeEntry { dx: -1, dy: -1, dz: -1, nx: 0, ny: 0, nz: -1, u: 0, v: 0 }
        } else if c == 1 {
            CubeEntry { dx: -1, dy: 1, dz: -1, nx: 0, ny: 0, nz: -1, u: 1, v: 0 }
        } else if c == 2 {
            CubeEntry { dx: 1, dy: 1, dz: -1, nx: 0, ny: 0, nz: -1, u: 1, v: 1 }
        } else {
            CubeEntry { dx: 1, dy: -1, dz: -1, nx: 0, ny: 0, nz: -1, u: 0, v: 1 }
        }
    }
}

/// Position numerators (over denominator two) of template vertex `j` of
/// the cube sitting at cell `(xi, zi)` with height `h`.
pub open spec fn vox_pos(xi: int, zi: int, h: int, j: int) -> (int, int, int) {
    (2 * xi + cube_entry_spec(j).dx, 2 * h + cube_entry_spec(j).dy, 2 * zi + cube_entry_spec(j).dz)
}

/// Normal numerators (over denominator one) of template vertex `j`.
pub open spec fn vox_nor(j: int) -> (int, int, int) {
    (cube_entry_spec(j).nx, cube_entry_spec(j).ny, cube_entry_spec(j).nz)
}

/// Texture numerators (over the grid edge as denominator) of template
/// vertex `j` at cell `(xi, zi)`.
pub open spec fn vox_uv(xi: int, zi: int, j: int) -> (int, int, int) {
    (cube_entry_spec(j).u + xi, cube_entry_spec(j).v + zi, 0)
}

/// The template-vertex offset addressed by index entry `t` of one cube:
/// two triangles per face, each walking the face's corner quad.
pub open spec fn idx_off(t: int) -> int {
    let f = t / 6;
    let q = t % 6;
    4 * f + (if q == 0 {
        0int
    } else if q == 1 {
        1int
    } else if q == 2 {
        2int
    } else if q == 3 {
        0int
    } else if q == 4 {
        2int
    } else {
        3int
    })
}

/// The position, normal and texture numerators of template vertex `j`.
fn cube_entry(j: usize) -> (r: (i128, i128, i128, i128, i128, i128, i128, i128))
    requires
        j < 24,
    ensures
        r.0 as int == cube_entry_spec(j as int).dx,
        r.1 as int == cube_entry_spec(j as int).dy,
        r.2 as int == cube_entry_spec(j as int).dz,
        r.3 as int == cube_entry_spec(j as int).nx,
        r.4 as int == cube_entry_spec(j as int).ny,
        r.5 as int == cube_entry_spec(j as int).nz,
        r.6 as int == cube_entry_spec(j as int).u,
        r.7 as int == cube_entry_spec(j as int).v,
{
    let f = j / 4;
    let c = j % 4;
    if f == 0 {
        if c == 0 {
            (-1, 1, -1, 0, 1, 0, 0, 0)
        } else if c == 1 {
            (-1, 1, 1, 0, 1, 0, 1, 0)
        } else if c == 2 {
            (1, 1, 1, 0, 1, 0, 1, 1)
        } else {
            (1, 1, -1, 0, 1, 0, 0, 1)
        }
    } else if f == 1 {
        if c == 0 {
            (-1, -1, -1, 0, -1, 0, 0, 0)
        } else if c == 1 {
            (1, -1, -1, 0, -1, 0, 1, 0)
        } else if c == 2 {
            (1, -1, 1, 0, -1, 0, 1, 1)
        } else {
            (-1, -1, 1, 0, -1, 0, 0, 1)
        }
    } else if f == 2 {
        if c == 0 {
            (1, -1, -1, 1, 0, 0, 0, 0)
        } else if c == 1 {
            (1, 1, -1, 1, 0, 0, 1, 0)
        } else if c == 2 {
            (1, 1, 1, 1, 0, 0, 1, 1)
        } else {
            (1, -1, 1, 1, 0, 0, 0, 1)
        }
    } else if f == 3 {
        if c == 0 {
            (-1, -1, -1, -1, 0, 0, 0, 0)
        } else if c == 1 {
            (-1, -1, 1, -1, 0, 0, 1, 0)
        } else if c == 2 {
            (-1, 1, 1, -1, 0, 0, 1, 1)
        } else {
            (-1, 1, -1, -1, 0, 0, 0, 1)
        }
    } else if f == 4 {
        if c == 0 {
            (-1, -1, 1, 0, 0, 1, 0, 0)
        } else if c == 1 {
            (1, -1, 1, 0, 0, 1, 1, 0)
        } else if c == 2 {
            (1, 1, 1, 0, 0, 1, 1, 1)
        } else {
            (-1, 1, 1, 0, 0, 1, 0, 1)
        }
    } else {
        if c == 0 {
            (-1, -1, -1, 0, 0, -1, 0, 0)
        } else if c == 1 {
            (-1, 1, -1, 0, 0, -1, 1, 0)
        } else if c == 2 {
            (1, 1, -1, 0, 0, -1, 1, 1)
        } else {
            (1, -1, -1, 0, 0, -1, 0, 1)
        }
    }
}

/// The template-vertex offset of index entry `t` of one cube.
fn idx_entry(t: usize) -> (r: u32)
    requires
        t < 36,
    ensures
        r as int == idx_off(t as int),
        r < 24,
{
    let f = t / 6;
    let q = t % 6;
    let c: u32 = if q == 0 {
        0
    } else if q == 1 {
        1
    } else if q == 2 {
        2
    } else if q == 3 {
        0
    } else if q == 4 {
        2
    } else {
        3
    };
    (4 * f) as u32 + c
}

/// Appends one cube's 24 vertices and 36 index entries.
#[verifier::loop_isolation(false)]
fn emit_cube(
    ps: &mut Vec<V3>,
    ns: &mut Vec<V3>,
    us: &mut Vec<V3>,
    ix: &mut Vec<u32>,
    xi: usize,
    zi: usize,
    h: i64,
    base: u32,
)
    requires
        xi <= MESH_SIZE_MAX,
        zi <= MESH_SIZE_MAX,
        base as int + 24 <= u32::MAX,
    ensures
        final(ps)@.len() == old(ps)@.len() + 24,
        final(ns)@.len() == old(ns)@.len() + 24,
        final(us)@.len() == old(us)@.len() + 24,
        final(ix)@.len() == old(ix)@.len() + 36,
        forall|i: int| 0 <= i < old(ps)@.len() ==> #[trigger] final(ps)@[i] == old(ps)@[i],
        forall|i: int| 0 <= i < old(ns)@.len() ==> #[trigger] final(ns)@[i] == old(ns)@[i],
        forall|i: int| 0 <= i < old(us)@.len() ==> #[trigger] final(us)@[i] == old(us)@[i],
        forall|i: int| 0 <= i < old(ix)@.len() ==> #[trigger] final(ix)@[i] == old(ix)@[i],
        forall|j: int|
            0 <= j < 24 ==> (#[trigger] final(ps)@[old(ps)@.len() + j]).vals() == vox_pos(
                xi as int,
                zi as int,
                h as int,
                j,
            ),
        forall|j: int|
            0 <= j < 24 ==> (#[trigger] final(ns)@[old(ns)@.len() + j]).vals() == vox_nor(j),
        forall|j: int|
            0 <= j < 24 ==> (#[trigger] final(us)@[old(us)@.len() + j]).vals() == vox_uv(
                xi as int,
                zi as int,
                j,
            ),
        forall|t: int|
            0 <= t < 36 ==> (#[trigger] final(ix)@[old(ix)@.len() + t]) as int == base + idx_off(t),
{
    let mut j: usize = 0;
    while j < 24
        invariant
            j <= 24,
            ps@.len() == old(ps)@.len() + j,
            ns@.len() == old(ns)@.len() + j,
            us@.len() == old(us)@.len() + j,
            ix@ == old(ix)@,
            forall|i: int| 0 <= i < old(ps)@.len() ==> #[trigger] ps@[i] == old(ps)@[i],
            forall|i: int| 0 <= i < old(ns)@.len() ==> #[trigger] ns@[i] == old(ns)@[i],
            forall|i: int| 0 <= i < old(us)@.len() ==> #[trigger] us@[i] == old(us)@[i],
            forall|q: int|
                0 <= q < j ==> (#[trigger] ps@[old(ps)@.len() + q]).vals() == vox_pos(
                    xi as int,
                    zi as int,
                    h as int,
                    q,
                ),
            forall|q: int|
                0 <= q < j ==> (#[trigger] ns@[old(ns)@.len() + q]).vals() == vox_nor(q),
            forall|q: int|
                0 <= q < j ==> (#[trigger] us@[old(us)@.len() + q]).vals() == vox_uv(
                    xi as int,
                    zi as int,
                    q,
                ),
        decreases 24 - j,
    {
        let e = cube_entry(j);
        ps.push(V3 { x: 2 * (xi as i128) + e.0, y: 2 * (h as i128) + e.1, z: 2 * (zi as i128) + e.2 });
        ns.push(V3 { x: e.3, y: e.4, z: e.5 });
        us.push(V3 { x: e.6 + xi as i128, y: e.7 + zi as i128, z: 0 });
        j = j + 1;
    }
    let mut t: usize = 0;
    while t < 36
        invariant
            t <= 36,
            ix@.len() == old(ix)@.len() + t,
            ps@.len() == old(ps)@.len() + 24,
            ns@.len() == old(ns)@.len() + 24,
            us@.len() == old(us)@.len() + 24,
            forall|i: int| 0 <= i < old(ix)@.len() ==> #[trigger] ix@[i] == old(ix)@[i],
            forall|q: int|
                0 <= q < t ==> (#[trigger] ix@[old(ix)@.len() + q]) as int == base + idx_off(q),
        decreases 36 - t,
    {
        let off = idx_entry(t);
        ix.push(base + off);
        t = t + 1;
    }
}

/// One cube per height sample: for each of the `size * size` cells, the
/// 24-vertex, 12-triangle unit-cube template offset to the cell's place
/// and height, with the cube's index entries offset by the running
/// vertex count. Texture coordinates tile the whole grid once.
#[verifier::loop_isolation(false)]
pub fn create_cube_mesh(grid: &Vec<Vec<i64>>, size: usize) -> (r: MeshData)
    requires
        grid@.len() >= size,
        forall|i: int| 0 <= i < size ==> (#[trigger] grid@[i])@.len() >= size,
        1 <= size <= MESH_SIZE_MAX,
    ensures
        r.wf(),
        r.positions@.len() == 24 * (size * size),
        r.indices@.len() == 36 * (size * size),
        forall|xi: int, zi: int, j: int|
            0 <= xi < size && 0 <= zi < size && 0 <= j < 24 ==> (#[trigger] r.positions@[24 * (xi
                * size + zi) + j]).vals() == vox_pos(xi, zi, grid@[xi]@[zi] as int, j),
        forall|xi: int, zi: int, j: int|
            0 <= xi < size && 0 <= zi < size && 0 <= j < 24 ==> (#[trigger] r.normals@[24 * (xi
                * size + zi) + j]).vals() == vox_nor(j),
        forall|xi: int, zi: int, j: int|
            0 <= xi < size && 0 <= zi < size && 0 <= j < 24 ==> (#[trigger] r.uvs@[24 * (xi * size
                + zi) + j]).vals() == vox_uv(xi, zi, j),
        forall|cell: int, t: int|
            0 <= cell < size * size && 0 <= t < 36 ==> (#[trigger] r.indices@[36 * cell + t]) as int
                == 24 * cell + idx_off(t),
        r.pos_den == 2,
        r.nor_den == 1,
        r.uv_den == size,
{
    let ghost gs = size as int;
    let mut ps: Vec<V3> = Vec::new();
    let mut ns: Vec<V3> = Vec::new();
    let mut us: Vec<V3> = Vec::new();
    let mut ix: Vec<u32> = Vec::new();
    let mut xi: usize = 0;
    while xi < size
        invariant
            xi <= size,
            ps@.len() == 24 * (xi * gs),
            ns@.len() == ps@.len(),
            us@.len() == ps@.len(),
            ix@.len() == 36 * (xi * gs),
            forall|i: int|
                0 <= i < ps@.len() ==> (#[trigger] ps@[i]).vals() == vox_pos(
                    (i / 24) / gs,
                    (i / 24) % gs,
                    grid@[(i / 24) / gs]@[(i / 24) % gs] as int,
                    i % 24,
                ),
            forall|i: int| 0 <= i < ns@.len() ==> (#[trigger] ns@[i]).vals() == vox_nor(i % 24),
            forall|i: int|
                0 <= i < us@.len() ==> (#[trigger] us@[i]).vals() == vox_uv(
                    (i / 24) / gs,
                    (i / 24) % gs,
                    i % 24,
                ),
            forall|i: int|
                0 <= i < ix@.len() ==> (#[trigger] ix@[i]) as int == 24 * (i / 36) + idx_off(i % 36),
        decreases size - xi,
    {
        let mut zi: usize = 0;
        while zi < size
            invariant
                zi <= size,
                xi < size,
                ps@.len() == 24 * (xi * gs + zi),
                ns@.len() == ps@.len(),
                us@.len() == ps@.len(),
                ix@.len() == 36 * (xi * gs + zi),
                forall|i: int|
                    0 <= i < ps@.len() ==> (#[trigger] ps@[i]).vals() == vox_pos(
                        (i / 24) / gs,
                        (i / 24) % gs,
                        grid@[(i / 24) / gs]@[(i / 24) % gs] as int,
                        i % 24,
                    ),
                forall|i: int| 0 <= i < ns@.len() ==> (#[trigger] ns@[i]).vals() == vox_nor(i % 24),
                forall|i: int|
                    0 <= i < us@.len() ==> (#[trigger] us@[i]).vals() == vox_uv(
                        (i / 24) / gs,
                        (i / 24) % gs,
                        i % 24,
                    ),
                forall|i: int|
                    0 <= i < ix@.len() ==> (#[trigger] ix@[i]) as int == 24 * (i / 36) + idx_off(
                        i % 36,
                    ),
            decreases size - zi,
        {
            let ghost cell = xi as int * gs + zi;
            proof {
                assert(0 <= cell && cell + 1 <= gs * gs && 24 * cell + 24 <= 24 * (gs * gs) && 36
                    * cell + 36 <= 36 * (gs * gs) && 24 * (gs * gs) <= 0x18000000)
                    by (nonlinear_arith)
                    requires
                        0 <= xi < gs,
                        0 <= zi < gs,
                        cell == xi as int * gs + zi,
                        gs <= 0x1000,
                ;
            }
            let base: u32 = (24 * (xi * size + zi)) as u32;
            let h: i64 = grid[xi][zi];
            let ghost len0 = ps@.len() as int;
            let ghost ixlen0 = ix@.len() as int;
            emit_cube(&mut ps, &mut ns, &mut us, &mut ix, xi, zi, h, base);
            proof {
                vstd::arithmetic::div_mod::lemma_fundamental_div_mod_converse(
                    cell,
                    gs,
                    xi as int,
                    zi as int,
                );
                assert forall|j: int| 0 <= j < 24 implies (#[trigger] ((24 * cell + j) / 24)) == cell
                    && (24 * cell + j) % 24 == j by {
                    vstd::arithmetic::div_mod::lemma_fundamental_div_mod_converse(
                        24 * cell + j,
                        24,
                        cell,
                        j,
                    );
                }
                assert forall|t: int| 0 <= t < 36 implies (#[trigger] ((36 * cell + t) / 36)) == cell
                    && (36 * cell + t) % 36 == t by {
                    vstd::arithmetic::div_mod::lemma_fundamental_div_mod_converse(
                        36 * cell + t,
                        36,
                        cell,
                        t,
                    );
                }
                assert(len0 == 24 * cell && ixlen0 == 36 * cell);
                assert forall|i: int| 0 <= i < ps@.len() implies (#[trigger] ps@[i]).vals()
                    == vox_pos(
                    (i / 24) / gs,
                    (i / 24) % gs,
                    grid@[(i / 24) / gs]@[(i / 24) % gs] as int,
                    i % 24,
                ) by {
                    if i >= len0 {
                        let j = i - len0;
                        assert(i == 24 * cell + j);
                        assert((i / 24) == cell && i % 24 == j);
                        assert(ps@[len0 + j].vals() == vox_pos(
                            xi as int,
                            zi as int,
                            h as int,
                            j,
                        ));
                    }
                }
                assert forall|i: int| 0 <= i < ns@.len() implies (#[trigger] ns@[i]).vals()
                    == vox_nor(i % 24) by {
                    if i >= len0 {
                        let j = i - len0;
                        assert(i == 24 * cell + j);
                        assert(i % 24 == j);
                        assert(ns@[len0 + j].vals() == vox_nor(j));
                    }
                }
                assert forall|i: int| 0 <= i < us@.len() implies (#[trigger] us@[i]).vals()
                    == vox_uv((i / 24) / gs, (i / 24) % gs, i % 24) by {
                    if i >= len0 {
                        let j = i - len0;
                        assert(i == 24 * cell + j);
                        assert((i / 24) == cell && i % 24 == j);
                        assert(us@[len0 + j].vals() == vox_uv(xi as int, zi as int, j));
                    }
                }
                assert forall|i: int| 0 <= i < ix@.len() implies (#[trigger] ix@[i]) as int == 24 * (
                i / 36) + idx_off(i % 36) by {
                    if i >= ixlen0 {
                        let t = i - ixlen0;
                        assert(i == 36 * cell + t);
                        assert((i / 36) == cell && i % 36 == t);
                        assert(ix@[ixlen0 + t] as int == base + idx_off(t));
                    }
                }
            }
            zi = zi + 1;
        }
        xi = xi + 1;
        proof {
            assert(24 * (xi as int * gs) == 24 * ((xi - 1) * gs + gs) && 36 * (xi as int * gs) == 36
                * ((xi - 1) * gs + gs)) by (nonlinear_arith);
        }
    }
    proof {
        assert(ps@.len() == 24 * (gs * gs));
        assert forall|a: int, b: int, j: int|
            0 <= a < size && 0 <= b < size && 0 <= j < 24 implies {
            &&& (#[trigger] ps@[24 * (a * gs + b) + j]).vals() == vox_pos(
                a,
                b,
                grid@[a]@[b] as int,
                j,
            )
            &&& ns@[24 * (a * gs + b) + j].vals() == vox_nor(j)
            &&& us@[24 * (a * gs + b) + j].vals() == vox_uv(a, b, j)
        } by {
            let cell = a * gs + b;
            assert(0 <= cell && cell + 1 <= gs * gs && 24 * cell + 24 <= 24 * (gs * gs))
                by (nonlinear_arith)
                requires
                    0 <= a < gs,
                    0 <= b < gs,
                    cell == a * gs + b,
            ;
            vstd::arithmetic::div_mod::lemma_fundamental_div_mod_converse(cell, gs, a, b);
            vstd::arithmetic::div_mod::lemma_fundamental_div_mod_converse(
                24 * cell + j,
                24,
                cell,
                j,
            );
        }
        assert forall|a: int, b: int, j: int|
            0 <= a < size && 0 <= b < size && 0 <= j < 24 implies (#[trigger] ns@[24 * (a * gs + b)
            + j]).vals() == vox_nor(j) by {
            let cell = a * gs + b;
            assert(0 <= cell && 24 * cell + 24 <= 24 * (gs * gs)) by (nonlinear_arith)
                requires
                    0 <= a < gs,
                    0 <= b < gs,
                    cell == a * gs + b,
            ;
            vstd::arithmetic::div_mod::lemma_fundamental_div_mod_converse(cell, gs, a, b);
            vstd::arithmetic::div_mod::lemma_fundamental_div_mod_converse(
                24 * cell + j,
                24,
                cell,
                j,
            );
        }
        assert forall|a: int, b: int, j: int|
            0 <= a < size && 0 <= b < size && 0 <= j < 24 implies (#[trigger] us@[24 * (a * gs + b)
            + j]).vals() == vox_uv(a, b, j) by {
            let cell = a * gs + b;
            assert(0 <= cell && 24 * cell + 24 <= 24 * (gs * gs)) by (nonlinear_arith)
                requires
                    0 <= a < gs,
                    0 <= b < gs,
                    cell == a * gs + b,
            ;
            vstd::arithmetic::div_mod::lemma_fundamental_div_mod_converse(cell, gs, a, b);
            vstd::arithmetic::div_mod::lemma_fundamental_div_mod_converse(
                24 * cell + j,
                24,
                cell,
                j,
            );
        }
        assert forall|cell: int, t: int| 0 <= cell < size * size && 0 <= t < 36 implies (
        #[trigger] ix@[36 * cell + t]) as int == 24 * cell + idx_off(t) by {
            assert(0 <= 36 * cell + t && 36 * cell + 36 <= 36 * (gs * gs)) by (nonlinear_arith)
                requires
                    0 <= cell < gs * gs,
                    0 <= t < 36,
            ;
            vstd::arithmetic::div_mod::lemma_fundamental_div_mod_converse(
                36 * cell + t,
                36,
                cell,
                t,
            );
        }
        assert forall|i: int| 0 <= i < ix@.len() implies (#[trigger] ix@[i] as int)
            < ps@.len() by {
            assert(0 <= idx_off(i % 36) < 24);
            assert(0 <= i / 36 && 36 * (i / 36) <= i);
            assert(24 * (i / 36) + 24 <= 24 * (gs * gs)) by (nonlinear_arith)
                requires
                    0 <= i / 36,
                    36 * (i / 36) <= i,
                    i < 36 * (gs * gs),
            ;
        }
        assert(ix@.len() % 3 == 0) by (nonlinear_arith)
            requires
                ix@.len() == 36 * (gs * gs),
        ;
    }
    MeshData { positions: ps, normals: ns, uvs: us, indices: ix, pos_den: 2, nor_den: 1, uv_den: size as i128 }
}

} // verus!
