use simdnoise::NoiseBuilder;
use terrain_stream::ColliderError;
use terrain_stream::MapGeneratorInfo;
use terrain_stream::NormalGenerator;
use terrain_stream::Triangle;
use terrain_stream::V3;
use terrain_stream::create_plain_mesh;
use terrain_stream::get_map_height;
use terrain_stream::height_map_by_region;
use terrain_stream::heightfield_collider;
use terrain_stream::region_by_block;
use terrain_stream::region_origin;
use terrain_stream::trimesh_collider;

/// Quantized coherent-noise samples for one region window: an
/// `edge x edge` row-major run, each sample scaled and floored.
fn sample_window(region_x: i32, region_z: i32, edge: usize, seed: i32, freq: f32, scale: f32) -> Vec<i64> {
    let size = 16i32;
    let (raw, _, _) = NoiseBuilder::fbm_2d_offset(
        (region_z * size) as f32,
        edge,
        (region_x * size) as f32,
        edge,
    )
    .with_seed(seed)
    .with_freq(freq)
    .generate();
    raw.iter().map(|s| (s * scale).floor() as i64).collect()
}

#[test]
fn heightmap_generation_is_deterministic() {
    // The same seed, frequency and window give bit-identical grids, on
    // repeated sampling as well as repeated reshaping.
    let a = sample_window(3, -2, 16, 1, 0.01, 200.0);
    let b = sample_window(3, -2, 16, 1, 0.01, 200.0);
    assert_eq!(a, b);
    let g1 = height_map_by_region(&a, 16);
    let g2 = height_map_by_region(&b, 16);
    assert_eq!(g1, g2);
}

#[test]
fn height_map_reshapes_row_major() {
    let samples: Vec<i64> = (0..9).collect();
    let grid = height_map_by_region(&samples, 3);
    assert_eq!(grid.len(), 3);
    assert_eq!(grid[0], vec![0, 1, 2]);
    assert_eq!(grid[2], vec![6, 7, 8]);
    let gen = NormalGenerator;
    let grid2 = gen.generate_height_map(&samples, 3);
    assert_eq!(grid, grid2);
}

#[test]
fn height_map_zero_dimension_is_empty() {
    let samples: Vec<i64> = Vec::new();
    let grid = height_map_by_region(&samples, 0);
    assert_eq!(grid.len(), 0);
}

#[test]
fn seamless_grid_has_one_extra_edge() {
    let samples: Vec<i64> = (0..25).collect();
    let grid = get_map_height(&samples, 4);
    assert_eq!(grid.len(), 5);
    assert_eq!(grid[4], vec![20, 21, 22, 23, 24]);
}

#[test]
fn region_origin_scales_by_region_size() {
    assert_eq!(region_origin(3, 16), 48);
    assert_eq!(region_origin(-2, 16), -32);
    assert_eq!(region_origin(0, 7), 0);
}

#[test]
fn scenario_grid_surface_mesh() {
    // Region (0,0), seed 1, frequency 0.01, region size 16: a 17 x 17
    // heightmap yields 289 vertices and 1536 index entries, and every
    // vertex carries exactly its sample's height.
    let samples = sample_window(0, 0, 17, 1, 0.01, 200.0);
    assert_eq!(samples.len(), 289);
    let grid = get_map_height(&samples, 16);
    let mesh = create_plain_mesh(&grid, 16, 0, 0);
    assert_eq!(mesh.positions.len(), 289);
    assert_eq!(mesh.indices.len(), 1536);
    assert_eq!(mesh.pos_den, 1);
    for xi in 0..17usize {
        for zi in 0..17usize {
            let p = mesh.positions[xi * 17 + zi];
            assert_eq!(p.x, xi as i128);
            assert_eq!(p.y, grid[xi][zi] as i128);
            assert_eq!(p.z, zi as i128);
        }
    }
    // The first cell's two triangles walk the fixed diagonal.
    assert_eq!(&mesh.indices[0..6], &[0, 1, 17, 1, 18, 17]);
    // Flat upward normals.
    assert_eq!(mesh.normals[0], V3 { x: 0, y: 1, z: 0 });
}

#[test]
fn voxel_mesh_emits_one_cube_per_sample() {
    let samples: Vec<i64> = (0..9).map(|i| i % 3).collect();
    let grid = height_map_by_region(&samples, 3);
    let mesh = terrain_stream::create_cube_mesh(&grid, 3);
    assert_eq!(mesh.positions.len(), 24 * 9);
    assert_eq!(mesh.indices.len(), 36 * 9);
    assert_eq!(mesh.pos_den, 2);
    assert_eq!(mesh.uv_den, 3);
    // The second cube's index entries are offset by its base vertex.
    assert_eq!(mesh.indices[36], 24);
    // Cube at cell (0,1) with height 1: positions are numerators over
    // two around the cell center.
    let p = mesh.positions[24 * 1];
    assert_eq!(p.x, -1);
    assert_eq!(p.y, 2 * 1 + 1);
    assert_eq!(p.z, 2 * 1 - 1);
}

#[test]
fn region_by_block_builds_from_seamless_window() {
    let samples = sample_window(0, 0, 17, 1, 0.01, 200.0);
    let mesh = region_by_block(&samples, 16);
    assert_eq!(mesh.positions.len(), 24 * 256);
    assert_eq!(mesh.indices.len(), 36 * 256);
    let info = MapGeneratorInfo::new(String::from("all"));
    let mesh2 = info.region_generate(&samples, 16);
    assert_eq!(mesh2.positions.len(), 24 * 256);
    assert_eq!(info.name().as_str(), "all");
}

#[test]
fn heightfield_collider_flattens_grid() {
    let grid = vec![vec![1i64, 2, 3], vec![4, 5, 6]];
    let d = heightfield_collider(&grid, 16).unwrap();
    assert_eq!(d.row_count, 2);
    assert_eq!(d.col_count, 3);
    assert_eq!(d.heights, vec![1, 2, 3, 4, 5, 6]);
    assert_eq!((d.scale_x, d.scale_y, d.scale_z), (16, 1, 16));
}

#[test]
fn heightfield_collider_rejects_empty_grid() {
    let grid: Vec<Vec<i64>> = Vec::new();
    assert_eq!(heightfield_collider(&grid, 16).unwrap_err(), ColliderError::EmptyInput);
    let empty_rows = vec![Vec::<i64>::new(), Vec::<i64>::new()];
    assert_eq!(heightfield_collider(&empty_rows, 16).unwrap_err(), ColliderError::EmptyInput);
}

#[test]
fn heightfield_collider_rejects_ragged_grid() {
    let grid = vec![vec![1i64, 2], vec![3]];
    assert_eq!(heightfield_collider(&grid, 16).unwrap_err(), ColliderError::RaggedGrid);
}

#[test]
fn trimesh_collider_takes_batch_vertices() {
    let tri = Triangle::new(
        vec![
            V3 { x: 0, y: 0, z: 0 },
            V3 { x: 1, y: 0, z: 0 },
            V3 { x: 0, y: 0, z: 1 },
        ],
        vec![
            V3 { x: 0, y: 1, z: 0 },
            V3 { x: 0, y: 1, z: 0 },
            V3 { x: 0, y: 1, z: 0 },
        ],
        vec![
            V3 { x: 0, y: 0, z: 0 },
            V3 { x: 0, y: 0, z: 0 },
            V3 { x: 0, y: 0, z: 0 },
        ],
    );
    let d = trimesh_collider(&tri).unwrap();
    assert_eq!(d.vertices.len(), 3);
    assert_eq!(d.triangle_indices, vec![0u32, 1, 2]);
    assert_eq!(d.pos_den, 1);
}

#[test]
fn trimesh_collider_rejects_empty_batch() {
    let tri = Triangle::new(Vec::new(), Vec::new(), Vec::new());
    assert_eq!(trimesh_collider(&tri).unwrap_err(), ColliderError::EmptyInput);
}
