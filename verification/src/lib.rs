//! Streaming of procedurally generated terrain around a moving observer.
//!
//! The library decides, tick by tick, which fixed-size square regions of an
//! unbounded world are loaded for rendering and for collision, builds mesh
//! and collider data from quantized height grids, and provides a small
//! triangle-batch algebra (merge, affine transform, barycentric subdivision)
//! used to compose geometry. Heights are quantized to integers; fractional
//! vertex attributes carry an explicit denominator, so all geometry is exact.

pub mod collider;
pub mod geometry;
pub mod heightmap;
pub mod mesh;
pub mod region;

pub use collider::ColliderError;
pub use collider::HeightfieldDescriptor;
pub use collider::TrimeshDescriptor;
pub use collider::heightfield_collider;
pub use collider::trimesh_collider;
pub use geometry::Affine;
pub use geometry::Mat3;
pub use geometry::Triangle;
pub use geometry::V3;
pub use geometry::lemma_merge_associative;
pub use geometry::lemma_merge_empty_identity;
pub use geometry::lemma_patch_reconstructs_corners;
pub use geometry::lemma_subdivide_reconstructs_corners;
pub use geometry::merge;
pub use heightmap::MapGeneratorInfo;
pub use heightmap::NormalGenerator;
pub use heightmap::get_map_height;
pub use heightmap::height_map_by_region;
pub use heightmap::lemma_height_map_deterministic;
pub use heightmap::region_by_block;
pub use heightmap::region_origin;
pub use mesh::MeshData;
pub use mesh::create_cube_mesh;
pub use mesh::create_plain_mesh;
pub use region::Config;
pub use region::ConfigError;
pub use region::RegionCache;
pub use region::RegionRecord;
pub use region::RegionState;
pub use region::TickReport;
pub use region::in_region;
pub use region::lemma_ball_card;
pub use region::lemma_tick_idempotent;
