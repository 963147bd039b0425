use terrain_stream::Affine;
use terrain_stream::Mat3;
use terrain_stream::Triangle;
use terrain_stream::V3;
use terrain_stream::merge;

fn v(x: i128, y: i128, z: i128) -> V3 {
    V3 { x, y, z }
}

fn zero3() -> Vec<V3> {
    vec![v(0, 0, 0), v(0, 0, 0), v(0, 0, 0)]
}

#[test]
fn test_from() {
    Triangle::new(
        zero3(),
        vec![v(0, 1, 0), v(0, 1, 0), v(0, 1, 0)],
        vec![v(0, 1, 0), v(0, 1, 0), v(1, 0, 0)],
    );
}

#[test]
fn test_patch() {
    let tri = Triangle::new(
        zero3(),
        vec![v(0, 1, 0), v(0, 1, 0), v(0, 1, 0)],
        vec![v(0, 1, 0), v(0, 1, 0), v(1, 0, 0)],
    );
    let _tris = tri.patch(2);
}

#[test]
fn patch_two_quadruples_the_triangle() {
    let tri = Triangle::new(
        vec![v(0, 0, 0), v(2, 0, 0), v(0, 2, 0)],
        vec![v(0, 1, 0), v(0, 1, 0), v(0, 1, 0)],
        zero3(),
    );
    let tris = tri.patch(2);
    assert_eq!(tris.points.len(), 12);
    assert_eq!(tris.normal.len(), 12);
    assert_eq!(tris.uv.len(), 12);
}

#[test]
fn merge_is_concatenation() {
    let a = Triangle::new(vec![v(1, 2, 3), v(4, 5, 6), v(7, 8, 9)], zero3(), zero3());
    let b = Triangle::new(vec![v(10, 11, 12), v(13, 14, 15), v(16, 17, 18)], zero3(), zero3());
    let m = merge(&a, &b);
    assert_eq!(m.points.len(), 6);
    assert_eq!(m.points[0], v(1, 2, 3));
    assert_eq!(m.points[3], v(10, 11, 12));
    assert_eq!(m.normal.len(), 6);
    assert_eq!(m.uv.len(), 6);
    assert_eq!(m.pos_den, 1);
}

#[test]
fn merge_associativity_scenario() {
    let a = Triangle::new(vec![v(1, 0, 0), v(0, 1, 0), v(0, 0, 1)], zero3(), zero3());
    let b = Triangle::new(vec![v(2, 0, 0), v(0, 2, 0), v(0, 0, 2)], zero3(), zero3());
    let c = Triangle::new(vec![v(3, 0, 0), v(0, 3, 0), v(0, 0, 3)], zero3(), zero3());
    let left = merge(&merge(&a, &b), &c);
    let right = merge(&a, &merge(&b, &c));
    assert_eq!(left.points, right.points);
    assert_eq!(left.normal, right.normal);
    assert_eq!(left.uv, right.uv);
    assert_eq!(left.pos_den, right.pos_den);
    assert_eq!(left.nor_den, right.nor_den);
    assert_eq!(left.uv_den, right.uv_den);
}

#[test]
fn merge_empty_identity() {
    let a = Triangle::new(vec![v(1, 2, 3), v(4, 5, 6), v(7, 8, 9)], zero3(), zero3());
    let e = Triangle::empty(1, 1, 1);
    let left = merge(&e, &a);
    let right = merge(&a, &e);
    assert_eq!(left.points, a.points);
    assert_eq!(right.points, a.points);
}

#[test]
fn subdivision_counts_and_corners() {
    // One triangle with corners (0,0,0), (3,0,0), (0,3,0).
    let tri = Triangle::new(
        vec![v(0, 0, 0), v(3, 0, 0), v(0, 3, 0)],
        vec![v(0, 1, 0), v(0, 1, 0), v(0, 1, 0)],
        vec![v(0, 0, 0), v(1, 0, 0), v(0, 1, 0)],
    );
    let n: u32 = 3;
    let out = tri.patch(n);
    // Exactly n * n sub-triangles.
    assert_eq!(out.points.len() as u32, 3 * n * n);
    assert_eq!(out.pos_den, 3);
    // The three lattice corners reproduce the input corners: values are
    // numerator / denominator.
    let p0 = out.points[3 * (n as usize - 1)];
    assert_eq!((p0.x, p0.y, p0.z), (0, 0, 0));
    let p1 = out.points[3 * ((n * n) as usize - 1) + 1];
    assert_eq!((p1.x / out.pos_den, p1.y, p1.z), (3, 0, 0));
    let p2 = out.points[3 * (2 * n as usize - 2) + 2];
    assert_eq!((p2.x, p2.y / out.pos_den, p2.z), (0, 3, 0));
}

#[test]
fn patch_one_returns_input() {
    let tri = Triangle::new(
        vec![v(0, 0, 0), v(2, 0, 0), v(0, 2, 0)],
        vec![v(0, 1, 0), v(0, 1, 0), v(0, 1, 0)],
        zero3(),
    );
    let same = tri.patch(1);
    assert_eq!(same.points, tri.points);
    assert_eq!(same.normal, tri.normal);
    assert_eq!(same.uv, tri.uv);
    assert_eq!(same.pos_den, 1);
}

#[test]
fn transform_translates_positions_and_keeps_normals() {
    let tri = Triangle::new(
        vec![v(0, 0, 0), v(1, 0, 0), v(0, 0, 1)],
        vec![v(0, 1, 0), v(0, 1, 0), v(0, 1, 0)],
        zero3(),
    );
    let t = Affine::translation(5, 7, -2);
    let out = tri.apply_transform(&t);
    assert_eq!(out.points[0], v(5, 7, -2));
    assert_eq!(out.points[1], v(6, 7, -2));
    assert_eq!(out.points[2], v(5, 7, -1));
    // The identity rotation leaves normals untouched.
    assert_eq!(out.normal[0], v(0, 1, 0));
    assert_eq!(out.pos_den, 1);
    assert_eq!(out.nor_den, 1);
}

#[test]
fn transform_rotates_normals_without_scale() {
    // Quarter turn about Y, with a non-uniform scale: positions are
    // scaled, normals only rotated.
    let rot = Mat3 { rx: v(0, 0, 1), ry: v(0, 1, 0), rz: v(-1, 0, 0) };
    let t = Affine {
        rot,
        rot_den: 1,
        scale: v(2, 1, 1),
        scale_den: 1,
        trans: v(0, 0, 0),
        trans_den: 1,
    };
    let tri = Triangle::new(
        vec![v(1, 0, 0), v(0, 1, 0), v(0, 0, 1)],
        vec![v(1, 0, 0), v(1, 0, 0), v(1, 0, 0)],
        zero3(),
    );
    let out = tri.apply_transform(&t);
    // Position (1,0,0) scales to (2,0,0) and rotates to (0,0,-2).
    assert_eq!(out.points[0], v(0, 0, -2));
    // The +X normal rotates to -Z and is not stretched by the scale.
    assert_eq!(out.normal[0], v(0, 0, -1));
}

#[test]
fn scatter_instances_batch() {
    let tri = Triangle::new(
        vec![v(0, 0, 0), v(1, 0, 0), v(0, 0, 1)],
        vec![v(0, 1, 0), v(0, 1, 0), v(0, 1, 0)],
        zero3(),
    );
    let transforms = vec![
        Affine::translation(0, 0, 0),
        Affine::translation(10, 0, 0),
        Affine::translation(0, 0, 10),
    ];
    let out = tri.scatter(&transforms);
    assert_eq!(out.points.len(), 9);
    assert_eq!(out.points[0], v(0, 0, 0));
    assert_eq!(out.points[3], v(10, 0, 0));
    assert_eq!(out.points[6], v(0, 0, 10));
    // Scattering over no placements yields the empty batch.
    let no_transforms: Vec<Affine> = Vec::new();
    let none = tri.scatter(&no_transforms);
    assert_eq!(none.points.len(), 0);
}

#[test]
fn from_indexed_expands_and_pads() {
    let points = vec![v(0, 0, 0), v(1, 0, 0), v(0, 1, 0), v(1, 1, 0)];
    let normals = vec![v(0, 0, 1), v(0, 0, 1), v(0, 0, 1), v(0, 0, 1)];
    let uvs = vec![v(0, 0, 0), v(1, 0, 0), v(0, 1, 0), v(1, 1, 0)];
    let indices = vec![0usize, 1, 2, 2, 1, 9];
    let out = Triangle::from_indexed(&indices, &points, &normals, &uvs);
    assert_eq!(out.points.len(), 6);
    assert_eq!(out.points[0], v(0, 0, 0));
    assert_eq!(out.points[3], v(0, 1, 0));
    // An index past the vertex buffer yields the zero attribute.
    assert_eq!(out.points[5], v(0, 0, 0));
    assert_eq!(out.uv[1], v(1, 0, 0));
}

#[test]
fn build_counts_vertices_off_in_order() {
    let tri = Triangle::new(
        vec![v(0, 0, 0), v(1, 0, 0), v(0, 0, 1)],
        vec![v(0, 1, 0), v(0, 1, 0), v(0, 1, 0)],
        zero3(),
    );
    let mesh = tri.build();
    assert_eq!(mesh.positions.len(), 3);
    assert_eq!(mesh.indices, vec![0u32, 1, 2]);
}
