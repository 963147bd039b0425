//! Flat, non-indexed triangle batches and their algebra: merge, affine
//! transform, scatter, and barycentric subdivision.
//!
//! Every triangle stores its three vertices independently, so merging two
//! batches is plain array concatenation. Attribute values are exact
//! rationals: each channel keeps integer numerators and one positive
//! denominator for the whole channel.

use vstd::prelude::*;

verus! {

/// Numerators of one three-component vertex attribute.
#[derive(Clone, Copy, PartialEq, Eq, Structural, Debug)]
pub struct V3 {
    pub x: i128,
    pub y: i128,
    pub z: i128,
}

impl V3 {
    pub open spec fn spec_zero() -> V3 {
        V3 { x: 0, y: 0, z: 0 }
    }

    pub fn zero() -> (r: V3)
        ensures
            r == V3::spec_zero(),
    {
        V3 { x: 0, y: 0, z: 0 }
    }

    /// The attribute as a triple of unbounded integers.
    pub open spec fn vals(self) -> (int, int, int) {
        (self.x as int, self.y as int, self.z as int)
    }
}

/// The numerators of a whole channel as unbounded integer triples.
pub open spec fn v3_vals(s: Seq<V3>) -> Seq<(int, int, int)> {
    s.map_values(|v: V3| v.vals())
}

/// The mathematical content of a batch: three attribute channels with one
/// denominator each.
pub ghost struct TriView {
    pub points: Seq<V3>,
    pub normal: Seq<V3>,
    pub uv: Seq<V3>,
    pub pos_den: int,
    pub nor_den: int,
    pub uv_den: int,
}

impl TriView {
    /// The three channels run in parallel: equal lengths, a multiple of
    /// three, and positive denominators.
    pub open spec fn wf(self) -> bool {
        &&& self.points.len() == self.normal.len()
        &&& self.points.len() == self.uv.len()
        &&& self.points.len() % 3 == 0
        &&& self.pos_den >= 1
        &&& self.nor_den >= 1
        &&& self.uv_den >= 1
    }

    /// Both batches express their attributes over the same denominators.
    pub open spec fn same_dens(self, other: TriView) -> bool {
        &&& self.pos_den == other.pos_den
        &&& self.nor_den == other.nor_den
        &&& self.uv_den == other.uv_den
    }

    /// Number of triangles in the batch.
    pub open spec fn tri_count(self) -> int {
        self.points.len() as int / 3
    }
}

/// A batch of triangles: parallel position, normal and texture-coordinate
/// arrays whose length is a common multiple of three. The value of an
/// attribute entry is its numerator divided by the channel's denominator.
pub struct Triangle {
    pub points: Vec<V3>,
    pub normal: Vec<V3>,
    pub uv: Vec<V3>,
    pub pos_den: i128,
    pub nor_den: i128,
    pub uv_den: i128,
}

impl View for Triangle {
    type V = TriView;

    open spec fn view(&self) -> TriView {
        TriView {
            points: self.points@,
            normal: self.normal@,
            uv: self.uv@,
            pos_den: self.pos_den as int,
            nor_den: self.nor_den as int,
            uv_den: self.uv_den as int,
        }
    }
}

impl Triangle {
    /// A batch from its parts. The three arrays must already run in
    /// parallel; whole-unit attribute values carry denominator one.
    pub fn new(points: Vec<V3>, normal: Vec<V3>, uv: Vec<V3>) -> (r: Triangle)
        requires
            points@.len() == normal@.len(),
            points@.len() == uv@.len(),
            points@.len() % 3 == 0,
        ensures
            r@.wf(),
            r@.points == points@,
            r@.normal == normal@,
            r@.uv == uv@,
            r@.pos_den == 1,
            r@.nor_den == 1,
            r@.uv_den == 1,
    {
        Triangle { points, normal, uv, pos_den: 1, nor_den: 1, uv_den: 1 }
    }

    /// A batch from its parts with explicit channel denominators.
    pub fn with_dens(
        points: Vec<V3>,
        normal: Vec<V3>,
        uv: Vec<V3>,
        pos_den: i128,
        nor_den: i128,
        uv_den: i128,
    ) -> (r: Triangle)
        requires
            points@.len() == normal@.len(),
            points@.len() == uv@.len(),
            points@.len() % 3 == 0,
            pos_den >= 1,
            nor_den >= 1,
            uv_den >= 1,
        ensures
            r@.wf(),
            r@ == (TriView {
                points: points@,
                normal: normal@,
                uv: uv@,
                pos_den: pos_den as int,
                nor_den: nor_den as int,
                uv_den: uv_den as int,
            }),
    {
        Triangle { points, normal, uv, pos_den, nor_den, uv_den }
    }

    /// The empty batch over the given denominators.
    pub fn empty(pos_den: i128, nor_den: i128, uv_den: i128) -> (r: Triangle)
        requires
            pos_den >= 1,
            nor_den >= 1,
            uv_den >= 1,
        ensures
            r@.wf(),
            r@ == empty_view(pos_den as int, nor_den as int, uv_den as int),
    {
        let r = Triangle {
            points: Vec::new(),
            normal: Vec::new(),
            uv: Vec::new(),
            pos_den,
            nor_den,
            uv_den,
        };
        proof {
            assert(r@.points =~= empty_view(pos_den as int, nor_den as int, uv_den as int).points);
            assert(r@.normal =~= empty_view(pos_den as int, nor_den as int, uv_den as int).normal);
            assert(r@.uv =~= empty_view(pos_den as int, nor_den as int, uv_den as int).uv);
        }
        r
    }
}

/// The empty batch over the given denominators.
pub open spec fn empty_view(pos_den: int, nor_den: int, uv_den: int) -> TriView {
    TriView {
        points: Seq::empty(),
        normal: Seq::empty(),
        uv: Seq::empty(),
        pos_den,
        nor_den,
        uv_den,
    }
}

/// What merging means: channel-wise concatenation over shared denominators.
pub open spec fn merge_spec(a: TriView, b: TriView) -> TriView {
    TriView {
        points: a.points + b.points,
        normal: a.normal + b.normal,
        uv: a.uv + b.uv,
        pos_den: a.pos_den,
        nor_den: a.nor_den,
        uv_den: a.uv_den,
    }
}

/// Copies of `a` followed by `b`.
fn concat_v3(a: &Vec<V3>, b: &Vec<V3>) -> (r: Vec<V3>)
    ensures
        r@ == a@ + b@,
{
    let mut r: Vec<V3> = Vec::new();
    let mut i: usize = 0;
    while i < a.len()
        invariant
            i <= a@.len(),
            r@ == a@.take(i as int),
        decreases a@.len() - i,
    {
        r.push(a[i]);
        i = i + 1;
        proof {
            assert(r@ =~= a@.take(i as int));
        }
    }
    let mut j: usize = 0;
    while j < b.len()
        invariant
            j <= b@.len(),
            r@ == a@ + b@.take(j as int),
        decreases b@.len() - j,
    {
        r.push(b[j]);
        j = j + 1;
        proof {
            assert(r@ =~= a@ + b@.take(j as int));
        }
    }
    proof {
        assert(a@.take(a@.len() as int) =~= a@);
        assert(b@.take(b@.len() as int) =~= b@);
        assert(r@ =~= a@ + b@);
    }
    r
}

/// Concatenates two batches that share their denominators. The batches
/// stay untouched; the result holds copies.
pub fn merge(a: &Triangle, b: &Triangle) -> (r: Triangle)
    requires
        a@.wf(),
        b@.wf(),
        a@.same_dens(b@),
    ensures
        r@.wf(),
        r@ == merge_spec(a@, b@),
{
    let points = concat_v3(&a.points, &b.points);
    let normal = concat_v3(&a.normal, &b.normal);
    let uv = concat_v3(&a.uv, &b.uv);
    proof {
        assert((a@.points.len() + b@.points.len()) % 3 == 0);
    }
    Triangle {
        points,
        normal,
        uv,
        pos_den: a.pos_den,
        nor_den: a.nor_den,
        uv_den: a.uv_den,
    }
}

/// Numerator magnitude admitted by `patch`; keeps every intermediate
/// product inside `i128`.
pub const PATCH_BOUND: i128 = 0x1000_0000_0000_0000;

/// Largest admitted subdivision count.
pub const SUBDIV_MAX: u32 = 0x10_0000;

/// All three components lie within `[-b, b]`.
pub open spec fn v3_bounded(v: V3, b: int) -> bool {
    &&& -b <= v.x <= b
    &&& -b <= v.y <= b
    &&& -b <= v.z <= b
}

/// Every attribute of the channel lies within `[-b, b]`.
pub open spec fn seq_bounded(s: Seq<V3>, b: int) -> bool {
    forall|i: int| 0 <= i < s.len() ==> v3_bounded(#[trigger] s[i], b)
}

/// Every numerator and denominator of the batch lies within `[-b, b]`.
pub open spec fn tri_bounded(t: TriView, b: int) -> bool {
    &&& seq_bounded(t.points, b)
    &&& seq_bounded(t.normal, b)
    &&& seq_bounded(t.uv, b)
    &&& t.pos_den <= b
    &&& t.nor_den <= b
    &&& t.uv_den <= b
}

proof fn lemma_abs_mul(x: int, y: int, bx: int, by: int)
    by (nonlinear_arith)
    requires
        -bx <= x <= bx,
        0 <= y <= by,
        0 <= bx,
    ensures
        -(bx * by) <= x * y <= bx * by,
{
}

/// One cell of the barycentric lattice: its row and column in barycentric
/// steps, and whether it points against the parent triangle.
pub ghost struct Cell {
    pub row: int,
    pub col: int,
    pub up: bool,
}

/// The upward cells of row `r`, in column order.
pub open spec fn row_ups(n: int, r: int) -> Seq<Cell> {
    Seq::new(if n - r - 1 >= 0 { (n - r - 1) as nat } else { 0 },
        |i: int| Cell { row: r, col: i + 1, up: true })
}

/// The downward cells of row `r`, in column order.
pub open spec fn row_downs(n: int, r: int) -> Seq<Cell> {
    Seq::new(if n - r >= 0 { (n - r) as nat } else { 0 },
        |i: int| Cell { row: r, col: i, up: false })
}

/// All cells of row `r`: upward first, then downward, as they are emitted.
pub open spec fn row_cells(n: int, r: int) -> Seq<Cell> {
    row_ups(n, r) + row_downs(n, r)
}

/// The cells of the first `r` rows of an order-`n` lattice.
pub open spec fn cells_upto(n: int, r: int) -> Seq<Cell>
    decreases r,
{
    if r <= 0 {
        Seq::empty()
    } else {
        cells_upto(n, r - 1) + row_cells(n, r - 1)
    }
}

/// The whole order-`n` barycentric lattice, row by row.
pub open spec fn lattice_cells(n: int) -> Seq<Cell> {
    cells_upto(n, n)
}

/// The first `r` rows hold `2*n*r - r*r` cells.
pub proof fn lemma_cells_upto_len(n: int, r: int)
    requires
        0 <= r <= n,
    ensures
        cells_upto(n, r).len() == 2 * n * r - r * r,
    decreases r,
{
    if r == 0 {
        assert(2 * n * r - r * r == 0) by (nonlinear_arith)
            requires
                r == 0,
        ;
    } else {
        lemma_cells_upto_len(n, r - 1);
        assert(row_cells(n, r - 1).len() == 2 * (n - (r - 1)) - 1);
        assert(cells_upto(n, r).len() == 2 * n * (r - 1) - (r - 1) * (r - 1) + (2 * (n - (r - 1))
            - 1));
        assert(2 * n * (r - 1) - (r - 1) * (r - 1) + (2 * (n - (r - 1)) - 1) == 2 * n * r - r * r)
            by (nonlinear_arith);
    }
}

/// The lattice of order `n` holds exactly `n * n` cells.
pub proof fn lemma_lattice_cells_len(n: int)
    requires
        0 <= n,
    ensures
        lattice_cells(n).len() == n * n,
{
    lemma_cells_upto_len(n, n);
    assert(2 * n * n - n * n == n * n) by (nonlinear_arith);
}

/// Rows already placed stay where they are when later rows are appended.
pub proof fn lemma_cells_upto_prefix(n: int, r1: int, r2: int, i: int)
    requires
        0 <= r1 <= r2,
        0 <= i < cells_upto(n, r1).len(),
    ensures
        i < cells_upto(n, r2).len(),
        cells_upto(n, r2)[i] == cells_upto(n, r1)[i],
    decreases r2 - r1,
{
    if r1 < r2 {
        lemma_cells_upto_prefix(n, r1, r2 - 1, i);
    }
}

/// The numerator of one barycentric interpolation step: corner `a0` plus
/// `r` steps toward `a1` and `c` steps toward `a2`, all over denominator
/// `n` times the channel's.
pub open spec fn bary_num(a0: int, a1: int, a2: int, n: int, r: int, c: int) -> int {
    a0 * n + r * (a1 - a0) + c * (a2 - a0)
}

/// The interpolated vertex numerators at lattice position `(r, c)`.
pub open spec fn sub_vertex(p0: V3, p1: V3, p2: V3, n: int, r: int, c: int) -> (int, int, int) {
    (
        bary_num(p0.x as int, p1.x as int, p2.x as int, n, r, c),
        bary_num(p0.y as int, p1.y as int, p2.y as int, n, r, c),
        bary_num(p0.z as int, p1.z as int, p2.z as int, n, r, c),
    )
}

/// The three vertices a cell contributes, in emission order.
pub open spec fn cell_verts(p0: V3, p1: V3, p2: V3, n: int, cell: Cell) -> Seq<(int, int, int)> {
    if cell.up {
        seq![
            sub_vertex(p0, p1, p2, n, cell.row, cell.col),
            sub_vertex(p0, p1, p2, n, cell.row + 1, cell.col - 1),
            sub_vertex(p0, p1, p2, n, cell.row + 1, cell.col),
        ]
    } else {
        seq![
            sub_vertex(p0, p1, p2, n, cell.row, cell.col),
            sub_vertex(p0, p1, p2, n, cell.row + 1, cell.col),
            sub_vertex(p0, p1, p2, n, cell.row, cell.col + 1),
        ]
    }
}

/// The vertices of one attribute channel over a run of cells.
pub open spec fn sub_channel(p0: V3, p1: V3, p2: V3, n: int, cells: Seq<Cell>) -> Seq<
    (int, int, int),
>
    decreases cells.len(),
{
    if cells.len() == 0 {
        Seq::empty()
    } else {
        sub_channel(p0, p1, p2, n, cells.drop_last()) + cell_verts(p0, p1, p2, n, cells.last())
    }
}

/// Each cell contributes exactly three vertices.
pub proof fn lemma_sub_channel_len(p0: V3, p1: V3, p2: V3, n: int, cells: Seq<Cell>)
    ensures
        sub_channel(p0, p1, p2, n, cells).len() == 3 * cells.len(),
    decreases cells.len(),
{
    if cells.len() > 0 {
        lemma_sub_channel_len(p0, p1, p2, n, cells.drop_last());
    }
}

/// Appending one cell appends exactly its three vertices.
pub proof fn lemma_sub_channel_push(p0: V3, p1: V3, p2: V3, n: int, cells: Seq<Cell>, cell: Cell)
    ensures
        sub_channel(p0, p1, p2, n, cells.push(cell)) == sub_channel(p0, p1, p2, n, cells)
            + cell_verts(p0, p1, p2, n, cell),
{
    assert(cells.push(cell).drop_last() =~= cells);
    assert(cells.push(cell).last() == cell);
}

/// The vertices of cell `i` stand at flat indices `3i`, `3i + 1`, `3i + 2`.
pub proof fn lemma_sub_channel_index(p0: V3, p1: V3, p2: V3, n: int, cells: Seq<Cell>, i: int)
    requires
        0 <= i < cells.len(),
    ensures
        sub_channel(p0, p1, p2, n, cells).len() == 3 * cells.len(),
        sub_channel(p0, p1, p2, n, cells)[3 * i] == cell_verts(p0, p1, p2, n, cells[i])[0],
        sub_channel(p0, p1, p2, n, cells)[3 * i + 1] == cell_verts(p0, p1, p2, n, cells[i])[1],
        sub_channel(p0, p1, p2, n, cells)[3 * i + 2] == cell_verts(p0, p1, p2, n, cells[i])[2],
    decreases cells.len(),
{
    lemma_sub_channel_len(p0, p1, p2, n, cells);
    if i == cells.len() - 1 {
        lemma_sub_channel_len(p0, p1, p2, n, cells.drop_last());
    } else {
        lemma_sub_channel_index(p0, p1, p2, n, cells.drop_last(), i);
    }
}

/// Exact equality of two rational values given as numerator and positive
/// denominator.
pub open spec fn frac_eq(a: int, da: int, b: int, db: int) -> bool {
    a * db == b * da
}

/// Component-wise `frac_eq` of an interpolated vertex against a corner.
pub open spec fn frac_eq3(v: (int, int, int), dv: int, w: V3, dw: int) -> bool {
    &&& frac_eq(v.0, dv, w.x as int, dw)
    &&& frac_eq(v.1, dv, w.y as int, dw)
    &&& frac_eq(v.2, dv, w.z as int, dw)
}

/// The vertices of the first `k` triangles of a channel, each subdivided
/// over the order-`n` lattice.
pub open spec fn patched_upto(ch: Seq<V3>, n: int, k: int) -> Seq<(int, int, int)>
    decreases k,
{
    if k <= 0 {
        Seq::empty()
    } else {
        patched_upto(ch, n, k - 1) + sub_channel(
            ch[3 * (k - 1)],
            ch[3 * (k - 1) + 1],
            ch[3 * (k - 1) + 2],
            n,
            lattice_cells(n),
        )
    }
}

/// A whole channel after subdivision of each of its triangles.
pub open spec fn patched_channel(ch: Seq<V3>, n: int) -> Seq<(int, int, int)> {
    patched_upto(ch, n, ch.len() as int / 3)
}

/// Each subdivided triangle contributes `3 * n * n` vertices.
pub proof fn lemma_patched_upto_len(ch: Seq<V3>, n: int, k: int)
    requires
        1 <= n,
        0 <= k,
    ensures
        patched_upto(ch, n, k).len() == k * (3 * (n * n)),
    decreases k,
{
    if k == 0 {
        assert(k * (3 * (n * n)) == 0) by (nonlinear_arith)
            requires
                k == 0,
        ;
    } else {
        lemma_patched_upto_len(ch, n, k - 1);
        lemma_lattice_cells_len(n);
        lemma_sub_channel_len(
            ch[3 * (k - 1)],
            ch[3 * (k - 1) + 1],
            ch[3 * (k - 1) + 2],
            n,
            lattice_cells(n),
        );
        assert((k - 1) * (3 * (n * n)) + 3 * (n * n) == k * (3 * (n * n))) by (nonlinear_arith);
    }
}

/// Mapping to value triples distributes over concatenation.
pub proof fn lemma_v3_vals_add(a: Seq<V3>, b: Seq<V3>)
    ensures
        v3_vals(a + b) == v3_vals(a) + v3_vals(b),
{
    assert(v3_vals(a + b) =~= v3_vals(a) + v3_vals(b));
}

fn bary_vertex(c0: V3, c1: V3, c2: V3, n: u32, r: u32, c: u32) -> (v: V3)
    requires
        v3_bounded(c0, PATCH_BOUND as int),
        v3_bounded(c1, PATCH_BOUND as int),
        v3_bounded(c2, PATCH_BOUND as int),
        1 <= n <= SUBDIV_MAX,
        r <= n,
        c <= n,
    ensures
        v.vals() == sub_vertex(c0, c1, c2, n as int, r as int, c as int),
{
    proof {
        lemma_abs_mul(c0.x as int, n as int, PATCH_BOUND as int, SUBDIV_MAX as int);
        lemma_abs_mul(c0.y as int, n as int, PATCH_BOUND as int, SUBDIV_MAX as int);
        lemma_abs_mul(c0.z as int, n as int, PATCH_BOUND as int, SUBDIV_MAX as int);
        lemma_abs_mul(c1.x - c0.x, r as int, 2 * PATCH_BOUND as int, SUBDIV_MAX as int);
        lemma_abs_mul(c1.y - c0.y, r as int, 2 * PATCH_BOUND as int, SUBDIV_MAX as int);
        lemma_abs_mul(c1.z - c0.z, r as int, 2 * PATCH_BOUND as int, SUBDIV_MAX as int);
        lemma_abs_mul(c2.x - c0.x, c as int, 2 * PATCH_BOUND as int, SUBDIV_MAX as int);
        lemma_abs_mul(c2.y - c0.y, c as int, 2 * PATCH_BOUND as int, SUBDIV_MAX as int);
        lemma_abs_mul(c2.z - c0.z, c as int, 2 * PATCH_BOUND as int, SUBDIV_MAX as int);
    }
    let x: i128 = c0.x * (n as i128) + (c1.x - c0.x) * (r as i128) + (c2.x - c0.x) * (c as i128);
    let y: i128 = c0.y * (n as i128) + (c1.y - c0.y) * (r as i128) + (c2.y - c0.y) * (c as i128);
    let z: i128 = c0.z * (n as i128) + (c1.z - c0.z) * (r as i128) + (c2.z - c0.z) * (c as i128);
    proof {
        assert(x as int == bary_num(c0.x as int, c1.x as int, c2.x as int, n as int, r as int,
            c as int)) by (nonlinear_arith)
            requires
                x == c0.x * (n as i128) + (c1.x - c0.x) * (r as i128) + (c2.x - c0.x) * (
                c as i128),
        ;
        assert(y as int == bary_num(c0.y as int, c1.y as int, c2.y as int, n as int, r as int,
            c as int)) by (nonlinear_arith)
            requires
                y == c0.y * (n as i128) + (c1.y - c0.y) * (r as i128) + (c2.y - c0.y) * (
                c as i128),
        ;
        assert(z as int == bary_num(c0.z as int, c1.z as int, c2.z as int, n as int, r as int,
            c as int)) by (nonlinear_arith)
            requires
                z == c0.z * (n as i128) + (c1.z - c0.z) * (r as i128) + (c2.z - c0.z) * (
                c as i128),
        ;
    }
    V3 { x, y, z }
}

/// One attribute channel of one triangle, subdivided over the order-`n`
/// lattice, in lattice emission order.
#[verifier::loop_isolation(false)]
fn subdivide_channel(c0: V3, c1: V3, c2: V3, n: u32) -> (out: Vec<V3>)
    requires
        v3_bounded(c0, PATCH_BOUND as int),
        v3_bounded(c1, PATCH_BOUND as int),
        v3_bounded(c2, PATCH_BOUND as int),
        1 <= n <= SUBDIV_MAX,
    ensures
        v3_vals(out@) == sub_channel(c0, c1, c2, n as int, lattice_cells(n as int)),
{
    let ghost gn = n as int;
    let mut out: Vec<V3> = Vec::new();
    proof {
        assert(v3_vals(out@) =~= sub_channel(c0, c1, c2, gn, cells_upto(gn, 0)));
    }
    let mut row: u32 = 0;
    while row < n
        invariant
            row <= n,
            v3_vals(out@) == sub_channel(c0, c1, c2, gn, cells_upto(gn, row as int)),
        decreases n - row,
    {
        let ghost base = cells_upto(gn, row as int);
        let mut col: u32 = 1;
        while col < n - row
            invariant
                1 <= col <= n - row,
                v3_vals(out@) == sub_channel(
                    c0,
                    c1,
                    c2,
                    gn,
                    base + row_ups(gn, row as int).take(col - 1),
                ),
            decreases n - row - col,
        {
            let ghost cell = Cell { row: row as int, col: col as int, up: true };
            let v0 = bary_vertex(c0, c1, c2, n, row, col);
            let v1 = bary_vertex(c0, c1, c2, n, row + 1, col - 1);
            let v2 = bary_vertex(c0, c1, c2, n, row + 1, col);
            out.push(v0);
            out.push(v1);
            out.push(v2);
            proof {
                let prev = base + row_ups(gn, row as int).take(col - 1);
                lemma_sub_channel_push(c0, c1, c2, gn, prev, cell);
                assert(prev.push(cell) =~= base + row_ups(gn, row as int).take(col as int));
                assert(v3_vals(out@) =~= sub_channel(c0, c1, c2, gn, prev) + cell_verts(
                    c0,
                    c1,
                    c2,
                    gn,
                    cell,
                ));
            }
            col = col + 1;
        }
        proof {
            assert(row_ups(gn, row as int).take(col - 1) =~= row_ups(gn, row as int));
        }
        let ghost base2 = base + row_ups(gn, row as int);
        let mut col2: u32 = 0;
        while col2 < n - row
            invariant
                col2 <= n - row,
                v3_vals(out@) == sub_channel(
                    c0,
                    c1,
                    c2,
                    gn,
                    base2 + row_downs(gn, row as int).take(col2 as int),
                ),
            decreases n - row - col2,
        {
            let ghost cell = Cell { row: row as int, col: col2 as int, up: false };
            let v0 = bary_vertex(c0, c1, c2, n, row, col2);
            let v1 = bary_vertex(c0, c1, c2, n, row + 1, col2);
            let v2 = bary_vertex(c0, c1, c2, n, row, col2 + 1);
            out.push(v0);
            out.push(v1);
            out.push(v2);
            proof {
                let prev = base2 + row_downs(gn, row as int).take(col2 as int);
                lemma_sub_channel_push(c0, c1, c2, gn, prev, cell);
                assert(prev.push(cell) =~= base2 + row_downs(gn, row as int).take(col2 + 1));
                assert(v3_vals(out@) =~= sub_channel(c0, c1, c2, gn, prev) + cell_verts(
                    c0,
                    c1,
                    c2,
                    gn,
                    cell,
                ));
            }
            col2 = col2 + 1;
        }
        proof {
            assert(base2 + row_downs(gn, row as int).take(col2 as int) =~= cells_upto(
                gn,
                row as int + 1,
            ));
        }
        row = row + 1;
    }
    out
}

/// A copy of the channel.
fn copy_v3(a: &Vec<V3>) -> (r: Vec<V3>)
    ensures
        r@ == a@,
{
    let mut r: Vec<V3> = Vec::new();
    let mut i: usize = 0;
    while i < a.len()
        invariant
            i <= a@.len(),
            r@ == a@.take(i as int),
        decreases a@.len() - i,
    {
        r.push(a[i]);
        i = i + 1;
        proof {
            assert(r@ =~= a@.take(i as int));
        }
    }
    proof {
        assert(a@.take(a@.len() as int) =~= a@);
    }
    r
}

/// Appends a copy of `more` to `acc`.
fn append_v3(acc: &mut Vec<V3>, more: &Vec<V3>)
    ensures
        final(acc)@ == old(acc)@ + more@,
{
    let mut i: usize = 0;
    while i < more.len()
        invariant
            i <= more@.len(),
            acc@ == old(acc)@ + more@.take(i as int),
        decreases more@.len() - i,
    {
        acc.push(more[i]);
        i = i + 1;
        proof {
            assert(acc@ =~= old(acc)@ + more@.take(i as int));
        }
    }
    proof {
        assert(old(acc)@ + more@.take(more@.len() as int) =~= old(acc)@ + more@);
    }
}

impl Triangle {
    /// Barycentric refinement of every triangle of the batch into
    /// `subdivisions * subdivisions` smaller similar triangles; every
    /// attribute channel is interpolated with the same barycentric
    /// offsets. A subdivision count of one or zero returns the batch
    /// unchanged.
    #[verifier::loop_isolation(false)]
    pub fn patch(&self, subdivisions: u32) -> (r: Triangle)
        requires
            self@.wf(),
            tri_bounded(self@, PATCH_BOUND as int),
            subdivisions <= SUBDIV_MAX,
        ensures
            r@.wf(),
            subdivisions <= 1 ==> r@ == self@,
            subdivisions >= 2 ==> {
                &&& r@.tri_count() == (subdivisions * subdivisions) * self@.tri_count()
                &&& v3_vals(r@.points) == patched_channel(self@.points, subdivisions as int)
                &&& v3_vals(r@.normal) == patched_channel(self@.normal, subdivisions as int)
                &&& v3_vals(r@.uv) == patched_channel(self@.uv, subdivisions as int)
                &&& r@.pos_den == self@.pos_den * subdivisions
                &&& r@.nor_den == self@.nor_den * subdivisions
                &&& r@.uv_den == self@.uv_den * subdivisions
            },
    {
        if subdivisions <= 1 {
            return Triangle {
                points: copy_v3(&self.points),
                normal: copy_v3(&self.normal),
                uv: copy_v3(&self.uv),
                pos_den: self.pos_den,
                nor_den: self.nor_den,
                uv_den: self.uv_den,
            };
        }
        let n = subdivisions;
        let ghost gn = n as int;
        let count: usize = self.points.len() / 3;
        proof {
            assert(3 * (count as int) == self@.points.len());
        }
        let mut points: Vec<V3> = Vec::new();
        let mut normal: Vec<V3> = Vec::new();
        let mut uv: Vec<V3> = Vec::new();
        proof {
            assert(v3_vals(points@) =~= patched_upto(self@.points, gn, 0));
            assert(v3_vals(normal@) =~= patched_upto(self@.normal, gn, 0));
            assert(v3_vals(uv@) =~= patched_upto(self@.uv, gn, 0));
        }
        let mut t: usize = 0;
        while t < count
            invariant
                t <= count,
                v3_vals(points@) == patched_upto(self@.points, gn, t as int),
                v3_vals(normal@) == patched_upto(self@.normal, gn, t as int),
                v3_vals(uv@) == patched_upto(self@.uv, gn, t as int),
                points@.len() == normal@.len(),
                points@.len() == uv@.len(),
                points@.len() % 3 == 0,
            decreases count - t,
        {
            let p = subdivide_channel(
                self.points[3 * t],
                self.points[3 * t + 1],
                self.points[3 * t + 2],
                n,
            );
            let m = subdivide_channel(
                self.normal[3 * t],
                self.normal[3 * t + 1],
                self.normal[3 * t + 2],
                n,
            );
            let u = subdivide_channel(self.uv[3 * t], self.uv[3 * t + 1], self.uv[3 * t + 2], n);
            let ghost prev_points = points@;
            let ghost prev_normal = normal@;
            let ghost prev_uv = uv@;
            append_v3(&mut points, &p);
            append_v3(&mut normal, &m);
            append_v3(&mut uv, &u);
            t = t + 1;
            proof {
                lemma_v3_vals_add(prev_points, p@);
                lemma_v3_vals_add(prev_normal, m@);
                lemma_v3_vals_add(prev_uv, u@);
                assert(v3_vals(points@) =~= patched_upto(self@.points, gn, t as int));
                assert(v3_vals(normal@) =~= patched_upto(self@.normal, gn, t as int));
                assert(v3_vals(uv@) =~= patched_upto(self@.uv, gn, t as int));
                lemma_lattice_cells_len(gn);
                lemma_sub_channel_len(
                    self@.points[3 * (t - 1)],
                    self@.points[3 * (t - 1) + 1],
                    self@.points[3 * (t - 1) + 2],
                    gn,
                    lattice_cells(gn),
                );
                lemma_sub_channel_len(
                    self@.normal[3 * (t - 1)],
                    self@.normal[3 * (t - 1) + 1],
                    self@.normal[3 * (t - 1) + 2],
                    gn,
                    lattice_cells(gn),
                );
                lemma_sub_channel_len(
                    self@.uv[3 * (t - 1)],
                    self@.uv[3 * (t - 1) + 1],
                    self@.uv[3 * (t - 1) + 2],
                    gn,
                    lattice_cells(gn),
                );
                assert(p@.len() == 3 * (gn * gn));
                assert(m@.len() == 3 * (gn * gn));
                assert(u@.len() == 3 * (gn * gn));
                assert(points@.len() % 3 == 0);
            }
        }
        proof {
            assert(patched_upto(self@.points, gn, count as int) == patched_channel(
                self@.points,
                gn,
            ));
            lemma_patched_upto_len(self@.points, gn, count as int);
            assert(count * (3 * (gn * gn)) == ((gn * gn) * (count as int)) * 3 + 0)
                by (nonlinear_arith);
            vstd::arithmetic::div_mod::lemma_fundamental_div_mod_converse(
                count * (3 * (gn * gn)),
                3,
                (gn * gn) * (count as int),
                0,
            );
            assert((gn * gn) * (count as int) == (gn * gn) * self@.tri_count()) by (nonlinear_arith)
                requires
                    count as int == self@.tri_count(),
            ;
            lemma_abs_mul(self@.pos_den, gn, PATCH_BOUND as int, SUBDIV_MAX as int);
            lemma_abs_mul(self@.nor_den, gn, PATCH_BOUND as int, SUBDIV_MAX as int);
            lemma_abs_mul(self@.uv_den, gn, PATCH_BOUND as int, SUBDIV_MAX as int);
            assert(self@.pos_den * gn >= 1 && self@.nor_den * gn >= 1 && self@.uv_den * gn >= 1)
                by (nonlinear_arith)
                requires
                    self@.pos_den >= 1,
                    self@.nor_den >= 1,
                    self@.uv_den >= 1,
                    gn >= 1,
            ;
        }
        Triangle {
            points,
            normal,
            uv,
            pos_den: self.pos_den * (n as i128),
            nor_den: self.nor_den * (n as i128),
            uv_den: self.uv_den * (n as i128),
        }
    }
}

/// Numerator magnitude admitted by `apply_transform` and `scatter`.
pub const GEOM_BOUND: i128 = 0x4000_0000;

proof fn lemma_abs_mul2(x: int, y: int, bx: int, by: int)
    by (nonlinear_arith)
    requires
        -bx <= x <= bx,
        -by <= y <= by,
        0 <= bx,
        0 <= by,
    ensures
        -(bx * by) <= x * y <= bx * by,
{
}

/// The rows of a three-by-three matrix of numerators.
#[derive(Clone, Copy, PartialEq, Eq, Structural, Debug)]
pub struct Mat3 {
    pub rx: V3,
    pub ry: V3,
    pub rz: V3,
}

/// An affine map given by exact rational components: a linear (rotation)
/// part, a component-wise scale, and a translation, each with its own
/// denominator. Positions go through all three; normals through the
/// rotation part alone, since scaling a normal with a non-uniform scale
/// would bend it off the surface.
#[derive(Clone, Copy, PartialEq, Eq, Structural, Debug)]
pub struct Affine {
    pub rot: Mat3,
    pub rot_den: i128,
    pub scale: V3,
    pub scale_den: i128,
    pub trans: V3,
    pub trans_den: i128,
}

impl Affine {
    pub open spec fn wf(self) -> bool {
        &&& self.rot_den >= 1
        &&& self.scale_den >= 1
        &&& self.trans_den >= 1
    }

    /// All numerators and denominators lie within `[-b, b]`.
    pub open spec fn bounded(self, b: int) -> bool {
        &&& v3_bounded(self.rot.rx, b)
        &&& v3_bounded(self.rot.ry, b)
        &&& v3_bounded(self.rot.rz, b)
        &&& v3_bounded(self.scale, b)
        &&& v3_bounded(self.trans, b)
        &&& self.rot_den <= b
        &&& self.scale_den <= b
        &&& self.trans_den <= b
    }

    /// Both maps express their components over the same denominators.
    pub open spec fn same_dens(self, other: Affine) -> bool {
        &&& self.rot_den == other.rot_den
        &&& self.scale_den == other.scale_den
        &&& self.trans_den == other.trans_den
    }

    /// The identity map.
    pub fn identity() -> (r: Affine)
        ensures
            r.wf(),
            r.bounded(GEOM_BOUND as int),
            r == Affine::spec_identity(),
    {
        Affine {
            rot: Mat3 {
                rx: V3 { x: 1, y: 0, z: 0 },
                ry: V3 { x: 0, y: 1, z: 0 },
                rz: V3 { x: 0, y: 0, z: 1 },
            },
            rot_den: 1,
            scale: V3 { x: 1, y: 1, z: 1 },
            scale_den: 1,
            trans: V3 { x: 0, y: 0, z: 0 },
            trans_den: 1,
        }
    }

    pub open spec fn spec_identity() -> Affine {
        Affine {
            rot: Mat3 {
                rx: V3 { x: 1, y: 0, z: 0 },
                ry: V3 { x: 0, y: 1, z: 0 },
                rz: V3 { x: 0, y: 0, z: 1 },
            },
            rot_den: 1,
            scale: V3 { x: 1, y: 1, z: 1 },
            scale_den: 1,
            trans: V3 { x: 0, y: 0, z: 0 },
            trans_den: 1,
        }
    }

    /// A pure translation by `(x, y, z)` whole units.
    pub fn translation(x: i128, y: i128, z: i128) -> (r: Affine)
        requires
            -GEOM_BOUND <= x <= GEOM_BOUND,
            -GEOM_BOUND <= y <= GEOM_BOUND,
            -GEOM_BOUND <= z <= GEOM_BOUND,
        ensures
            r.wf(),
            r.bounded(GEOM_BOUND as int),
            r.rot == Affine::spec_identity().rot,
            r.rot_den == 1,
            r.scale == Affine::spec_identity().scale,
            r.scale_den == 1,
            r.trans == (V3 { x, y, z }),
            r.trans_den == 1,
    {
        let mut a = Affine::identity();
        a.trans = V3 { x, y, z };
        a
    }
}

/// The dot product of a matrix row with a component-wise scaled vertex.
pub open spec fn dot_ssp(r: V3, s: V3, p: V3) -> int {
    (r.x as int) * (s.x as int) * (p.x as int) + (r.y as int) * (s.y as int) * (p.y as int) + (
    r.z as int) * (s.z as int) * (p.z as int)
}

/// The dot product of a matrix row with a vertex.
pub open spec fn dot_n(r: V3, v: V3) -> int {
    (r.x as int) * (v.x as int) + (r.y as int) * (v.y as int) + (r.z as int) * (v.z as int)
}

/// Position numerators after the affine map, over denominator
/// `rot_den * scale_den * pd * trans_den`.
pub open spec fn xform_pos_vertex(af: Affine, pd: int, p: V3) -> (int, int, int) {
    (
        dot_ssp(af.rot.rx, af.scale, p) * af.trans_den + (af.trans.x as int) * ((af.rot_den as int)
            * (af.scale_den as int) * pd),
        dot_ssp(af.rot.ry, af.scale, p) * af.trans_den + (af.trans.y as int) * ((af.rot_den as int)
            * (af.scale_den as int) * pd),
        dot_ssp(af.rot.rz, af.scale, p) * af.trans_den + (af.trans.z as int) * ((af.rot_den as int)
            * (af.scale_den as int) * pd),
    )
}

/// Normal numerators after the rotation part, over denominator
/// `rot_den * nd`.
pub open spec fn xform_nor_vertex(af: Affine, v: V3) -> (int, int, int) {
    (dot_n(af.rot.rx, v), dot_n(af.rot.ry, v), dot_n(af.rot.rz, v))
}

/// One position coordinate of the affine image.
fn pos_coord(r: V3, s: V3, p: V3, td: i128, t: i128, base: i128) -> (num: i128)
    requires
        v3_bounded(r, GEOM_BOUND as int),
        v3_bounded(s, GEOM_BOUND as int),
        v3_bounded(p, GEOM_BOUND as int),
        1 <= td <= GEOM_BOUND,
        -GEOM_BOUND <= t <= GEOM_BOUND,
        0 <= base <= GEOM_BOUND as int * GEOM_BOUND as int * GEOM_BOUND as int,
    ensures
        num as int == dot_ssp(r, s, p) * td + (t as int) * (base as int),
{
    let ghost gb = GEOM_BOUND as int;
    proof {
        lemma_abs_mul2(r.x as int, s.x as int, gb, gb);
        lemma_abs_mul2(r.x as int * s.x as int, p.x as int, gb * gb, gb);
        lemma_abs_mul2(r.y as int, s.y as int, gb, gb);
        lemma_abs_mul2(r.y as int * s.y as int, p.y as int, gb * gb, gb);
        lemma_abs_mul2(r.z as int, s.z as int, gb, gb);
        lemma_abs_mul2(r.z as int * s.z as int, p.z as int, gb * gb, gb);
    }
    let dot: i128 = r.x * s.x * p.x + r.y * s.y * p.y + r.z * s.z * p.z;
    proof {
        lemma_abs_mul2(dot as int, td as int, 3 * (gb * gb * gb), gb);
        lemma_abs_mul2(t as int, base as int, gb, gb * gb * gb);
    }
    dot * td + t * base
}

/// One normal coordinate of the rotated image.
fn nor_coord(r: V3, v: V3) -> (num: i128)
    requires
        v3_bounded(r, GEOM_BOUND as int),
        v3_bounded(v, GEOM_BOUND as int),
    ensures
        num as int == dot_n(r, v),
{
    let ghost gb = GEOM_BOUND as int;
    proof {
        lemma_abs_mul2(r.x as int, v.x as int, gb, gb);
        lemma_abs_mul2(r.y as int, v.y as int, gb, gb);
        lemma_abs_mul2(r.z as int, v.z as int, gb, gb);
    }
    r.x * v.x + r.y * v.y + r.z * v.z
}

impl Triangle {
    /// Maps every position through the affine map and every normal
    /// through its rotation part alone; texture coordinates are left
    /// untouched.
    #[verifier::loop_isolation(false)]
    pub fn apply_transform(&self, af: &Affine) -> (r: Triangle)
        requires
            self@.wf(),
            af.wf(),
            tri_bounded(self@, GEOM_BOUND as int),
            af.bounded(GEOM_BOUND as int),
        ensures
            r@.wf(),
            r@.points.len() == self@.points.len(),
            r@.normal.len() == self@.normal.len(),
            r@.uv == self@.uv,
            forall|i: int|
                0 <= i < self@.points.len() ==> (#[trigger] r@.points[i]).vals()
                    == xform_pos_vertex(*af, self@.pos_den, self@.points[i]),
            forall|i: int|
                0 <= i < self@.normal.len() ==> (#[trigger] r@.normal[i]).vals()
                    == xform_nor_vertex(*af, self@.normal[i]),
            r@.pos_den == (af.rot_den as int) * (af.scale_den as int) * self@.pos_den * (
            af.trans_den as int),
            r@.nor_den == (af.rot_den as int) * self@.nor_den,
            r@.uv_den == self@.uv_den,
    {
        let ghost gb = GEOM_BOUND as int;
        proof {
            lemma_abs_mul2(af.rot_den as int, af.scale_den as int, gb, gb);
            lemma_abs_mul2(af.rot_den as int * af.scale_den as int, self@.pos_den, gb * gb, gb);
            lemma_abs_mul2(
                af.rot_den as int * af.scale_den as int * self@.pos_den,
                af.trans_den as int,
                gb * gb * gb,
                gb,
            );
            assert(af.rot_den as int * af.scale_den as int * self@.pos_den >= 1 && af.rot_den as int
                * af.scale_den as int * self@.pos_den * af.trans_den as int >= 1 && af.rot_den as int
                * self@.nor_den >= 1) by (nonlinear_arith)
                requires
                    af.rot_den >= 1,
                    af.scale_den >= 1,
                    af.trans_den >= 1,
                    self@.pos_den >= 1,
                    self@.nor_den >= 1,
            ;
        }
        proof {
            lemma_abs_mul2(af.rot_den as int, self@.nor_den, gb, gb);
        }
        let base: i128 = af.rot_den * af.scale_den * self.pos_den;
        let mut points: Vec<V3> = Vec::new();
        let mut i: usize = 0;
        while i < self.points.len()
            invariant
                i <= self@.points.len(),
                points@.len() == i,
                forall|j: int|
                    0 <= j < i ==> (#[trigger] points@[j]).vals() == xform_pos_vertex(
                        *af,
                        self@.pos_den,
                        self@.points[j],
                    ),
            decreases self@.points.len() - i,
        {
            let p = self.points[i];
            let v = V3 {
                x: pos_coord(af.rot.rx, af.scale, p, af.trans_den, af.trans.x, base),
                y: pos_coord(af.rot.ry, af.scale, p, af.trans_den, af.trans.y, base),
                z: pos_coord(af.rot.rz, af.scale, p, af.trans_den, af.trans.z, base),
            };
            points.push(v);
            i = i + 1;
        }
        let mut normal: Vec<V3> = Vec::new();
        let mut k: usize = 0;
        while k < self.normal.len()
            invariant
                k <= self@.normal.len(),
                normal@.len() == k,
                forall|j: int|
                    0 <= j < k ==> (#[trigger] normal@[j]).vals() == xform_nor_vertex(
                        *af,
                        self@.normal[j],
                    ),
            decreases self@.normal.len() - k,
        {
            let v = self.normal[k];
            let w = V3 {
                x: nor_coord(af.rot.rx, v),
                y: nor_coord(af.rot.ry, v),
                z: nor_coord(af.rot.rz, v),
            };
            normal.push(w);
            k = k + 1;
        }
        Triangle {
            points,
            normal,
            uv: copy_v3(&self.uv),
            pos_den: base * af.trans_den,
            nor_den: af.rot_den * self.nor_den,
            uv_den: self.uv_den,
        }
    }
}

impl Triangle {
    /// Instances the batch across many placements: the merge of the batch
    /// transformed by each map, in order. All maps must share their
    /// denominators so that the copies agree on a common resolution.
    #[verifier::loop_isolation(false)]
    #[verifier::rlimit(60)]
    pub fn scatter(&self, transforms: &Vec<Affine>) -> (r: Triangle)
        requires
            self@.wf(),
            tri_bounded(self@, GEOM_BOUND as int),
            forall|j: int|
                0 <= j < transforms@.len() ==> (#[trigger] transforms@[j]).wf()
                    && transforms@[j].bounded(GEOM_BOUND as int),
            forall|j: int|
                0 <= j < transforms@.len() ==> (#[trigger] transforms@[j]).same_dens(
                    transforms@[0],
                ),
        ensures
            r@.wf(),
            transforms@.len() == 0 ==> r@ == empty_view(
                self@.pos_den,
                self@.nor_den,
                self@.uv_den,
            ),
            transforms@.len() >= 1 ==> {
                &&& r@.points.len() == transforms@.len() * self@.points.len()
                &&& r@.normal.len() == r@.points.len()
                &&& r@.uv.len() == r@.points.len()
                &&& forall|j: int, i: int|
                    0 <= j < transforms@.len() && 0 <= i < self@.points.len() ==> {
                        &&& (#[trigger] r@.points[j * self@.points.len() + i]).vals()
                            == xform_pos_vertex(transforms@[j], self@.pos_den, self@.points[i])
                        &&& r@.normal[j * self@.points.len() + i].vals() == xform_nor_vertex(
                            transforms@[j],
                            self@.normal[i],
                        )
                        &&& r@.uv[j * self@.points.len() + i] == self@.uv[i]
                    }
                &&& r@.pos_den == (transforms@[0].rot_den as int) * (
                transforms@[0].scale_den as int) * self@.pos_den * (transforms@[0].trans_den as int)
                &&& r@.nor_den == (transforms@[0].rot_den as int) * self@.nor_den
                &&& r@.uv_den == self@.uv_den
            },
    {
        let ghost gl = self@.points.len() as int;
        if transforms.len() == 0 {
            return Triangle::empty(self.pos_den, self.nor_den, self.uv_den);
        }
        let mut acc = self.apply_transform(&transforms[0]);
        proof {
            assert(1 * gl == gl) by (nonlinear_arith);
            assert forall|q: int, i: int| 0 <= q < 1 && 0 <= i < gl implies (
            #[trigger] acc@.points[q * gl + i]).vals() == xform_pos_vertex(
                transforms@[q],
                self@.pos_den,
                self@.points[i],
            ) by {
                assert(q * gl + i == i) by (nonlinear_arith)
                    requires
                        q == 0,
                ;
            }
            assert forall|q: int, i: int| 0 <= q < 1 && 0 <= i < gl implies (
            #[trigger] acc@.normal[q * gl + i]).vals() == xform_nor_vertex(
                transforms@[q],
                self@.normal[i],
            ) by {
                assert(q * gl + i == i) by (nonlinear_arith)
                    requires
                        q == 0,
                ;
            }
            assert forall|q: int, i: int| 0 <= q < 1 && 0 <= i < gl implies #[trigger] acc@.uv[q
                * gl + i] == self@.uv[i] by {
                assert(q * gl + i == i) by (nonlinear_arith)
                    requires
                        q == 0,
                ;
            }
        }
        let mut j: usize = 1;
        while j < transforms.len()
            invariant
                1 <= j <= transforms@.len(),
                acc@.wf(),
                acc@.points.len() == j * gl,
                acc@.normal.len() == acc@.points.len(),
                acc@.uv.len() == acc@.points.len(),
                forall|q: int, i: int|
                    0 <= q < j && 0 <= i < gl ==> (#[trigger] acc@.points[q * gl + i]).vals()
                        == xform_pos_vertex(transforms@[q], self@.pos_den, self@.points[i]),
                forall|q: int, i: int|
                    0 <= q < j && 0 <= i < gl ==> (#[trigger] acc@.normal[q * gl + i]).vals()
                        == xform_nor_vertex(transforms@[q], self@.normal[i]),
                forall|q: int, i: int|
                    0 <= q < j && 0 <= i < gl ==> #[trigger] acc@.uv[q * gl + i] == self@.uv[i],
                acc@.pos_den == (transforms@[0].rot_den as int) * (transforms@[0].scale_den as int)
                    * self@.pos_den * (transforms@[0].trans_den as int),
                acc@.nor_den == (transforms@[0].rot_den as int) * self@.nor_den,
                acc@.uv_den == self@.uv_den,
            decreases transforms@.len() - j,
        {
            let part = self.apply_transform(&transforms[j]);
            proof {
                assert(transforms@[j as int].same_dens(transforms@[0]));
            }
            let next = merge(&acc, &part);
            proof {
                assert((j + 1) * gl == j * gl + gl) by (nonlinear_arith);
                assert forall|q: int, i: int| 0 <= q < j + 1 && 0 <= i < gl implies (
                #[trigger] next@.points[q * gl + i]).vals() == xform_pos_vertex(
                    transforms@[q],
                    self@.pos_den,
                    self@.points[i],
                ) by {
                    if q < j {
                        assert(0 <= q * gl + i < j * gl) by (nonlinear_arith)
                            requires
                                0 <= q < j,
                                0 <= i < gl,
                        ;
                        assert(next@.points[q * gl + i] == acc@.points[q * gl + i]);
                        assert(acc@.points[q * gl + i].vals() == xform_pos_vertex(
                            transforms@[q],
                            self@.pos_den,
                            self@.points[i],
                        ));
                    } else {
                        assert(q * gl + i == j * gl + i) by (nonlinear_arith)
                            requires
                                q == j,
                        ;
                        assert(next@.points[j * gl + i] == part@.points[i]);
                        assert(part@.points[i].vals() == xform_pos_vertex(
                            transforms@[j as int],
                            self@.pos_den,
                            self@.points[i],
                        ));
                    }
                }
                assert forall|q: int, i: int| 0 <= q < j + 1 && 0 <= i < gl implies (
                #[trigger] next@.normal[q * gl + i]).vals() == xform_nor_vertex(
                    transforms@[q],
                    self@.normal[i],
                ) by {
                    if q < j {
                        assert(0 <= q * gl + i < j * gl) by (nonlinear_arith)
                            requires
                                0 <= q < j,
                                0 <= i < gl,
                        ;
                        assert(next@.normal[q * gl + i] == acc@.normal[q * gl + i]);
                        assert(acc@.normal[q * gl + i].vals() == xform_nor_vertex(
                            transforms@[q],
                            self@.normal[i],
                        ));
                    } else {
                        assert(q * gl + i == j * gl + i) by (nonlinear_arith)
                            requires
                                q == j,
                        ;
                        assert(next@.normal[j * gl + i] == part@.normal[i]);
                        assert(part@.normal[i].vals() == xform_nor_vertex(
                            transforms@[j as int],
                            self@.normal[i],
                        ));
                    }
                }
                assert forall|q: int, i: int|
                    0 <= q < j + 1 && 0 <= i < gl implies #[trigger] next@.uv[q * gl + i]
                    == self@.uv[i] by {
                    if q < j {
                        assert(0 <= q * gl + i < j * gl) by (nonlinear_arith)
                            requires
                                0 <= q < j,
                                0 <= i < gl,
                        ;
                        assert(next@.uv[q * gl + i] == acc@.uv[q * gl + i]);
                        assert(acc@.uv[q * gl + i] == self@.uv[i]);
                    } else {
                        assert(q * gl + i == j * gl + i) by (nonlinear_arith)
                            requires
                                q == j,
                        ;
                        assert(next@.uv[j * gl + i] == part@.uv[i]);
                        assert(part@.uv[i] == self@.uv[i]);
                    }
                }
            }
            acc = next;
            j = j + 1;
        }
        proof {
            assert(j == transforms@.len());
        }
        acc
    }

    /// Expands an indexed vertex set into a flat batch: for every index,
    /// the addressed attribute, or the zero attribute where the index
    /// runs past the channel. Whole-unit denominators.
    #[verifier::loop_isolation(false)]
    pub fn from_indexed(
        indices: &Vec<usize>,
        points: &Vec<V3>,
        normals: &Vec<V3>,
        uvs: &Vec<V3>,
    ) -> (r: Triangle)
        requires
            indices@.len() % 3 == 0,
        ensures
            r@.wf(),
            r@.points.len() == indices@.len(),
            r@.normal.len() == indices@.len(),
            r@.uv.len() == indices@.len(),
            forall|i: int|
                0 <= i < indices@.len() ==> #[trigger] r@.points[i] == (if (indices@[i] as int)
                    < points@.len() {
                    points@[indices@[i] as int]
                } else {
                    V3::spec_zero()
                }),
            forall|i: int|
                0 <= i < indices@.len() ==> #[trigger] r@.normal[i] == (if (indices@[i] as int)
                    < normals@.len() {
                    normals@[indices@[i] as int]
                } else {
                    V3::spec_zero()
                }),
            forall|i: int|
                0 <= i < indices@.len() ==> #[trigger] r@.uv[i] == (if (indices@[i] as int)
                    < uvs@.len() {
                    uvs@[indices@[i] as int]
                } else {
                    V3::spec_zero()
                }),
            r@.pos_den == 1,
            r@.nor_den == 1,
            r@.uv_den == 1,
    {
        let mut ps: Vec<V3> = Vec::new();
        let mut ns: Vec<V3> = Vec::new();
        let mut us: Vec<V3> = Vec::new();
        let mut i: usize = 0;
        while i < indices.len()
            invariant
                i <= indices@.len(),
                ps@.len() == i,
                ns@.len() == i,
                us@.len() == i,
                forall|q: int|
                    0 <= q < i ==> #[trigger] ps@[q] == (if (indices@[q] as int) < points@.len() {
                        points@[indices@[q] as int]
                    } else {
                        V3::spec_zero()
                    }),
                forall|q: int|
                    0 <= q < i ==> #[trigger] ns@[q] == (if (indices@[q] as int) < normals@.len() {
                        normals@[indices@[q] as int]
                    } else {
                        V3::spec_zero()
                    }),
                forall|q: int|
                    0 <= q < i ==> #[trigger] us@[q] == (if (indices@[q] as int) < uvs@.len() {
                        uvs@[indices@[q] as int]
                    } else {
                        V3::spec_zero()
                    }),
            decreases indices@.len() - i,
        {
            let ix = indices[i];
            if ix < points.len() {
                ps.push(points[ix]);
            } else {
                ps.push(V3::zero());
            }
            if ix < normals.len() {
                ns.push(normals[ix]);
            } else {
                ns.push(V3::zero());
            }
            if ix < uvs.len() {
                us.push(uvs[ix]);
            } else {
                us.push(V3::zero());
            }
            i = i + 1;
        }
        Triangle { points: ps, normal: ns, uv: us, pos_den: 1, nor_den: 1, uv_den: 1 }
    }
}

proof fn lemma_bary_corner(a0: int, a1: int, a2: int, den: int, n: int)
    by (nonlinear_arith)
    ensures
        (a0 * n + 0 * (a1 - a0) + 0 * (a2 - a0)) * den == a0 * (den * n),
        (a0 * n + n * (a1 - a0) + 0 * (a2 - a0)) * den == a1 * (den * n),
        (a0 * n + 0 * (a1 - a0) + n * (a2 - a0)) * den == a2 * (den * n),
{
}

/// Barycentric subdivision of one triangle with corner attributes `p0`,
/// `p1`, `p2` over denominator `den` yields exactly `n * n` sub-triangles,
/// and three of the output vertices carry exactly the values of the three
/// input corners: the lattice reconstructs the boundary of the input.
pub proof fn lemma_subdivide_reconstructs_corners(p0: V3, p1: V3, p2: V3, den: int, n: int)
    requires
        1 <= n,
        1 <= den,
    ensures
        lattice_cells(n).len() == n * n,
        sub_channel(p0, p1, p2, n, lattice_cells(n)).len() == 3 * (n * n),
        frac_eq3(sub_channel(p0, p1, p2, n, lattice_cells(n))[3 * (n - 1)], den * n, p0, den),
        frac_eq3(
            sub_channel(p0, p1, p2, n, lattice_cells(n))[3 * (n * n - 1) + 1],
            den * n,
            p1,
            den,
        ),
        frac_eq3(sub_channel(p0, p1, p2, n, lattice_cells(n))[3 * (2 * n - 2) + 2], den * n, p2, den),
{
    let cells = lattice_cells(n);
    lemma_lattice_cells_len(n);
    lemma_sub_channel_len(p0, p1, p2, n, cells);

    // Row 0 stands at the front of the lattice.
    assert(cells_upto(n, 0) =~= Seq::<Cell>::empty());
    assert(cells_upto(n, 1) == cells_upto(n, 0) + row_cells(n, 0));
    assert(cells_upto(n, 1) =~= row_cells(n, 0));
    assert(row_cells(n, 0).len() == 2 * n - 1);
    lemma_cells_upto_prefix(n, 1, n, n - 1);
    assert(cells[n - 1] == Cell { row: 0, col: 0, up: false });
    lemma_cells_upto_prefix(n, 1, n, 2 * n - 2);
    assert(cells[2 * n - 2] == Cell { row: 0, col: n - 1, up: false });

    // The last cell of the lattice is the single downward cell of the
    // last row.
    lemma_cells_upto_len(n, n - 1);
    assert(2 * n * (n - 1) - (n - 1) * (n - 1) == n * n - 1) by (nonlinear_arith);
    assert(cells[n * n - 1] == row_cells(n, n - 1)[0]);
    assert(cells[n * n - 1] == Cell { row: n - 1, col: 0, up: false });

    lemma_sub_channel_index(p0, p1, p2, n, cells, n - 1);
    lemma_sub_channel_index(p0, p1, p2, n, cells, n * n - 1);
    lemma_sub_channel_index(p0, p1, p2, n, cells, 2 * n - 2);

    // The three lattice corners: steps (0, 0), (n, 0) and (0, n).
    assert(sub_channel(p0, p1, p2, n, cells)[3 * (n - 1)] == sub_vertex(p0, p1, p2, n, 0, 0));
    assert(sub_channel(p0, p1, p2, n, cells)[3 * (n * n - 1) + 1] == sub_vertex(
        p0,
        p1,
        p2,
        n,
        n,
        0,
    ));
    assert(sub_channel(p0, p1, p2, n, cells)[3 * (2 * n - 2) + 2] == sub_vertex(
        p0,
        p1,
        p2,
        n,
        0,
        n,
    ));

    lemma_bary_corner(p0.x as int, p1.x as int, p2.x as int, den, n);
    lemma_bary_corner(p0.y as int, p1.y as int, p2.y as int, den, n);
    lemma_bary_corner(p0.z as int, p1.z as int, p2.z as int, den, n);
}

/// The corner reconstruction carried over to a whole one-triangle
/// channel as `patch` emits it: subdividing a single triangle yields
/// `n * n` sub-triangles whose lattice corners carry exactly the input
/// corners' values.
pub proof fn lemma_patch_reconstructs_corners(ch: Seq<V3>, den: int, n: int)
    requires
        ch.len() == 3,
        1 <= n,
        1 <= den,
    ensures
        patched_channel(ch, n).len() == 3 * (n * n),
        frac_eq3(patched_channel(ch, n)[3 * (n - 1)], den * n, ch[0], den),
        frac_eq3(patched_channel(ch, n)[3 * (n * n - 1) + 1], den * n, ch[1], den),
        frac_eq3(patched_channel(ch, n)[3 * (2 * n - 2) + 2], den * n, ch[2], den),
{
    lemma_subdivide_reconstructs_corners(ch[0], ch[1], ch[2], den, n);
    assert(patched_channel(ch, n) == patched_upto(ch, n, 1));
    assert(patched_upto(ch, n, 0) =~= Seq::<(int, int, int)>::empty());
    assert(patched_upto(ch, n, 1) =~= sub_channel(ch[0], ch[1], ch[2], n, lattice_cells(n)));
}

/// Merging batches is associative: grouping does not matter.
pub proof fn lemma_merge_associative(a: TriView, b: TriView, c: TriView)
    ensures
        merge_spec(merge_spec(a, b), c) == merge_spec(a, merge_spec(b, c)),
{
    assert(merge_spec(merge_spec(a, b), c).points =~= merge_spec(a, merge_spec(b, c)).points);
    assert(merge_spec(merge_spec(a, b), c).normal =~= merge_spec(a, merge_spec(b, c)).normal);
    assert(merge_spec(merge_spec(a, b), c).uv =~= merge_spec(a, merge_spec(b, c)).uv);
}

/// The empty batch is the identity element of merging, on either side.
pub proof fn lemma_merge_empty_identity(a: TriView)
    ensures
        merge_spec(empty_view(a.pos_den, a.nor_den, a.uv_den), a) == a,
        merge_spec(a, empty_view(a.pos_den, a.nor_den, a.uv_den)) == a,
{
    let e = empty_view(a.pos_den, a.nor_den, a.uv_den);
    assert(merge_spec(e, a).points =~= a.points);
    assert(merge_spec(e, a).normal =~= a.normal);
    assert(merge_spec(e, a).uv =~= a.uv);
    assert(merge_spec(a, e).points =~= a.points);
    assert(merge_spec(a, e).normal =~= a.normal);
    assert(merge_spec(a, e).uv =~= a.uv);
}

} // verus!
