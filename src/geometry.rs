//! Fixed-point geometry: vertices, placement transforms, determinant sign,
//! quadrilateral subdivision and face normals.
//!
//! A coordinate is an `i64` counting millionths of an LDraw unit, so every
//! value with at most six decimal places is held exactly; digits past the
//! sixth place are dropped when a file is read. Numbers read from a file lie
//! within `COORD_MAX`, which keeps the determinant of a placement exact.
//! Placing a vertex truncates each product toward zero and holds the result
//! to the range of `i64`; a normal rounds away from zero, so each of its
//! components has the sign of the exact cross product.
use vstd::prelude::*;

verus! {

/// Fixed-point units in one LDraw unit.
pub const SCALE: i64 = 1_000_000;

/// Largest magnitude of a number that a file can write: 2^40 units, about
/// 1.1e6 LDraw units. It keeps every product of three such numbers within `i128`.
pub const COORD_MAX: i64 = 0x100_0000_0000;

/// Largest magnitude of an edge of a triangle, held symmetric so that
/// negation stays exact.
pub const EDGE_MAX: i64 = 0x7fff_ffff_ffff_ffff;

/// `v` held to the range of `i64`.
pub open spec fn clamp(v: int) -> int {
    if v > i64::MAX {
        i64::MAX as int
    } else if v < i64::MIN {
        i64::MIN as int
    } else {
        v
    }
}

/// Quotient of `p` by a positive `d`, truncated toward zero.
pub open spec fn div_trunc(p: int, d: int) -> int {
    if p >= 0 {
        p / d
    } else {
        -((-p) / d)
    }
}

/// Product of two fixed-point values, truncated toward zero.
pub open spec fn mul_fx(a: int, b: int) -> int {
    div_trunc(a * b, SCALE as int)
}

#[derive(Clone, Copy, PartialEq, Eq, Structural, Debug)]
pub struct Vertex {
    pub x: i64,
    pub y: i64,
    pub z: i64,
}

/// The linear part of a placement, by rows.
#[derive(Clone, Copy, PartialEq, Eq, Structural, Debug)]
pub struct Matrix {
    pub r0: Vertex,
    pub r1: Vertex,
    pub r2: Vertex,
}

#[derive(Clone, Copy, PartialEq, Eq, Structural, Debug)]
pub struct Triangle {
    pub v0: Vertex,
    pub v1: Vertex,
    pub v2: Vertex,
}

#[derive(Clone, Copy, PartialEq, Eq, Structural, Debug)]
pub struct Quadrilateral {
    pub v0: Vertex,
    pub v1: Vertex,
    pub v2: Vertex,
    pub v3: Vertex,
}

/// The identity matrix.
pub open spec fn identity_spec() -> Matrix {
    Matrix {
        r0: Vertex { x: SCALE, y: 0, z: 0 },
        r1: Vertex { x: 0, y: SCALE, z: 0 },
        r2: Vertex { x: 0, y: 0, z: SCALE },
    }
}

pub open spec fn dot_fx(r: Vertex, v: Vertex) -> int {
    mul_fx(r.x as int, v.x as int) + mul_fx(r.y as int, v.y as int) + mul_fx(r.z as int, v.z as int)
}

/// `m·v + t`.
pub open spec fn apply_spec(m: Matrix, t: Vertex, v: Vertex) -> Vertex {
    Vertex {
        x: clamp(dot_fx(m.r0, v) + t.x) as i64,
        y: clamp(dot_fx(m.r1, v) + t.y) as i64,
        z: clamp(dot_fx(m.r2, v) + t.z) as i64,
    }
}

pub open spec fn apply_triangle_spec(m: Matrix, t: Vertex, tri: Triangle) -> Triangle {
    Triangle { v0: apply_spec(m, t, tri.v0), v1: apply_spec(m, t, tri.v1), v2: apply_spec(m, t, tri.v2) }
}

/// Determinant of the matrix, exact: the true determinant times `SCALE³`.
pub open spec fn det_spec(m: Matrix) -> int {
    let (a, b, c) = (m.r0.x as int, m.r0.y as int, m.r0.z as int);
    let (d, e, f) = (m.r1.x as int, m.r1.y as int, m.r1.z as int);
    let (g, h, i) = (m.r2.x as int, m.r2.y as int, m.r2.z as int);
    a * (e * i - f * h) - b * (d * i - f * g) + c * (d * h - e * g)
}

pub open spec fn in_range(v: int) -> bool {
    -COORD_MAX <= v <= COORD_MAX
}

pub open spec fn vertex_in_range(v: Vertex) -> bool {
    in_range(v.x as int) && in_range(v.y as int) && in_range(v.z as int)
}

/// Every entry of the matrix is a number that a file can write.
pub open spec fn matrix_in_range(m: Matrix) -> bool {
    vertex_in_range(m.r0) && vertex_in_range(m.r1) && vertex_in_range(m.r2)
}

/// The matrix reverses handedness: its determinant is negative.
pub open spec fn mirrors(m: Matrix) -> bool {
    det_spec(m) < 0
}

/// A triangle with its winding reversed: the last two vertices swap.
pub open spec fn reversed(t: Triangle) -> Triangle {
    Triangle { v0: t.v0, v1: t.v2, v2: t.v1 }
}

/// The triangle as declared, or reversed when `inverted`.
pub open spec fn oriented(t: Triangle, inverted: bool) -> Triangle {
    if inverted {
        reversed(t)
    } else {
        t
    }
}

/// The two triangles of a quadrilateral, split along its `v0`–`v2` diagonal.
pub open spec fn subdivide_spec(q: Quadrilateral, inverted: bool) -> Seq<Triangle> {
    if inverted {
        seq![
            Triangle { v0: q.v0, v1: q.v2, v2: q.v1 },
            Triangle { v0: q.v2, v1: q.v0, v2: q.v3 },
        ]
    } else {
        seq![
            Triangle { v0: q.v0, v1: q.v1, v2: q.v2 },
            Triangle { v0: q.v2, v1: q.v3, v2: q.v0 },
        ]
    }
}

/// `p - q` held to `-EDGE_MAX ..= EDGE_MAX`.
pub open spec fn edge_fx(p: int, q: int) -> int {
    if p - q > EDGE_MAX {
        EDGE_MAX as int
    } else if p - q < -EDGE_MAX {
        -EDGE_MAX
    } else {
        p - q
    }
}

/// Quotient of `p` by a positive `d`, rounded away from zero: it is zero
/// only when `p` is, and has the sign of `p`.
pub open spec fn div_away(p: int, d: int) -> int {
    if p >= 0 {
        (p + d - 1) / d
    } else {
        -((-p + d - 1) / d)
    }
}

/// The exact cross product `(v1 - v0) × (v2 - v0)`, in units of `SCALE⁻²`.
pub open spec fn cross_exact(t: Triangle) -> (int, int, int) {
    let (ux, uy, uz) = (edge_fx(t.v1.x as int, t.v0.x as int), edge_fx(t.v1.y as int, t.v0.y as int), edge_fx(t.v1.z as int, t.v0.z as int));
    let (vx, vy, vz) = (edge_fx(t.v2.x as int, t.v0.x as int), edge_fx(t.v2.y as int, t.v0.y as int), edge_fx(t.v2.z as int, t.v0.z as int));
    (uy * vz - uz * vy, uz * vx - ux * vz, ux * vy - uy * vx)
}

/// `cross(v1 - v0, v2 - v0)`, not normalised, brought back to fixed-point
/// units away from zero so that each component keeps the sign of the exact one.
pub open spec fn normal_spec(t: Triangle) -> Vertex {
    let (cx, cy, cz) = cross_exact(t);
    Vertex {
        x: clamp(div_away(cx, SCALE as int)) as i64,
        y: clamp(div_away(cy, SCALE as int)) as i64,
        z: clamp(div_away(cz, SCALE as int)) as i64,
    }
}

/// Bound on the magnitude of a product of two `i64` values: 2^126.
const PRODUCT_BOUND: i128 = 0x4000_0000_0000_0000_0000_0000_0000_0000;

/// Bound on the magnitude of a truncated fixed-point product: 2^107.
pub const MUL_BOUND: i128 = 0x800_0000_0000_0000_0000_0000_0000;

proof fn lemma_product_bound(a: int, b: int)
    requires
        -0x8000_0000_0000_0000 <= a <= 0x8000_0000_0000_0000,
        -0x8000_0000_0000_0000 <= b <= 0x8000_0000_0000_0000,
    ensures
        -PRODUCT_BOUND <= a * b <= PRODUCT_BOUND,
{
    assert(-0x4000_0000_0000_0000_0000_0000_0000_0000 <= a * b <= 0x4000_0000_0000_0000_0000_0000_0000_0000)
        by (nonlinear_arith)
        requires
            -0x8000_0000_0000_0000 <= a <= 0x8000_0000_0000_0000,
            -0x8000_0000_0000_0000 <= b <= 0x8000_0000_0000_0000,
    ;
}

proof fn lemma_quotient_bound(p: int)
    requires
        0 <= p <= PRODUCT_BOUND,
    ensures
        0 <= p / (SCALE as int) <= MUL_BOUND,
{
    vstd::arithmetic::div_mod::lemma_fundamental_div_mod(p, SCALE as int);
    vstd::arithmetic::div_mod::lemma_div_pos_is_pos(p, SCALE as int);
    vstd::arithmetic::div_mod::lemma_mod_pos_bound(p, SCALE as int);
}

/// Fixed-point product of `a` and `b`, truncated toward zero.
pub fn mul_fixed(a: i64, b: i64) -> (r: i128)
    ensures
        r == mul_fx(a as int, b as int),
        -MUL_BOUND <= r <= MUL_BOUND,
{
    proof {
        lemma_product_bound(a as int, b as int);
    }
    let p: i128 = (a as i128) * (b as i128);
    if p >= 0 {
        proof {
            lemma_quotient_bound(p as int);
        }
        p / (SCALE as i128)
    } else {
        proof {
            lemma_quotient_bound(-p);
        }
        -((-p) / (SCALE as i128))
    }
}

/// `v` held to the coordinate range.
pub fn clamp_coord(v: i128) -> (r: i64)
    ensures
        r == clamp(v as int),
{
    if v > i64::MAX as i128 {
        i64::MAX
    } else if v < i64::MIN as i128 {
        i64::MIN
    } else {
        v as i64
    }
}

fn dot_fixed(r: Vertex, v: Vertex) -> (d: i128)
    ensures
        d == dot_fx(r, v),
        -3 * MUL_BOUND <= d <= 3 * MUL_BOUND,
{
    mul_fixed(r.x, v.x) + mul_fixed(r.y, v.y) + mul_fixed(r.z, v.z)
}

/// Places `vert` by the linear part `matrix` and the translation `coords`.
pub fn mul_mat_vert(matrix: Matrix, coords: Vertex, vert: Vertex) -> (r: Vertex)
    ensures
        r == apply_spec(matrix, coords, vert),
{
    Vertex {
        x: clamp_coord(dot_fixed(matrix.r0, vert) + coords.x as i128),
        y: clamp_coord(dot_fixed(matrix.r1, vert) + coords.y as i128),
        z: clamp_coord(dot_fixed(matrix.r2, vert) + coords.z as i128),
    }
}

/// Places every vertex of `tri`; the order of the vertices is kept.
pub fn mul_mat_triangle(matrix: Matrix, coords: Vertex, tri: Triangle) -> (r: Triangle)
    ensures
        r == apply_triangle_spec(matrix, coords, tri),
{
    Triangle {
        v0: mul_mat_vert(matrix, coords, tri.v0),
        v1: mul_mat_vert(matrix, coords, tri.v1),
        v2: mul_mat_vert(matrix, coords, tri.v2),
    }
}

proof fn lemma_mul_bound(a: int, b: int, ma: int, mb: int)
    requires
        0 <= ma,
        0 <= mb,
        -ma <= a <= ma,
        -mb <= b <= mb,
    ensures
        -(ma * mb) <= a * b <= ma * mb,
{
    assert(-(ma * mb) <= a * b <= ma * mb) by (nonlinear_arith)
        requires
            0 <= ma,
            0 <= mb,
            -ma <= a <= ma,
            -mb <= b <= mb,
    ;
}

/// `p·s - q·r`, exact, for numbers in range.
fn minor_exact(p: i64, q: i64, r: i64, s: i64) -> (m: i128)
    requires
        in_range(p as int),
        in_range(q as int),
        in_range(r as int),
        in_range(s as int),
    ensures
        m == p * s - q * r,
        -0x2_0000_0000_0000_0000_0000 <= m <= 0x2_0000_0000_0000_0000_0000,
{
    proof {
        lemma_mul_bound(p as int, s as int, COORD_MAX as int, COORD_MAX as int);
        lemma_mul_bound(q as int, r as int, COORD_MAX as int, COORD_MAX as int);
    }
    (p as i128) * (s as i128) - (q as i128) * (r as i128)
}

/// `a·m`, exact, for `a` in range and a minor.
fn term_exact(a: i64, m: i128) -> (r: i128)
    requires
        in_range(a as int),
        -0x2_0000_0000_0000_0000_0000 <= m <= 0x2_0000_0000_0000_0000_0000,
    ensures
        r == a * m,
        -0x200_0000_0000_0000_0000_0000_0000_0000 <= r <= 0x200_0000_0000_0000_0000_0000_0000_0000,
{
    proof {
        lemma_mul_bound(a as int, m as int, COORD_MAX as int, 0x2_0000_0000_0000_0000_0000);
    }
    (a as i128) * m
}

impl Vertex {
    pub fn new(x: i64, y: i64, z: i64) -> (r: Vertex)
        ensures
            r == (Vertex { x, y, z }),
    {
        Vertex { x, y, z }
    }

    pub fn x(&self) -> (r: i64)
        ensures
            r == self.x,
    {
        self.x
    }

    pub fn y(&self) -> (r: i64)
        ensures
            r == self.y,
    {
        self.y
    }

    pub fn z(&self) -> (r: i64)
        ensures
            r == self.z,
    {
        self.z
    }

    pub fn points(self) -> (r: [i64; 3])
        ensures
            r@ == seq![self.x, self.y, self.z],
    {
        let r = [self.x, self.y, self.z];
        assert(r@ =~= seq![self.x, self.y, self.z]);
        r
    }
}

impl Matrix {
    /// The identity matrix.
    pub fn identity() -> (r: Matrix)
        ensures
            r == identity_spec(),
    {
        Matrix {
            r0: Vertex { x: SCALE, y: 0, z: 0 },
            r1: Vertex { x: 0, y: SCALE, z: 0 },
            r2: Vertex { x: 0, y: 0, z: SCALE },
        }
    }

    /// The exact determinant, times `SCALE³`; only its sign decides winding.
    pub fn determinant(&self) -> (r: i128)
        requires
            matrix_in_range(*self),
        ensures
            r == det_spec(*self),
    {
        let m = *self;
        term_exact(m.r0.x, minor_exact(m.r1.y, m.r1.z, m.r2.y, m.r2.z))
            - term_exact(m.r0.y, minor_exact(m.r1.x, m.r1.z, m.r2.x, m.r2.z))
            + term_exact(m.r0.z, minor_exact(m.r1.x, m.r1.y, m.r2.x, m.r2.y))
    }

    /// Whether the matrix reverses handedness.
    pub fn is_mirroring(&self) -> (r: bool)
        requires
            matrix_in_range(*self),
        ensures
            r == mirrors(*self),
    {
        self.determinant() < 0
    }
}

impl Triangle {
    pub fn new(p1: Vertex, p2: Vertex, p3: Vertex) -> (r: Triangle)
        ensures
            r == (Triangle { v0: p1, v1: p2, v2: p3 }),
    {
        Triangle { v0: p1, v1: p2, v2: p3 }
    }

    pub fn verticies(self) -> (r: [Vertex; 3])
        ensures
            r@ == seq![self.v0, self.v1, self.v2],
    {
        let r = [self.v0, self.v1, self.v2];
        assert(r@ =~= seq![self.v0, self.v1, self.v2]);
        r
    }

    /// The triangle with its winding reversed when `inverted`.
    pub fn oriented(self, inverted: bool) -> (r: Triangle)
        ensures
            r == oriented(self, inverted),
    {
        if inverted {
            Triangle { v0: self.v0, v1: self.v2, v2: self.v1 }
        } else {
            self
        }
    }

    /// `cross(v1 - v0, v2 - v0)`; its direction follows the vertex order.
    pub fn surface_normal(&self) -> (r: Vertex)
        ensures
            r == normal_spec(*self),
    {
        let t = *self;
        let ux = edge(t.v1.x, t.v0.x);
        let uy = edge(t.v1.y, t.v0.y);
        let uz = edge(t.v1.z, t.v0.z);
        let vx = edge(t.v2.x, t.v0.x);
        let vy = edge(t.v2.y, t.v0.y);
        let vz = edge(t.v2.z, t.v0.z);
        Vertex {
            x: clamp_coord(div_away_scale(cross_component(uy, vz, uz, vy))),
            y: clamp_coord(div_away_scale(cross_component(uz, vx, ux, vz))),
            z: clamp_coord(div_away_scale(cross_component(ux, vy, uy, vx))),
        }
    }
}

/// Bound on the magnitude of a component of an exact cross product: 2·EDGE_MAX².
const CROSS_BOUND: i128 = 0x7fff_ffff_ffff_fffe_0000_0000_0000_0002;

fn edge(p: i64, q: i64) -> (r: i64)
    ensures
        r == edge_fx(p as int, q as int),
{
    let d: i128 = p as i128 - q as i128;
    if d > EDGE_MAX as i128 {
        EDGE_MAX
    } else if d < -(EDGE_MAX as i128) {
        -EDGE_MAX
    } else {
        d as i64
    }
}

/// `a·b - c·d`, exact, for edge components.
fn cross_component(a: i64, b: i64, c: i64, d: i64) -> (r: i128)
    requires
        -EDGE_MAX <= a <= EDGE_MAX,
        -EDGE_MAX <= b <= EDGE_MAX,
        -EDGE_MAX <= c <= EDGE_MAX,
        -EDGE_MAX <= d <= EDGE_MAX,
    ensures
        r == a * b - c * d,
        -CROSS_BOUND <= r <= CROSS_BOUND,
{
    proof {
        lemma_mul_bound(a as int, b as int, EDGE_MAX as int, EDGE_MAX as int);
        lemma_mul_bound(c as int, d as int, EDGE_MAX as int, EDGE_MAX as int);
    }
    (a as i128) * (b as i128) - (c as i128) * (d as i128)
}

fn div_away_scale(p: i128) -> (r: i128)
    requires
        -CROSS_BOUND <= p <= CROSS_BOUND,
    ensures
        r == div_away(p as int, SCALE as int),
{
    if p >= 0 {
        (p + (SCALE as i128) - 1) / (SCALE as i128)
    } else {
        -((-p + (SCALE as i128) - 1) / (SCALE as i128))
    }
}

impl Quadrilateral {
    pub fn new(p1: Vertex, p2: Vertex, p3: Vertex, p4: Vertex) -> (r: Quadrilateral)
        ensures
            r == (Quadrilateral { v0: p1, v1: p2, v2: p3, v3: p4 }),
    {
        Quadrilateral { v0: p1, v1: p2, v2: p3, v3: p4 }
    }

    pub fn verticies(self) -> (r: [Vertex; 4])
        ensures
            r@ == seq![self.v0, self.v1, self.v2, self.v3],
    {
        let r = [self.v0, self.v1, self.v2, self.v3];
        assert(r@ =~= seq![self.v0, self.v1, self.v2, self.v3]);
        r
    }

    /// Splits the quadrilateral along its `v0`–`v2` diagonal; when `invert`
    /// both halves are wound the other way.
    pub fn subdivide(&self, invert: bool) -> (r: Vec<Triangle>)
        ensures
            r@ == subdivide_spec(*self, invert),
    {
        let q = *self;
        let r = if invert {
            vec![
                Triangle { v0: q.v0, v1: q.v2, v2: q.v1 },
                Triangle { v0: q.v2, v1: q.v0, v2: q.v3 },
            ]
        } else {
            vec![
                Triangle { v0: q.v0, v1: q.v1, v2: q.v2 },
                Triangle { v0: q.v2, v1: q.v3, v2: q.v0 },
            ]
        };
        assert(r@ =~= subdivide_spec(q, invert));
        r
    }
}

/// The zero vector.
pub open spec fn zero_spec() -> Vertex {
    Vertex { x: 0, y: 0, z: 0 }
}

/// The matrix with axis `k` negated: row `k` changes sign.
pub open spec fn negate_axis(m: Matrix, k: int) -> Matrix {
    let neg = |v: Vertex| Vertex { x: (-v.x) as i64, y: (-v.y) as i64, z: (-v.z) as i64 };
    if k == 0 {
        Matrix { r0: neg(m.r0), r1: m.r1, r2: m.r2 }
    } else if k == 1 {
        Matrix { r0: m.r0, r1: neg(m.r1), r2: m.r2 }
    } else {
        Matrix { r0: m.r0, r1: m.r1, r2: neg(m.r2) }
    }
}

/// The set of vertices of a triangle.
pub open spec fn corners(t: Triangle) -> Set<Vertex> {
    set![t.v0, t.v1, t.v2]
}

proof fn lemma_mul_fx_scale(x: int)
    ensures
        mul_fx(SCALE as int, x) == x,
        mul_fx(0, x) == 0,
{
    assert((SCALE as int) * x == x * (SCALE as int)) by (nonlinear_arith);
    assert(0 * x == 0) by (nonlinear_arith);
    if x >= 0 {
        vstd::arithmetic::div_mod::lemma_div_multiples_vanish(x, SCALE as int);
    } else {
        assert(-((SCALE as int) * x) == (-x) * (SCALE as int)) by (nonlinear_arith);
        vstd::arithmetic::div_mod::lemma_div_multiples_vanish(-x, SCALE as int);
    }
}

/// Placing a vertex by the identity matrix and no translation leaves it as it is.
pub proof fn lemma_apply_identity(v: Vertex)
    ensures
        apply_spec(identity_spec(), zero_spec(), v) == v,
{
    lemma_mul_fx_scale(v.x as int);
    lemma_mul_fx_scale(v.y as int);
    lemma_mul_fx_scale(v.z as int);
}

/// The identity matrix keeps handedness.
pub proof fn lemma_identity_keeps_handedness()
    ensures
        det_spec(identity_spec()) == SCALE * SCALE * SCALE,
        !mirrors(identity_spec()),
{
}

/// Negating one axis of a matrix negates its determinant exactly, so a
/// placement that keeps handedness becomes one that mirrors.
pub proof fn lemma_negated_axis_mirrors(m: Matrix, k: int)
    requires
        0 <= k < 3,
        matrix_in_range(m),
        det_spec(m) > 0,
    ensures
        det_spec(negate_axis(m, k)) == -det_spec(m),
        mirrors(negate_axis(m, k)),
        !mirrors(m),
{
    let (a, b, c) = (m.r0.x as int, m.r0.y as int, m.r0.z as int);
    let (d, e, f) = (m.r1.x as int, m.r1.y as int, m.r1.z as int);
    let (g, h, i) = (m.r2.x as int, m.r2.y as int, m.r2.z as int);
    if k == 0 {
        assert((-a) * (e * i - f * h) - (-b) * (d * i - f * g) + (-c) * (d * h - e * g) == -(a * (e * i - f * h) - b * (d * i - f * g) + c * (d * h - e * g)))
            by (nonlinear_arith);
    } else if k == 1 {
        assert(a * ((-e) * i - (-f) * h) - b * ((-d) * i - (-f) * g) + c * ((-d) * h - (-e) * g) == -(a * (e * i - f * h) - b * (d * i - f * g) + c * (d * h - e * g)))
            by (nonlinear_arith);
    } else {
        assert(e * (-i) == -(e * i)) by (nonlinear_arith);
        assert(f * (-h) == -(f * h)) by (nonlinear_arith);
        assert(d * (-i) == -(d * i)) by (nonlinear_arith);
        assert(f * (-g) == -(f * g)) by (nonlinear_arith);
        assert(d * (-h) == -(d * h)) by (nonlinear_arith);
        assert(e * (-g) == -(e * g)) by (nonlinear_arith);
        assert(a * (-(e * i - f * h)) == -(a * (e * i - f * h))) by (nonlinear_arith);
        assert(b * (-(d * i - f * g)) == -(b * (d * i - f * g))) by (nonlinear_arith);
        assert(c * (-(d * h - e * g)) == -(c * (d * h - e * g))) by (nonlinear_arith);
    }
}

/// Each component of a normal is zero exactly when that component of the
/// exact cross product is, and otherwise has its sign.
pub proof fn lemma_normal_direction(t: Triangle)
    ensures
        ({
            let (cx, cy, cz) = cross_exact(t);
            let n = normal_spec(t);
            &&& (n.x > 0 <==> cx > 0) && (n.x < 0 <==> cx < 0)
            &&& (n.y > 0 <==> cy > 0) && (n.y < 0 <==> cy < 0)
            &&& (n.z > 0 <==> cz > 0) && (n.z < 0 <==> cz < 0)
        }),
{
    let (cx, cy, cz) = cross_exact(t);
    lemma_div_away_sign(cx);
    lemma_div_away_sign(cy);
    lemma_div_away_sign(cz);
}

proof fn lemma_div_away_sign(p: int)
    ensures
        div_away(p, SCALE as int) > 0 <==> p > 0,
        div_away(p, SCALE as int) < 0 <==> p < 0,
{
    let d = SCALE as int;
    if p > 0 {
        vstd::arithmetic::div_mod::lemma_div_is_ordered(d, p + d - 1, d);
        vstd::arithmetic::div_mod::lemma_div_by_self(d);
    } else if p < 0 {
        vstd::arithmetic::div_mod::lemma_div_is_ordered(d, -p + d - 1, d);
        vstd::arithmetic::div_mod::lemma_div_by_self(d);
    } else {
        vstd::arithmetic::div_mod::lemma_basic_div(d - 1, d);
    }
}

/// A quadrilateral always becomes two triangles that together use exactly its
/// four vertices; when the four are distinct, the two share exactly the
/// `v0`–`v2` diagonal.
pub proof fn lemma_subdivide_shape(q: Quadrilateral, inverted: bool)
    ensures
        subdivide_spec(q, inverted).len() == 2,
        corners(subdivide_spec(q, inverted)[0]) + corners(subdivide_spec(q, inverted)[1]) == set![
            q.v0,
            q.v1,
            q.v2,
            q.v3,
        ],
        ({
            let (a, b) = (subdivide_spec(q, inverted)[0], subdivide_spec(q, inverted)[1]);
            q.v0 != q.v1 && q.v0 != q.v2 && q.v0 != q.v3 && q.v1 != q.v2 && q.v1 != q.v3 && q.v2 != q.v3
                ==> corners(a) * corners(b) == set![q.v0, q.v2]
        }),
{
    let t = subdivide_spec(q, inverted);
    assert(corners(t[0]) + corners(t[1]) =~= set![q.v0, q.v1, q.v2, q.v3]);
    if q.v0 != q.v1 && q.v0 != q.v2 && q.v0 != q.v3 && q.v1 != q.v2 && q.v1 != q.v3 && q.v2 != q.v3 {
        assert(corners(t[0]) * corners(t[1]) =~= set![q.v0, q.v2]);
    }
}

} // verus!
