use crate::point::Point;
use vstd::prelude::*;

verus! {

/// A 3x3 camera intrinsic matrix with integer entries, row-major.
#[derive(Clone, Copy, Debug)]
pub struct Intrinsics {
    pub m: [[i32; 3]; 3],
}

/// The intrinsic matrix is singular, so no inverse exists.
#[derive(Clone, Copy, Debug, PartialEq, Eq, Structural)]
pub enum ConstructionError {
    SingularIntrinsics,
}

pub open spec fn entry(k: Intrinsics, i: int, j: int) -> int {
    k.m[i][j] as int
}

/// Entry (i, j) of the adjugate of `k`: the cofactor of entry (j, i).
pub open spec fn adjugate(k: Intrinsics, i: int, j: int) -> int {
    let (r0, r1) = if j == 0 { (1int, 2int) } else if j == 1 { (0int, 2int) } else { (0int, 1int) };
    let (c0, c1) = if i == 0 { (1int, 2int) } else if i == 1 { (0int, 2int) } else { (0int, 1int) };
    let minor = entry(k, r0, c0) * entry(k, r1, c1) - entry(k, r0, c1) * entry(k, r1, c0);
    if (i + j) % 2 == 0 { minor } else { -minor }
}

pub open spec fn determinant(k: Intrinsics) -> int {
    entry(k, 0, 0) * adjugate(k, 0, 0) + entry(k, 0, 1) * adjugate(k, 1, 0)
        + entry(k, 0, 2) * adjugate(k, 2, 0)
}

/// Division that rounds toward zero, as a cast of a real quotient to an integer does.
pub open spec fn trunc_div(a: int, b: int) -> int {
    let q = abs(a) / abs(b);
    if (a < 0) != (b < 0) { -q } else { q }
}

pub open spec fn abs(a: int) -> int {
    if a < 0 { -a } else { a }
}

/// The nearest value that an `i32` can hold.
pub open spec fn saturate(v: int) -> int {
    if v < i32::MIN { i32::MIN as int } else if v > i32::MAX { i32::MAX as int } else { v }
}

/// Row `i` of the adjugate applied to the homogeneous point (x, y, 1).
pub open spec fn adjugate_row_apply(k: Intrinsics, i: int, p: Point) -> int {
    adjugate(k, i, 0) * p.x + adjugate(k, i, 1) * p.y + adjugate(k, i, 2)
}

/// A ray in normalized camera coordinates, held exactly as the point
/// (x / den, y / den).
#[derive(Clone, Copy, Debug, PartialEq, Eq, Structural)]
pub struct Ray {
    pub x: i128,
    pub y: i128,
    pub den: i128,
}

/// The pixel-to-ray transform: `k`'s inverse, the adjugate over the
/// determinant, applied to (x, y, 1), the homogeneous coordinate dropped.
pub open spec fn ray_of(k: Intrinsics, p: Point) -> Ray {
    Ray {
        x: adjugate_row_apply(k, 0, p) as i128,
        y: adjugate_row_apply(k, 1, p) as i128,
        den: determinant(k) as i128,
    }
}

/// Row `i` of `k` applied to (r.x, r.y, r.den): the numerator of the pixel
/// coordinate over `r.den`.
pub open spec fn pixel_numerator(k: Intrinsics, i: int, r: Ray) -> int {
    entry(k, i, 0) * r.x + entry(k, i, 1) * r.y + entry(k, i, 2) * r.den
}

pub open spec fn fits_i128(v: int) -> bool {
    i128::MIN <= v <= i128::MAX
}

/// Row `i` of `k` applied to the ray stays within 128 bits at every step,
/// evaluated left to right.
pub open spec fn row_fits(k: Intrinsics, i: int, r: Ray) -> bool {
    &&& fits_i128(entry(k, i, 0) * r.x)
    &&& fits_i128(entry(k, i, 1) * r.y)
    &&& fits_i128(entry(k, i, 2) * r.den)
    &&& fits_i128(entry(k, i, 0) * r.x + entry(k, i, 1) * r.y)
    &&& fits_i128(pixel_numerator(k, i, r))
}

/// The ray-to-pixel transform can be computed in 128-bit arithmetic.
pub open spec fn pixel_defined(k: Intrinsics, r: Ray) -> bool {
    r.den != 0 && row_fits(k, 0, r) && row_fits(k, 1, r)
}

/// The ray-to-pixel transform: `k` applied to (x / den, y / den, 1), the
/// homogeneous coordinate dropped, each coordinate rounded toward zero and
/// held to the range of `i32`.
pub open spec fn pixel_of(k: Intrinsics, r: Ray) -> Point {
    Point {
        x: saturate(trunc_div(pixel_numerator(k, 0, r), r.den as int)) as i32,
        y: saturate(trunc_div(pixel_numerator(k, 1, r), r.den as int)) as i32,
    }
}

/// `k` has the shape of a camera intrinsic matrix in its last row.
pub open spec fn affine_last_row(k: Intrinsics) -> bool {
    entry(k, 2, 0) == 0 && entry(k, 2, 1) == 0 && entry(k, 2, 2) == 1
}

impl Intrinsics {
    /// Unit focal length with the principal point at the centre of a
    /// `width` by `height` image.
    pub fn for_resolution(width: u32, height: u32) -> (r: Intrinsics)
        ensures
            r.m == [[1i32, 0, (width / 2) as i32], [0i32, 1, (height / 2) as i32], [0i32, 0, 1]],
    {
        Intrinsics { m: [[1, 0, (width / 2) as i32], [0, 1, (height / 2) as i32], [0, 0, 1]] }
    }
}

/// A camera model: the intrinsic matrix and its exact inverse, held as the
/// adjugate over the determinant.
pub struct Camera {
    k: Intrinsics,
    inv_num: [[i128; 3]; 3],
    inv_den: i128,
}

proof fn lemma_mul_bounded(a: int, b: int, ba: int, bb: int)
    requires
        0 <= ba,
        0 <= bb,
        -ba <= a <= ba,
        -bb <= b <= bb,
    ensures
        -(ba * bb) <= a * b <= ba * bb,
{
    assert(-(ba * bb) <= a * b <= ba * bb) by (nonlinear_arith)
        requires
            0 <= ba,
            0 <= bb,
            -ba <= a <= ba,
            -bb <= b <= bb,
    ;
}

/// The product of two entries of `k`, less the product of two others.
fn minor(a: i32, b: i32, c: i32, d: i32) -> (r: i128)
    ensures
        r == a * b - c * d,
        -0x8000_0000_0000_0000 <= r <= 0x8000_0000_0000_0000,
{
    proof {
        lemma_mul_bounded(a as int, b as int, 0x8000_0000, 0x8000_0000);
        lemma_mul_bounded(c as int, d as int, 0x8000_0000, 0x8000_0000);
    }
    (a as i128) * (b as i128) - (c as i128) * (d as i128)
}

/// The magnitude of `a`, which a `u128` always holds.
fn magnitude(a: i128) -> (r: u128)
    ensures
        r == abs(a as int),
{
    if a < 0 {
        ((-(a + 1)) as u128) + 1
    } else {
        a as u128
    }
}

/// `a / b` rounded toward zero, held to the range of `i32`.
fn quotient_i32(a: i128, b: i128) -> (r: i32)
    requires
        b != 0,
    ensures
        r == saturate(trunc_div(a as int, b as int)),
{
    let q = magnitude(a) / magnitude(b);
    if (a < 0) != (b < 0) {
        if q > 0x8000_0000 {
            i32::MIN
        } else {
            (-(q as i64)) as i32
        }
    } else {
        if q > 0x7fff_ffff {
            i32::MAX
        } else {
            q as i32
        }
    }
}

impl Camera {
    pub closed spec fn intrinsics(&self) -> Intrinsics {
        self.k
    }

    pub closed spec fn wf(&self) -> bool {
        &&& forall|i: int, j: int|
            0 <= i < 3 && 0 <= j < 3 ==> self.inv_num[i][j] as int == #[trigger] adjugate(self.k, i, j)
        &&& self.inv_den as int == determinant(self.k)
        &&& self.inv_den != 0
    }

    /// Builds the camera model, failing exactly when `k` is singular.
    pub fn new(k: Intrinsics) -> (r: Result<Camera, ConstructionError>)
        ensures
            determinant(k) == 0 <==> r is Err,
            r matches Ok(c) ==> c.wf() && c.intrinsics() == k,
            r matches Err(e) ==> e == ConstructionError::SingularIntrinsics,
    {
        let m = &k.m;
        let a00 = minor(m[1][1], m[2][2], m[1][2], m[2][1]);
        let a01 = minor(m[0][2], m[2][1], m[0][1], m[2][2]);
        let a02 = minor(m[0][1], m[1][2], m[0][2], m[1][1]);
        let a10 = minor(m[1][2], m[2][0], m[1][0], m[2][2]);
        let a11 = minor(m[0][0], m[2][2], m[0][2], m[2][0]);
        let a12 = minor(m[0][2], m[1][0], m[0][0], m[1][2]);
        let a20 = minor(m[1][0], m[2][1], m[1][1], m[2][0]);
        let a21 = minor(m[0][1], m[2][0], m[0][0], m[2][1]);
        let a22 = minor(m[0][0], m[1][1], m[0][1], m[1][0]);
        proof {
            lemma_mul_bounded(m[0][0] as int, a00 as int, 0x8000_0000, 0x8000_0000_0000_0000);
            lemma_mul_bounded(m[0][1] as int, a10 as int, 0x8000_0000, 0x8000_0000_0000_0000);
            lemma_mul_bounded(m[0][2] as int, a20 as int, 0x8000_0000, 0x8000_0000_0000_0000);
        }
        let det = (m[0][0] as i128) * a00 + (m[0][1] as i128) * a10 + (m[0][2] as i128) * a20;
        if det == 0 {
            return Err(ConstructionError::SingularIntrinsics);
        }
        let inv_num = [[a00, a01, a02], [a10, a11, a12], [a20, a21, a22]];
        let c = Camera { k, inv_num, inv_den: det };
        assert forall|i: int, j: int| 0 <= i < 3 && 0 <= j < 3 implies c.inv_num[i][j] as int
            == #[trigger] adjugate(c.k, i, j) by {
            // one case per entry, so that each unfolds to its own cofactor
            if i == 0 {
                if j == 0 {
                } else if j == 1 {
                } else {
                }
            } else if i == 1 {
                if j == 0 {
                } else if j == 1 {
                } else {
                }
            } else {
                if j == 0 {
                } else if j == 1 {
                } else {
                }
            }
        }
        Ok(c)
    }

    /// Row `i` of the adjugate applied to (x, y, 1).
    fn adjugate_apply(&self, i: usize, p: Point) -> (r: i128)
        requires
            self.wf(),
            i < 2,
        ensures
            r == adjugate_row_apply(self.intrinsics(), i as int, p),
            -0x1_0000_0000_0000_0000_0000_0000 <= r <= 0x1_0000_0000_0000_0000_0000_0000,
    {
        let row = &self.inv_num[i];
        assert(row[0] as int == adjugate(self.k, i as int, 0));
        assert(row[1] as int == adjugate(self.k, i as int, 1));
        assert(row[2] as int == adjugate(self.k, i as int, 2));
        proof {
            lemma_adjugate_bounded(self.k, i as int, 0);
            lemma_adjugate_bounded(self.k, i as int, 1);
            lemma_adjugate_bounded(self.k, i as int, 2);
            lemma_mul_bounded(row[0] as int, p.x as int, 0x8000_0000_0000_0000, 0x8000_0000);
            lemma_mul_bounded(row[1] as int, p.y as int, 0x8000_0000_0000_0000, 0x8000_0000);
        }
        row[0] * (p.x as i128) + row[1] * (p.y as i128) + row[2]
    }

    /// Maps a pixel to its ray: the inverse intrinsics applied to (x, y, 1).
    pub fn to_ray(&self, p: Point) -> (r: Ray)
        requires
            self.wf(),
        ensures
            r == ray_of(self.intrinsics(), p),
    {
        proof {
            lemma_determinant_bounded(self.k);
        }
        Ray { x: self.adjugate_apply(0, p), y: self.adjugate_apply(1, p), den: self.inv_den }
    }

    /// Row `i` of the intrinsics applied to (r.x, r.y, r.den), or `None`
    /// where a step leaves 128 bits.
    fn row_numerator(&self, i: usize, r: Ray) -> (n: Option<i128>)
        requires
            i < 2,
        ensures
            n is Some <==> row_fits(self.intrinsics(), i as int, r),
            n matches Some(v) ==> v == pixel_numerator(self.intrinsics(), i as int, r),
    {
        let row = &self.k.m[i];
        let a = (row[0] as i128).checked_mul(r.x)?;
        let b = (row[1] as i128).checked_mul(r.y)?;
        let c = (row[2] as i128).checked_mul(r.den)?;
        let ab = a.checked_add(b)?;
        ab.checked_add(c)
    }

    /// Maps a ray back to its pixel: the intrinsics applied to
    /// (x / den, y / den, 1); `None` exactly where 128-bit arithmetic cannot
    /// hold the intermediate values.
    pub fn to_pixel(&self, r: Ray) -> (p: Option<Point>)
        ensures
            p is Some <==> pixel_defined(self.intrinsics(), r),
            p matches Some(q) ==> q == pixel_of(self.intrinsics(), r),
    {
        if r.den == 0 {
            return None;
        }
        let x = self.row_numerator(0, r)?;
        let y = self.row_numerator(1, r)?;
        Some(Point { x: quotient_i32(x, r.den), y: quotient_i32(y, r.den) })
    }
}

proof fn lemma_adjugate_bounded(k: Intrinsics, i: int, j: int)
    requires
        0 <= i < 3,
        0 <= j < 3,
    ensures
        -0x8000_0000_0000_0000 <= adjugate(k, i, j) <= 0x8000_0000_0000_0000,
{
    let (r0, r1) = if j == 0 { (1int, 2int) } else if j == 1 { (0int, 2int) } else { (0int, 1int) };
    let (c0, c1) = if i == 0 { (1int, 2int) } else if i == 1 { (0int, 2int) } else { (0int, 1int) };
    lemma_mul_bounded(entry(k, r0, c0), entry(k, r1, c1), 0x8000_0000, 0x8000_0000);
    lemma_mul_bounded(entry(k, r0, c1), entry(k, r1, c0), 0x8000_0000, 0x8000_0000);
}

proof fn lemma_determinant_bounded(k: Intrinsics)
    ensures
        -0x1_0000_0000_0000_0000_0000_0000 <= determinant(k) <= 0x1_0000_0000_0000_0000_0000_0000,
{
    lemma_adjugate_bounded(k, 0, 0);
    lemma_adjugate_bounded(k, 1, 0);
    lemma_adjugate_bounded(k, 2, 0);
    lemma_mul_bounded(entry(k, 0, 0), adjugate(k, 0, 0), 0x8000_0000, 0x8000_0000_0000_0000);
    lemma_mul_bounded(entry(k, 0, 1), adjugate(k, 1, 0), 0x8000_0000, 0x8000_0000_0000_0000);
    lemma_mul_bounded(entry(k, 0, 2), adjugate(k, 2, 0), 0x8000_0000, 0x8000_0000_0000_0000);
}

proof fn lemma_distribute(c: int, u: int, v: int, w: int, z: int)
    ensures
        c * (u + v + w + z) == c * u + c * v + c * w + c * z,
{
    assert(c * (u + v + w + z) == c * u + c * v + c * w + c * z) by (nonlinear_arith);
}

proof fn lemma_assoc(a: int, b: int, c: int)
    ensures
        a * (b * c) == (a * b) * c,
        a * (b * c) == (a * c) * b,
        a * (b * c) == (b * a) * c,
        a * (b * c) == (c * a) * b,
{
    assert(a * (b * c) == (a * b) * c) by (nonlinear_arith);
    assert(a * (b * c) == (a * c) * b) by (nonlinear_arith);
    assert(a * (b * c) == (b * a) * c) by (nonlinear_arith);
    assert(a * (b * c) == (c * a) * b) by (nonlinear_arith);
}

/// For `k` with last row (0, 0, 1): the first two rows of `k` times the
/// first two rows of its adjugate give the determinant times (x - k02, y - k12).
proof fn lemma_adjugate_product(k: Intrinsics, p: Point)
    requires
        affine_last_row(k),
    ensures
        entry(k, 0, 0) * adjugate_row_apply(k, 0, p) + entry(k, 0, 1) * adjugate_row_apply(k, 1, p)
            == determinant(k) * (p.x - entry(k, 0, 2)),
        entry(k, 1, 0) * adjugate_row_apply(k, 0, p) + entry(k, 1, 1) * adjugate_row_apply(k, 1, p)
            == determinant(k) * (p.y - entry(k, 1, 2)),
        determinant(k) == entry(k, 0, 0) * entry(k, 1, 1) - entry(k, 0, 1) * entry(k, 1, 0),
{
    let (k00, k01, k02) = (entry(k, 0, 0), entry(k, 0, 1), entry(k, 0, 2));
    let (k10, k11, k12) = (entry(k, 1, 0), entry(k, 1, 1), entry(k, 1, 2));
    let (k20, k21, k22) = (entry(k, 2, 0), entry(k, 2, 1), entry(k, 2, 2));
    let (x, y) = (p.x as int, p.y as int);
    assert(adjugate(k, 0, 0) == k11 * k22 - k12 * k21);
    assert(adjugate(k, 0, 1) == -(k01 * k22 - k02 * k21));
    assert(adjugate(k, 0, 2) == k01 * k12 - k02 * k11);
    assert(adjugate(k, 1, 0) == -(k10 * k22 - k12 * k20));
    assert(adjugate(k, 1, 1) == k00 * k22 - k02 * k20);
    assert(adjugate(k, 1, 2) == -(k00 * k12 - k02 * k10));
    assert(adjugate(k, 2, 0) == k10 * k21 - k11 * k20);
    assert(k22 == 1 && k21 == 0 && k20 == 0);
    assert(k11 * k22 == k11 && k12 * k21 == 0 && k01 * k22 == k01 && k02 * k21 == 0) by (nonlinear_arith)
        requires
            k22 == 1 && k21 == 0,
    ;
    assert(k10 * k22 == k10 && k12 * k20 == 0 && k00 * k22 == k00 && k02 * k20 == 0) by (nonlinear_arith)
        requires
            k22 == 1 && k20 == 0,
    ;
    assert(k10 * k21 == 0 && k11 * k20 == 0) by (nonlinear_arith)
        requires
            k21 == 0 && k20 == 0,
    ;
    let d = k00 * k11 - k01 * k10;
    assert(determinant(k) == d) by (nonlinear_arith)
        requires
            determinant(k) == k00 * adjugate(k, 0, 0) + k01 * adjugate(k, 1, 0) + k02 * adjugate(k, 2, 0),
            adjugate(k, 0, 0) == k11,
            adjugate(k, 1, 0) == -k10,
            adjugate(k, 2, 0) == 0,
            d == k00 * k11 - k01 * k10,
    ;
    let pp = k00 * k11;
    let q = k01 * k10;
    let m = k00 * k01;
    let a0 = adjugate_row_apply(k, 0, p);
    let a1 = adjugate_row_apply(k, 1, p);
    assert(a0 == k11 * x + (-k01) * y + k01 * k12 + -(k02 * k11)) by (nonlinear_arith)
        requires
            a0 == adjugate(k, 0, 0) * x + adjugate(k, 0, 1) * y + adjugate(k, 0, 2),
            adjugate(k, 0, 0) == k11,
            adjugate(k, 0, 1) == -k01,
            adjugate(k, 0, 2) == k01 * k12 - k02 * k11,
    ;
    assert(a1 == (-k10) * x + k00 * y + k02 * k10 + -(k00 * k12)) by (nonlinear_arith)
        requires
            a1 == adjugate(k, 1, 0) * x + adjugate(k, 1, 1) * y + adjugate(k, 1, 2),
            adjugate(k, 1, 0) == -k10,
            adjugate(k, 1, 1) == k00,
            adjugate(k, 1, 2) == k02 * k10 - k00 * k12,
    ;
    // first row
    lemma_distribute(k00, k11 * x, (-k01) * y, k01 * k12, -(k02 * k11));
    lemma_distribute(k01, (-k10) * x, k00 * y, k02 * k10, -(k00 * k12));
    lemma_assoc(k00, k11, x);
    lemma_assoc(k00, -k01, y);
    lemma_assoc(k00, k01, k12);
    lemma_assoc(k00, k02, k11);
    lemma_assoc(k01, -k10, x);
    lemma_assoc(k01, k00, y);
    lemma_assoc(k01, k02, k10);
    lemma_assoc(k01, k00, k12);
    assert(k00 * (-k01) == -m && k01 * (-k10) == -q && k00 * (-(k02 * k11)) == -(k00 * (k02 * k11))
        && k01 * (-(k00 * k12)) == -(k01 * (k00 * k12))) by (nonlinear_arith)
        requires
            m == k00 * k01,
            q == k01 * k10,
    ;
    assert(-m * y == -(m * y) && -q * x == -(q * x)) by (nonlinear_arith);
    assert(d * (x - k02) == pp * x - q * x - pp * k02 + q * k02) by (nonlinear_arith)
        requires
            d == pp - q,
    ;
    assert(pp * k02 == k02 * pp && q * k02 == k02 * q) by (nonlinear_arith);
    assert(k00 * a0 + k01 * a1 == d * (x - k02));
    // second row
    lemma_distribute(k10, k11 * x, (-k01) * y, k01 * k12, -(k02 * k11));
    lemma_distribute(k11, (-k10) * x, k00 * y, k02 * k10, -(k00 * k12));
    lemma_assoc(k10, k11, x);
    lemma_assoc(k10, -k01, y);
    lemma_assoc(k10, k01, k12);
    lemma_assoc(k10, k02, k11);
    lemma_assoc(k11, -k10, x);
    lemma_assoc(k11, k00, y);
    lemma_assoc(k11, k02, k10);
    lemma_assoc(k11, k00, k12);
    assert(k10 * (-k01) == -q && k11 * (-k10) == -(k10 * k11) && k10 * (-(k02 * k11)) == -(k10
        * (k02 * k11)) && k11 * (-(k00 * k12)) == -(k11 * (k00 * k12))) by (nonlinear_arith)
        requires
            q == k01 * k10,
    ;
    assert(-q * y == -(q * y) && -(k10 * k11) * x == -((k10 * k11) * x)) by (nonlinear_arith);
    assert(k11 * k00 == pp && k10 * k11 == k11 * k10) by (nonlinear_arith)
        requires
            pp == k00 * k11,
    ;
    assert(d * (y - k12) == pp * y - q * y - pp * k12 + q * k12) by (nonlinear_arith)
        requires
            d == pp - q,
    ;
    assert(pp * k12 == k12 * pp && q * k12 == k12 * q) by (nonlinear_arith);
    assert(k10 * a0 + k11 * a1 == d * (y - k12));
}

/// Dividing `d * x` by `d` toward zero gives `x` back.
proof fn lemma_trunc_div_cancel(d: int, x: int)
    requires
        d != 0,
    ensures
        trunc_div(d * x, d) == x,
{
    assert(abs(d * x) == abs(d) * abs(x)) by (nonlinear_arith);
    vstd::arithmetic::div_mod::lemma_div_by_multiple(abs(x), abs(d));
    assert(abs(x) * abs(d) == abs(d) * abs(x)) by (nonlinear_arith);
    assert((d * x < 0) == ((d < 0) != (x < 0) && x != 0)) by (nonlinear_arith)
        requires
            d != 0,
    ;
}

proof fn lemma_adjugate_row_bounded(k: Intrinsics, i: int, p: Point)
    requires
        0 <= i < 3,
    ensures
        fits_i128(adjugate_row_apply(k, i, p)),
{
    lemma_adjugate_bounded(k, i, 0);
    lemma_adjugate_bounded(k, i, 1);
    lemma_adjugate_bounded(k, i, 2);
    lemma_mul_bounded(adjugate(k, i, 0), p.x as int, 0x8000_0000_0000_0000, 0x8000_0000);
    lemma_mul_bounded(adjugate(k, i, 1), p.y as int, 0x8000_0000_0000_0000, 0x8000_0000);
}

/// The ray coordinates of a pixel are sums of products of `i32` values
/// that 128 bits hold, so the ray holds them exactly.
proof fn lemma_ray_exact(k: Intrinsics, p: Point)
    ensures
        ray_of(k, p).x == adjugate_row_apply(k, 0, p),
        ray_of(k, p).y == adjugate_row_apply(k, 1, p),
        ray_of(k, p).den == determinant(k),
{
    lemma_determinant_bounded(k);
    lemma_adjugate_row_bounded(k, 0, p);
    lemma_adjugate_row_bounded(k, 1, p);
}

/// The pixel-to-ray transform and its inverse undo each other: for every
/// invertible intrinsic matrix with last row (0, 0, 1), mapping any pixel to
/// its exact ray and back gives the pixel again.
pub proof fn lemma_ray_round_trip(k: Intrinsics, p: Point)
    requires
        affine_last_row(k),
        determinant(k) != 0,
    ensures
        pixel_of(k, ray_of(k, p)) == p,
{
    lemma_ray_exact(k, p);
    lemma_adjugate_product(k, p);
    let d = determinant(k);
    let r = ray_of(k, p);
    let (x, y) = (p.x as int, p.y as int);
    assert(pixel_numerator(k, 0, r) == d * x) by (nonlinear_arith)
        requires
            pixel_numerator(k, 0, r) == entry(k, 0, 0) * r.x + entry(k, 0, 1) * r.y + entry(k, 0, 2)
                * r.den,
            entry(k, 0, 0) * r.x + entry(k, 0, 1) * r.y == d * (x - entry(k, 0, 2)),
            r.den == d,
    ;
    assert(pixel_numerator(k, 1, r) == d * y) by (nonlinear_arith)
        requires
            pixel_numerator(k, 1, r) == entry(k, 1, 0) * r.x + entry(k, 1, 1) * r.y + entry(k, 1, 2)
                * r.den,
            entry(k, 1, 0) * r.x + entry(k, 1, 1) * r.y == d * (y - entry(k, 1, 2)),
            r.den == d,
    ;
    lemma_trunc_div_cancel(d, x);
    lemma_trunc_div_cancel(d, y);
}

/// Entry (i, j) of the adjugate of `k` times `k`.
pub open spec fn adjugate_times(k: Intrinsics, i: int, j: int) -> int {
    adjugate(k, i, 0) * entry(k, 0, j) + adjugate(k, i, 1) * entry(k, 1, j) + adjugate(k, i, 2)
        * entry(k, 2, j)
}

proof fn lemma_sub_mul(u: int, v: int, w: int)
    ensures
        (u - v) * w == w * u - w * v,
{
    assert((u - v) * w == w * u - w * v) by (nonlinear_arith);
}

proof fn lemma_mul_sub(w: int, u: int, v: int)
    ensures
        w * (u - v) == w * u - w * v,
{
    assert(w * (u - v) == w * u - w * v) by (nonlinear_arith);
}

/// A product of three factors does not depend on their grouping or order.
proof fn lemma_monomial(x: int, y: int, z: int)
    ensures
        x * (y * z) == y * (x * z),
        x * (y * z) == y * (z * x),
        x * (y * z) == z * (x * y),
        x * (y * z) == z * (y * x),
{
    assert(x * (y * z) == y * (x * z)) by (nonlinear_arith);
    assert(x * (y * z) == y * (z * x)) by (nonlinear_arith);
    assert(x * (y * z) == z * (x * y)) by (nonlinear_arith);
    assert(x * (y * z) == z * (y * x)) by (nonlinear_arith);
}

proof fn lemma_cofactor_row(
    p0: int,
    p1: int,
    p2: int,
    q0: int,
    q1: int,
    q2: int,
    r0: int,
    r1: int,
    r2: int,
)
    ensures
        (q1 * r2 - q2 * r1) * p0 + (p2 * r1 - p1 * r2) * q0 + (p1 * q2 - p2 * q1) * r0 == p0 * (q1
            * r2 - q2 * r1) + p1 * (q2 * r0 - q0 * r2) + p2 * (q0 * r1 - q1 * r0),
        (q1 * r2 - q2 * r1) * p1 + (p2 * r1 - p1 * r2) * q1 + (p1 * q2 - p2 * q1) * r1 == 0,
        (q1 * r2 - q2 * r1) * p2 + (p2 * r1 - p1 * r2) * q2 + (p1 * q2 - p2 * q1) * r2 == 0,
{
    lemma_sub_mul(q1 * r2, q2 * r1, p0);
    lemma_sub_mul(p2 * r1, p1 * r2, q0);
    lemma_sub_mul(p1 * q2, p2 * q1, r0);
    lemma_mul_sub(p0, q1 * r2, q2 * r1);
    lemma_mul_sub(p1, q2 * r0, q0 * r2);
    lemma_mul_sub(p2, q0 * r1, q1 * r0);
    lemma_monomial(q0, p2, r1);
    lemma_monomial(q0, p1, r2);
    lemma_monomial(r0, p1, q2);
    lemma_monomial(r0, p2, q1);
    assert((q1 * r2 - q2 * r1) * p1 + (p2 * r1 - p1 * r2) * q1 + (p1 * q2 - p2 * q1) * r1 == 0)
        by (nonlinear_arith);
    assert((q1 * r2 - q2 * r1) * p2 + (p2 * r1 - p1 * r2) * q2 + (p1 * q2 - p2 * q1) * r2 == 0)
        by (nonlinear_arith);
}

/// The inverse that a camera holds is `k`'s inverse: the adjugate times `k`
/// is the determinant times the identity.
pub proof fn lemma_adjugate_inverse(k: Intrinsics)
    ensures
        forall|i: int, j: int|
            0 <= i < 3 && 0 <= j < 3 ==> #[trigger] adjugate_times(k, i, j) == if i == j {
                determinant(k)
            } else {
                0
            },
{
    let (a, b, c) = (entry(k, 0, 0), entry(k, 0, 1), entry(k, 0, 2));
    let (d, e, f) = (entry(k, 1, 0), entry(k, 1, 1), entry(k, 1, 2));
    let (g, h, l) = (entry(k, 2, 0), entry(k, 2, 1), entry(k, 2, 2));
    assert(adjugate(k, 0, 0) == e * l - f * h);
    assert(adjugate(k, 0, 1) == -(b * l - c * h));
    assert(adjugate(k, 0, 2) == b * f - c * e);
    assert(adjugate(k, 1, 0) == -(d * l - f * g));
    assert(adjugate(k, 1, 1) == a * l - c * g);
    assert(adjugate(k, 1, 2) == -(a * f - c * d));
    assert(adjugate(k, 2, 0) == d * h - e * g);
    assert(adjugate(k, 2, 1) == -(a * h - b * g));
    assert(adjugate(k, 2, 2) == a * e - b * d);
    let det = determinant(k);
    // each row of the adjugate is a row of cofactors, so it meets its own
    // column of `k` in the determinant and the other two in zero
    lemma_cofactor_row(a, b, c, d, e, f, g, h, l);
    lemma_cofactor_row(b, c, a, e, f, d, h, l, g);
    lemma_cofactor_row(c, a, b, f, d, e, l, g, h);
    assert(det == a * (e * l - f * h) + b * (f * g - d * l) + c * (d * h - e * g)) by (nonlinear_arith)
        requires
            det == a * adjugate(k, 0, 0) + b * adjugate(k, 1, 0) + c * adjugate(k, 2, 0),
            adjugate(k, 0, 0) == e * l - f * h,
            adjugate(k, 1, 0) == -(d * l - f * g),
            adjugate(k, 2, 0) == d * h - e * g,
        ;
    assert forall|i: int, j: int| 0 <= i < 3 && 0 <= j < 3 implies #[trigger] adjugate_times(
        k,
        i,
        j,
    ) == if i == j {
        det
    } else {
        0
    } by {
        // one case per entry, so that each unfolds to its own cofactors
        if i == 0 {
            if j == 0 {
            } else if j == 1 {
            } else {
            }
        } else if i == 1 {
            if j == 0 {
            } else if j == 1 {
            } else {
            }
        } else {
            if j == 0 {
            } else if j == 1 {
            } else {
            }
        }
    }
}

} // verus!
