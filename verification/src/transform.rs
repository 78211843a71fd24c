//! A 4x4 homogeneous transform: mapping a point between two reference
//! frames by one matrix multiplication.
//!
//! The matrix is always exactly 4x4; every construction path that would
//! produce another shape fails with a `ShapeError`. Entries are `i64`, so
//! composition is an exact integer matrix product and obeys the identity and
//! associativity laws precisely.
//!
//! Composition order: `a.compose(&b)` is the transform that applies `a`
//! first and `b` second. With points as column vectors this is the matrix
//! product `b * a`, matching the chaining of a frame-a-to-frame-b transform
//! with a frame-b-to-frame-c transform.
use vstd::prelude::*;

use crate::errors::PclError;
use crate::numeric::{div_trunc_i64, sabs, trunc_div};

verus! {

/// The mathematical value of a 4x4 entry array.
pub open spec fn rows_view(a: [[i64; 4]; 4]) -> Seq<Seq<int>> {
    Seq::new(4, |i: int| Seq::new(4, |j: int| a@[i]@[j] as int))
}

/// The mathematical value of row data supplied as nested vectors.
pub open spec fn nested_view(rows: Seq<Vec<i64>>) -> Seq<Seq<int>> {
    Seq::new(rows.len(), |i: int| Seq::new(rows[i]@.len(), |j: int| rows[i]@[j] as int))
}

/// A well-shaped 4x4 matrix of mathematical integers.
pub open spec fn mat_wf(m: Seq<Seq<int>>) -> bool {
    m.len() == 4 && (forall|i: int| 0 <= i < 4 ==> (#[trigger] m[i]).len() == 4)
}

/// The multiplicative identity matrix.
pub open spec fn mat_identity() -> Seq<Seq<int>> {
    seq![seq![1int, 0, 0, 0], seq![0int, 1, 0, 0], seq![0int, 0, 1, 0], seq![0int, 0, 0, 1]]
}

/// Entry `(i, j)` of the matrix product `a * b`.
pub open spec fn mm_entry(a: Seq<Seq<int>>, b: Seq<Seq<int>>, i: int, j: int) -> int {
    a[i][0] * b[0][j] + a[i][1] * b[1][j] + a[i][2] * b[2][j] + a[i][3] * b[3][j]
}

/// The 4x4 matrix product `a * b`.
pub open spec fn mat_mul_spec(a: Seq<Seq<int>>, b: Seq<Seq<int>>) -> Seq<Seq<int>> {
    Seq::new(4, |i: int| Seq::new(4, |j: int| mm_entry(a, b, i, j)))
}

/// Every term and sum of the product `a * b` stays within `i64`: the sum of
/// the four term magnitudes of each entry is at most `i64::MAX`, so no
/// partial sum, in any order, can leave the machine range.
pub open spec fn mm_fits(a: Seq<Seq<int>>, b: Seq<Seq<int>>) -> bool {
    forall|i: int, j: int|
        0 <= i < 4 && 0 <= j < 4 ==> #[trigger] mm_abs_bound(a, b, i, j) <= i64::MAX
}

/// The sum of the magnitudes of the four terms of entry `(i, j)` of `a * b`.
pub open spec fn mm_abs_bound(a: Seq<Seq<int>>, b: Seq<Seq<int>>, i: int, j: int) -> int {
    sabs(a[i][0] * b[0][j]) + sabs(a[i][1] * b[1][j]) + sabs(a[i][2] * b[2][j]) + sabs(
        a[i][3] * b[3][j],
    )
}

/// Component `i` of `m` applied to the homogeneous column `[x, y, z, 1]`.
pub open spec fn apply_entry(m: Seq<Seq<int>>, x: int, y: int, z: int, i: int) -> int {
    m[i][0] * x + m[i][1] * y + m[i][2] * z + m[i][3]
}

/// The sum of the term magnitudes of each component of `m * [x, y, z, 1]`
/// stays within `i64`.
pub open spec fn apply_fits(m: Seq<Seq<int>>, x: int, y: int, z: int) -> bool {
    forall|i: int|
        0 <= i < 4 ==> #[trigger] (sabs(m[i][0] * x) + sabs(m[i][1] * y) + sabs(m[i][2] * z) + sabs(
            m[i][3],
        )) <= i64::MAX
}

/// The coordinates produced by applying `m` to `(x, y, z)` in homogeneous
/// form: the column `[x, y, z, 1]` is multiplied by `m`, and the first three
/// components are divided by the weight `w` unless the weight is degenerate.
/// With integer entries every nonzero weight exceeds the small epsilon used
/// for this check by floating-point implementations, so the degenerate case
/// is exactly `w == 0`: the unnormalized components are then returned
/// unchanged (a documented policy, not an error).
pub open spec fn apply_spec(m: Seq<Seq<int>>, x: int, y: int, z: int) -> (int, int, int) {
    let hx = apply_entry(m, x, y, z, 0);
    let hy = apply_entry(m, x, y, z, 1);
    let hz = apply_entry(m, x, y, z, 2);
    let w = apply_entry(m, x, y, z, 3);
    if w != 0 {
        (trunc_div(hx, w), trunc_div(hy, w), trunc_div(hz, w))
    } else {
        (hx, hy, hz)
    }
}

/// The z coordinate a point contributes to a transform: absent means the
/// plane `z == 0`.
pub open spec fn z_or_zero(z: Option<i64>) -> int {
    match z {
        Some(v) => v as int,
        None => 0,
    }
}

/// Relies on ndarray's matrix product (`ArrayRef::<i64, Ix2>::dot`, reached
/// through `Array2::dot`): for integer element types it computes each entry
/// of the result as the left-to-right sum `a[i][0]*b[0][j] + ... +
/// a[i][3]*b[3][j]`, exactly. The `mm_fits` bound keeps every term and every
/// partial sum inside `i64`, so no addition or multiplication overflows.
/// `Array2::from_shape_vec` only converts the fixed-shape input.
#[verifier::external_body]
fn mat4_dot(a: &[[i64; 4]; 4], b: &[[i64; 4]; 4]) -> (r: [[i64; 4]; 4])
    requires
        mm_fits(rows_view(*a), rows_view(*b)),
    ensures
        rows_view(r) == mat_mul_spec(rows_view(*a), rows_view(*b)),
{
    let av = ndarray::Array2::from_shape_vec((4, 4), a.iter().flatten().copied().collect())
        .unwrap();
    let bv = ndarray::Array2::from_shape_vec((4, 4), b.iter().flatten().copied().collect())
        .unwrap();
    let c = av.dot(&bv);
    std::array::from_fn(|i| std::array::from_fn(|j| c[(i, j)]))
}

/// A 4x4 homogeneous transform between two reference frames.
#[derive(Clone, Copy, Debug, PartialEq, Eq)]
pub struct Transform {
    rows: [[i64; 4]; 4],
}

impl View for Transform {
    type V = Seq<Seq<int>>;

    closed spec fn view(&self) -> Seq<Seq<int>> {
        rows_view(self.rows)
    }
}

impl Transform {
    /// The view of a transform is always a well-shaped 4x4 matrix.
    pub proof fn lemma_wf(&self)
        ensures
            mat_wf(self@),
    {
    }

    /// A transform from a row-major 4x4 entry array; the shape is right by
    /// construction.
    pub fn from(a: [[i64; 4]; 4]) -> (t: Transform)
        ensures
            t@ == rows_view(a),
    {
        Transform { rows: a }
    }

    /// A transform from row data: fails with the offending shape unless
    /// exactly four rows of four entries are supplied.
    pub fn from_rows(rows: Vec<Vec<i64>>) -> (r: Result<Transform, PclError>)
        ensures
            match r {
                Ok(t) => rows@.len() == 4 && (forall|i: int|
                    0 <= i < 4 ==> (#[trigger] rows@[i])@.len() == 4) && t@ == nested_view(rows@),
                Err(e) => {
                    &&& e matches PclError::ShapeError { rows: er, cols: ec }
                    &&& if rows@.len() != 4 {
                        er == rows@.len() && ec == (if rows@.len() == 0 {
                            0int
                        } else {
                            rows@[0]@.len() as int
                        })
                    } else {
                        exists|i: int|
                            0 <= i < 4 && (#[trigger] rows@[i])@.len() != 4 && (forall|j: int|
                                0 <= j < i ==> (#[trigger] rows@[j])@.len() == 4) && er == 4 && ec
                                == rows@[i]@.len()
                    }
                },
            },
    {
        if rows.len() != 4 {
            let cols = if rows.len() == 0 {
                0
            } else {
                rows[0].len()
            };
            return Err(PclError::ShapeError { rows: rows.len(), cols });
        }
        let mut a: [[i64; 4]; 4] = [[0; 4]; 4];
        let mut i: usize = 0;
        while i < 4
            invariant
                i <= 4,
                rows@.len() == 4,
                forall|j: int| 0 <= j < i ==> (#[trigger] rows@[j])@.len() == 4,
                forall|j: int, k: int|
                    0 <= j < i && 0 <= k < 4 ==> a@[j]@[k] == (#[trigger] rows@[j]@[k]),
            decreases 4 - i,
        {
            if rows[i].len() != 4 {
                return Err(PclError::ShapeError { rows: 4, cols: rows[i].len() });
            }
            let mut k: usize = 0;
            while k < 4
                invariant
                    i < 4,
                    k <= 4,
                    rows@.len() == 4,
                    rows@[i as int]@.len() == 4,
                    forall|j: int| 0 <= j < i ==> (#[trigger] rows@[j])@.len() == 4,
                    forall|j: int, k2: int|
                        0 <= j < i && 0 <= k2 < 4 ==> a@[j]@[k2] == (#[trigger] rows@[j]@[k2]),
                    forall|k2: int| 0 <= k2 < k ==> a@[i as int]@[k2] == (#[trigger] rows@[i as int]@[k2]),
                decreases 4 - k,
            {
                let v = rows[i][k];
                a[i][k] = v;
                k = k + 1;
            }
            i = i + 1;
        }
        let t = Transform { rows: a };
        proof {
            assert forall|i2: int, j2: int| 0 <= i2 < 4 && 0 <= j2 < 4 implies t@[i2][j2]
                == nested_view(rows@)[i2][j2] by {
                assert(a@[i2]@[j2] == rows@[i2]@[j2]);
            }
            assert(t@ =~~= nested_view(rows@));
        }
        Ok(t)
    }

    /// The identity transform: applying it maps every coordinate to itself.
    pub fn identity() -> (t: Transform)
        ensures
            t@ == mat_identity(),
    {
        let t = Transform {
            rows: [[1, 0, 0, 0], [0, 1, 0, 0], [0, 0, 1, 0], [0, 0, 0, 1]],
        };
        proof {
            assert(t@ =~~= mat_identity());
        }
        t
    }

    /// The transform that applies `self` first and `other` second; neither
    /// operand is changed. As matrices over points as column vectors this is
    /// the exact integer product `other * self`, so it requires the product
    /// to stay within the machine range; `compose_checked` tests that bound
    /// at run time instead.
    pub fn compose(&self, other: &Transform) -> (t: Transform)
        requires
            mm_fits(other@, self@),
        ensures
            t@ == mat_mul_spec(other@, self@),
    {
        Transform { rows: mat4_dot(&other.rows, &self.rows) }
    }

    /// `compose`, with the machine-range bound checked at run time: the
    /// composed transform, or `None` exactly when some entry of the product
    /// would have a term-magnitude sum beyond `i64`.
    pub fn compose_checked(&self, other: &Transform) -> (r: Option<Transform>)
        ensures
            match r {
                Some(t) => mm_fits(other@, self@) && t@ == mat_mul_spec(other@, self@),
                None => !mm_fits(other@, self@),
            },
    {
        if mm_fits_check(&other.rows, &self.rows) {
            Some(self.compose(other))
        } else {
            None
        }
    }

    /// The coordinates of `(x, y, z)` mapped through this transform in
    /// homogeneous form; a missing z is treated as the plane `z == 0`. The
    /// three components of `m * [x, y, z, 1]` are divided by the weight (the
    /// fourth component), truncating toward zero, unless the weight is zero:
    /// then the unnormalized components are returned unchanged, a documented
    /// degenerate-weight policy rather than an error.
    pub fn apply_to_point(&self, x: i64, y: i64, z: Option<i64>) -> (r: (i64, i64, i64))
        requires
            apply_fits(self@, x as int, y as int, z_or_zero(z)),
        ensures
            (r.0 as int, r.1 as int, r.2 as int) == apply_spec(
                self@,
                x as int,
                y as int,
                z_or_zero(z),
            ),
    {
        let zv: i64 = match z {
            Some(v) => v,
            None => 0,
        };
        let col: [[i64; 4]; 4] = [[x, 0, 0, 0], [y, 0, 0, 0], [zv, 0, 0, 0], [1, 0, 0, 0]];
        let ghost gcol = rows_view(col);
        proof {
            assert(gcol[0][0] == x && gcol[1][0] == y && gcol[2][0] == zv && gcol[3][0] == 1);
            assert(forall|k: int, j: int| 0 <= k < 4 && 1 <= j < 4 ==> #[trigger] gcol[k][j] == 0);
            lemma_apply_fits_column(self@, gcol, x as int, y as int, zv as int);
        }
        let c = mat4_dot(&self.rows, &col);
        let hx = c[0][0];
        let hy = c[1][0];
        let hz = c[2][0];
        let w = c[3][0];
        proof {
            lemma_column_product(self@, gcol, x as int, y as int, zv as int);
            lemma_apply_entry_bounded(self@, x as int, y as int, zv as int);
            let prod = mat_mul_spec(self@, gcol);
            assert(rows_view(c)[0][0] == c@[0]@[0] as int && rows_view(c)[1][0] == c@[1]@[0] as int
                && rows_view(c)[2][0] == c@[2]@[0] as int && rows_view(c)[3][0] == c@[3]@[0] as int);
            assert(hx as int == apply_entry(self@, x as int, y as int, zv as int, 0));
            assert(hy as int == apply_entry(self@, x as int, y as int, zv as int, 1));
            assert(hz as int == apply_entry(self@, x as int, y as int, zv as int, 2));
            assert(w as int == apply_entry(self@, x as int, y as int, zv as int, 3));
            assert(sabs(hx as int) <= i64::MAX && sabs(hy as int) <= i64::MAX && sabs(hz as int)
                <= i64::MAX);
        }
        if w != 0 {
            (div_trunc_i64(hx, w), div_trunc_i64(hy, w), div_trunc_i64(hz, w))
        } else {
            (hx, hy, hz)
        }
    }

    /// The entries as a row-major 4x4 array.
    pub fn rows(&self) -> (r: [[i64; 4]; 4])
        ensures
            rows_view(r) == self@,
    {
        self.rows
    }

    /// `apply_to_point`, with the machine-range bound checked at run time:
    /// the mapped coordinates, or `None` exactly when some component of the
    /// product would have a term-magnitude sum beyond `i64`.
    pub fn apply_to_point_checked(&self, x: i64, y: i64, z: Option<i64>) -> (r: Option<
        (i64, i64, i64),
    >)
        ensures
            match r {
                Some(p) => apply_fits(self@, x as int, y as int, z_or_zero(z)) && (
                p.0 as int,
                p.1 as int,
                p.2 as int,
                ) == apply_spec(self@, x as int, y as int, z_or_zero(z)),
                None => !apply_fits(self@, x as int, y as int, z_or_zero(z)),
            },
    {
        let zv: i64 = match z {
            Some(v) => v,
            None => 0,
        };
        if apply_fits_check(&self.rows, x, y, zv) {
            Some(self.apply_to_point(x, y, z))
        } else {
            None
        }
    }
}

impl Default for Transform {
    /// The identity transform.
    fn default() -> (t: Transform)
        ensures
            t@ == mat_identity(),
    {
        Transform::identity()
    }
}

/// The magnitude of `a * b` as an exact `u128`.
fn abs_product(a: i64, b: i64) -> (r: u128)
    ensures
        r == sabs((a as int) * (b as int)),
{
    let ma = crate::numeric::magnitude_i64(a);
    let mb = crate::numeric::magnitude_i64(b);
    proof {
        assert((ma as int) * (mb as int) == sabs((a as int) * (b as int)) && (ma as int) * (
        mb as int) <= u128::MAX) by (nonlinear_arith)
            requires
                ma == sabs(a as int),
                mb == sabs(b as int),
                ma <= 9223372036854775808u64,
                mb <= 9223372036854775808u64,
        ;
    }
    (ma as u128) * (mb as u128)
}

/// Whether the term-magnitude sum of every entry of `a * b` stays within
/// `i64`, computed exactly.
fn mm_fits_check(a: &[[i64; 4]; 4], b: &[[i64; 4]; 4]) -> (r: bool)
    ensures
        r == mm_fits(rows_view(*a), rows_view(*b)),
{
    let ghost ga = rows_view(*a);
    let ghost gb = rows_view(*b);
    let mut i: usize = 0;
    while i < 4
        invariant
            i <= 4,
            ga == rows_view(*a),
            gb == rows_view(*b),
            forall|i2: int, j2: int|
                0 <= i2 < i && 0 <= j2 < 4 ==> #[trigger] mm_abs_bound(ga, gb, i2, j2) <= i64::MAX,
        decreases 4 - i,
    {
        let mut j: usize = 0;
        while j < 4
            invariant
                i < 4,
                j <= 4,
                ga == rows_view(*a),
                gb == rows_view(*b),
                forall|i2: int, j2: int|
                    0 <= i2 < i && 0 <= j2 < 4 ==> #[trigger] mm_abs_bound(ga, gb, i2, j2)
                        <= i64::MAX,
                forall|j2: int|
                    0 <= j2 < j ==> #[trigger] mm_abs_bound(ga, gb, i as int, j2) <= i64::MAX,
            decreases 4 - j,
        {
            let t0 = abs_product(a[i][0], b[0][j]);
            let t1 = abs_product(a[i][1], b[1][j]);
            let t2 = abs_product(a[i][2], b[2][j]);
            let t3 = abs_product(a[i][3], b[3][j]);
            proof {
                assert(ga[i as int][0] == a@[i as int]@[0] as int && ga[i as int][1] == a@[i as int]@[1]
                    as int && ga[i as int][2] == a@[i as int]@[2] as int && ga[i as int][3]
                    == a@[i as int]@[3] as int);
                assert(gb[0][j as int] == b@[0]@[j as int] as int && gb[1][j as int]
                    == b@[1]@[j as int] as int && gb[2][j as int] == b@[2]@[j as int] as int && gb[3][j as int]
                    == b@[3]@[j as int] as int);
                assert(mm_abs_bound(ga, gb, i as int, j as int) == t0 + t1 + t2 + t3);
            }
            let s01 = match t0.checked_add(t1) {
                Some(v) => v,
                None => {
                    proof {
                        assert(mm_abs_bound(ga, gb, i as int, j as int) > i64::MAX);
                    }
                    return false;
                },
            };
            let s012 = match s01.checked_add(t2) {
                Some(v) => v,
                None => {
                    proof {
                        assert(mm_abs_bound(ga, gb, i as int, j as int) > i64::MAX);
                    }
                    return false;
                },
            };
            let s = match s012.checked_add(t3) {
                Some(v) => v,
                None => {
                    proof {
                        assert(mm_abs_bound(ga, gb, i as int, j as int) > i64::MAX);
                    }
                    return false;
                },
            };
            if s > 9223372036854775807u128 {
                proof {
                    assert(mm_abs_bound(ga, gb, i as int, j as int) > i64::MAX);
                }
                return false;
            }
            j = j + 1;
        }
        i = i + 1;
    }
    true
}

/// Whether the term-magnitude sum of every component of `m * [x, y, z, 1]`
/// stays within `i64`, computed exactly.
fn apply_fits_check(m: &[[i64; 4]; 4], x: i64, y: i64, z: i64) -> (r: bool)
    ensures
        r == apply_fits(rows_view(*m), x as int, y as int, z as int),
{
    let ghost gm = rows_view(*m);
    let mut i: usize = 0;
    while i < 4
        invariant
            i <= 4,
            gm == rows_view(*m),
            forall|i2: int|
                0 <= i2 < i ==> #[trigger] (sabs(gm[i2][0] * x) + sabs(gm[i2][1] * y) + sabs(
                    gm[i2][2] * z,
                ) + sabs(gm[i2][3])) <= i64::MAX,
        decreases 4 - i,
    {
        let t0 = abs_product(m[i][0], x);
        let t1 = abs_product(m[i][1], y);
        let t2 = abs_product(m[i][2], z);
        let t3 = abs_product(m[i][3], 1);
        proof {
            assert(gm[i as int][0] == m@[i as int]@[0] as int && gm[i as int][1] == m@[i as int]@[1]
                as int && gm[i as int][2] == m@[i as int]@[2] as int && gm[i as int][3]
                == m@[i as int]@[3] as int);
            assert(t3 == sabs(gm[i as int][3]));
            assert(sabs(gm[i as int][0] * x) + sabs(gm[i as int][1] * y) + sabs(
                gm[i as int][2] * z,
            ) + sabs(gm[i as int][3]) == t0 + t1 + t2 + t3);
        }
        let s01 = match t0.checked_add(t1) {
            Some(v) => v,
            None => {
                proof {
                    assert(sabs(gm[i as int][0] * x) + sabs(gm[i as int][1] * y) + sabs(
                        gm[i as int][2] * z,
                    ) + sabs(gm[i as int][3]) > i64::MAX);
                }
                return false;
            },
        };
        let s012 = match s01.checked_add(t2) {
            Some(v) => v,
            None => {
                proof {
                    assert(sabs(gm[i as int][0] * x) + sabs(gm[i as int][1] * y) + sabs(
                        gm[i as int][2] * z,
                    ) + sabs(gm[i as int][3]) > i64::MAX);
                }
                return false;
            },
        };
        let s = match s012.checked_add(t3) {
            Some(v) => v,
            None => {
                proof {
                    assert(sabs(gm[i as int][0] * x) + sabs(gm[i as int][1] * y) + sabs(
                        gm[i as int][2] * z,
                    ) + sabs(gm[i as int][3]) > i64::MAX);
                }
                return false;
            },
        };
        if s > 9223372036854775807u128 {
            proof {
                assert(sabs(gm[i as int][0] * x) + sabs(gm[i as int][1] * y) + sabs(
                    gm[i as int][2] * z,
                ) + sabs(gm[i as int][3]) > i64::MAX);
            }
            return false;
        }
        i = i + 1;
    }
    true
}

/// Lifting `apply_fits` to the padded column matrix: the extra columns are
/// zero, so their term sums vanish.
proof fn lemma_apply_fits_column(m: Seq<Seq<int>>, col: Seq<Seq<int>>, x: int, y: int, z: int)
    requires
        apply_fits(m, x, y, z),
        mat_wf(col),
        col[0][0] == x && col[1][0] == y && col[2][0] == z && col[3][0] == 1,
        forall|k: int, j: int| 0 <= k < 4 && 1 <= j < 4 ==> #[trigger] col[k][j] == 0,
    ensures
        mm_fits(m, col),
{
    assert forall|i: int, j: int| 0 <= i < 4 && 0 <= j < 4 implies #[trigger] mm_abs_bound(
        m,
        col,
        i,
        j,
    ) <= i64::MAX by {
        if j == 0 {
            assert(m[i][3] * col[3][0] == m[i][3]) by (nonlinear_arith)
                requires
                    col[3][0] == 1,
            ;
            assert(mm_abs_bound(m, col, i, 0) == sabs(m[i][0] * x) + sabs(m[i][1] * y) + sabs(
                m[i][2] * z,
            ) + sabs(m[i][3]));
        } else {
            assert(m[i][0] * col[0][j] == 0 && m[i][1] * col[1][j] == 0 && m[i][2] * col[2][j] == 0
                && m[i][3] * col[3][j] == 0) by (nonlinear_arith)
                requires
                    col[0][j] == 0 && col[1][j] == 0 && col[2][j] == 0 && col[3][j] == 0,
            ;
        }
    }
}

/// The first column of `m * col` is `m` applied to `[x, y, z, 1]`.
proof fn lemma_column_product(m: Seq<Seq<int>>, col: Seq<Seq<int>>, x: int, y: int, z: int)
    requires
        col[0][0] == x && col[1][0] == y && col[2][0] == z && col[3][0] == 1,
    ensures
        forall|i: int|
            0 <= i < 4 ==> #[trigger] mat_mul_spec(m, col)[i][0] == apply_entry(m, x, y, z, i),
{
    assert forall|i: int| 0 <= i < 4 implies #[trigger] mat_mul_spec(m, col)[i][0] == apply_entry(
        m,
        x,
        y,
        z,
        i,
    ) by {
        assert(mat_mul_spec(m, col)[i][0] == mm_entry(m, col, i, 0));
        assert(m[i][3] * col[3][0] == m[i][3]) by (nonlinear_arith)
            requires
                col[3][0] == 1,
        ;
    }
}

/// Under `apply_fits`, each component of `m` applied to `[x, y, z, 1]` has
/// magnitude at most `i64::MAX`.
proof fn lemma_apply_entry_bounded(m: Seq<Seq<int>>, x: int, y: int, z: int)
    requires
        apply_fits(m, x, y, z),
    ensures
        forall|i: int| 0 <= i < 4 ==> sabs(#[trigger] apply_entry(m, x, y, z, i)) <= i64::MAX,
{
    assert forall|i: int| 0 <= i < 4 implies sabs(#[trigger] apply_entry(m, x, y, z, i))
        <= i64::MAX by {
        assert(sabs(m[i][0] * x) + sabs(m[i][1] * y) + sabs(m[i][2] * z) + sabs(m[i][3])
            <= i64::MAX);
        assert(sabs(m[i][0] * x + m[i][1] * y + m[i][2] * z + m[i][3]) <= sabs(m[i][0] * x) + sabs(
            m[i][1] * y,
        ) + sabs(m[i][2] * z) + sabs(m[i][3]));
    }
}

/// The identity matrix is a left and a right unit of the matrix product.
pub proof fn lemma_mat_mul_identity(m: Seq<Seq<int>>)
    requires
        mat_wf(m),
    ensures
        mat_mul_spec(mat_identity(), m) == m,
        mat_mul_spec(m, mat_identity()) == m,
{
    assert forall|i: int, j: int| 0 <= i < 4 && 0 <= j < 4 implies #[trigger] mat_mul_spec(
        mat_identity(),
        m,
    )[i][j] == m[i][j] by {
        assert(mat_mul_spec(mat_identity(), m)[i][j] == mm_entry(mat_identity(), m, i, j));
        if i == 0 {
            assert(mm_entry(mat_identity(), m, 0, j) == 1 * m[0][j] + 0 * m[1][j] + 0 * m[2][j] + 0
                * m[3][j]);
        } else if i == 1 {
            assert(mm_entry(mat_identity(), m, 1, j) == 0 * m[0][j] + 1 * m[1][j] + 0 * m[2][j] + 0
                * m[3][j]);
        } else if i == 2 {
            assert(mm_entry(mat_identity(), m, 2, j) == 0 * m[0][j] + 0 * m[1][j] + 1 * m[2][j] + 0
                * m[3][j]);
        } else {
            assert(mm_entry(mat_identity(), m, 3, j) == 0 * m[0][j] + 0 * m[1][j] + 0 * m[2][j] + 1
                * m[3][j]);
        }
    }
    assert forall|i: int, j: int| 0 <= i < 4 && 0 <= j < 4 implies #[trigger] mat_mul_spec(
        m,
        mat_identity(),
    )[i][j] == m[i][j] by {
        assert(mat_mul_spec(m, mat_identity())[i][j] == mm_entry(m, mat_identity(), i, j));
        if j == 0 {
            assert(mm_entry(m, mat_identity(), i, 0) == m[i][0] * 1 + m[i][1] * 0 + m[i][2] * 0
                + m[i][3] * 0);
        } else if j == 1 {
            assert(mm_entry(m, mat_identity(), i, 1) == m[i][0] * 0 + m[i][1] * 1 + m[i][2] * 0
                + m[i][3] * 0);
        } else if j == 2 {
            assert(mm_entry(m, mat_identity(), i, 2) == m[i][0] * 0 + m[i][1] * 0 + m[i][2] * 1
                + m[i][3] * 0);
        } else {
            assert(mm_entry(m, mat_identity(), i, 3) == m[i][0] * 0 + m[i][1] * 0 + m[i][2] * 0
                + m[i][3] * 1);
        }
    }
    assert forall|i: int| 0 <= i < 4 implies #[trigger] mat_mul_spec(mat_identity(), m)[i]
        == m[i] by {
        assert(mat_mul_spec(mat_identity(), m)[i].len() == 4);
        assert(m[i].len() == 4);
        assert(mat_mul_spec(mat_identity(), m)[i] =~= m[i]);
    }
    assert forall|i: int| 0 <= i < 4 implies #[trigger] mat_mul_spec(m, mat_identity())[i]
        == m[i] by {
        assert(mat_mul_spec(m, mat_identity())[i].len() == 4);
        assert(m[i].len() == 4);
        assert(mat_mul_spec(m, mat_identity())[i] =~= m[i]);
    }
    assert(mat_mul_spec(mat_identity(), m) =~= m);
    assert(mat_mul_spec(m, mat_identity()) =~= m);
}

/// The matrix product is associative.
pub proof fn lemma_mat_mul_assoc(a: Seq<Seq<int>>, b: Seq<Seq<int>>, c: Seq<Seq<int>>)
    requires
        mat_wf(a),
        mat_wf(b),
        mat_wf(c),
    ensures
        mat_mul_spec(mat_mul_spec(a, b), c) == mat_mul_spec(a, mat_mul_spec(b, c)),
{
    let ab = mat_mul_spec(a, b);
    let bc = mat_mul_spec(b, c);
    assert forall|i: int, j: int| 0 <= i < 4 && 0 <= j < 4 implies #[trigger] mat_mul_spec(
        mat_mul_spec(a, b),
        c,
    )[i][j] == mat_mul_spec(a, mat_mul_spec(b, c))[i][j] by {
        lemma_row_distributes(
            a[i][0],
            a[i][1],
            a[i][2],
            a[i][3],
            b[0][0],
            b[1][0],
            b[2][0],
            b[3][0],
            c[0][j],
        );
        lemma_row_distributes(
            a[i][0],
            a[i][1],
            a[i][2],
            a[i][3],
            b[0][1],
            b[1][1],
            b[2][1],
            b[3][1],
            c[1][j],
        );
        lemma_row_distributes(
            a[i][0],
            a[i][1],
            a[i][2],
            a[i][3],
            b[0][2],
            b[1][2],
            b[2][2],
            b[3][2],
            c[2][j],
        );
        lemma_row_distributes(
            a[i][0],
            a[i][1],
            a[i][2],
            a[i][3],
            b[0][3],
            b[1][3],
            b[2][3],
            b[3][3],
            c[3][j],
        );
        lemma_col_distributes(
            b[0][0] * c[0][j],
            b[0][1] * c[1][j],
            b[0][2] * c[2][j],
            b[0][3] * c[3][j],
            a[i][0],
        );
        lemma_col_distributes(
            b[1][0] * c[0][j],
            b[1][1] * c[1][j],
            b[1][2] * c[2][j],
            b[1][3] * c[3][j],
            a[i][1],
        );
        lemma_col_distributes(
            b[2][0] * c[0][j],
            b[2][1] * c[1][j],
            b[2][2] * c[2][j],
            b[2][3] * c[3][j],
            a[i][2],
        );
        lemma_col_distributes(
            b[3][0] * c[0][j],
            b[3][1] * c[1][j],
            b[3][2] * c[2][j],
            b[3][3] * c[3][j],
            a[i][3],
        );
        assert(mat_mul_spec(mat_mul_spec(a, b), c)[i][j] == mm_entry(ab, c, i, j));
        assert(mat_mul_spec(a, mat_mul_spec(b, c))[i][j] == mm_entry(a, bc, i, j));
        assert(ab[i][0] == mm_entry(a, b, i, 0) && ab[i][1] == mm_entry(a, b, i, 1) && ab[i][2]
            == mm_entry(a, b, i, 2) && ab[i][3] == mm_entry(a, b, i, 3));
        assert(bc[0][j] == mm_entry(b, c, 0, j) && bc[1][j] == mm_entry(b, c, 1, j) && bc[2][j]
            == mm_entry(b, c, 2, j) && bc[3][j] == mm_entry(b, c, 3, j));
    }
    assert(mat_mul_spec(mat_mul_spec(a, b), c) =~~= mat_mul_spec(a, mat_mul_spec(b, c)));
}

/// `(a0*b0 + a1*b1 + a2*b2 + a3*b3) * c` distributes into four three-factor
/// products.
proof fn lemma_row_distributes(
    a0: int,
    a1: int,
    a2: int,
    a3: int,
    b0: int,
    b1: int,
    b2: int,
    b3: int,
    c: int,
)
    ensures
        (a0 * b0 + a1 * b1 + a2 * b2 + a3 * b3) * c == a0 * (b0 * c) + a1 * (b1 * c) + a2 * (b2 * c)
            + a3 * (b3 * c),
{
    vstd::arithmetic::mul::lemma_mul_is_distributive_add_other_way(c, a0 * b0 + a1 * b1 + a2 * b2, a3 * b3);
    vstd::arithmetic::mul::lemma_mul_is_distributive_add_other_way(c, a0 * b0 + a1 * b1, a2 * b2);
    vstd::arithmetic::mul::lemma_mul_is_distributive_add_other_way(c, a0 * b0, a1 * b1);
    vstd::arithmetic::mul::lemma_mul_is_associative(a0, b0, c);
    vstd::arithmetic::mul::lemma_mul_is_associative(a1, b1, c);
    vstd::arithmetic::mul::lemma_mul_is_associative(a2, b2, c);
    vstd::arithmetic::mul::lemma_mul_is_associative(a3, b3, c);
}

/// `a * (p0 + p1 + p2 + p3)` distributes over the sum.
proof fn lemma_col_distributes(p0: int, p1: int, p2: int, p3: int, a: int)
    ensures
        a * (p0 + p1 + p2 + p3) == a * p0 + a * p1 + a * p2 + a * p3,
{
    vstd::arithmetic::mul::lemma_mul_is_distributive_add(a, p0 + p1 + p2, p3);
    vstd::arithmetic::mul::lemma_mul_is_distributive_add(a, p0 + p1, p2);
    vstd::arithmetic::mul::lemma_mul_is_distributive_add(a, p0, p1);
}

/// Composing a transform with the identity, on either side, maps every
/// coordinate triple exactly as the transform alone does.
pub proof fn lemma_compose_identity(t: Seq<Seq<int>>, x: int, y: int, z: int)
    requires
        mat_wf(t),
    ensures
        apply_spec(mat_mul_spec(mat_identity(), t), x, y, z) == apply_spec(t, x, y, z),
        apply_spec(mat_mul_spec(t, mat_identity()), x, y, z) == apply_spec(t, x, y, z),
{
    lemma_mat_mul_identity(t);
}

/// The identity transform maps every coordinate triple to itself.
pub proof fn lemma_identity_apply(x: int, y: int, z: int)
    ensures
        apply_spec(mat_identity(), x, y, z) == (x, y, z),
{
    let m = mat_identity();
    assert(apply_entry(m, x, y, z, 0) == 1 * x + 0 * y + 0 * z + 0);
    assert(apply_entry(m, x, y, z, 1) == 0 * x + 1 * y + 0 * z + 0);
    assert(apply_entry(m, x, y, z, 2) == 0 * x + 0 * y + 1 * z + 0);
    assert(apply_entry(m, x, y, z, 3) == 0 * x + 0 * y + 0 * z + 1);
    crate::numeric::lemma_trunc_div_by_one(x);
    crate::numeric::lemma_trunc_div_by_one(y);
    crate::numeric::lemma_trunc_div_by_one(z);
}

/// Composition is associative in its effect on coordinates: grouping three
/// transforms either way maps every coordinate triple identically. In the
/// composition order of `compose`, `t1.compose(&t2).compose(&t3)` has the
/// matrix `t3 * (t2 * t1)` and `t1.compose(&(t2.compose(&t3)))` the matrix
/// `(t3 * t2) * t1`.
pub proof fn lemma_compose_assoc(
    t1: Seq<Seq<int>>,
    t2: Seq<Seq<int>>,
    t3: Seq<Seq<int>>,
    x: int,
    y: int,
    z: int,
)
    requires
        mat_wf(t1),
        mat_wf(t2),
        mat_wf(t3),
    ensures
        apply_spec(mat_mul_spec(t3, mat_mul_spec(t2, t1)), x, y, z) == apply_spec(
            mat_mul_spec(mat_mul_spec(t3, t2), t1),
            x,
            y,
            z,
        ),
{
    lemma_mat_mul_assoc(t3, t2, t1);
}

} // verus!
