//! The column-oriented layout: one array per attribute, aligned by index.
//! Optional attribute columns are materialized the first time a point
//! carries the attribute, and earlier rows are backfilled with the default
//! (zero); afterwards every materialized column always holds exactly one
//! value per point. Schema queries read the column set in constant time.
//!
//! Per the layout's schema, the stored attributes are the coordinates, the
//! color channels, intensity, classification, and the named extension
//! attributes; a point's ring id and time offset are row-record attributes
//! and are not given columns here. An extension column never shadows a
//! fixed attribute's name: a point-carried extension attribute under a
//! fixed name materializes nothing, and installing a whole column under
//! one is refused, so the reported schema never lists a name twice.
//!
//! Capacity is tracked by an explicit counter, distinct from the length:
//! when a point would reach the capacity, the container grows by doubling
//! (bootstrapping to 16), uniformly for every materialized column. The
//! policy is a per-container configuration chosen at construction.
use vstd::prelude::*;

use crate::errors::PclError;
use crate::point::{
    clone_string, compare_str, get_extra, strings_view, unique_keys, Color, Point, PointView,
};
use crate::point_cloud::{cloud_fits, transformed_model, transformed_view, PointCloud};
use crate::transform::Transform;

verus! {

/// The mathematical value of the columns of a column-oriented cloud.
#[verifier::ext_equal]
pub ghost struct ColumnsView {
    pub xs: Seq<i64>,
    pub ys: Seq<i64>,
    pub zs: Option<Seq<i64>>,
    pub rs: Option<Seq<u8>>,
    pub gs: Option<Seq<u8>>,
    pub bs: Option<Seq<u8>>,
    pub alphas: Option<Seq<u8>>,
    pub intensities: Option<Seq<i64>>,
    pub classifications: Option<Seq<i64>>,
    pub extras: Seq<(Seq<char>, Seq<i64>)>,
}

/// `n` copies of `v`.
pub open spec fn filled<T>(v: T, n: nat) -> Seq<T> {
    Seq::new(n, |i: int| v)
}

/// The mathematical value of an optional column.
pub open spec fn opt_view<T>(c: Option<Vec<T>>) -> Option<Seq<T>> {
    match c {
        Some(v) => Some(v@),
        None => None,
    }
}

/// The mathematical value of the extension columns.
pub open spec fn extras_view(v: Seq<(String, Vec<i64>)>) -> Seq<(Seq<char>, Seq<i64>)> {
    Seq::new(v.len(), |j: int| (v[j].0@, v[j].1@))
}

/// The names of a sequence of columns, in order.
pub open spec fn col_names(cols: Seq<(Seq<char>, Seq<i64>)>) -> Seq<Seq<char>> {
    Seq::new(cols.len(), |j: int| cols[j].0)
}

/// An optional column of length `n` after appending to it: a present column
/// receives the value, or the default if the point lacks the attribute; an
/// absent column is materialized on the first value, backfilled with `n`
/// defaults; an absent column stays absent when no value arrives.
pub open spec fn opt_push<T>(col: Option<Seq<T>>, val: Option<T>, default: T, n: nat) -> Option<
    Seq<T>,
> {
    match col {
        Some(c) => Some(
            c.push(
                match val {
                    Some(v) => v,
                    None => default,
                },
            ),
        ),
        None => match val {
            Some(v) => Some(filled(default, n).push(v)),
            None => None,
        },
    }
}

/// The value a point supplies for the extension column named `name`: its
/// own value, or the default zero.
pub open spec fn extra_val(attrs: Seq<(Seq<char>, i64)>, name: Seq<char>) -> i64 {
    match get_extra(attrs, name) {
        Some(v) => v,
        None => 0,
    }
}

/// Whether `n` names a fixed attribute of the layout. The fixed attributes
/// have their own columns, so no extension column is ever created under
/// one of these names: the reported schema would list the name twice.
pub open spec fn is_reserved_name(n: Seq<char>) -> bool {
    ||| n == "x"@
    ||| n == "y"@
    ||| n == "z"@
    ||| n == "r"@
    ||| n == "g"@
    ||| n == "b"@
    ||| n == "a"@
    ||| n == "intensity"@
    ||| n == "classification"@
}

/// The extension columns a point's unseen attribute names materialize, in
/// the point's order: each is backfilled with `n` zeros and then holds the
/// point's value. A name that already has a column, or that names a fixed
/// attribute, materializes nothing.
pub open spec fn new_extras(
    names: Seq<Seq<char>>,
    attrs: Seq<(Seq<char>, i64)>,
    n: nat,
) -> Seq<(Seq<char>, Seq<i64>)>
    decreases attrs.len(),
{
    if attrs.len() == 0 {
        Seq::empty()
    } else {
        new_extras(names, attrs.drop_last(), n) + (if names.contains(attrs.last().0)
            || is_reserved_name(attrs.last().0) {
            Seq::<(Seq<char>, Seq<i64>)>::empty()
        } else {
            seq![(attrs.last().0, filled(0i64, n).push(attrs.last().1))]
        })
    }
}

/// The extension columns after appending a point: every existing column
/// receives the point's value for its name (or zero), and each attribute
/// name the point carries that has no column yet materializes a new,
/// backfilled column.
pub open spec fn extras_push(
    cols: Seq<(Seq<char>, Seq<i64>)>,
    attrs: Seq<(Seq<char>, i64)>,
    n: nat,
) -> Seq<(Seq<char>, Seq<i64>)> {
    Seq::new(cols.len(), |j: int| (cols[j].0, cols[j].1.push(extra_val(attrs, cols[j].0))))
        + new_extras(col_names(cols), attrs, n)
}

/// The red channel a point supplies, if it has a color.
pub open spec fn color_r(p: PointView) -> Option<u8> {
    match p.color {
        Some(c) => Some(c.r),
        None => None,
    }
}

/// The green channel a point supplies, if it has a color.
pub open spec fn color_g(p: PointView) -> Option<u8> {
    match p.color {
        Some(c) => Some(c.g),
        None => None,
    }
}

/// The blue channel a point supplies, if it has a color.
pub open spec fn color_b(p: PointView) -> Option<u8> {
    match p.color {
        Some(c) => Some(c.b),
        None => None,
    }
}

/// The alpha channel a point supplies, if it has one.
pub open spec fn color_a(p: PointView) -> Option<u8> {
    match p.color {
        Some(c) => c.a,
        None => None,
    }
}

/// All columns after appending a point: coordinates are pushed, each
/// optional column is pushed, materialized or left absent by `opt_push`,
/// and the extension columns follow `extras_push`.
pub open spec fn cols_push(c: ColumnsView, p: PointView) -> ColumnsView {
    let n = c.xs.len();
    ColumnsView {
        xs: c.xs.push(p.x),
        ys: c.ys.push(p.y),
        zs: opt_push(c.zs, p.z, 0i64, n),
        rs: opt_push(c.rs, color_r(p), 0u8, n),
        gs: opt_push(c.gs, color_g(p), 0u8, n),
        bs: opt_push(c.bs, color_b(p), 0u8, n),
        alphas: opt_push(c.alphas, color_a(p), 0u8, n),
        intensities: opt_push(c.intensities, p.intensity, 0i64, n),
        classifications: opt_push(c.classifications, p.classification, 0i64, n),
        extras: extras_push(c.extras, p.attributes, n),
    }
}

/// Every materialized column holds exactly one value per point, the three
/// color channels are materialized together, and an alpha column exists
/// only beside them.
pub open spec fn cols_synced(c: ColumnsView) -> bool {
    let n = c.xs.len();
    &&& c.ys.len() == n
    &&& match c.zs {
        Some(s) => s.len() == n,
        None => true,
    }
    &&& (c.rs is Some <==> c.gs is Some)
    &&& (c.rs is Some <==> c.bs is Some)
    &&& match c.rs {
        Some(s) => s.len() == n,
        None => true,
    }
    &&& match c.gs {
        Some(s) => s.len() == n,
        None => true,
    }
    &&& match c.bs {
        Some(s) => s.len() == n,
        None => true,
    }
    &&& match c.alphas {
        Some(s) => s.len() == n && c.rs is Some,
        None => true,
    }
    &&& match c.intensities {
        Some(s) => s.len() == n,
        None => true,
    }
    &&& match c.classifications {
        Some(s) => s.len() == n,
        None => true,
    }
    &&& forall|j: int| 0 <= j < c.extras.len() ==> (#[trigger] c.extras[j]).1.len() == n
}

/// No extension column shadows a fixed attribute's name.
pub open spec fn cols_extras_unreserved(c: ColumnsView) -> bool {
    forall|j: int| 0 <= j < c.extras.len() ==> !is_reserved_name((#[trigger] c.extras[j]).0)
}

/// The extension column names are unique.
pub open spec fn cols_names_unique(c: ColumnsView) -> bool {
    forall|j1: int, j2: int|
        0 <= j1 < j2 < c.extras.len() ==> (#[trigger] c.extras[j1]).0 != (#[trigger] c.extras[j2]).0
}

/// The point a caller observes at row `i` of the columns.
pub open spec fn row_view(c: ColumnsView, i: int) -> PointView {
    PointView {
        x: c.xs[i],
        y: c.ys[i],
        z: match c.zs {
            Some(s) => Some(s[i]),
            None => None,
        },
        color: match (c.rs, c.gs, c.bs) {
            (Some(r), Some(g), Some(b)) => Some(
                Color {
                    r: r[i],
                    g: g[i],
                    b: b[i],
                    a: match c.alphas {
                        Some(a) => Some(a[i]),
                        None => None,
                    },
                },
            ),
            _ => None,
        },
        intensity: match c.intensities {
            Some(s) => Some(s[i]),
            None => None,
        },
        classification: match c.classifications {
            Some(s) => Some(s[i]),
            None => None,
        },
        ring_id: None,
        time_offset: None,
        attributes: Seq::new(c.extras.len(), |j: int| (c.extras[j].0, c.extras[j].1[i])),
    }
}

/// The observable contents of the columns: one point per row.
pub open spec fn cols_model(c: ColumnsView) -> Seq<PointView> {
    Seq::new(c.xs.len(), |i: int| row_view(c, i))
}

/// The ordered attribute names the columns report.
pub open spec fn cols_names(c: ColumnsView) -> Seq<Seq<char>> {
    seq!["x"@, "y"@] + (if c.zs is Some {
        seq!["z"@]
    } else {
        Seq::<Seq<char>>::empty()
    }) + (if c.rs is Some {
        seq!["r"@, "g"@, "b"@]
    } else {
        Seq::<Seq<char>>::empty()
    }) + (if c.alphas is Some {
        seq!["a"@]
    } else {
        Seq::<Seq<char>>::empty()
    }) + (if c.intensities is Some {
        seq!["intensity"@]
    } else {
        Seq::<Seq<char>>::empty()
    }) + (if c.classifications is Some {
        seq!["classification"@]
    } else {
        Seq::<Seq<char>>::empty()
    }) + col_names(c.extras)
}

/// The column-oriented container.
#[derive(Debug)]
pub struct CompactPointCloud {
    xs: Vec<i64>,
    ys: Vec<i64>,
    zs: Option<Vec<i64>>,
    rs: Option<Vec<u8>>,
    gs: Option<Vec<u8>>,
    bs: Option<Vec<u8>>,
    alphas: Option<Vec<u8>>,
    intensities: Option<Vec<i64>>,
    classifications: Option<Vec<i64>>,
    extras: Vec<(String, Vec<i64>)>,
    capacity: usize,
    auto_grow: bool,
}

impl CompactPointCloud {
    /// The columns as mathematical sequences.
    pub closed spec fn cols(&self) -> ColumnsView {
        ColumnsView {
            xs: self.xs@,
            ys: self.ys@,
            zs: opt_view(self.zs),
            rs: opt_view(self.rs),
            gs: opt_view(self.gs),
            bs: opt_view(self.bs),
            alphas: opt_view(self.alphas),
            intensities: opt_view(self.intensities),
            classifications: opt_view(self.classifications),
            extras: extras_view(self.extras@),
        }
    }

    /// The capacity counter.
    pub closed spec fn capacity_spec(&self) -> nat {
        self.capacity as nat
    }

    /// Whether the container grows its capacity on its own when an append
    /// reaches the counter; chosen at construction.
    pub closed spec fn auto_grow_spec(&self) -> bool {
        self.auto_grow
    }

    /// How many points are stored.
    pub fn len(&self) -> (n: usize)
        ensures
            n == self.cols().xs.len(),
            n == self.model().len(),
    {
        self.xs.len()
    }

    /// The capacity counter: how many points the container is prepared for
    /// before it grows again.
    pub fn capacity(&self) -> (n: usize)
        ensures
            n == self.capacity_spec(),
    {
        self.capacity
    }

    /// Install an extension attribute column holding one value per point:
    /// an existing column of that name is replaced, a new name becomes a
    /// new column. A name of a fixed attribute is refused with
    /// `ReservedName` (it would be reported twice by the schema);
    /// otherwise the call fails with a `SchemaMismatch` naming both
    /// lengths if and only if the supplied column's length is not the
    /// number of stored points. A failed call changes nothing.
    pub fn add_attribute(&mut self, name: &str, values: Vec<i64>) -> (r: Result<(), PclError>)
        requires
            old(self).wf(),
        ensures
            final (self).wf(),
            match r {
                Ok(()) => !is_reserved_name(name@) && values@.len() == old(self).model().len()
                    && final (self).cols() == cols_with_extra(old(self).cols(), name@, values@),
                Err(e) => *final (self) == *old(self) && if is_reserved_name(name@) {
                    e == PclError::ReservedName
                } else {
                    values@.len() != old(self).model().len() && e == (PclError::SchemaMismatch {
                        expected: old(self).model().len() as usize,
                        got: values.len(),
                    })
                },
            },
    {
        if reserved_name_check(name) {
            return Err(PclError::ReservedName);
        }
        let n = self.xs.len();
        if values.len() != n {
            return Err(PclError::SchemaMismatch { expected: n, got: values.len() });
        }
        let ghost c0 = self.cols();
        let m = self.extras.len();
        let mut j: usize = 0;
        while j < m
            invariant
                j <= m,
                m == self.extras@.len(),
                self.cols() == c0,
                c0 == old(self).cols(),
                cols_synced(c0),
                cols_names_unique(c0),
                cols_extras_unreserved(c0),
                c0.extras.len() == m,
                col_names(c0.extras).len() == m,
                n == c0.xs.len(),
                n == old(self).model().len(),
                values@.len() == n,
                !is_reserved_name(name@),
                forall|k: int| 0 <= k < j ==> (#[trigger] col_names(c0.extras)[k]) != name@,
            decreases m - j,
        {
            proof {
                assert(c0.extras[j as int] == (self.extras@[j as int].0@, self.extras@[j as int].1@));
                assert(col_names(c0.extras)[j as int] == self.extras@[j as int].0@);
            }
            if compare_str(self_str(&self.extras[j].0), name) {
                proof {
                    assert(col_names(c0.extras).contains(name@));
                    let w = extras_index(c0.extras, name@);
                    assert(0 <= w < m && c0.extras[w].0 == name@);
                    if w < j as int {
                        assert(col_names(c0.extras)[w] == c0.extras[w].0);
                    }
                    if (j as int) < w {
                        assert(c0.extras[j as int].0 != c0.extras[w].0);
                    }
                    assert(w == j as int);
                }
                let ghost before = self.extras@;
                let e = vstd::std_specs::vec::vec_index_mut(&mut self.extras, j);
                e.1 = values;
                proof {
                    assert forall|k: int| 0 <= k < m implies #[trigger] self.cols().extras[k] == (
                        if k == j as int {
                            (name@, values@)
                        } else {
                            c0.extras[k]
                        }
                    ) by {
                        assert(self.cols().extras[k] == (self.extras@[k].0@, self.extras@[k].1@));
                        assert(extras_view(before)[k] == (before[k].0@, before[k].1@));
                        if k != j as int {
                            assert(self.extras@[k] == before[k]);
                        }
                    }
                    assert(self.cols().extras =~~= extras_with(c0.extras, name@, values@));
                    assert(self.cols() =~~= cols_with_extra(c0, name@, values@));
                    let nc = self.cols();
                    assert forall|k: int| 0 <= k < m implies (#[trigger] nc.extras[k]).0
                        == c0.extras[k].0 && nc.extras[k].1.len() == n by {
                        if k == j as int {
                            assert(c0.extras[j as int].0 == name@);
                        }
                    }
                    assert(cols_synced(nc));
                    assert(cols_names_unique(nc));
                    assert(cols_extras_unreserved(nc));
                }
                return Ok(());
            }
            j = j + 1;
        }
        proof {
            assert(!col_names(c0.extras).contains(name@));
        }
        let ghost before = self.extras@;
        self.extras.push((String::from_str(name), values));
        proof {
            assert(extras_view(before).len() == before.len());
            assert(self.cols().extras =~~= extras_with(c0.extras, name@, values@));
            assert(self.cols() =~~= cols_with_extra(c0, name@, values@));
            let nc = self.cols();
            assert forall|j1: int, j2: int| 0 <= j1 < j2 < nc.extras.len() implies (
            #[trigger] nc.extras[j1]).0 != (#[trigger] nc.extras[j2]).0 by {
                if j2 < m {
                    assert(nc.extras[j1] == c0.extras[j1] && nc.extras[j2] == c0.extras[j2]);
                } else {
                    assert(nc.extras[j2].0 == name@);
                    assert(nc.extras[j1] == c0.extras[j1]);
                    assert(col_names(c0.extras)[j1] == c0.extras[j1].0);
                }
            }
            assert forall|k: int| 0 <= k < nc.extras.len() implies !is_reserved_name(
                (#[trigger] nc.extras[k]).0,
            ) by {
                if k < m {
                    assert(nc.extras[k] == c0.extras[k]);
                } else {
                    assert(nc.extras[k].0 == name@);
                }
            }
        }
        Ok(())
    }

    /// Whether every materialized column holds exactly one value per point
    /// and the color channels are materialized consistently.
    pub fn is_valid(&self) -> (r: bool)
        ensures
            r == cols_synced(self.cols()),
    {
        let n = self.xs.len();
        if self.ys.len() != n {
            return false;
        }
        match &self.zs {
            Some(v) => {
                if v.len() != n {
                    return false;
                }
            },
            None => {},
        }
        match (&self.rs, &self.gs, &self.bs) {
            (Some(r), Some(g), Some(b)) => {
                if r.len() != n || g.len() != n || b.len() != n {
                    return false;
                }
            },
            (None, None, None) => {
                match &self.alphas {
                    Some(_) => {
                        return false;
                    },
                    None => {},
                }
            },
            _ => {
                return false;
            },
        }
        match &self.alphas {
            Some(v) => {
                if v.len() != n {
                    return false;
                }
            },
            None => {},
        }
        match &self.intensities {
            Some(v) => {
                if v.len() != n {
                    return false;
                }
            },
            None => {},
        }
        match &self.classifications {
            Some(v) => {
                if v.len() != n {
                    return false;
                }
            },
            None => {},
        }
        let mut j: usize = 0;
        let m = self.extras.len();
        while j < m
            invariant
                j <= m,
                m == self.extras.len(),
                n == self.cols().xs.len(),
                forall|k: int| 0 <= k < j ==> (#[trigger] self.cols().extras[k]).1.len() == n,
            decreases m - j,
        {
            if self.extras[j].1.len() != n {
                proof {
                    assert(self.cols().extras[j as int].1 == self.extras@[j as int].1@);
                }
                return false;
            }
            proof {
                assert(self.cols().extras[j as int].1 == self.extras@[j as int].1@);
            }
            j = j + 1;
        }
        true
    }
}

impl Default for CompactPointCloud {
    /// An empty container with no materialized optional columns.
    fn default() -> (c: CompactPointCloud)
        ensures
            c.wf(),
            c.model() == Seq::<PointView>::empty(),
            c.cols() == cols_empty(),
            c.capacity_spec() == 0,
            c.auto_grow_spec(),
    {
        CompactPointCloud::new()
    }
}

/// A fresh vector holding `n` copies of `v`.
fn make_filled<T: Copy>(n: usize, v: T) -> (r: Vec<T>)
    ensures
        r@ == filled(v, n as nat),
{
    let mut r: Vec<T> = Vec::new();
    let mut i: usize = 0;
    while i < n
        invariant
            i <= n,
            r@ == filled(v, i as nat),
        decreases n - i,
    {
        r.push(v);
        i = i + 1;
        proof {
            assert(r@ =~= filled(v, i as nat));
        }
    }
    r
}

/// Append to one optional column of length `n`, materializing it backfilled
/// on the first value, exactly as `opt_push` describes.
fn push_opt_col<T: Copy>(col: &mut Option<Vec<T>>, val: Option<T>, default: T, n: usize)
    requires
        match *old(col) {
            Some(c) => c@.len() == n,
            None => true,
        },
    ensures
        opt_view(*final (col)) == opt_push(opt_view(*old(col)), val, default, n as nat),
{
    match col {
        Some(c) => {
            let v = match val {
                Some(v) => v,
                None => default,
            };
            c.push(v);
        },
        None => {
            match val {
                Some(v) => {
                    let mut c = make_filled(n, default);
                    c.push(v);
                    *col = Some(c);
                },
                None => {},
            }
        },
    }
}

/// Write one optional column at row `i`; an absent column stays absent.
fn set_opt_col<T: Copy>(col: &mut Option<Vec<T>>, val: Option<T>, default: T, i: usize)
    requires
        match *old(col) {
            Some(c) => i < c@.len(),
            None => true,
        },
    ensures
        opt_view(*final (col)) == opt_set_existing(opt_view(*old(col)), val, default, i as int),
{
    match col {
        Some(c) => {
            let v = match val {
                Some(v) => v,
                None => default,
            };
            c.set(i, v);
        },
        None => {},
    }
}

/// An optional column after writing row `i`: a present column receives the
/// value (or the default if the point lacks the attribute); an absent
/// column stays absent.
pub open spec fn opt_set_existing<T>(col: Option<Seq<T>>, val: Option<T>, default: T, i: int) -> Option<
    Seq<T>,
> {
    match col {
        Some(c) => Some(
            c.update(
                i,
                match val {
                    Some(v) => v,
                    None => default,
                },
            ),
        ),
        None => None,
    }
}

/// The extension columns after writing row `i`: each existing column
/// receives the point's value for its name, or zero. The schema does not
/// change: attribute names without a column are not materialized by a
/// point replacement.
pub open spec fn extras_set(
    cols: Seq<(Seq<char>, Seq<i64>)>,
    attrs: Seq<(Seq<char>, i64)>,
    i: int,
) -> Seq<(Seq<char>, Seq<i64>)> {
    Seq::new(cols.len(), |j: int| (cols[j].0, cols[j].1.update(i, extra_val(attrs, cols[j].0))))
}

/// All columns after writing row `i` with a point: coordinates and every
/// materialized column are updated; the schema is unchanged.
pub open spec fn cols_set(c: ColumnsView, i: int, p: PointView) -> ColumnsView {
    ColumnsView {
        xs: c.xs.update(i, p.x),
        ys: c.ys.update(i, p.y),
        zs: opt_set_existing(c.zs, p.z, 0i64, i),
        rs: opt_set_existing(c.rs, color_r(p), 0u8, i),
        gs: opt_set_existing(c.gs, color_g(p), 0u8, i),
        bs: opt_set_existing(c.bs, color_b(p), 0u8, i),
        alphas: opt_set_existing(c.alphas, color_a(p), 0u8, i),
        intensities: opt_set_existing(c.intensities, p.intensity, 0i64, i),
        classifications: opt_set_existing(c.classifications, p.classification, 0i64, i),
        extras: extras_set(c.extras, p.attributes, i),
    }
}

/// All columns with the coordinates mapped through the matrix `m`; every
/// attribute column is untouched.
pub open spec fn cols_transform(m: Seq<Seq<int>>, c: ColumnsView) -> ColumnsView {
    let n = c.xs.len();
    ColumnsView {
        xs: Seq::new(n, |i: int| transformed_view(m, row_view(c, i)).x),
        ys: Seq::new(n, |i: int| transformed_view(m, row_view(c, i)).y),
        zs: match c.zs {
            Some(s) => Some(
                Seq::new(n, |i: int| transformed_view(m, row_view(c, i)).z.unwrap()),
            ),
            None => None,
        },
        ..c
    }
}

/// Append the point's extension attributes to the extension columns,
/// exactly as `extras_push` describes.
fn extras_push_exec(extras: &mut Vec<(String, Vec<i64>)>, point: &Point, n: usize)
    requires
        point.wf(),
        forall|j: int|
            0 <= j < old(extras)@.len() ==> (#[trigger] extras_view(old(extras)@)[j]).1.len() == n,
    ensures
        extras_view(final (extras)@) == extras_push(
            extras_view(old(extras)@),
            point@.attributes,
            n as nat,
        ),
{
    let ghost cols0 = extras_view(old(extras)@);
    let ghost names0 = col_names(cols0);
    let orig_len = extras.len();
    let mut j: usize = 0;
    while j < orig_len
        invariant
            j <= orig_len,
            orig_len == extras@.len(),
            point.wf(),
            cols0 == extras_view(old(extras)@),
            cols0.len() == orig_len,
            forall|k: int|
                0 <= k < j ==> #[trigger] extras_view(extras@)[k] == (
                    cols0[k].0,
                    cols0[k].1.push(extra_val(point@.attributes, cols0[k].0)),
                ),
            forall|k: int| j <= k < orig_len ==> #[trigger] extras_view(extras@)[k] == cols0[k],
        decreases orig_len - j,
    {
        proof {
            assert(extras_view(extras@)[j as int] == cols0[j as int]);
            assert(extras_view(extras@)[j as int] == (extras@[j as int].0@, extras@[j as int].1@));
        }
        let val = match point.get_attribute(self_str(&extras[j].0)) {
            Some(v) => v,
            None => 0,
        };
        let ghost before = extras@;
        let e = vstd::std_specs::vec::vec_index_mut(extras, j);
        e.1.push(val);
        j = j + 1;
        proof {
            assert forall|k: int| 0 <= k < orig_len implies #[trigger] extras_view(extras@)[k] == (
                if k < j {
                    (cols0[k].0, cols0[k].1.push(extra_val(point@.attributes, cols0[k].0)))
                } else {
                    cols0[k]
                }
            ) by {
                assert(extras_view(extras@)[k] == (extras@[k].0@, extras@[k].1@));
                assert(extras_view(before)[k] == (before[k].0@, before[k].1@));
                if k != j - 1 {
                    assert(extras@[k] == before[k]);
                }
            }
        }
    }
    let pn = point.attributes.len();
    let mut k: usize = 0;
    proof {
        assert(point@.attributes.subrange(0, 0) =~= Seq::<(Seq<char>, i64)>::empty());
        assert(new_extras(names0, point@.attributes.subrange(0, 0), n as nat) =~= Seq::<
            (Seq<char>, Seq<i64>),
        >::empty());
        assert(extras_view(extras@) =~= Seq::new(
            cols0.len(),
            |j: int| (cols0[j].0, cols0[j].1.push(extra_val(point@.attributes, cols0[j].0))),
        ) + new_extras(names0, point@.attributes.subrange(0, 0), n as nat));
    }
    while k < pn
        invariant
            k <= pn,
            pn == point.attributes@.len(),
            point.wf(),
            cols0.len() == orig_len,
            orig_len <= extras@.len(),
            names0 == col_names(cols0),
            forall|q: int| 0 <= q < orig_len ==> (#[trigger] extras_view(extras@)[q]).0 == names0[q],
            extras_view(extras@) == Seq::new(
                cols0.len(),
                |j: int| (cols0[j].0, cols0[j].1.push(extra_val(point@.attributes, cols0[j].0))),
            ) + new_extras(names0, point@.attributes.subrange(0, k as int), n as nat),
        decreases pn - k,
    {
        let mut found = false;
        let mut q: usize = 0;
        while q < orig_len
            invariant
                q <= orig_len,
                orig_len <= extras@.len(),
                k < pn,
                pn == point.attributes@.len(),
                names0.len() == orig_len,
                forall|m: int|
                    0 <= m < orig_len ==> (#[trigger] extras_view(extras@)[m]).0 == names0[m],
                found == exists|m: int|
                    0 <= m < q && #[trigger] names0[m] == point@.attributes[k as int].0,
            decreases orig_len - q,
        {
            proof {
                assert(extras_view(extras@)[q as int].0 == extras@[q as int].0@);
                assert(point@.attributes[k as int].0 == point.attributes@[k as int].0@);
            }
            if compare_str(self_str(&extras[q].0), self_str(&point.attributes[k].0)) {
                found = true;
            }
            q = q + 1;
        }
        proof {
            assert(found == names0.contains(point@.attributes[k as int].0));
        }
        let skip = found || reserved_name_check(self_str(&point.attributes[k].0));
        proof {
            assert(point@.attributes[k as int].0 == point.attributes@[k as int].0@);
            assert(skip == (names0.contains(point@.attributes[k as int].0) || is_reserved_name(
                point@.attributes[k as int].0,
            )));
        }
        let ghost before = extras_view(extras@);
        if !skip {
            let mut c = make_filled(n, 0i64);
            c.push(point.attributes[k].1);
            let name = clone_string(&point.attributes[k].0);
            extras.push((name, c));
            proof {
                assert(extras_view(extras@) =~= before.push(
                    (
                        point@.attributes[k as int].0,
                        filled(0i64, n as nat).push(point@.attributes[k as int].1),
                    ),
                ));
            }
        }
        k = k + 1;
        proof {
            let attrs = point@.attributes;
            assert(attrs.subrange(0, k as int).drop_last() =~= attrs.subrange(0, k - 1));
            assert(attrs.subrange(0, k as int).last() == attrs[k - 1]);
            assert(new_extras(names0, attrs.subrange(0, k as int), n as nat) == new_extras(
                names0,
                attrs.subrange(0, k - 1),
                n as nat,
            ) + (if names0.contains(attrs[k - 1].0) || is_reserved_name(attrs[k - 1].0) {
                Seq::<(Seq<char>, Seq<i64>)>::empty()
            } else {
                seq![(attrs[k - 1].0, filled(0i64, n as nat).push(attrs[k - 1].1))]
            }));
            if skip {
                assert(extras_view(extras@) =~= Seq::new(
                    cols0.len(),
                    |j: int| (cols0[j].0, cols0[j].1.push(extra_val(attrs, cols0[j].0))),
                ) + new_extras(names0, attrs.subrange(0, k as int), n as nat));
            } else {
                assert(extras_view(extras@) =~= Seq::new(
                    cols0.len(),
                    |j: int| (cols0[j].0, cols0[j].1.push(extra_val(attrs, cols0[j].0))),
                ) + new_extras(names0, attrs.subrange(0, k as int), n as nat));
            }
        }
    }
    proof {
        assert(point@.attributes.subrange(0, pn as int) =~= point@.attributes);
        assert(extras_view(extras@) =~= extras_push(cols0, point@.attributes, n as nat));
    }
}

/// Whether `name` names a fixed attribute of the layout.
fn reserved_name_check(name: &str) -> (r: bool)
    ensures
        r == is_reserved_name(name@),
{
    compare_str(name, "x") || compare_str(name, "y") || compare_str(name, "z") || compare_str(
        name,
        "r",
    ) || compare_str(name, "g") || compare_str(name, "b") || compare_str(name, "a") || compare_str(
        name,
        "intensity",
    ) || compare_str(name, "classification")
}

/// A `&str` view of a `String`.
fn self_str(s: &String) -> (r: &str)
    ensures
        r@ == s@,
{
    s.as_str()
}

/// The first extension column named `name` (meaningful when the names are
/// unique and some column carries the name).
pub open spec fn extras_index(cols: Seq<(Seq<char>, Seq<i64>)>, name: Seq<char>) -> int {
    choose|j: int| 0 <= j < cols.len() && (#[trigger] cols[j]).0 == name
}

/// The extension columns after installing a whole column: an existing
/// column of that name is replaced, otherwise the column is appended.
pub open spec fn extras_with(
    cols: Seq<(Seq<char>, Seq<i64>)>,
    name: Seq<char>,
    vals: Seq<i64>,
) -> Seq<(Seq<char>, Seq<i64>)> {
    if col_names(cols).contains(name) {
        cols.update(extras_index(cols, name), (name, vals))
    } else {
        cols.push((name, vals))
    }
}

/// All columns after installing an extension column.
pub open spec fn cols_with_extra(c: ColumnsView, name: Seq<char>, vals: Seq<i64>) -> ColumnsView {
    ColumnsView { extras: extras_with(c.extras, name, vals), ..c }
}

/// The columns of a fresh container: no point stored, no optional column
/// materialized, no extension column.
pub open spec fn cols_empty() -> ColumnsView {
    ColumnsView {
        xs: Seq::empty(),
        ys: Seq::empty(),
        zs: None,
        rs: None,
        gs: None,
        bs: None,
        alphas: None,
        intensities: None,
        classifications: None,
        extras: Seq::empty(),
    }
}

/// The capacity counter after the growth step of one append: with growth
/// enabled, a zero counter bootstraps to the stored count plus 16, and a
/// reached counter grows by its own value (doubling it when the count
/// equals it); the counter is left unchanged when it still has room, when
/// growth is disabled, or when the grown value would not fit the machine.
pub open spec fn grown_capacity(auto_grow: bool, cap: nat, len: nat) -> nat {
    if !auto_grow {
        cap
    } else if cap == 0 {
        if len + 16 <= usize::MAX {
            len + 16
        } else {
            cap
        }
    } else if len >= cap {
        if len + cap <= usize::MAX {
            len + cap
        } else {
            cap
        }
    } else {
        cap
    }
}

/// Properties of the columns a point's unseen names materialize: their
/// length, their names' origin and uniqueness.
proof fn lemma_new_extras_props(names: Seq<Seq<char>>, attrs: Seq<(Seq<char>, i64)>, n: nat)
    ensures
        forall|j: int|
            0 <= j < new_extras(names, attrs, n).len() ==> (#[trigger] new_extras(
                names,
                attrs,
                n,
            )[j]).1.len() == n + 1,
        forall|j: int|
            0 <= j < new_extras(names, attrs, n).len() ==> !names.contains(
                (#[trigger] new_extras(names, attrs, n)[j]).0,
            ),
        forall|j: int|
            0 <= j < new_extras(names, attrs, n).len() ==> !is_reserved_name(
                (#[trigger] new_extras(names, attrs, n)[j]).0,
            ),
        forall|j: int|
            0 <= j < new_extras(names, attrs, n).len() ==> exists|m: int|
                0 <= m < attrs.len() && (#[trigger] attrs[m]).0 == (#[trigger] new_extras(
                    names,
                    attrs,
                    n,
                )[j]).0,
        unique_keys(attrs) ==> (forall|j1: int, j2: int|
            0 <= j1 < j2 < new_extras(names, attrs, n).len() ==> (#[trigger] new_extras(
                names,
                attrs,
                n,
            )[j1]).0 != (#[trigger] new_extras(names, attrs, n)[j2]).0),
    decreases attrs.len(),
{
    if attrs.len() == 0 {
    } else {
        let prefix = attrs.drop_last();
        lemma_new_extras_props(names, prefix, n);
        let prev = new_extras(names, prefix, n);
        let cur = new_extras(names, attrs, n);
        assert forall|j: int| 0 <= j < prev.len() implies prev[j] == cur[j] by {}
        if unique_keys(attrs) {
            assert(unique_keys(prefix)) by {
                assert forall|i1: int, i2: int| 0 <= i1 < i2 < prefix.len() implies prefix[i1].0
                    != prefix[i2].0 by {
                    assert(prefix[i1] == attrs[i1] && prefix[i2] == attrs[i2]);
                }
            }
            if cur.len() > prev.len() {
                assert forall|j: int| 0 <= j < prev.len() implies (#[trigger] cur[j]).0 != cur[
                    prev.len() as int
                ].0 by {
                    let m = choose|m: int|
                        0 <= m < prefix.len() && (#[trigger] prefix[m]).0 == prev[j].0;
                    assert(attrs[m].0 == prev[j].0);
                    assert(attrs[m].0 != attrs.last().0);
                }
            }
        }
    }
}

/// Appending points keeps the columns synchronized: after any append to
/// well-formed columns, every materialized column again holds exactly one
/// value per point, and the point count has grown by one. Repeated, this
/// gives: after appending N points, every materialized column has length
/// exactly N, and so does the model.
pub proof fn lemma_cols_push_wf(c: ColumnsView, p: PointView)
    requires
        cols_synced(c),
        cols_names_unique(c),
        cols_extras_unreserved(c),
        unique_keys(p.attributes),
    ensures
        cols_synced(cols_push(c, p)),
        cols_names_unique(cols_push(c, p)),
        cols_extras_unreserved(cols_push(c, p)),
        cols_push(c, p).xs.len() == c.xs.len() + 1,
        cols_model(cols_push(c, p)).len() == c.xs.len() + 1,
{
    let n = c.xs.len();
    let nc = cols_push(c, p);
    lemma_new_extras_props(col_names(c.extras), p.attributes, n);
    let pushed = Seq::new(
        c.extras.len(),
        |j: int| (c.extras[j].0, c.extras[j].1.push(extra_val(p.attributes, c.extras[j].0))),
    );
    let fresh = new_extras(col_names(c.extras), p.attributes, n);
    assert(nc.extras == pushed + fresh);
    assert forall|j: int| 0 <= j < nc.extras.len() implies (#[trigger] nc.extras[j]).1.len() == n
        + 1 by {
        if j < pushed.len() {
            assert(nc.extras[j] == pushed[j]);
        } else {
            assert(nc.extras[j] == fresh[j - pushed.len()]);
        }
    }
    assert forall|j1: int, j2: int| 0 <= j1 < j2 < nc.extras.len() implies (
    #[trigger] nc.extras[j1]).0 != (#[trigger] nc.extras[j2]).0 by {
        if j2 < pushed.len() {
            assert(nc.extras[j1].0 == c.extras[j1].0 && nc.extras[j2].0 == c.extras[j2].0);
        } else if j1 < pushed.len() {
            assert(nc.extras[j1].0 == c.extras[j1].0);
            assert(c.extras[j1].0 == col_names(c.extras)[j1]);
            assert(col_names(c.extras).contains(nc.extras[j1].0));
            assert(nc.extras[j2] == fresh[j2 - pushed.len()]);
            assert(!col_names(c.extras).contains(fresh[j2 - pushed.len()].0));
        } else {
            assert(nc.extras[j1] == fresh[j1 - pushed.len()] && nc.extras[j2] == fresh[j2
                - pushed.len()]);
        }
    }
    assert forall|j: int| 0 <= j < nc.extras.len() implies !is_reserved_name(
        (#[trigger] nc.extras[j]).0,
    ) by {
        if j < pushed.len() {
            assert(nc.extras[j].0 == c.extras[j].0);
        } else {
            assert(nc.extras[j] == fresh[j - pushed.len()]);
        }
    }
}

/// The columns after appending a whole sequence of points, in order.
pub open spec fn cols_push_all(c: ColumnsView, ps: Seq<PointView>) -> ColumnsView
    decreases ps.len(),
{
    if ps.len() == 0 {
        c
    } else {
        cols_push(cols_push_all(c, ps.drop_last()), ps.last())
    }
}

/// The length law: after appending N points to well-formed columns, the
/// columns are again well-formed — every materialized column holds exactly
/// one value per point — and the point count, and so the model's length,
/// has grown by exactly N.
pub proof fn lemma_cols_push_all_synced(c: ColumnsView, ps: Seq<PointView>)
    requires
        cols_synced(c),
        cols_names_unique(c),
        cols_extras_unreserved(c),
        forall|i: int| 0 <= i < ps.len() ==> unique_keys((#[trigger] ps[i]).attributes),
    ensures
        cols_synced(cols_push_all(c, ps)),
        cols_names_unique(cols_push_all(c, ps)),
        cols_extras_unreserved(cols_push_all(c, ps)),
        cols_push_all(c, ps).xs.len() == c.xs.len() + ps.len(),
        cols_model(cols_push_all(c, ps)).len() == c.xs.len() + ps.len(),
    decreases ps.len(),
{
    if ps.len() == 0 {
    } else {
        let prefix = ps.drop_last();
        assert forall|i: int| 0 <= i < prefix.len() implies unique_keys(
            (#[trigger] prefix[i]).attributes,
        ) by {
            assert(prefix[i] == ps[i]);
        }
        lemma_cols_push_all_synced(c, prefix);
        lemma_cols_push_wf(cols_push_all(c, prefix), ps.last());
    }
}

/// The backfill law: appending a colorless point to columns without a
/// color column, and then a colored point, materializes a two-row color
/// column whose first row is the default (zero on every channel) and whose
/// second row holds the supplied values.
pub proof fn lemma_color_backfill(c: ColumnsView, p1: PointView, p2: PointView, col: Color)
    requires
        c.xs.len() == 0,
        c.rs is None,
        c.gs is None,
        c.bs is None,
        c.alphas is None,
        p1.color is None,
        p2.color == Some(col),
    ensures
        cols_push(cols_push(c, p1), p2).rs == Some(seq![0u8, col.r]),
        cols_push(cols_push(c, p1), p2).gs == Some(seq![0u8, col.g]),
        cols_push(cols_push(c, p1), p2).bs == Some(seq![0u8, col.b]),
{
    let c1 = cols_push(c, p1);
    assert(c1.rs is None && c1.gs is None && c1.bs is None);
    assert(c1.xs.len() == 1);
    let c2 = cols_push(c1, p2);
    assert(c2.rs == Some(filled(0u8, 1).push(col.r)));
    assert(filled(0u8, 1).push(col.r) =~= seq![0u8, col.r]);
    assert(filled(0u8, 1).push(col.g) =~= seq![0u8, col.g]);
    assert(filled(0u8, 1).push(col.b) =~= seq![0u8, col.b]);
}

impl PointCloud for CompactPointCloud {
    open spec fn model(&self) -> Seq<PointView> {
        cols_model(self.cols())
    }

    open spec fn wf(&self) -> bool {
        cols_synced(self.cols()) && cols_names_unique(self.cols()) && cols_extras_unreserved(
            self.cols(),
        )
    }

    open spec fn is_3d_spec(&self) -> bool {
        self.cols().zs is Some
    }

    open spec fn has_color_spec(&self) -> bool {
        self.cols().rs is Some
    }

    open spec fn has_intensity_spec(&self) -> bool {
        self.cols().intensities is Some
    }

    open spec fn has_classification_spec(&self) -> bool {
        self.cols().classifications is Some
    }

    open spec fn has_attribute_spec(&self, name: Seq<char>) -> bool {
        if name == "x"@ || name == "y"@ {
            true
        } else if name == "z"@ {
            self.cols().zs is Some
        } else if name == "r"@ || name == "g"@ || name == "b"@ {
            self.cols().rs is Some
        } else if name == "a"@ {
            self.cols().alphas is Some
        } else if name == "intensity"@ {
            self.cols().intensities is Some
        } else if name == "classification"@ {
            self.cols().classifications is Some
        } else {
            col_names(self.cols().extras).contains(name)
        }
    }

    open spec fn attribute_names_spec(&self) -> Seq<Seq<char>> {
        cols_names(self.cols())
    }

    open spec fn add_model(&self, p: PointView) -> Seq<PointView> {
        cols_model(cols_push(self.cols(), p))
    }

    open spec fn set_model(&self, index: int, p: PointView) -> Seq<PointView> {
        cols_model(cols_set(self.cols(), index, p))
    }

    fn new() -> (c: CompactPointCloud)
        ensures
            c.cols() == cols_empty(),
            c.capacity_spec() == 0,
            c.auto_grow_spec(),
    {
        let c = CompactPointCloud {
            xs: Vec::new(),
            ys: Vec::new(),
            zs: None,
            rs: None,
            gs: None,
            bs: None,
            alphas: None,
            intensities: None,
            classifications: None,
            extras: Vec::new(),
            capacity: 0,
            auto_grow: true,
        };
        proof {
            assert(c.cols() =~~= cols_empty());
            assert(c.model() =~= Seq::<PointView>::empty());
        }
        c
    }

    fn with_capacity(capacity: usize) -> (c: CompactPointCloud)
        ensures
            c.cols() == cols_empty(),
            c.capacity_spec() == capacity,
            c.auto_grow_spec(),
    {
        let c = CompactPointCloud {
            xs: Vec::with_capacity(capacity),
            ys: Vec::with_capacity(capacity),
            zs: None,
            rs: None,
            gs: None,
            bs: None,
            alphas: None,
            intensities: None,
            classifications: None,
            extras: Vec::new(),
            capacity,
            auto_grow: true,
        };
        proof {
            assert(c.cols() =~~= cols_empty());
            assert(c.model() =~= Seq::<PointView>::empty());
        }
        c
    }

    fn num_points(&self) -> (n: usize) {
        self.xs.len()
    }

    fn is_empty(&self) -> (r: bool) {
        self.xs.len() == 0
    }

    fn add_point(&mut self, point: Point)
        ensures
            final (self).capacity_spec() == grown_capacity(
                old(self).auto_grow_spec(),
                old(self).capacity_spec(),
                old(self).model().len(),
            ),
            final (self).auto_grow_spec() == old(self).auto_grow_spec(),
    {
        let n = self.xs.len();
        if self.auto_grow {
            if self.capacity == 0 {
                if 16 <= usize::MAX - n {
                    self.reserve(16);
                }
            } else if n >= self.capacity {
                let want = self.capacity;
                if want <= usize::MAX - n {
                    self.reserve(want);
                }
            }
        }
        let ghost c0 = self.cols();
        proof {
            assert(c0 == old(self).cols());
        }
        let (cr, cg, cb, ca): (Option<u8>, Option<u8>, Option<u8>, Option<u8>) =
            match &point.color {
            Some(c) => (Some(c.r), Some(c.g), Some(c.b), c.a),
            None => (None, None, None, None),
        };
        self.xs.push(point.x);
        self.ys.push(point.y);
        push_opt_col(&mut self.zs, point.z, 0i64, n);
        push_opt_col(&mut self.rs, cr, 0u8, n);
        push_opt_col(&mut self.gs, cg, 0u8, n);
        push_opt_col(&mut self.bs, cb, 0u8, n);
        push_opt_col(&mut self.alphas, ca, 0u8, n);
        push_opt_col(&mut self.intensities, point.intensity, 0i64, n);
        push_opt_col(&mut self.classifications, point.classification, 0i64, n);
        extras_push_exec(&mut self.extras, &point, n);
        proof {
            assert(self.cols() =~~= cols_push(c0, point@));
            lemma_cols_push_wf(c0, point@);
        }
    }

    fn clear(&mut self)
        ensures
            final (self).attribute_names_spec() == old(self).attribute_names_spec(),
            final (self).is_3d_spec() == old(self).is_3d_spec(),
            final (self).has_color_spec() == old(self).has_color_spec(),
            final (self).has_intensity_spec() == old(self).has_intensity_spec(),
            final (self).has_classification_spec() == old(self).has_classification_spec(),
    {
        self.xs.clear();
        self.ys.clear();
        match &mut self.zs {
            Some(v) => v.clear(),
            None => {},
        }
        match &mut self.rs {
            Some(v) => v.clear(),
            None => {},
        }
        match &mut self.gs {
            Some(v) => v.clear(),
            None => {},
        }
        match &mut self.bs {
            Some(v) => v.clear(),
            None => {},
        }
        match &mut self.alphas {
            Some(v) => v.clear(),
            None => {},
        }
        match &mut self.intensities {
            Some(v) => v.clear(),
            None => {},
        }
        match &mut self.classifications {
            Some(v) => v.clear(),
            None => {},
        }
        let m = self.extras.len();
        let mut j: usize = 0;
        while j < m
            invariant
                j <= m,
                m == self.extras@.len(),
                self.cols().extras.len() == m,
                old(self).cols().extras.len() == m,
                forall|k: int|
                    0 <= k < m ==> (#[trigger] self.cols().extras[k]).0 == old(
                        self,
                    ).cols().extras[k].0,
                forall|k: int| 0 <= k < j ==> (#[trigger] self.cols().extras[k]).1.len() == 0,
                self.cols().xs == old(self).cols().xs.take(0),
                self.cols().ys.len() == 0,
                self.cols().zs is Some <==> old(self).cols().zs is Some,
                self.cols().rs is Some <==> old(self).cols().rs is Some,
                self.cols().gs is Some <==> old(self).cols().gs is Some,
                self.cols().bs is Some <==> old(self).cols().bs is Some,
                self.cols().alphas is Some <==> old(self).cols().alphas is Some,
                self.cols().intensities is Some <==> old(self).cols().intensities is Some,
                self.cols().classifications is Some <==> old(self).cols().classifications is Some,
                match self.cols().zs {
                    Some(s) => s.len() == 0,
                    None => true,
                },
                match self.cols().rs {
                    Some(s) => s.len() == 0,
                    None => true,
                },
                match self.cols().gs {
                    Some(s) => s.len() == 0,
                    None => true,
                },
                match self.cols().bs {
                    Some(s) => s.len() == 0,
                    None => true,
                },
                match self.cols().alphas {
                    Some(s) => s.len() == 0,
                    None => true,
                },
                match self.cols().intensities {
                    Some(s) => s.len() == 0,
                    None => true,
                },
                match self.cols().classifications {
                    Some(s) => s.len() == 0,
                    None => true,
                },
            decreases m - j,
        {
            let ghost before = self.extras@;
            proof {
                assert forall|k: int| 0 <= k < m implies extras_view(before)[k] == (
                #[trigger] self.cols().extras[k]) by {}
            }
            let e = vstd::std_specs::vec::vec_index_mut(&mut self.extras, j);
            e.1.clear();
            j = j + 1;
            proof {
                assert forall|k: int| 0 <= k < m implies (#[trigger] self.cols().extras[k]).0
                    == old(self).cols().extras[k].0 && (k < j ==> self.cols().extras[k].1.len()
                    == 0) by {
                    assert(self.cols().extras[k] == (self.extras@[k].0@, self.extras@[k].1@));
                    assert(extras_view(before)[k] == (before[k].0@, before[k].1@));
                    if k != j - 1 {
                        assert(self.extras@[k] == before[k]);
                    }
                }
            }
        }
        proof {
            assert(self.model() =~= Seq::<PointView>::empty());
            assert(self.attribute_names_spec() =~= old(self).attribute_names_spec()) by {
                assert(col_names(self.cols().extras) =~= col_names(old(self).cols().extras));
            }
        }
    }

    fn reserve(&mut self, additional: usize)
        ensures
            final (self).cols() == old(self).cols(),
            final (self).auto_grow_spec() == old(self).auto_grow_spec(),
            final (self).capacity_spec() == (if old(self).capacity_spec() >= old(
                self,
            ).model().len() + additional {
                old(self).capacity_spec()
            } else {
                (old(self).model().len() + additional) as nat
            }),
    {
        let n = self.xs.len();
        proof {
            assert(n == old(self).model().len());
        }
        if self.capacity < n + additional {
            self.capacity = n + additional;
        }
        self.xs.reserve(additional);
        self.ys.reserve(additional);
        match &mut self.zs {
            Some(v) => v.reserve(additional),
            None => {},
        }
        match &mut self.rs {
            Some(v) => v.reserve(additional),
            None => {},
        }
        match &mut self.gs {
            Some(v) => v.reserve(additional),
            None => {},
        }
        match &mut self.bs {
            Some(v) => v.reserve(additional),
            None => {},
        }
        match &mut self.alphas {
            Some(v) => v.reserve(additional),
            None => {},
        }
        match &mut self.intensities {
            Some(v) => v.reserve(additional),
            None => {},
        }
        match &mut self.classifications {
            Some(v) => v.reserve(additional),
            None => {},
        }
        let ghost capg = self.capacity;
        let ghost ag = self.auto_grow;
        let ghost cg = self.cols();
        let m = self.extras.len();
        let mut j: usize = 0;
        while j < m
            invariant
                j <= m,
                m == self.extras@.len(),
                self.cols() == cg,
                self.capacity == capg,
                self.auto_grow == ag,
            decreases m - j,
        {
            let ghost before = self.extras@;
            let e = vstd::std_specs::vec::vec_index_mut(&mut self.extras, j);
            e.1.reserve(additional);
            j = j + 1;
            proof {
                assert forall|k: int| 0 <= k < m implies #[trigger] extras_view(self.extras@)[k]
                    == extras_view(before)[k] by {
                    assert(extras_view(self.extras@)[k] == (self.extras@[k].0@, self.extras@[k].1@));
                    assert(extras_view(before)[k] == (before[k].0@, before[k].1@));
                    if k != j - 1 {
                        assert(self.extras@[k] == before[k]);
                    }
                }
                assert(extras_view(self.extras@) =~= extras_view(before));
                assert(self.cols() =~~= cg);
            }
        }
        proof {
            assert(self.cols() =~~= old(self).cols());
        }
    }

    fn is_3d(&self) -> (r: bool) {
        self.zs.is_some()
    }

    fn has_color(&self) -> (r: bool) {
        self.rs.is_some()
    }

    fn has_intensity(&self) -> (r: bool) {
        self.intensities.is_some()
    }

    fn has_classification(&self) -> (r: bool) {
        self.classifications.is_some()
    }

    fn has_attribute(&self, attribute: &str) -> (r: bool) {
        if compare_str(attribute, "x") || compare_str(attribute, "y") {
            true
        } else if compare_str(attribute, "z") {
            self.zs.is_some()
        } else if compare_str(attribute, "r") || compare_str(attribute, "g") || compare_str(
            attribute,
            "b",
        ) {
            self.rs.is_some()
        } else if compare_str(attribute, "a") {
            self.alphas.is_some()
        } else if compare_str(attribute, "intensity") {
            self.intensities.is_some()
        } else if compare_str(attribute, "classification") {
            self.classifications.is_some()
        } else {
            let m = self.extras.len();
            let mut found = false;
            let mut j: usize = 0;
            while j < m
                invariant
                    j <= m,
                    m == self.extras@.len(),
                    self.cols().extras.len() == m,
                    col_names(self.cols().extras).len() == m,
                    found == exists|k: int|
                        0 <= k < j && (#[trigger] col_names(self.cols().extras)[k]) == attribute@,
                decreases m - j,
            {
                proof {
                    assert(self.cols().extras[j as int] == (self.extras@[j as int].0@, self.extras@[j as int].1@));
                    assert(col_names(self.cols().extras)[j as int] == self.extras@[j as int].0@);
                }
                if compare_str(self_str(&self.extras[j].0), attribute) {
                    found = true;
                }
                j = j + 1;
            }
            proof {
                assert(found == col_names(self.cols().extras).contains(attribute@));
            }
            found
        }
    }

    #[verifier::rlimit(60)]
    fn attribute_names(&self) -> (r: Vec<String>) {
        let mut r: Vec<String> = Vec::new();
        r.push(String::from_str("x"));
        r.push(String::from_str("y"));
        if self.zs.is_some() {
            r.push(String::from_str("z"));
        }
        if self.rs.is_some() {
            r.push(String::from_str("r"));
            r.push(String::from_str("g"));
            r.push(String::from_str("b"));
        }
        if self.alphas.is_some() {
            r.push(String::from_str("a"));
        }
        if self.intensities.is_some() {
            r.push(String::from_str("intensity"));
        }
        if self.classifications.is_some() {
            r.push(String::from_str("classification"));
        }
        let ghost base = strings_view(r@);
        proof {
            assert(base =~= cols_names(self.cols()).subrange(
                0,
                cols_names(self.cols()).len() - self.cols().extras.len(),
            ));
        }
        let m = self.extras.len();
        let mut j: usize = 0;
        while j < m
            invariant
                j <= m,
                m == self.extras@.len(),
                self.cols().extras.len() == m,
                col_names(self.cols().extras).len() == m,
                strings_view(r@) == base + col_names(self.cols().extras).subrange(0, j as int),
            decreases m - j,
        {
            let ghost r0 = r@;
            let name = clone_string(&self.extras[j].0);
            r.push(name);
            j = j + 1;
            proof {
                assert(strings_view(r0).len() == r0.len());
                assert(strings_view(r@).len() == r@.len());
                assert(col_names(self.cols().extras).len() == m);
                assert(self.cols().extras[j - 1] == (self.extras@[j - 1].0@, self.extras@[j
                    - 1].1@));
                assert(col_names(self.cols().extras)[j - 1] == self.extras@[j - 1].0@);
                let ghost rhs = base + col_names(self.cols().extras).subrange(0, j as int);
                assert(base.len() + j - 1 == r0.len());
                assert forall|idx: int| 0 <= idx < r@.len() implies #[trigger] strings_view(
                    r@,
                )[idx] == rhs[idx] by {
                    if idx < r0.len() {
                        assert(r@[idx] == r0[idx]);
                        assert(strings_view(r0)[idx] == r0[idx]@);
                    } else {
                        assert(r@[idx]@ == self.extras@[j - 1].0@);
                    }
                }
                assert(strings_view(r@) =~~= rhs);
            }
        }
        proof {
            assert(col_names(self.cols().extras).subrange(0, m as int) =~= col_names(
                self.cols().extras,
            ));
            assert(strings_view(r@) =~= cols_names(self.cols()));
        }
        r
    }

    fn at(&self, index: usize) -> (r: Result<Point, PclError>) {
        let n = self.xs.len();
        if index >= n {
            return Err(PclError::IndexError { index, len: n });
        }
        let z: Option<i64> = match &self.zs {
            Some(v) => Some(v[index]),
            None => None,
        };
        let color: Option<Color> = match (&self.rs, &self.gs, &self.bs) {
            (Some(rv), Some(gv), Some(bv)) => Some(
                Color {
                    r: rv[index],
                    g: gv[index],
                    b: bv[index],
                    a: match &self.alphas {
                        Some(av) => Some(av[index]),
                        None => None,
                    },
                },
            ),
            _ => None,
        };
        let intensity: Option<i64> = match &self.intensities {
            Some(v) => Some(v[index]),
            None => None,
        };
        let classification: Option<i64> = match &self.classifications {
            Some(v) => Some(v[index]),
            None => None,
        };
        let mut attributes: Vec<(String, i64)> = Vec::new();
        let m = self.extras.len();
        let mut j: usize = 0;
        while j < m
            invariant
                j <= m,
                m == self.extras@.len(),
                self.cols().extras.len() == m,
                index < self.cols().xs.len(),
                cols_synced(self.cols()),
                crate::point::attrs_view(attributes@) == Seq::new(
                    j as nat,
                    |k: int| (self.cols().extras[k].0, self.cols().extras[k].1[index as int]),
                ),
            decreases m - j,
        {
            proof {
                assert(self.cols().extras[j as int] == (self.extras@[j as int].0@, self.extras@[j as int].1@));
                assert(self.cols().extras[j as int].1.len() == self.cols().xs.len());
            }
            let ghost a0 = attributes@;
            let name = clone_string(&self.extras[j].0);
            let val = self.extras[j].1[index];
            attributes.push((name, val));
            j = j + 1;
            proof {
                assert(crate::point::attrs_view(a0).len() == a0.len());
                assert(crate::point::attrs_view(attributes@).len() == attributes@.len());
                assert(self.cols().extras[j - 1] == (self.extras@[j - 1].0@, self.extras@[j
                    - 1].1@));
                let ghost rhs = Seq::new(
                    j as nat,
                    |k: int| (self.cols().extras[k].0, self.cols().extras[k].1[index as int]),
                );
                assert(a0.len() == j - 1);
                assert forall|idx: int| 0 <= idx < attributes@.len() implies #[trigger] crate::point::attrs_view(
                    attributes@,
                )[idx] == rhs[idx] by {
                    assert(crate::point::attrs_view(attributes@)[idx] == (
                        attributes@[idx].0@,
                        attributes@[idx].1,
                    ));
                    if idx < a0.len() {
                        assert(attributes@[idx] == a0[idx]);
                        assert(crate::point::attrs_view(a0)[idx] == (a0[idx].0@, a0[idx].1));
                    } else {
                        assert(attributes@[idx].0@ == self.extras@[j - 1].0@);
                        assert(attributes@[idx].1 == self.extras@[j - 1].1@[index as int]);
                    }
                }
                assert(crate::point::attrs_view(attributes@) =~~= rhs);
            }
        }
        let p = Point {
            x: self.xs[index],
            y: self.ys[index],
            z,
            color,
            intensity,
            classification,
            ring_id: None,
            time_offset: None,
            attributes,
        };
        proof {
            assert(p@.attributes =~= row_view(self.cols(), index as int).attributes);
            assert(p@ == self.model()[index as int]);
            assert(unique_keys(p@.attributes)) by {
                assert forall|j1: int, j2: int| 0 <= j1 < j2 < p@.attributes.len() implies p@
                    .attributes[j1].0 != p@.attributes[j2].0 by {
                    assert(p@.attributes[j1].0 == self.cols().extras[j1].0);
                    assert(p@.attributes[j2].0 == self.cols().extras[j2].0);
                }
            }
        }
        Ok(p)
    }

    fn set(&mut self, index: usize, point: Point) -> (r: Result<(), PclError>) {
        let n = self.xs.len();
        if index >= n {
            return Err(PclError::IndexError { index, len: n });
        }
        let ghost c0 = self.cols();
        let (cr, cg, cb, ca): (Option<u8>, Option<u8>, Option<u8>, Option<u8>) =
            match &point.color {
            Some(c) => (Some(c.r), Some(c.g), Some(c.b), c.a),
            None => (None, None, None, None),
        };
        self.xs.set(index, point.x);
        self.ys.set(index, point.y);
        set_opt_col(&mut self.zs, point.z, 0i64, index);
        set_opt_col(&mut self.rs, cr, 0u8, index);
        set_opt_col(&mut self.gs, cg, 0u8, index);
        set_opt_col(&mut self.bs, cb, 0u8, index);
        set_opt_col(&mut self.alphas, ca, 0u8, index);
        set_opt_col(&mut self.intensities, point.intensity, 0i64, index);
        set_opt_col(&mut self.classifications, point.classification, 0i64, index);
        let ghost mid = self.cols();
        let m = self.extras.len();
        let mut j: usize = 0;
        while j < m
            invariant
                j <= m,
                m == self.extras@.len(),
                self.cols().extras.len() == m,
                point.wf(),
                index < c0.xs.len(),
                m == c0.extras.len(),
                self.cols().xs == mid.xs,
                self.cols().ys == mid.ys,
                self.cols().zs == mid.zs,
                self.cols().rs == mid.rs,
                self.cols().gs == mid.gs,
                self.cols().bs == mid.bs,
                self.cols().alphas == mid.alphas,
                self.cols().intensities == mid.intensities,
                self.cols().classifications == mid.classifications,
                forall|k: int|
                    0 <= k < j ==> #[trigger] self.cols().extras[k] == (
                        c0.extras[k].0,
                        c0.extras[k].1.update(
                            index as int,
                            extra_val(point@.attributes, c0.extras[k].0),
                        ),
                    ),
                forall|k: int| j <= k < m ==> #[trigger] self.cols().extras[k] == c0.extras[k],
                forall|k: int| 0 <= k < m ==> (#[trigger] c0.extras[k]).1.len() == c0.xs.len(),
            decreases m - j,
        {
            proof {
                assert(self.cols().extras[j as int] == (self.extras@[j as int].0@, self.extras@[j as int].1@));
            }
            let val = match point.get_attribute(self_str(&self.extras[j].0)) {
                Some(v) => v,
                None => 0,
            };
            let ghost before = self.extras@;
            let e = vstd::std_specs::vec::vec_index_mut(&mut self.extras, j);
            e.1.set(index, val);
            j = j + 1;
            proof {
                assert forall|k: int| 0 <= k < m implies #[trigger] self.cols().extras[k] == (
                    if k < j {
                        (
                            c0.extras[k].0,
                            c0.extras[k].1.update(
                                index as int,
                                extra_val(point@.attributes, c0.extras[k].0),
                            ),
                        )
                    } else {
                        c0.extras[k]
                    }
                ) by {
                    assert(self.cols().extras[k] == (self.extras@[k].0@, self.extras@[k].1@));
                    assert(extras_view(before)[k] == (before[k].0@, before[k].1@));
                    if k != j - 1 {
                        assert(self.extras@[k] == before[k]);
                    }
                }
            }
        }
        proof {
            assert(extras_set(c0.extras, point@.attributes, index as int).len() == m);
            assert forall|k: int| 0 <= k < m implies #[trigger] self.cols().extras[k] == extras_set(
                c0.extras,
                point@.attributes,
                index as int,
            )[k] by {}
            assert(self.cols().extras =~~= extras_set(c0.extras, point@.attributes, index as int));
            let ghost target = cols_set(c0, index as int, point@);
            assert(self.cols().xs =~= target.xs);
            assert(self.cols().ys =~= target.ys);
            assert(self.cols().zs == target.zs);
            assert(self.cols().rs == target.rs);
            assert(self.cols().gs == target.gs);
            assert(self.cols().bs == target.bs);
            assert(self.cols().alphas == target.alphas);
            assert(self.cols().intensities == target.intensities);
            assert(self.cols().classifications == target.classifications);
            assert(self.cols().extras == target.extras);
            assert(self.cols() =~~= target);
        }
        Ok(())
    }

    fn transform(&self, t: &Transform) -> (c: CompactPointCloud) {
        let n = self.xs.len();
        let mut nxs: Vec<i64> = Vec::new();
        let mut nys: Vec<i64> = Vec::new();
        let mut nzs: Vec<i64> = Vec::new();
        let has_z = self.zs.is_some();
        let ghost c0 = self.cols();
        let ghost tc = cols_transform(t@, c0);
        let mut i: usize = 0;
        while i < n
            invariant
                i <= n,
                n == c0.xs.len(),
                c0 == self.cols(),
                tc == cols_transform(t@, c0),
                cols_synced(c0),
                cloud_fits(t@, cols_model(c0)),
                has_z == (c0.zs is Some),
                nxs@ == tc.xs.subrange(0, i as int),
                nys@ == tc.ys.subrange(0, i as int),
                has_z ==> nzs@ == tc.zs.unwrap().subrange(0, i as int),
            decreases n - i,
        {
            proof {
                assert(cols_model(c0)[i as int] == row_view(c0, i as int));
            }
            let z: Option<i64> = match &self.zs {
                Some(v) => Some(v[i]),
                None => None,
            };
            let (ax, ay, az) = t.apply_to_point(self.xs[i], self.ys[i], z);
            nxs.push(ax);
            nys.push(ay);
            if has_z {
                nzs.push(az);
            }
            i = i + 1;
            proof {
                assert(tc.xs[i - 1] == transformed_view(t@, row_view(c0, i - 1)).x);
                assert(tc.ys[i - 1] == transformed_view(t@, row_view(c0, i - 1)).y);
                assert(nxs@ =~= tc.xs.subrange(0, i as int));
                assert(nys@ =~= tc.ys.subrange(0, i as int));
                if has_z {
                    assert(tc.zs.unwrap()[i - 1] == transformed_view(
                        t@,
                        row_view(c0, i - 1),
                    ).z.unwrap());
                    assert(nzs@ =~= tc.zs.unwrap().subrange(0, i as int));
                }
            }
        }
        let out = CompactPointCloud {
            xs: nxs,
            ys: nys,
            zs: if has_z {
                Some(nzs)
            } else {
                None
            },
            rs: clone_opt_u8(&self.rs),
            gs: clone_opt_u8(&self.gs),
            bs: clone_opt_u8(&self.bs),
            alphas: clone_opt_u8(&self.alphas),
            intensities: clone_opt_i64(&self.intensities),
            classifications: clone_opt_i64(&self.classifications),
            extras: clone_extras(&self.extras),
            capacity: self.capacity,
            auto_grow: self.auto_grow,
        };
        proof {
            assert(tc.xs.subrange(0, n as int) =~= tc.xs);
            assert(tc.ys.subrange(0, n as int) =~= tc.ys);
            if has_z {
                assert(tc.zs.unwrap().subrange(0, n as int) =~= tc.zs.unwrap());
            }
            assert(out.cols() =~~= tc);
            lemma_cols_transform_model(t@, c0);
        }
        out
    }

    fn transform_inplace(&mut self, t: &Transform) {
        let ghost c0 = old(self).cols();
        let ghost tc = cols_transform(t@, c0);
        let n = self.xs.len();
        let has_z = self.zs.is_some();
        let mut i: usize = 0;
        while i < n
            invariant
                i <= n,
                n == c0.xs.len(),
                cols_synced(c0),
                cols_names_unique(c0),
                cloud_fits(t@, cols_model(c0)),
                tc == cols_transform(t@, c0),
                has_z == (c0.zs is Some),
                self.cols().xs.len() == n,
                self.cols().ys.len() == n,
                forall|k: int| i <= k < n ==> #[trigger] self.cols().xs[k] == c0.xs[k],
                forall|k: int| i <= k < n ==> #[trigger] self.cols().ys[k] == c0.ys[k],
                forall|k: int| 0 <= k < i ==> #[trigger] self.cols().xs[k] == tc.xs[k],
                forall|k: int| 0 <= k < i ==> #[trigger] self.cols().ys[k] == tc.ys[k],
                self.cols().zs is Some <==> c0.zs is Some,
                has_z ==> self.cols().zs.unwrap().len() == n,
                has_z ==> forall|k: int|
                    i <= k < n ==> #[trigger] self.cols().zs.unwrap()[k] == c0.zs.unwrap()[k],
                has_z ==> forall|k: int|
                    0 <= k < i ==> #[trigger] self.cols().zs.unwrap()[k] == tc.zs.unwrap()[k],
                self.cols().rs == c0.rs,
                self.cols().gs == c0.gs,
                self.cols().bs == c0.bs,
                self.cols().alphas == c0.alphas,
                self.cols().intensities == c0.intensities,
                self.cols().classifications == c0.classifications,
                self.cols().extras == c0.extras,
            decreases n - i,
        {
            proof {
                assert(cols_model(c0)[i as int] == row_view(c0, i as int));
            }
            let z: Option<i64> = match &self.zs {
                Some(v) => Some(v[i]),
                None => None,
            };
            proof {
                if has_z {
                    assert(z == Some(c0.zs.unwrap()[i as int]));
                }
            }
            let (ax, ay, az) = t.apply_to_point(self.xs[i], self.ys[i], z);
            self.xs.set(i, ax);
            self.ys.set(i, ay);
            if has_z {
                match &mut self.zs {
                    Some(v) => v.set(i, az),
                    None => {},
                }
            }
            i = i + 1;
            proof {
                assert(tc.xs[i - 1] == transformed_view(t@, row_view(c0, i - 1)).x);
                assert(tc.ys[i - 1] == transformed_view(t@, row_view(c0, i - 1)).y);
                if has_z {
                    assert(tc.zs.unwrap()[i - 1] == transformed_view(
                        t@,
                        row_view(c0, i - 1),
                    ).z.unwrap());
                }
            }
        }
        proof {
            assert(self.cols().xs =~= tc.xs);
            assert(self.cols().ys =~= tc.ys);
            if has_z {
                assert(self.cols().zs.unwrap() =~= tc.zs.unwrap());
                assert(self.cols().zs == tc.zs);
            } else {
                assert(self.cols().zs is None && tc.zs is None);
            }
            assert(self.cols() =~~= tc);
            lemma_cols_transform_model(t@, c0);
        }
    }
}

/// A copy of an optional byte column.
fn clone_opt_u8(c: &Option<Vec<u8>>) -> (r: Option<Vec<u8>>)
    ensures
        opt_view(r) == opt_view(*c),
{
    match c {
        Some(v) => Some(clone_vec_u8(v)),
        None => None,
    }
}

/// A copy of an optional value column.
fn clone_opt_i64(c: &Option<Vec<i64>>) -> (r: Option<Vec<i64>>)
    ensures
        opt_view(r) == opt_view(*c),
{
    match c {
        Some(v) => Some(clone_vec_i64(v)),
        None => None,
    }
}

/// A copy of a byte column.
fn clone_vec_u8(v: &Vec<u8>) -> (r: Vec<u8>)
    ensures
        r@ == v@,
{
    let mut r: Vec<u8> = Vec::new();
    let mut i: usize = 0;
    let n = v.len();
    while i < n
        invariant
            i <= n,
            n == v@.len(),
            r@ == v@.subrange(0, i as int),
        decreases n - i,
    {
        r.push(v[i]);
        i = i + 1;
        proof {
            assert(r@ =~= v@.subrange(0, i as int));
        }
    }
    proof {
        assert(v@.subrange(0, n as int) =~= v@);
    }
    r
}

/// A copy of a value column.
fn clone_vec_i64(v: &Vec<i64>) -> (r: Vec<i64>)
    ensures
        r@ == v@,
{
    let mut r: Vec<i64> = Vec::new();
    let mut i: usize = 0;
    let n = v.len();
    while i < n
        invariant
            i <= n,
            n == v@.len(),
            r@ == v@.subrange(0, i as int),
        decreases n - i,
    {
        r.push(v[i]);
        i = i + 1;
        proof {
            assert(r@ =~= v@.subrange(0, i as int));
        }
    }
    proof {
        assert(v@.subrange(0, n as int) =~= v@);
    }
    r
}

/// A copy of the extension columns.
fn clone_extras(v: &Vec<(String, Vec<i64>)>) -> (r: Vec<(String, Vec<i64>)>)
    ensures
        extras_view(r@) == extras_view(v@),
{
    let mut r: Vec<(String, Vec<i64>)> = Vec::new();
    let mut i: usize = 0;
    let n = v.len();
    while i < n
        invariant
            i <= n,
            n == v@.len(),
            extras_view(r@) == extras_view(v@).subrange(0, i as int),
        decreases n - i,
    {
        let ghost r0 = r@;
        let name = clone_string(&v[i].0);
        let col = clone_vec_i64(&v[i].1);
        r.push((name, col));
        i = i + 1;
        proof {
            assert(extras_view(r0).len() == r0.len());
            assert(extras_view(r@) =~= extras_view(v@).subrange(0, i as int));
        }
    }
    proof {
        assert(extras_view(v@).subrange(0, n as int) =~= extras_view(v@));
        assert(extras_view(r@) =~= extras_view(v@));
    }
    r
}

/// The model of coordinate-transformed columns is the transformed model:
/// each row keeps every attribute and has its coordinates mapped.
proof fn lemma_cols_transform_model(m: Seq<Seq<int>>, c: ColumnsView)
    requires
        cols_synced(c),
    ensures
        cols_model(cols_transform(m, c)) == transformed_model(m, cols_model(c)),
{
    let tc = cols_transform(m, c);
    let n = c.xs.len();
    assert forall|i: int| 0 <= i < n implies #[trigger] cols_model(tc)[i] == transformed_model(
        m,
        cols_model(c),
    )[i] by {
        assert(cols_model(tc)[i] == row_view(tc, i));
        assert(transformed_model(m, cols_model(c))[i] == transformed_view(m, cols_model(c)[i]));
        assert(cols_model(c)[i] == row_view(c, i));
        assert(row_view(tc, i).attributes =~= transformed_view(m, row_view(c, i)).attributes);
        assert(row_view(tc, i) == transformed_view(m, row_view(c, i)));
    }
    assert(cols_model(tc) =~= transformed_model(m, cols_model(c)));
}

} // verus!
