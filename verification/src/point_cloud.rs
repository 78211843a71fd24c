//! The capability contract every point-cloud layout implements: capacity,
//! indexed access, attribute introspection, bulk mutation, and transform
//! application, each specified against the layout's mathematical model.
//!
//! The model of a container is the sequence of `PointView`s a caller can
//! observe through `at`. Layouts differ in how adding a point changes that
//! model (a column layout backfills newly materialized columns) and in how
//! schema queries answer (a row layout must scan, a column layout reads its
//! column set), so those spots of the contract go through layout-defined
//! spec functions.
use vstd::prelude::*;

use crate::errors::PclError;
use crate::point::{Point, PointView};
use crate::transform::{apply_fits, apply_spec, z_or_zero, Transform};

verus! {

/// The views of a sequence of points.
pub open spec fn points_model(v: Seq<Point>) -> Seq<PointView> {
    Seq::new(v.len(), |i: int| v[i]@)
}

/// `p` with its coordinates mapped through the matrix `m`; the presence of
/// the third coordinate and every other attribute are unchanged.
pub open spec fn transformed_view(m: Seq<Seq<int>>, p: PointView) -> PointView {
    let (nx, ny, nz) = apply_spec(m, p.x as int, p.y as int, z_or_zero(p.z));
    PointView {
        x: nx as i64,
        y: ny as i64,
        z: match p.z {
            Some(_) => Some(nz as i64),
            None => None,
        },
        ..p
    }
}

/// Every point of the model can be mapped through `m` without leaving the
/// machine range.
pub open spec fn cloud_fits(m: Seq<Seq<int>>, s: Seq<PointView>) -> bool {
    forall|i: int|
        0 <= i < s.len() ==> apply_fits(
            m,
            (#[trigger] s[i]).x as int,
            s[i].y as int,
            z_or_zero(s[i].z),
        )
}

/// The model with every point mapped through `m`.
pub open spec fn transformed_model(m: Seq<Seq<int>>, s: Seq<PointView>) -> Seq<PointView> {
    Seq::new(s.len(), |i: int| transformed_view(m, s[i]))
}

/// One point mapped through a transform: the coordinates change, everything
/// else is copied.
pub fn transform_point(t: &Transform, p: &Point) -> (q: Point)
    requires
        p.wf(),
        apply_fits(t@, p.x as int, p.y as int, z_or_zero(p@.z)),
    ensures
        q@ == transformed_view(t@, p@),
        q.wf(),
{
    let (nx, ny, nz) = t.apply_to_point(p.x, p.y, p.z);
    let mut q = p.duplicate();
    q.x = nx;
    q.y = ny;
    if q.z.is_some() {
        q.z = Some(nz);
    }
    q
}

/// The operations every storage layout exposes. Contracts are stated over
/// `model`, the observable sequence of points; `wf` is the layout's internal
/// well-formedness, established by the constructors and preserved by every
/// operation.
pub trait PointCloud: Sized {
    /// The observable contents: one `PointView` per stored point.
    spec fn model(&self) -> Seq<PointView>;

    /// The layout's internal invariant.
    spec fn wf(&self) -> bool;

    /// Whether the container is 3D: layout-defined (a row layout scans for a
    /// point with a third coordinate, a column layout asks whether the z
    /// column exists).
    spec fn is_3d_spec(&self) -> bool;

    /// Whether the container carries colors, layout-defined as for
    /// `is_3d_spec`.
    spec fn has_color_spec(&self) -> bool;

    /// Whether the container carries intensity samples.
    spec fn has_intensity_spec(&self) -> bool;

    /// Whether the container carries classification codes.
    spec fn has_classification_spec(&self) -> bool;

    /// Whether the container knows the attribute called `name`.
    spec fn has_attribute_spec(&self, name: Seq<char>) -> bool;

    /// The ordered attribute names the container reports.
    spec fn attribute_names_spec(&self) -> Seq<Seq<char>>;

    /// The model after appending `p`: layout-defined, because a column
    /// layout materializes newly seen optional attributes and backfills
    /// earlier rows with the default.
    spec fn add_model(&self, p: PointView) -> Seq<PointView>;

    /// The model after replacing the point at `index` with `p`:
    /// layout-defined for the same reason as `add_model`.
    spec fn set_model(&self, index: int, p: PointView) -> Seq<PointView>;

    /// An empty container.
    fn new() -> (c: Self)
        ensures
            c.wf(),
            c.model() == Seq::<PointView>::empty(),
    ;

    /// An empty container with storage reserved for `capacity` points.
    fn with_capacity(capacity: usize) -> (c: Self)
        ensures
            c.wf(),
            c.model() == Seq::<PointView>::empty(),
    ;

    /// How many points are stored.
    fn num_points(&self) -> (n: usize)
        requires
            self.wf(),
        ensures
            n == self.model().len(),
    ;

    /// Whether no point is stored.
    fn is_empty(&self) -> (r: bool)
        requires
            self.wf(),
        ensures
            r == (self.model().len() == 0),
    ;

    /// Append one point; the exact effect on the model is the layout's
    /// `add_model`.
    fn add_point(&mut self, point: Point)
        requires
            old(self).wf(),
            point.wf(),
            old(self).model().len() < usize::MAX,
        ensures
            final (self).wf(),
            final (self).model() == old(self).add_model(point@),
    ;

    /// Remove every point. The attribute schema is preserved: the names
    /// reported afterwards are exactly the names reported before, as far as
    /// the layout can answer them without points (a row layout derives its
    /// schema from the stored points, so only its coordinate names remain).
    fn clear(&mut self)
        requires
            old(self).wf(),
        ensures
            final (self).wf(),
            final (self).model() == Seq::<PointView>::empty(),
    ;

    /// Reserve storage so that `additional` further appends need not grow
    /// the container; the contents do not change.
    fn reserve(&mut self, additional: usize)
        requires
            old(self).wf(),
            old(self).model().len() + additional <= usize::MAX,
        ensures
            final (self).wf(),
            final (self).model() == old(self).model(),
            final (self).attribute_names_spec() == old(self).attribute_names_spec(),
    ;

    /// Whether the container is 3D, as the layout defines it.
    fn is_3d(&self) -> (r: bool)
        requires
            self.wf(),
        ensures
            r == self.is_3d_spec(),
    ;

    /// Whether the container carries colors.
    fn has_color(&self) -> (r: bool)
        requires
            self.wf(),
        ensures
            r == self.has_color_spec(),
    ;

    /// Whether the container carries intensity samples.
    fn has_intensity(&self) -> (r: bool)
        requires
            self.wf(),
        ensures
            r == self.has_intensity_spec(),
    ;

    /// Whether the container carries classification codes.
    fn has_classification(&self) -> (r: bool)
        requires
            self.wf(),
        ensures
            r == self.has_classification_spec(),
    ;

    /// Whether the container knows the attribute called `attribute`.
    fn has_attribute(&self, attribute: &str) -> (r: bool)
        requires
            self.wf(),
        ensures
            r == self.has_attribute_spec(attribute@),
    ;

    /// The ordered attribute names of the container.
    fn attribute_names(&self) -> (r: Vec<String>)
        requires
            self.wf(),
        ensures
            crate::point::strings_view(r@) == self.attribute_names_spec(),
    ;

    /// The point at `index`, reconstructed from the layout: exactly
    /// `model()[index]`, or an `IndexError` naming the index and the length
    /// if and only if `index` is out of range.
    fn at(&self, index: usize) -> (r: Result<Point, PclError>)
        requires
            self.wf(),
        ensures
            match r {
                Ok(p) => index < self.model().len() && p@ == self.model()[index as int] && p.wf(),
                Err(e) => index >= self.model().len() && e == (PclError::IndexError {
                    index,
                    len: self.model().len() as usize,
                }),
            },
    ;

    /// Replace the point at `index`; the exact effect on the model is the
    /// layout's `set_model`. Fails with an `IndexError` if and only if
    /// `index` is out of range, leaving the container unchanged.
    fn set(&mut self, index: usize, point: Point) -> (r: Result<(), PclError>)
        requires
            old(self).wf(),
            point.wf(),
        ensures
            final (self).wf(),
            match r {
                Ok(()) => index < old(self).model().len() && final (self).model() == old(
                    self,
                ).set_model(index as int, point@),
                Err(e) => index >= old(self).model().len() && *final (self) == *old(self) && e == (
                PclError::IndexError { index, len: old(self).model().len() as usize }),
            },
    ;

    /// A new container of the same layout with every coordinate mapped
    /// through `t`; all other attributes are copied unchanged.
    fn transform(&self, t: &Transform) -> (c: Self)
        requires
            self.wf(),
            cloud_fits(t@, self.model()),
        ensures
            c.wf(),
            c.model() == transformed_model(t@, self.model()),
    ;

    /// Map every coordinate through `t` in place; attribute storage is
    /// untouched.
    fn transform_inplace(&mut self, t: &Transform)
        requires
            old(self).wf(),
            cloud_fits(t@, old(self).model()),
        ensures
            final (self).wf(),
            final (self).model() == transformed_model(t@, old(self).model()),
    ;
}

} // verus!
