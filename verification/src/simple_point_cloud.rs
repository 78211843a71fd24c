//! The row-oriented layout: one `Point` record per element. Appending is a
//! plain push, while the schema queries (`is_3d`, `has_color`, ...) must
//! scan the stored points, because the schema is implicit in the data.
use vstd::prelude::*;

use crate::errors::PclError;
use crate::point::{compare_str, strings_view, unique_keys, Point, PointView};
use crate::point_cloud::{
    cloud_fits, points_model, transform_point, transformed_model, transformed_view, PointCloud,
};
use crate::transform::Transform;

verus! {

/// Every point of the model has unique extension-attribute names.
pub open spec fn models_wf(s: Seq<PointView>) -> bool {
    forall|i: int| 0 <= i < s.len() ==> unique_keys((#[trigger] s[i]).attributes)
}

/// The attribute names a row layout reports, from what its points carry:
/// the coordinates, then each typed attribute some point carries.
///
/// A deliberate design choice: the row layout's derived schema covers the
/// fixed attributes only. Extension attributes remain per-point data —
/// stored and returned intact by `at` and readable with `get_attribute` —
/// but the layout does not merge the open maps of its points into a
/// schema, so `has_attribute` and `attribute_names` do not cover them; the
/// column layout, which materializes them as columns, reports them.
pub open spec fn row_names(
    z: bool,
    color: bool,
    alpha: bool,
    intensity: bool,
    classification: bool,
    ring: bool,
    time: bool,
) -> Seq<Seq<char>> {
    seq!["x"@, "y"@] + (if z {
        seq!["z"@]
    } else {
        Seq::<Seq<char>>::empty()
    }) + (if color {
        seq!["r"@, "g"@, "b"@]
    } else {
        Seq::<Seq<char>>::empty()
    }) + (if alpha {
        seq!["a"@]
    } else {
        Seq::<Seq<char>>::empty()
    }) + (if intensity {
        seq!["intensity"@]
    } else {
        Seq::<Seq<char>>::empty()
    }) + (if classification {
        seq!["classification"@]
    } else {
        Seq::<Seq<char>>::empty()
    }) + (if ring {
        seq!["ring_id"@]
    } else {
        Seq::<Seq<char>>::empty()
    }) + (if time {
        seq!["time_offset"@]
    } else {
        Seq::<Seq<char>>::empty()
    })
}

/// Which typed attributes some stored point carries; one scan answers all
/// of the row layout's schema queries.
struct RowFlags {
    z: bool,
    color: bool,
    alpha: bool,
    intensity: bool,
    classification: bool,
    ring: bool,
    time: bool,
}

/// The row-oriented container: a vector of point records.
#[derive(Debug, Clone, PartialEq)]
pub struct SimplePointCloud {
    points: Vec<Point>,
}

impl SimplePointCloud {
    /// The stored point records; the representation itself stays hidden.
    pub closed spec fn points_spec(&self) -> Seq<Point> {
        self.points@
    }

    /// A container holding exactly the given points, in order.
    pub fn from_points(points: Vec<Point>) -> (c: SimplePointCloud)
        requires
            models_wf(points_model(points@)),
        ensures
            c.wf(),
            c.model() == points_model(points@),
    {
        SimplePointCloud { points }
    }

    /// The stored points, in order.
    pub fn points_vec(&self) -> (r: &Vec<Point>)
        ensures
            points_model(r@) == self.model(),
    {
        &self.points
    }

    fn scan_flags(&self) -> (f: RowFlags)
        ensures
            f.z == self.is_3d_spec(),
            f.color == self.has_color_spec(),
            f.alpha == self.has_alpha_spec(),
            f.intensity == self.has_intensity_spec(),
            f.classification == self.has_classification_spec(),
            f.ring == self.has_ring_spec(),
            f.time == self.has_time_spec(),
    {
        let ghost s = self.model();
        let mut f = RowFlags {
            z: false,
            color: false,
            alpha: false,
            intensity: false,
            classification: false,
            ring: false,
            time: false,
        };
        let mut i: usize = 0;
        let n = self.points.len();
        while i < n
            invariant
                i <= n,
                n == self.points.len(),
                s == self.model(),
                s.len() == n,
                f.z == exists|j: int| 0 <= j < i && (#[trigger] s[j]).z is Some,
                f.color == exists|j: int| 0 <= j < i && (#[trigger] s[j]).color is Some,
                f.alpha == exists|j: int|
                    0 <= j < i && (#[trigger] s[j]).color is Some && s[j].color.unwrap().a is Some,
                f.intensity == exists|j: int| 0 <= j < i && (#[trigger] s[j]).intensity is Some,
                f.classification == exists|j: int|
                    0 <= j < i && (#[trigger] s[j]).classification is Some,
                f.ring == exists|j: int| 0 <= j < i && (#[trigger] s[j]).ring_id is Some,
                f.time == exists|j: int| 0 <= j < i && (#[trigger] s[j]).time_offset is Some,
            decreases n - i,
        {
            proof {
                assert(s[i as int] == self.points@[i as int]@);
            }
            let p = &self.points[i];
            if p.z.is_some() {
                f.z = true;
            }
            match &p.color {
                Some(c) => {
                    f.color = true;
                    if c.a.is_some() {
                        f.alpha = true;
                    }
                },
                None => {},
            }
            if p.intensity.is_some() {
                f.intensity = true;
            }
            if p.classification.is_some() {
                f.classification = true;
            }
            if p.ring_id.is_some() {
                f.ring = true;
            }
            if p.time_offset.is_some() {
                f.time = true;
            }
            i = i + 1;
        }
        f
    }

    /// Whether some stored point carries an alpha channel.
    pub open spec fn has_alpha_spec(&self) -> bool {
        exists|j: int|
            0 <= j < self.model().len() && (#[trigger] self.model()[j]).color is Some
                && self.model()[j].color.unwrap().a is Some
    }

    /// Whether some stored point carries a ring id.
    pub open spec fn has_ring_spec(&self) -> bool {
        exists|j: int| 0 <= j < self.model().len() && (#[trigger] self.model()[j]).ring_id is Some
    }

    /// Whether some stored point carries a time offset.
    pub open spec fn has_time_spec(&self) -> bool {
        exists|j: int|
            0 <= j < self.model().len() && (#[trigger] self.model()[j]).time_offset is Some
    }
}

/// The round-trip law for the row layout: a container built from a
/// sequence of points holds exactly those points, in order, so reading the
/// stored points back yields a sequence equal to the input, field by field.
/// `from_points` establishes `c.model() == points_model(points)`, and
/// `points_vec` returns the stored points with that same model.
pub proof fn lemma_row_round_trip(c: SimplePointCloud, points: Seq<Point>)
    requires
        c.model() == points_model(points),
    ensures
        c.model().len() == points.len(),
        forall|i: int| 0 <= i < points.len() ==> c.model()[i] == (#[trigger] points[i])@,
{
    assert(points_model(points).len() == points.len());
    assert forall|i: int| 0 <= i < points.len() implies c.model()[i] == (
    #[trigger] points[i])@ by {
        assert(points_model(points)[i] == points[i]@);
    }
}

impl PointCloud for SimplePointCloud {
    open spec fn model(&self) -> Seq<PointView> {
        points_model(self.points_spec())
    }

    open spec fn wf(&self) -> bool {
        models_wf(self.model())
    }

    open spec fn is_3d_spec(&self) -> bool {
        exists|j: int| 0 <= j < self.model().len() && (#[trigger] self.model()[j]).z is Some
    }

    open spec fn has_color_spec(&self) -> bool {
        exists|j: int| 0 <= j < self.model().len() && (#[trigger] self.model()[j]).color is Some
    }

    open spec fn has_intensity_spec(&self) -> bool {
        exists|j: int| 0 <= j < self.model().len() && (#[trigger] self.model()[j]).intensity is Some
    }

    open spec fn has_classification_spec(&self) -> bool {
        exists|j: int|
            0 <= j < self.model().len() && (#[trigger] self.model()[j]).classification is Some
    }

    open spec fn has_attribute_spec(&self, name: Seq<char>) -> bool {
        if name == "x"@ || name == "y"@ {
            true
        } else if name == "z"@ {
            self.is_3d_spec()
        } else if name == "r"@ || name == "g"@ || name == "b"@ || name == "a"@ {
            self.has_color_spec()
        } else if name == "intensity"@ {
            self.has_intensity_spec()
        } else if name == "classification"@ {
            self.has_classification_spec()
        } else if name == "ring_id"@ {
            self.has_ring_spec()
        } else if name == "time_offset"@ {
            self.has_time_spec()
        } else {
            false
        }
    }

    open spec fn attribute_names_spec(&self) -> Seq<Seq<char>> {
        row_names(
            self.is_3d_spec(),
            self.has_color_spec(),
            self.has_alpha_spec(),
            self.has_intensity_spec(),
            self.has_classification_spec(),
            self.has_ring_spec(),
            self.has_time_spec(),
        )
    }

    open spec fn add_model(&self, p: PointView) -> Seq<PointView> {
        self.model().push(p)
    }

    open spec fn set_model(&self, index: int, p: PointView) -> Seq<PointView> {
        self.model().update(index, p)
    }

    fn new() -> (c: SimplePointCloud) {
        let c = SimplePointCloud { points: Vec::new() };
        proof {
            assert(c.model() =~= Seq::<PointView>::empty());
        }
        c
    }

    fn with_capacity(capacity: usize) -> (c: SimplePointCloud) {
        let c = SimplePointCloud { points: Vec::with_capacity(capacity) };
        proof {
            assert(c.model() =~= Seq::<PointView>::empty());
        }
        c
    }

    fn num_points(&self) -> (n: usize) {
        self.points.len()
    }

    fn is_empty(&self) -> (r: bool) {
        self.points.len() == 0
    }

    fn add_point(&mut self, point: Point) {
        self.points.push(point);
        proof {
            assert(self.model() =~= old(self).model().push(self.points@.last()@));
        }
    }

    fn clear(&mut self) {
        self.points.clear();
        proof {
            assert(self.model() =~= Seq::<PointView>::empty());
        }
    }

    fn reserve(&mut self, additional: usize) {
        self.points.reserve(additional);
    }

    fn is_3d(&self) -> (r: bool) {
        self.scan_flags().z
    }

    fn has_color(&self) -> (r: bool) {
        self.scan_flags().color
    }

    fn has_intensity(&self) -> (r: bool) {
        self.scan_flags().intensity
    }

    fn has_classification(&self) -> (r: bool) {
        self.scan_flags().classification
    }

    fn has_attribute(&self, attribute: &str) -> (r: bool) {
        let f = self.scan_flags();
        if compare_str(attribute, "x") || compare_str(attribute, "y") {
            true
        } else if compare_str(attribute, "z") {
            f.z
        } else if compare_str(attribute, "r") || compare_str(attribute, "g") || compare_str(
            attribute,
            "b",
        ) || compare_str(attribute, "a") {
            f.color
        } else if compare_str(attribute, "intensity") {
            f.intensity
        } else if compare_str(attribute, "classification") {
            f.classification
        } else if compare_str(attribute, "ring_id") {
            f.ring
        } else if compare_str(attribute, "time_offset") {
            f.time
        } else {
            false
        }
    }

    #[verifier::rlimit(60)]
    fn attribute_names(&self) -> (r: Vec<String>) {
        let f = self.scan_flags();
        let mut r: Vec<String> = Vec::new();
        r.push(String::from_str("x"));
        r.push(String::from_str("y"));
        if f.z {
            r.push(String::from_str("z"));
        }
        if f.color {
            r.push(String::from_str("r"));
            r.push(String::from_str("g"));
            r.push(String::from_str("b"));
        }
        if f.alpha {
            r.push(String::from_str("a"));
        }
        if f.intensity {
            r.push(String::from_str("intensity"));
        }
        if f.classification {
            r.push(String::from_str("classification"));
        }
        if f.ring {
            r.push(String::from_str("ring_id"));
        }
        if f.time {
            r.push(String::from_str("time_offset"));
        }
        proof {
            assert(strings_view(r@) =~= self.attribute_names_spec());
        }
        r
    }

    fn at(&self, index: usize) -> (r: Result<Point, PclError>) {
        if index < self.points.len() {
            proof {
                assert(self.model()[index as int] == self.points@[index as int]@);
            }
            Ok(self.points[index].duplicate())
        } else {
            Err(PclError::IndexError { index, len: self.points.len() })
        }
    }

    fn set(&mut self, index: usize, point: Point) -> (r: Result<(), PclError>) {
        if index < self.points.len() {
            self.points.set(index, point);
            proof {
                assert(self.model() =~= old(self).model().update(
                    index as int,
                    self.points@[index as int]@,
                ));
            }
            Ok(())
        } else {
            Err(PclError::IndexError { index, len: self.points.len() })
        }
    }

    fn transform(&self, t: &Transform) -> (c: SimplePointCloud) {
        let mut out: Vec<Point> = Vec::new();
        let mut i: usize = 0;
        let n = self.points.len();
        while i < n
            invariant
                i <= n,
                n == self.points.len(),
                self.wf(),
                cloud_fits(t@, self.model()),
                points_model(out@) == transformed_model(t@, self.model()).subrange(0, i as int),
            decreases n - i,
        {
            proof {
                assert(self.model()[i as int] == self.points@[i as int]@);
            }
            let ghost out0 = out@;
            let np = transform_point(t, &self.points[i]);
            out.push(np);
            i = i + 1;
            proof {
                assert(points_model(out0).len() == out0.len());
                assert(transformed_model(t@, self.model())[i - 1] == transformed_view(
                    t@,
                    self.model()[i - 1],
                ));
                assert(points_model(out@) =~= transformed_model(t@, self.model()).subrange(
                    0,
                    i as int,
                ));
            }
        }
        let c = SimplePointCloud { points: out };
        proof {
            assert(transformed_model(t@, self.model()).subrange(0, n as int) =~= transformed_model(
                t@,
                self.model(),
            ));
            assert forall|j: int|
                0 <= j < c.model().len() implies unique_keys(
                (#[trigger] c.model()[j]).attributes,
            ) by {
                assert(c.model()[j] == transformed_view(t@, self.model()[j]));
                assert(unique_keys(self.model()[j].attributes));
            }
        }
        c
    }

    fn transform_inplace(&mut self, t: &Transform) {
        let ghost s0 = old(self).model();
        let mut i: usize = 0;
        let n = self.points.len();
        while i < n
            invariant
                i <= n,
                n == self.points.len(),
                s0.len() == n,
                models_wf(s0),
                cloud_fits(t@, s0),
                self.model().subrange(i as int, n as int) == s0.subrange(i as int, n as int),
                self.model().subrange(0, i as int) == transformed_model(t@, s0).subrange(
                    0,
                    i as int,
                ),
            decreases n - i,
        {
            proof {
                assert(self.model().subrange(i as int, n as int)[0] == self.model()[i as int]);
                assert(s0.subrange(i as int, n as int)[0] == s0[i as int]);
                assert(self.model()[i as int] == s0[i as int]);
                assert(self.model()[i as int] == self.points@[i as int]@);
                assert(unique_keys(s0[i as int].attributes));
            }
            let np = transform_point(t, &self.points[i]);
            let ghost before = self.model();
            self.points.set(i, np);
            i = i + 1;
            proof {
                assert(self.model() =~= before.update(i - 1, self.points@[i - 1]@));
                assert(before.len() == n);
                assert forall|k: int| i <= k < n implies self.model()[k] == s0[k] by {
                    assert(before.subrange(i - 1, n as int)[k - (i - 1)] == before[k]);
                    assert(s0.subrange(i - 1, n as int)[k - (i - 1)] == s0[k]);
                    assert(self.model()[k] == before[k]);
                }
                assert(self.model().subrange(i as int, n as int) =~= s0.subrange(i as int, n as int));
                assert(self.model().subrange(0, i as int) =~= transformed_model(t@, s0).subrange(
                    0,
                    i as int,
                ));
            }
        }
        proof {
            assert(self.model().subrange(0, n as int) =~= self.model());
            assert(transformed_model(t@, s0).subrange(0, n as int) =~= transformed_model(t@, s0));
            assert forall|j: int|
                0 <= j < self.model().len() implies unique_keys(
                (#[trigger] self.model()[j]).attributes,
            ) by {
                assert(self.model()[j] == transformed_view(t@, s0[j]));
                assert(unique_keys(s0[j].attributes));
            }
        }
    }
}

} // verus!
