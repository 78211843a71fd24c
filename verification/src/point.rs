//! One spatial sample: required planar coordinates, an optional third
//! coordinate, a fixed set of optional typed attributes, and an open map of
//! named extension attributes.
//!
//! Coordinates and numeric attribute values are `i64`: fixed integer units of
//! the caller's choosing. Color channels are 8-bit; the color is present as a
//! complete triple or not at all, which the `Color` type enforces by shape.
use vstd::prelude::*;

use crate::numeric::{is_isqrt, isqrt_u128, sabs};

verus! {

/// A complete color sample: red, green and blue are always present together;
/// the alpha channel is optional.
#[derive(Clone, Copy, Debug, PartialEq, Eq)]
pub struct Color {
    pub r: u8,
    pub g: u8,
    pub b: u8,
    pub a: Option<u8>,
}

/// The mathematical value of a `Point`: every field as stored, with the
/// extension attributes as a sequence of name/value pairs in insertion order.
pub ghost struct PointView {
    pub x: i64,
    pub y: i64,
    pub z: Option<i64>,
    pub color: Option<Color>,
    pub intensity: Option<i64>,
    pub classification: Option<i64>,
    pub ring_id: Option<u32>,
    pub time_offset: Option<i64>,
    pub attributes: Seq<(Seq<char>, i64)>,
}

/// The mathematical value of a vector of extension attributes.
pub open spec fn attrs_view(v: Seq<(String, i64)>) -> Seq<(Seq<char>, i64)> {
    Seq::new(v.len(), |i: int| (v[i].0@, v[i].1))
}

/// The names of a sequence of extension attributes, in order.
pub open spec fn names_of(s: Seq<(Seq<char>, i64)>) -> Seq<Seq<char>> {
    Seq::new(s.len(), |i: int| s[i].0)
}

/// The mathematical value of a vector of strings.
pub open spec fn strings_view(s: Seq<String>) -> Seq<Seq<char>> {
    Seq::new(s.len(), |i: int| s[i]@)
}

/// No two pairs share a name.
pub open spec fn unique_keys(s: Seq<(Seq<char>, i64)>) -> bool {
    forall|i: int, j: int| 0 <= i < j < s.len() ==> s[i].0 != s[j].0
}

/// Whether some pair carries the name `k`.
pub open spec fn has_key(s: Seq<(Seq<char>, i64)>, k: Seq<char>) -> bool {
    exists|i: int| 0 <= i < s.len() && s[i].0 == k
}

/// The index of the pair named `k` (meaningful when `has_key` holds and the
/// names are unique).
pub open spec fn key_index(s: Seq<(Seq<char>, i64)>, k: Seq<char>) -> int {
    choose|i: int| 0 <= i < s.len() && s[i].0 == k
}

/// The value stored under `k`, if any.
pub open spec fn get_extra(s: Seq<(Seq<char>, i64)>, k: Seq<char>) -> Option<i64> {
    if has_key(s, k) {
        Some(s[key_index(s, k)].1)
    } else {
        None
    }
}

/// The pairs after storing `v` under `k`: the existing pair is replaced in
/// place, or a new pair is appended.
pub open spec fn set_extra(s: Seq<(Seq<char>, i64)>, k: Seq<char>, v: i64) -> Seq<
    (Seq<char>, i64),
> {
    if has_key(s, k) {
        s.update(key_index(s, k), (k, v))
    } else {
        s.push((k, v))
    }
}

/// One point of a cloud. A pure value: copied freely, never shared across
/// containers.
#[derive(Clone, Debug, PartialEq)]
pub struct Point {
    pub x: i64,
    pub y: i64,
    pub z: Option<i64>,
    pub color: Option<Color>,
    pub intensity: Option<i64>,
    pub classification: Option<i64>,
    pub ring_id: Option<u32>,
    pub time_offset: Option<i64>,
    /// Extension attributes: unique names, insertion order.
    pub attributes: Vec<(String, i64)>,
}

impl View for Point {
    type V = PointView;

    open spec fn view(&self) -> PointView {
        PointView {
            x: self.x,
            y: self.y,
            z: self.z,
            color: self.color,
            intensity: self.intensity,
            classification: self.classification,
            ring_id: self.ring_id,
            time_offset: self.time_offset,
            attributes: attrs_view(self.attributes@),
        }
    }
}

/// The ordered names of the attributes a point carries: the coordinates
/// first, then the optional typed attributes, then the extension names in
/// insertion order.
pub open spec fn field_names(p: PointView) -> Seq<Seq<char>> {
    fixed_field_names(p) + names_of(p.attributes)
}

/// The names of the coordinates and typed attributes a point carries, in
/// their fixed order.
pub open spec fn fixed_field_names(p: PointView) -> Seq<Seq<char>> {
    seq!["x"@, "y"@] + (if p.z is Some {
        seq!["z"@]
    } else {
        Seq::<Seq<char>>::empty()
    }) + (match p.color {
        Some(c) => seq!["r"@, "g"@, "b"@] + (if c.a is Some {
            seq!["a"@]
        } else {
            Seq::<Seq<char>>::empty()
        }),
        None => Seq::<Seq<char>>::empty(),
    }) + (if p.intensity is Some {
        seq!["intensity"@]
    } else {
        Seq::<Seq<char>>::empty()
    }) + (if p.classification is Some {
        seq!["classification"@]
    } else {
        Seq::<Seq<char>>::empty()
    }) + (if p.ring_id is Some {
        seq!["ring_id"@]
    } else {
        Seq::<Seq<char>>::empty()
    }) + (if p.time_offset is Some {
        seq!["time_offset"@]
    } else {
        Seq::<Seq<char>>::empty()
    })
}

impl Point {
    /// The extension attribute names are unique.
    pub open spec fn wf(&self) -> bool {
        unique_keys(self@.attributes)
    }

    /// A 3D point with no optional attributes.
    pub fn new(x: i64, y: i64, z: i64) -> (p: Point)
        ensures
            p@ == (PointView {
                x,
                y,
                z: Some(z),
                color: None,
                intensity: None,
                classification: None,
                ring_id: None,
                time_offset: None,
                attributes: Seq::empty(),
            }),
            p.wf(),
    {
        let p = Point {
            x,
            y,
            z: Some(z),
            color: None,
            intensity: None,
            classification: None,
            ring_id: None,
            time_offset: None,
            attributes: Vec::new(),
        };
        proof {
            assert(p@.attributes =~= Seq::<(Seq<char>, i64)>::empty());
        }
        p
    }

    /// A planar point: no third coordinate, no optional attributes.
    pub fn new_2d(x: i64, y: i64) -> (p: Point)
        ensures
            p@ == (PointView {
                x,
                y,
                z: None,
                color: None,
                intensity: None,
                classification: None,
                ring_id: None,
                time_offset: None,
                attributes: Seq::empty(),
            }),
            p.wf(),
    {
        let p = Point {
            x,
            y,
            z: None,
            color: None,
            intensity: None,
            classification: None,
            ring_id: None,
            time_offset: None,
            attributes: Vec::new(),
        };
        proof {
            assert(p@.attributes =~= Seq::<(Seq<char>, i64)>::empty());
        }
        p
    }

    /// A 3D point with no optional attributes.
    pub fn new_3d(x: i64, y: i64, z: i64) -> (p: Point)
        ensures
            p@ == (PointView {
                x,
                y,
                z: Some(z),
                color: None,
                intensity: None,
                classification: None,
                ring_id: None,
                time_offset: None,
                attributes: Seq::empty(),
            }),
            p.wf(),
    {
        Point::new(x, y, z)
    }

    /// A 3D point carrying the given extension attributes.
    pub fn with_attributes(x: i64, y: i64, z: i64, attributes: Vec<(String, i64)>) -> (p: Point)
        requires
            unique_keys(attrs_view(attributes@)),
        ensures
            p@ == (PointView {
                x,
                y,
                z: Some(z),
                color: None,
                intensity: None,
                classification: None,
                ring_id: None,
                time_offset: None,
                attributes: attrs_view(attributes@),
            }),
            p.wf(),
    {
        Point {
            x,
            y,
            z: Some(z),
            color: None,
            intensity: None,
            classification: None,
            ring_id: None,
            time_offset: None,
            attributes,
        }
    }

    /// The same point with a color triple attached.
    pub fn with_color(self, r: u8, g: u8, b: u8) -> (p: Point)
        ensures
            p@ == (PointView { color: Some(Color { r, g, b, a: None }), ..self@ }),
            p.wf() == self.wf(),
    {
        Point { color: Some(Color { r, g, b, a: None }), ..self }
    }

    /// The same point with a color including an alpha channel.
    pub fn with_rgba(self, r: u8, g: u8, b: u8, a: u8) -> (p: Point)
        ensures
            p@ == (PointView { color: Some(Color { r, g, b, a: Some(a) }), ..self@ }),
            p.wf() == self.wf(),
    {
        Point { color: Some(Color { r, g, b, a: Some(a) }), ..self }
    }

    /// The same point with an intensity sample attached.
    pub fn with_intensity(self, intensity: i64) -> (p: Point)
        ensures
            p@ == (PointView { intensity: Some(intensity), ..self@ }),
            p.wf() == self.wf(),
    {
        Point { intensity: Some(intensity), ..self }
    }

    /// The same point with a classification code attached.
    pub fn with_classification(self, classification: i64) -> (p: Point)
        ensures
            p@ == (PointView { classification: Some(classification), ..self@ }),
            p.wf() == self.wf(),
    {
        Point { classification: Some(classification), ..self }
    }

    /// The same point with a sensor ring id attached.
    pub fn with_ring_id(self, ring_id: u32) -> (p: Point)
        ensures
            p@ == (PointView { ring_id: Some(ring_id), ..self@ }),
            p.wf() == self.wf(),
    {
        Point { ring_id: Some(ring_id), ..self }
    }

    /// The same point with a time offset attached.
    pub fn with_time_offset(self, time_offset: i64) -> (p: Point)
        ensures
            p@ == (PointView { time_offset: Some(time_offset), ..self@ }),
            p.wf() == self.wf(),
    {
        Point { time_offset: Some(time_offset), ..self }
    }

    /// Whether the point has a third coordinate.
    pub fn is_3d(&self) -> (r: bool)
        ensures
            r == (self@.z is Some),
    {
        self.z.is_some()
    }

    /// Whether the point carries a color (all three channels, by shape).
    pub fn has_color(&self) -> (r: bool)
        ensures
            r == (self@.color is Some),
    {
        self.color.is_some()
    }

    /// Store `value` under the extension name `key`: an existing entry is
    /// replaced in place, otherwise the pair is appended.
    pub fn set_attribute(&mut self, key: String, value: i64)
        requires
            old(self).wf(),
        ensures
            final (self)@ == (PointView {
                attributes: set_extra(old(self)@.attributes, key@, value),
                ..old(self)@
            }),
            final (self).wf(),
    {
        let ghost gs = self@.attributes;
        let mut i: usize = 0;
        let n = self.attributes.len();
        while i < n
            invariant
                n == self.attributes.len(),
                i <= n,
                *self == *old(self),
                unique_keys(gs),
                forall|j: int| 0 <= j < i ==> gs[j].0 != key@,
                gs == self@.attributes,
            decreases n - i,
        {
            if compare_str(self.attributes[i].0.as_str(), key.as_str()) {
                proof {
                    assert(gs[i as int].0 == key@);
                    assert(has_key(gs, key@));
                    let ki = key_index(gs, key@);
                    assert(0 <= ki < gs.len() && gs[ki].0 == key@);
                    if ki < i as int {
                        assert(gs[ki].0 != key@);
                    }
                    if (i as int) < ki {
                        assert(gs[i as int].0 != gs[ki].0);
                    }
                    assert(ki == i as int);
                }
                self.attributes.set(i, (key, value));
                proof {
                    let ns = self@.attributes;
                    assert(ns =~= set_extra(gs, key@, value));
                    assert forall|a: int, b: int| 0 <= a < b < ns.len() implies ns[a].0
                        != ns[b].0 by {
                        assert(ns[a].0 == gs[a].0 && ns[b].0 == gs[b].0);
                    }
                }
                return ;
            }
            i = i + 1;
        }
        proof {
            assert(!has_key(gs, key@));
        }
        self.attributes.push((key, value));
        proof {
            let ns = self@.attributes;
            assert(ns =~= set_extra(gs, key@, value));
            assert forall|a: int, b: int| 0 <= a < b < ns.len() implies ns[a].0 != ns[b].0 by {
                if b < gs.len() {
                } else {
                    assert(ns[b].0 == key@);
                    assert(ns[a] == gs[a]);
                }
            }
        }
    }

    /// The value stored under the extension name `key`, if any.
    pub fn get_attribute(&self, key: &str) -> (r: Option<i64>)
        requires
            self.wf(),
        ensures
            r == get_extra(self@.attributes, key@),
    {
        let ghost gs = self@.attributes;
        let mut i: usize = 0;
        let n = self.attributes.len();
        while i < n
            invariant
                n == self.attributes.len(),
                i <= n,
                forall|j: int| 0 <= j < i ==> gs[j].0 != key@,
                gs == self@.attributes,
                self.wf(),
            decreases n - i,
        {
            if compare_str(self.attributes[i].0.as_str(), key) {
                proof {
                    assert(gs[i as int].0 == key@);
                    assert(has_key(gs, key@));
                    let ki = key_index(gs, key@);
                    assert(0 <= ki < gs.len() && gs[ki].0 == key@);
                    if ki < i as int {
                        assert(gs[ki].0 != key@);
                    }
                    if (i as int) < ki {
                        assert(gs[i as int].0 != gs[ki].0);
                    }
                }
                return Some(self.attributes[i].1);
            }
            i = i + 1;
        }
        proof {
            assert(!has_key(gs, key@));
        }
        None
    }

    /// The ordered names of the attributes this point carries.
    #[verifier::rlimit(60)]
    pub fn fields(&self) -> (r: Vec<String>)
        ensures
            strings_view(r@) == field_names(self@),
    {
        let mut r: Vec<String> = Vec::new();
        r.push(String::from_str("x"));
        r.push(String::from_str("y"));
        if self.z.is_some() {
            r.push(String::from_str("z"));
        }
        match &self.color {
            Some(c) => {
                r.push(String::from_str("r"));
                r.push(String::from_str("g"));
                r.push(String::from_str("b"));
                if c.a.is_some() {
                    r.push(String::from_str("a"));
                }
            },
            None => {},
        }
        if self.intensity.is_some() {
            r.push(String::from_str("intensity"));
        }
        if self.classification.is_some() {
            r.push(String::from_str("classification"));
        }
        if self.ring_id.is_some() {
            r.push(String::from_str("ring_id"));
        }
        if self.time_offset.is_some() {
            r.push(String::from_str("time_offset"));
        }
        proof {
            assert(strings_view(r@) =~= fixed_field_names(self@));
        }
        let ghost base = strings_view(r@);
        let mut i: usize = 0;
        let n = self.attributes.len();
        while i < n
            invariant
                n == self.attributes.len(),
                i <= n,
                strings_view(r@) == base + names_of(self@.attributes).subrange(0, i as int),
            decreases n - i,
        {
            let name = clone_string(&self.attributes[i].0);
            let ghost r0 = r@;
            r.push(name);
            i = i + 1;
            proof {
                assert(strings_view(r0).len() == r0.len());
                assert(strings_view(r@).len() == r@.len());
                assert(self@.attributes.len() == n);
                assert(names_of(self@.attributes).len() == n);
                assert(names_of(self@.attributes)[i - 1] == self@.attributes[i - 1].0);
                assert(self@.attributes[i - 1] == (self.attributes@[i - 1].0@, self.attributes@[i
                    - 1].1));
                let ghost rhs = base + names_of(self@.attributes).subrange(0, i as int);
                assert(base.len() + i - 1 == r0.len());
                assert forall|j: int| 0 <= j < r@.len() implies #[trigger] strings_view(r@)[j]
                    == rhs[j] by {
                    if j < r0.len() {
                        assert(strings_view(r0)[j] == r0[j]@);
                        assert(r@[j] == r0[j]);
                    } else {
                        assert(r@[j]@ == self@.attributes[i - 1].0);
                    }
                }
                assert(strings_view(r@) =~= rhs);
            }
        }
        proof {
            assert(names_of(self@.attributes).subrange(0, n as int) =~= names_of(
                self@.attributes,
            ));
            assert(strings_view(r@) =~= field_names(self@));
        }
        r
    }

    /// A field-by-field copy of the point.
    pub fn duplicate(&self) -> (p: Point)
        ensures
            p@ == self@,
    {
        let mut attributes: Vec<(String, i64)> = Vec::new();
        let mut i: usize = 0;
        let n = self.attributes.len();
        while i < n
            invariant
                n == self.attributes.len(),
                i <= n,
                attrs_view(attributes@) == self@.attributes.subrange(0, i as int),
            decreases n - i,
        {
            let ghost a0 = attributes@;
            attributes.push((clone_string(&self.attributes[i].0), self.attributes[i].1));
            i = i + 1;
            proof {
                assert(attrs_view(a0).len() == a0.len());
                assert(attrs_view(attributes@) =~= self@.attributes.subrange(0, i as int));
            }
        }
        let p = Point {
            x: self.x,
            y: self.y,
            z: self.z,
            color: self.color,
            intensity: self.intensity,
            classification: self.classification,
            ring_id: self.ring_id,
            time_offset: self.time_offset,
            attributes,
        };
        proof {
            assert(p@.attributes =~= self@.attributes);
        }
        p
    }

    /// Euclidean distance in the XY plane, rounded down to an integer.
    /// The result `r` satisfies `r*r <= dx*dx + dy*dy < (r+1)*(r+1)`.
    pub fn distance_2d(&self, other: &Point) -> (r: u64)
        requires
            (self.x - other.x) * (self.x - other.x) + (self.y - other.y) * (self.y - other.y)
                <= u128::MAX,
        ensures
            is_isqrt(
                (self.x - other.x) * (self.x - other.x) + (self.y - other.y) * (self.y - other.y),
                r as int,
            ),
    {
        let sq = square_of_difference(self.x, other.x);
        let sq2 = square_of_difference(self.y, other.y);
        isqrt_u128(sq + sq2)
    }

    /// Euclidean distance in space, rounded down to an integer; absent (not
    /// an error) unless both points have a third coordinate.
    pub fn distance_3d(&self, other: &Point) -> (r: Option<u64>)
        requires
            (self@.z is Some && other@.z is Some) ==> (self.x - other.x) * (self.x - other.x) + (
            self.y - other.y) * (self.y - other.y) + (self@.z.unwrap() - other@.z.unwrap()) * (
            self@.z.unwrap() - other@.z.unwrap()) <= u128::MAX,
        ensures
            match r {
                Some(d) => self@.z is Some && other@.z is Some && is_isqrt(
                    (self.x - other.x) * (self.x - other.x) + (self.y - other.y) * (self.y
                        - other.y) + (self@.z.unwrap() - other@.z.unwrap()) * (self@.z.unwrap()
                        - other@.z.unwrap()),
                    d as int,
                ),
                None => !(self@.z is Some && other@.z is Some),
            },
    {
        match (self.z, other.z) {
            (Some(za), Some(zb)) => {
                let sq = square_of_difference(self.x, other.x);
                let sq2 = square_of_difference(self.y, other.y);
                let sq3 = square_of_difference(za, zb);
                Some(isqrt_u128(sq + sq2 + sq3))
            },
            _ => None,
        }
    }
}

/// `(a - b)^2`, computed exactly.
fn square_of_difference(a: i64, b: i64) -> (r: u128)
    ensures
        r == (a - b) * (a - b),
{
    let d: i128 = (a as i128) - (b as i128);
    let m: u128 = if d < 0 {
        (-d) as u128
    } else {
        d as u128
    };
    proof {
        assert(m == sabs(a - b));
        assert(sabs(a - b) * sabs(a - b) == (a - b) * (a - b) && sabs(a - b) * sabs(a - b)
            <= u128::MAX) by (nonlinear_arith)
            requires
                m == sabs(a - b),
                m <= u64::MAX,
        ;
    }
    m * m
}

/// A fresh `String` holding the same characters.
pub fn clone_string(s: &String) -> (r: String)
    ensures
        r@ == s@,
{
    String::from_str(s.as_str())
}

/// Whether two strings hold the same characters.
pub fn compare_str(a: &str, b: &str) -> (r: bool)
    ensures
        r == (a@ == b@),
{
    a.to_owned() == b.to_owned()
}

impl Default for Point {
    /// The origin: a 3D point at zero with no optional attributes.
    fn default() -> (p: Point)
        ensures
            p@ == (PointView {
                x: 0,
                y: 0,
                z: Some(0),
                color: None,
                intensity: None,
                classification: None,
                ring_id: None,
                time_offset: None,
                attributes: Seq::empty(),
            }),
            p.wf(),
    {
        Point::new(0, 0, 0)
    }
}

} // verus!
