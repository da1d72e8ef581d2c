use vstd::prelude::*;
use crate::geom::{Aabb, Vec3, min_i, max_i, union_spec, union_all, aabb_ok};

verus! {

/// An angular range, in millidegrees: from `start` over `delta`.
#[derive(Clone, Copy, Debug, PartialEq, Eq, Structural)]
pub struct Section {
    pub start: i64,
    pub delta: i64,
}

/// One triangle of a tessellated solid.
#[derive(Clone, Copy, Debug, PartialEq, Eq, Structural)]
pub struct Facet {
    pub a: Vec3,
    pub b: Vec3,
    pub c: Vec3,
}

/// The concrete solid that an envelope turns into.
#[derive(Clone, Copy, Debug, PartialEq, Eq, Structural)]
pub enum EnvelopeKind {
    Box,
    Sphere,
    Tube,
}

/// A primitive solid. Lengths are in micrometres, angles in millidegrees.
#[derive(Clone, Debug)]
pub enum Shape {
    /// A box of the given full size, centred on the origin.
    Box { size: Vec3 },
    /// A full ball.
    Orb { radius: i64 },
    /// A spherical shell, possibly cut in azimuth (`phi`) and zenith (`theta`).
    Sphere { inner_radius: i64, outer_radius: i64, phi: Section, theta: Section },
    /// A cylindrical shell along the vertical axis of the mesh frame, possibly cut in azimuth.
    Tube { inner_radius: i64, outer_radius: i64, length: i64, phi: Section },
    /// A closed surface given by its triangles.
    Tessellation { facets: Vec<Facet> },
    /// A placeholder that is fitted around the node's children.
    Envelope { kind: EnvelopeKind, safety: i64 },
}

/// Why a geometry cannot be turned into a scene.
#[derive(Clone, Copy, Debug, PartialEq, Eq, Structural)]
pub enum GeometryError {
    /// A length that must not be negative is.
    NegativeLength,
    /// A sphere or tube that is hollow.
    HollowSolid,
    /// A sphere or tube that is cut in angle.
    PartialSection,
    /// A tessellation without any facet.
    EmptyTessellation,
    /// An envelope that was not fitted to its children.
    UnresolvedEnvelope,
    /// An envelope of a kind that cannot be fitted, or with a child that is not a box.
    UnsupportedEnvelope,
    /// A value beyond the range that the library computes with.
    OutOfRange,
}

/// Largest magnitude of a length or an offset in a geometry description.
pub const LENGTH_LIMIT: i64 = 0x1000_0000_0000;

/// A full turn, in millidegrees.
pub const FULL_TURN: i64 = 360_000;

/// A half turn, in millidegrees.
pub const HALF_TURN: i64 = 180_000;

pub open spec fn length_ok(v: i64) -> bool {
    -LENGTH_LIMIT <= v <= LENGTH_LIMIT
}

pub open spec fn point_ok(v: Vec3) -> bool {
    length_ok(v.x) && length_ok(v.y) && length_ok(v.z)
}

pub open spec fn facet_ok(f: Facet) -> bool {
    point_ok(f.a) && point_ok(f.b) && point_ok(f.c)
}

/// Every length of the shape lies within the library's range.
pub open spec fn shape_ok(s: Shape) -> bool {
    match s {
        Shape::Box { size } => point_ok(size),
        Shape::Orb { radius } => length_ok(radius),
        Shape::Sphere { inner_radius, outer_radius, .. } => length_ok(inner_radius) && length_ok(
            outer_radius,
        ),
        Shape::Tube { inner_radius, outer_radius, length, .. } => length_ok(inner_radius)
            && length_ok(outer_radius) && length_ok(length),
        Shape::Tessellation { facets } => forall|i: int|
            0 <= i < facets@.len() ==> facet_ok(#[trigger] facets@[i]),
        Shape::Envelope { safety, .. } => length_ok(safety),
    }
}

pub open spec fn full_section(s: Section, extent: i64) -> bool {
    s.start == 0 && s.delta == extent
}

/// The interval of a full length `n` centred on zero: the lower half rounded
/// down, so that the interval is exactly `n` long.
pub open spec fn centred(n: i64) -> (i64, i64) {
    (-(n / 2) as i64, (n - n / 2) as i64)
}

pub open spec fn centred_box(size: Vec3) -> Aabb {
    Aabb {
        min: Vec3 { x: centred(size.x).0, y: centred(size.y).0, z: centred(size.z).0 },
        max: Vec3 { x: centred(size.x).1, y: centred(size.y).1, z: centred(size.z).1 },
    }
}

pub open spec fn cube(r: i64) -> Aabb {
    Aabb { min: Vec3 { x: -r as i64, y: -r as i64, z: -r as i64 }, max: Vec3 { x: r, y: r, z: r } }
}

pub open spec fn facet_box(f: Facet) -> Aabb {
    Aabb {
        min: Vec3 {
            x: min_i(min_i(f.a.x, f.b.x), f.c.x),
            y: min_i(min_i(f.a.y, f.b.y), f.c.y),
            z: min_i(min_i(f.a.z, f.b.z), f.c.z),
        },
        max: Vec3 {
            x: max_i(max_i(f.a.x, f.b.x), f.c.x),
            y: max_i(max_i(f.a.y, f.b.y), f.c.y),
            z: max_i(max_i(f.a.z, f.b.z), f.c.z),
        },
    }
}

/// The box around every vertex of the facets.
pub open spec fn facets_box(facets: Seq<Facet>) -> Aabb
    recommends
        facets.len() > 0,
{
    union_all(facet_box(facets[0]), facets.map_values(|f: Facet| facet_box(f)))
}

/// The bounding box of the mesh of a shape, in the shape's own frame, or why
/// no mesh is made of it.
pub open spec fn bounds_spec(s: Shape) -> Result<Aabb, GeometryError> {
    match s {
        Shape::Box { size } => if size.x < 0 || size.y < 0 || size.z < 0 {
            Err(GeometryError::NegativeLength)
        } else {
            Ok(centred_box(size))
        },
        Shape::Orb { radius } => if radius < 0 {
            Err(GeometryError::NegativeLength)
        } else {
            Ok(cube(radius))
        },
        Shape::Sphere { inner_radius, outer_radius, phi, theta } => if outer_radius < 0 {
            Err(GeometryError::NegativeLength)
        } else if inner_radius > 0 {
            Err(GeometryError::HollowSolid)
        } else if !full_section(phi, FULL_TURN) || !full_section(theta, HALF_TURN) {
            Err(GeometryError::PartialSection)
        } else {
            Ok(cube(outer_radius))
        },
        Shape::Tube { inner_radius, outer_radius, length, phi } => if outer_radius < 0 || length
            < 0 {
            Err(GeometryError::NegativeLength)
        } else if inner_radius > 0 {
            Err(GeometryError::HollowSolid)
        } else if !full_section(phi, FULL_TURN) {
            Err(GeometryError::PartialSection)
        } else {
            Ok(
                Aabb {
                    min: Vec3 { x: -outer_radius as i64, y: centred(length).0, z: -outer_radius as i64 },
                    max: Vec3 { x: outer_radius, y: centred(length).1, z: outer_radius },
                },
            )
        },
        Shape::Tessellation { facets } => if facets@.len() == 0 {
            Err(GeometryError::EmptyTessellation)
        } else {
            Ok(facets_box(facets@))
        },
        Shape::Envelope { .. } => Err(GeometryError::UnresolvedEnvelope),
    }
}

fn centred_exec(n: i64) -> (r: (i64, i64))
    requires
        0 <= n <= LENGTH_LIMIT,
    ensures
        r == centred(n),
{
    (-(n / 2), n - n / 2)
}

fn facet_bounds(f: &Facet) -> (r: Aabb)
    ensures
        r == facet_box(*f),
{
    let lo = Vec3 {
        x: min3(f.a.x, f.b.x, f.c.x),
        y: min3(f.a.y, f.b.y, f.c.y),
        z: min3(f.a.z, f.b.z, f.c.z),
    };
    let hi = Vec3 {
        x: max3(f.a.x, f.b.x, f.c.x),
        y: max3(f.a.y, f.b.y, f.c.y),
        z: max3(f.a.z, f.b.z, f.c.z),
    };
    Aabb { min: lo, max: hi }
}

fn min3(a: i64, b: i64, c: i64) -> (r: i64)
    ensures
        r == min_i(min_i(a, b), c),
{
    let m = if a <= b { a } else { b };
    if m <= c { m } else { c }
}

fn max3(a: i64, b: i64, c: i64) -> (r: i64)
    ensures
        r == max_i(max_i(a, b), c),
{
    let m = if a >= b { a } else { b };
    if m >= c { m } else { c }
}

/// The bounding box of the vertices of a non-empty list of facets.
fn tessellation_bounds(facets: &Vec<Facet>) -> (r: Aabb)
    requires
        facets@.len() > 0,
    ensures
        r == facets_box(facets@),
{
    let first = facet_bounds(&facets[0]);
    let mut acc = first;
    let ghost boxes = facets@.map_values(|f: Facet| facet_box(f));
    let mut i: usize = 0;
    while i < facets.len()
        invariant
            0 <= i <= facets@.len(),
            first == facet_box(facets@[0]),
            boxes == facets@.map_values(|f: Facet| facet_box(f)),
            acc == union_all(first, boxes.subrange(0, i as int)),
        decreases facets@.len() - i,
    {
        let b = facet_bounds(&facets[i]);
        acc = acc.union(&b);
        proof {
            assert(boxes.subrange(0, i + 1).drop_last() =~= boxes.subrange(0, i as int));
        }
        i = i + 1;
    }
    proof {
        assert(boxes.subrange(0, facets@.len() as int) =~= boxes);
    }
    acc
}

impl Shape {
    /// The bounding box of the shape's mesh in its own frame, or the reason why
    /// the shape is not supported.
    pub fn local_bounds(&self) -> (r: Result<Aabb, GeometryError>)
        requires
            shape_ok(*self),
        ensures
            r == bounds_spec(*self),
            r is Ok ==> aabb_ok(r->Ok_0),
    {
        match self {
            Shape::Box { size } => {
                if size.x < 0 || size.y < 0 || size.z < 0 {
                    Err(GeometryError::NegativeLength)
                } else {
                    let x = centred_exec(size.x);
                    let y = centred_exec(size.y);
                    let z = centred_exec(size.z);
                    Ok(Aabb { min: Vec3 { x: x.0, y: y.0, z: z.0 }, max: Vec3 { x: x.1, y: y.1, z: z.1 } })
                }
            },
            Shape::Orb { radius } => {
                if *radius < 0 {
                    Err(GeometryError::NegativeLength)
                } else {
                    Ok(Aabb { min: Vec3 { x: -*radius, y: -*radius, z: -*radius }, max: Vec3 { x: *radius, y: *radius, z: *radius } })
                }
            },
            Shape::Sphere { inner_radius, outer_radius, phi, theta } => {
                if *outer_radius < 0 {
                    Err(GeometryError::NegativeLength)
                } else if *inner_radius > 0 {
                    Err(GeometryError::HollowSolid)
                } else if !(phi.start == 0 && phi.delta == FULL_TURN) || !(theta.start == 0
                    && theta.delta == HALF_TURN) {
                    Err(GeometryError::PartialSection)
                } else {
                    let r = *outer_radius;
                    Ok(Aabb { min: Vec3 { x: -r, y: -r, z: -r }, max: Vec3 { x: r, y: r, z: r } })
                }
            },
            Shape::Tube { inner_radius, outer_radius, length, phi } => {
                if *outer_radius < 0 || *length < 0 {
                    Err(GeometryError::NegativeLength)
                } else if *inner_radius > 0 {
                    Err(GeometryError::HollowSolid)
                } else if !(phi.start == 0 && phi.delta == FULL_TURN) {
                    Err(GeometryError::PartialSection)
                } else {
                    let r = *outer_radius;
                    let h = centred_exec(*length);
                    Ok(Aabb { min: Vec3 { x: -r, y: h.0, z: -r }, max: Vec3 { x: r, y: h.1, z: r } })
                }
            },
            Shape::Tessellation { facets } => {
                if facets.len() == 0 {
                    Err(GeometryError::EmptyTessellation)
                } else {
                    let b = tessellation_bounds(facets);
                    proof {
                        lemma_facets_box_ok(facets@);
                    }
                    Ok(b)
                }
            },
            Shape::Envelope { .. } => Err(GeometryError::UnresolvedEnvelope),
        }
    }
}

proof fn lemma_facets_box_ok(facets: Seq<Facet>)
    requires
        facets.len() > 0,
        forall|i: int| 0 <= i < facets.len() ==> facet_ok(#[trigger] facets[i]),
    ensures
        point_ok(facets_box(facets).min),
        point_ok(facets_box(facets).max),
{
    let boxes = facets.map_values(|f: Facet| facet_box(f));
    let first = facet_box(facets[0]);
    lemma_union_ok(first, boxes);
}

proof fn lemma_union_ok(first: Aabb, s: Seq<Aabb>)
    requires
        point_ok(first.min) && point_ok(first.max),
        forall|i: int| 0 <= i < s.len() ==> point_ok((#[trigger] s[i]).min) && point_ok(s[i].max),
    ensures
        point_ok(union_all(first, s).min),
        point_ok(union_all(first, s).max),
    decreases s.len(),
{
    if s.len() > 0 {
        lemma_union_ok(first, s.drop_last());
        let _ = union_spec(union_all(first, s.drop_last()), s.last());
    }
}

} // verus!
