use vstd::prelude::*;

verus! {

/// A point or displacement, in micrometres.
#[derive(Clone, Copy, Debug, PartialEq, Eq, Structural)]
pub struct Vec3 {
    pub x: i64,
    pub y: i64,
    pub z: i64,
}

/// An axis-aligned box, given by its lowest and highest corners.
#[derive(Clone, Copy, Debug, PartialEq, Eq, Structural)]
pub struct Aabb {
    pub min: Vec3,
    pub max: Vec3,
}

/// Largest coordinate magnitude that the geometric operations accept.
pub const COORD_LIMIT: i64 = 0x40_0000_0000_0000;

pub open spec fn coord_ok(v: int) -> bool {
    -COORD_LIMIT <= v <= COORD_LIMIT
}

pub open spec fn vec_ok(v: Vec3) -> bool {
    coord_ok(v.x as int) && coord_ok(v.y as int) && coord_ok(v.z as int)
}

pub open spec fn aabb_ok(b: Aabb) -> bool {
    vec_ok(b.min) && vec_ok(b.max)
}

/// The box is not empty: its lowest corner lies below its highest one.
pub open spec fn ordered(b: Aabb) -> bool {
    b.min.x <= b.max.x && b.min.y <= b.max.y && b.min.z <= b.max.z
}

pub open spec fn vec_add(a: Vec3, b: Vec3) -> Vec3 {
    Vec3 { x: (a.x + b.x) as i64, y: (a.y + b.y) as i64, z: (a.z + b.z) as i64 }
}

pub open spec fn min_i(a: i64, b: i64) -> i64 {
    if a <= b { a } else { b }
}

pub open spec fn max_i(a: i64, b: i64) -> i64 {
    if a >= b { a } else { b }
}

/// The smallest box holding both boxes.
pub open spec fn union_spec(a: Aabb, b: Aabb) -> Aabb {
    Aabb {
        min: Vec3 { x: min_i(a.min.x, b.min.x), y: min_i(a.min.y, b.min.y), z: min_i(a.min.z, b.min.z) },
        max: Vec3 { x: max_i(a.max.x, b.max.x), y: max_i(a.max.y, b.max.y), z: max_i(a.max.z, b.max.z) },
    }
}

/// Box `outer` holds every point of box `inner`.
pub open spec fn contains_spec(outer: Aabb, inner: Aabb) -> bool {
    outer.min.x <= inner.min.x && outer.min.y <= inner.min.y && outer.min.z <= inner.min.z
        && inner.max.x <= outer.max.x && inner.max.y <= outer.max.y && inner.max.z <= outer.max.z
}

/// The box moved by `t`.
pub open spec fn translated_spec(b: Aabb, t: Vec3) -> Aabb {
    Aabb { min: vec_add(b.min, t), max: vec_add(b.max, t) }
}

/// The smallest box holding every box of `s`, or `first` alone when `s` is empty.
pub open spec fn union_all(first: Aabb, s: Seq<Aabb>) -> Aabb
    decreases s.len(),
{
    if s.len() == 0 {
        first
    } else {
        union_spec(union_all(first, s.drop_last()), s.last())
    }
}

impl Vec3 {
    pub fn new(x: i64, y: i64, z: i64) -> (r: Vec3)
        ensures
            r == (Vec3 { x, y, z }),
    {
        Vec3 { x, y, z }
    }

    /// The sum of two displacements.
    pub fn add(&self, o: &Vec3) -> (r: Vec3)
        requires
            vec_ok(*self),
            vec_ok(*o),
        ensures
            r == vec_add(*self, *o),
    {
        Vec3 { x: self.x + o.x, y: self.y + o.y, z: self.z + o.z }
    }
}

impl Aabb {
    /// The smallest box holding both boxes.
    pub fn union(&self, o: &Aabb) -> (r: Aabb)
        ensures
            r == union_spec(*self, *o),
    {
        Aabb {
            min: Vec3 {
                x: if self.min.x <= o.min.x { self.min.x } else { o.min.x },
                y: if self.min.y <= o.min.y { self.min.y } else { o.min.y },
                z: if self.min.z <= o.min.z { self.min.z } else { o.min.z },
            },
            max: Vec3 {
                x: if self.max.x >= o.max.x { self.max.x } else { o.max.x },
                y: if self.max.y >= o.max.y { self.max.y } else { o.max.y },
                z: if self.max.z >= o.max.z { self.max.z } else { o.max.z },
            },
        }
    }

    /// Whether this box holds every point of `inner`.
    pub fn contains(&self, inner: &Aabb) -> (r: bool)
        ensures
            r == contains_spec(*self, *inner),
    {
        self.min.x <= inner.min.x && self.min.y <= inner.min.y && self.min.z <= inner.min.z
            && inner.max.x <= self.max.x && inner.max.y <= self.max.y && inner.max.z
            <= self.max.z
    }

    /// The box moved by `t`.
    pub fn translated(&self, t: &Vec3) -> (r: Aabb)
        requires
            aabb_ok(*self),
            vec_ok(*t),
        ensures
            r == translated_spec(*self, *t),
    {
        Aabb { min: self.min.add(t), max: self.max.add(t) }
    }
}

/// Each box of `s` lies inside the union of `s`.
pub proof fn lemma_union_all_contains(first: Aabb, s: Seq<Aabb>, i: int)
    requires
        0 <= i < s.len(),
    ensures
        contains_spec(union_all(first, s), s[i]),
    decreases s.len(),
{
    if i < s.len() - 1 {
        lemma_union_all_contains(first, s.drop_last(), i);
    }
}

/// Where the camera starts to look at a box: from below its centre along x
/// and y and above it along z, by one and a half times the box's half
/// extents along x and y and three times along z.
pub open spec fn viewpoint(b: Aabb) -> Vec3 {
    let c = centre(b);
    Vec3 {
        x: (c.x - (3 * (b.max.x - b.min.x)) / 4) as i64,
        y: (c.y - (3 * (b.max.y - b.min.y)) / 4) as i64,
        z: (c.z + (3 * (b.max.z - b.min.z)) / 2) as i64,
    }
}

/// The middle of a box, rounded down.
pub open spec fn centre(b: Aabb) -> Vec3 {
    Vec3 {
        x: (b.min.x + (b.max.x - b.min.x) / 2) as i64,
        y: (b.min.y + (b.max.y - b.min.y) / 2) as i64,
        z: (b.min.z + (b.max.z - b.min.z) / 2) as i64,
    }
}

impl Aabb {
    /// The camera's starting position for this box and the point it looks at,
    /// the box's centre.
    pub fn target(&self) -> (r: (Vec3, Vec3))
        requires
            aabb_ok(*self),
            ordered(*self),
        ensures
            r.0 == viewpoint(*self),
            r.1 == centre(*self),
    {
        let c = Vec3 {
            x: self.min.x + (self.max.x - self.min.x) / 2,
            y: self.min.y + (self.max.y - self.min.y) / 2,
            z: self.min.z + (self.max.z - self.min.z) / 2,
        };
        let p = Vec3 {
            x: c.x - (3 * (self.max.x - self.min.x)) / 4,
            y: c.y - (3 * (self.max.y - self.min.y)) / 4,
            z: c.z + (3 * (self.max.z - self.min.z)) / 2,
        };
        (p, c)
    }
}

} // verus!
