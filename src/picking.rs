use vstd::prelude::*;
use crate::geom::Vec3;
use crate::event::{Track, Vertex, sorted, key_lt, track_key};
use crate::playback::EventPlayback;

verus! {

/// A half-line from `origin` along `direction`, in micrometres.
#[derive(Clone, Copy, Debug, PartialEq, Eq, Structural)]
pub struct Ray {
    pub origin: Vec3,
    pub direction: Vec3,
}

/// Largest coordinate magnitude of a point that picking considers.
pub const POSITION_LIMIT: i64 = 0x100_0000_0000;

/// Largest magnitude of a component of a ray's direction.
pub const DIRECTION_LIMIT: i64 = 0x10_0000;

/// Radius of the marker of a photon's vertex, in micrometres.
pub const PHOTON_MARKER_RADIUS: i64 = 300;

/// Radius of the marker of any other particle's vertex, in micrometres.
pub const MARKER_RADIUS: i64 = 500;

/// The PDG number of the photon.
pub const PHOTON: i32 = 22;

pub open spec fn position_ok(v: Vec3) -> bool {
    -POSITION_LIMIT <= v.x <= POSITION_LIMIT && -POSITION_LIMIT <= v.y <= POSITION_LIMIT
        && -POSITION_LIMIT <= v.z <= POSITION_LIMIT
}

/// The ray can be tested: its origin within range, its direction not zero and within range.
pub open spec fn ray_ok(r: Ray) -> bool {
    &&& position_ok(r.origin)
    &&& -DIRECTION_LIMIT <= r.direction.x <= DIRECTION_LIMIT
    &&& -DIRECTION_LIMIT <= r.direction.y <= DIRECTION_LIMIT
    &&& -DIRECTION_LIMIT <= r.direction.z <= DIRECTION_LIMIT
    &&& (r.direction.x != 0 || r.direction.y != 0 || r.direction.z != 0)
}

pub open spec fn dot(a: (int, int, int), b: (int, int, int)) -> int {
    a.0 * b.0 + a.1 * b.1 + a.2 * b.2
}

pub open spec fn cross(a: (int, int, int), b: (int, int, int)) -> (int, int, int) {
    (a.1 * b.2 - a.2 * b.1, a.2 * b.0 - a.0 * b.2, a.0 * b.1 - a.1 * b.0)
}

pub open spec fn ints(v: Vec3) -> (int, int, int) {
    (v.x as int, v.y as int, v.z as int)
}

/// From the ray's origin to `p`.
pub open spec fn offset(r: Ray, p: Vec3) -> (int, int, int) {
    (p.x - r.origin.x, p.y - r.origin.y, p.z - r.origin.z)
}

/// The ray meets the ball of radius `radius` around `p`: the ball holds the
/// ray's origin, or lies ahead of it at a distance from the ray's line of at
/// most `radius` (distance squared times |direction| squared is |w x d| squared).
pub open spec fn ray_hits_ball(r: Ray, p: Vec3, radius: int) -> bool {
    let w = offset(r, p);
    let d = ints(r.direction);
    dot(w, w) <= radius * radius || (dot(w, d) >= 0 && dot(cross(w, d), cross(w, d)) <= radius * radius
        * dot(d, d))
}

pub open spec fn marker_radius_spec(pid: i32) -> i64 {
    if pid == PHOTON {
        PHOTON_MARKER_RADIUS
    } else {
        MARKER_RADIUS
    }
}

/// The radius of the marker drawn at a vertex of a particle of kind `pid`:
/// photons get a smaller marker than other particles.
pub fn marker_radius(pid: i32) -> (r: i64)
    ensures
        r == marker_radius_spec(pid),
{
    if pid == PHOTON {
        PHOTON_MARKER_RADIUS
    } else {
        MARKER_RADIUS
    }
}

/// Whether the ray meets the ball of radius `radius` around `p`.
pub fn ray_hits(r: &Ray, p: &Vec3, radius: i64) -> (hit: bool)
    requires
        ray_ok(*r),
        position_ok(*p),
        0 <= radius <= DIRECTION_LIMIT,
    ensures
        hit == ray_hits_ball(*r, *p, radius as int),
{
    let wx = p.x as i128 - r.origin.x as i128;
    let wy = p.y as i128 - r.origin.y as i128;
    let wz = p.z as i128 - r.origin.z as i128;
    let dx = r.direction.x as i128;
    let dy = r.direction.y as i128;
    let dz = r.direction.z as i128;
    let rr = radius as i128;
    proof {
        assert(-0x200_0000_0000 <= wx <= 0x200_0000_0000);
        assert(wx * wx <= 0x200_0000_0000 * 0x200_0000_0000) by (nonlinear_arith)
            requires -0x200_0000_0000 <= wx <= 0x200_0000_0000;
        assert(wy * wy <= 0x200_0000_0000 * 0x200_0000_0000) by (nonlinear_arith)
            requires -0x200_0000_0000 <= wy <= 0x200_0000_0000;
        assert(wz * wz <= 0x200_0000_0000 * 0x200_0000_0000) by (nonlinear_arith)
            requires -0x200_0000_0000 <= wz <= 0x200_0000_0000;
        assert(wx * wx >= 0 && wy * wy >= 0 && wz * wz >= 0) by (nonlinear_arith);
        assert(rr * rr <= 0x10_0000 * 0x10_0000) by (nonlinear_arith)
            requires 0 <= rr <= 0x10_0000;
        assert(rr * rr >= 0) by (nonlinear_arith);
    }
    let ww = wx * wx + wy * wy + wz * wz;
    if ww <= rr * rr {
        return true;
    }
    proof {
        lemma_product_bound(wx, dx);
        lemma_product_bound(wx, dy);
        lemma_product_bound(wx, dz);
        lemma_product_bound(wy, dx);
        lemma_product_bound(wy, dy);
        lemma_product_bound(wy, dz);
        lemma_product_bound(wz, dx);
        lemma_product_bound(wz, dy);
        lemma_product_bound(wz, dz);
    }
    let wd = wx * dx + wy * dy + wz * dz;
    if wd < 0 {
        return false;
    }
    let cx = wy * dz - wz * dy;
    let cy = wz * dx - wx * dz;
    let cz = wx * dy - wy * dx;
    proof {
        lemma_square_bound(cx as int);
        lemma_square_bound(cy as int);
        lemma_square_bound(cz as int);
        assert(dx * dx <= 0x10_0000 * 0x10_0000) by (nonlinear_arith)
            requires -0x10_0000 <= dx <= 0x10_0000;
        assert(dy * dy <= 0x10_0000 * 0x10_0000) by (nonlinear_arith)
            requires -0x10_0000 <= dy <= 0x10_0000;
        assert(dz * dz <= 0x10_0000 * 0x10_0000) by (nonlinear_arith)
            requires -0x10_0000 <= dz <= 0x10_0000;
        assert(dx * dx >= 0 && dy * dy >= 0 && dz * dz >= 0) by (nonlinear_arith);
        let dd = dx * dx + dy * dy + dz * dz;
        assert(0 <= dd <= 3 * 0x10_0000 * 0x10_0000);
        assert((rr * rr) * dd <= 0x4_0000_0000_0000_0000_0000) by (nonlinear_arith)
            requires 0 <= rr * rr <= 0x10_0000 * 0x10_0000, 0 <= dd <= 3 * 0x10_0000 * 0x10_0000;
        assert((rr * rr) * dd >= 0) by (nonlinear_arith)
            requires 0 <= rr * rr, 0 <= dd;
    }
    let dd = dx * dx + dy * dy + dz * dz;
    cx * cx + cy * cy + cz * cz <= rr * rr * dd
}

proof fn lemma_product_bound(w: i128, d: i128)
    requires
        -0x200_0000_0000 <= w <= 0x200_0000_0000,
        -0x10_0000 <= d <= 0x10_0000,
    ensures
        -0x200_0000_0000 * 0x10_0000 <= w * d <= 0x200_0000_0000 * 0x10_0000,
{
    assert(-0x200_0000_0000 * 0x10_0000 <= w * d <= 0x200_0000_0000 * 0x10_0000) by (nonlinear_arith)
        requires -0x200_0000_0000 <= w <= 0x200_0000_0000, -0x10_0000 <= d <= 0x10_0000;
}

proof fn lemma_square_bound(c: int)
    requires
        -0x4000_0000_0000_0000 <= c <= 0x4000_0000_0000_0000,
    ensures
        0 <= c * c <= 0x1000_0000_0000_0000_0000_0000_0000_0000,
{
    assert(0 <= c * c <= 0x4000_0000_0000_0000 * 0x4000_0000_0000_0000) by (nonlinear_arith)
        requires -0x4000_0000_0000_0000 <= c <= 0x4000_0000_0000_0000;
}
/// The vertex can be picked by the ray: it lies within range and the ray
/// meets its marker.
pub open spec fn pickable(v: Vertex, pid: i32, r: Ray) -> bool {
    position_ok(v.position) && ray_hits_ball(r, v.position, marker_radius_spec(pid) as int)
}

/// The positions below `n` of the vertices that carry a marker (all but the
/// first, the track's creation point) and that the ray picks.
pub open spec fn vertex_picks(vs: Seq<Vertex>, n: int, pid: i32, r: Ray) -> Seq<usize>
    decreases n,
{
    if n <= 1 {
        seq![]
    } else if pickable(vs[n - 1], pid, r) {
        vertex_picks(vs, n - 1, pid, r).push((n - 1) as usize)
    } else {
        vertex_picks(vs, n - 1, pid, r)
    }
}

/// For each track of event `event` with a picked vertex, in order, its id and
/// the positions of its picked vertices.
pub open spec fn picks(ts: Seq<Track>, event: u64, r: Ray) -> Seq<(i32, Seq<usize>)>
    decreases ts.len(),
{
    if ts.len() == 0 {
        seq![]
    } else {
        let t = ts.last();
        let hits = vertex_picks(t.vertices@, t.vertices@.len() as int, t.pid, r);
        if t.event == event && hits.len() > 0 {
            picks(ts.drop_last(), event, r).push((t.tid, hits))
        } else {
            picks(ts.drop_last(), event, r)
        }
    }
}

/// A track with picked vertices: its id and the positions of those vertices.
#[derive(Debug)]
pub struct PickedTrack {
    pub tid: i32,
    pub vertices: Vec<usize>,
}

pub open spec fn picked_view(p: Seq<PickedTrack>) -> Seq<(i32, Seq<usize>)> {
    p.map_values(|q: PickedTrack| (q.tid, q.vertices@))
}

fn pick_vertices(t: &Track, ray: &Ray) -> (r: Vec<usize>)
    requires
        ray_ok(*ray),
    ensures
        r@ == vertex_picks(t.vertices@, t.vertices@.len() as int, t.pid, *ray),
{
    let radius = marker_radius(t.pid);
    let mut r: Vec<usize> = Vec::new();
    let mut j: usize = 1;
    if t.vertices.len() == 0 {
        return r;
    }
    while j < t.vertices.len()
        invariant
            1 <= j <= t.vertices@.len(),
            radius == marker_radius_spec(t.pid),
            ray_ok(*ray),
            r@ == vertex_picks(t.vertices@, j as int, t.pid, *ray),
        decreases t.vertices@.len() - j,
    {
        let p = &t.vertices[j].position;
        let inside = -POSITION_LIMIT <= p.x && p.x <= POSITION_LIMIT && -POSITION_LIMIT <= p.y && p.y
            <= POSITION_LIMIT && -POSITION_LIMIT <= p.z && p.z <= POSITION_LIMIT;
        if inside && ray_hits(ray, p, radius) {
            r.push(j);
        }
        j = j + 1;
    }
    r
}

impl EventPlayback {
    /// The vertices of the drawn event whose markers the ray meets, grouped by
    /// track in increasing order of track id.
    pub fn pick(&self, ray: &Ray) -> (r: Vec<PickedTrack>)
        requires
            ray_ok(*ray),
        ensures
            picked_view(r@) == picks(self.events.tracks@, self.index, *ray),
    {
        let tracks = &self.events.tracks;
        let mut r: Vec<PickedTrack> = Vec::new();
        let mut i: usize = 0;
        while i < tracks.len()
            invariant
                0 <= i <= tracks@.len(),
                ray_ok(*ray),
                picked_view(r@) == picks(tracks@.subrange(0, i as int), self.index, *ray),
            decreases tracks@.len() - i,
        {
            let t = &tracks[i];
            let hits = pick_vertices(t, ray);
            proof {
                let sub = tracks@.subrange(0, i + 1);
                assert(sub.drop_last() =~= tracks@.subrange(0, i as int));
                assert(sub.last() == tracks@[i as int]);
            }
            if t.event == self.index && hits.len() > 0 {
                let ghost before = r@;
                r.push(PickedTrack { tid: t.tid, vertices: hits });
                proof {
                    assert(picked_view(r@) =~= picked_view(before).push((t.tid, hits@)));
                }
            }
            i = i + 1;
        }
        proof {
            assert(tracks@.subrange(0, tracks@.len() as int) =~= tracks@);
        }
        r
    }
}
proof fn lemma_lagrange(w: (int, int, int), d: (int, int, int))
    ensures
        dot(w, w) * dot(d, d) == dot(cross(w, d), cross(w, d)) + dot(w, d) * dot(w, d),
{
    let (a, b, c) = w;
    let (x, y, z) = d;
    let ax = a * x;
    let ay = a * y;
    let az = a * z;
    let bx = b * x;
    let by_ = b * y;
    let bz = b * z;
    let cx = c * x;
    let cy = c * y;
    let cz = c * z;
    let sq = x * x + y * y + z * z;
    assert((a * a + b * b + c * c) * sq == a * a * sq + b * b * sq + c * c * sq) by (nonlinear_arith);
    assert(a * a * sq == a * a * (x * x) + a * a * (y * y) + a * a * (z * z)) by (nonlinear_arith)
        requires sq == x * x + y * y + z * z;
    assert(a * a * (x * x) == ax * ax) by (nonlinear_arith)
        requires ax == a * x;
    assert(a * a * (y * y) == ay * ay) by (nonlinear_arith)
        requires ay == a * y;
    assert(a * a * (z * z) == az * az) by (nonlinear_arith)
        requires az == a * z;
    assert(b * b * sq == b * b * (x * x) + b * b * (y * y) + b * b * (z * z)) by (nonlinear_arith)
        requires sq == x * x + y * y + z * z;
    assert(b * b * (x * x) == bx * bx) by (nonlinear_arith)
        requires bx == b * x;
    assert(b * b * (y * y) == by_ * by_) by (nonlinear_arith)
        requires by_ == b * y;
    assert(b * b * (z * z) == bz * bz) by (nonlinear_arith)
        requires bz == b * z;
    assert(c * c * sq == c * c * (x * x) + c * c * (y * y) + c * c * (z * z)) by (nonlinear_arith)
        requires sq == x * x + y * y + z * z;
    assert(c * c * (x * x) == cx * cx) by (nonlinear_arith)
        requires cx == c * x;
    assert(c * c * (y * y) == cy * cy) by (nonlinear_arith)
        requires cy == c * y;
    assert(c * c * (z * z) == cz * cz) by (nonlinear_arith)
        requires cz == c * z;
    assert((bz - cy) * (bz - cy) == bz * bz - 2 * (bz * cy) + cy * cy) by (nonlinear_arith);
    assert((cx - az) * (cx - az) == cx * cx - 2 * (cx * az) + az * az) by (nonlinear_arith);
    assert((ay - bx) * (ay - bx) == ay * ay - 2 * (ay * bx) + bx * bx) by (nonlinear_arith);
    assert((ax + by_ + cz) * (ax + by_ + cz) == ax * ax + by_ * by_ + cz * cz + 2 * (ax * by_) + 2 * (ax
        * cz) + 2 * (by_ * cz)) by (nonlinear_arith);
    assert(bz * cy == by_ * cz) by (nonlinear_arith)
        requires bz == b * z, cy == c * y, by_ == b * y, cz == c * z;
    assert(cx * az == ax * cz) by (nonlinear_arith)
        requires cx == c * x, az == a * z, ax == a * x, cz == c * z;
    assert(ay * bx == ax * by_) by (nonlinear_arith)
        requires ay == a * y, bx == b * x, ax == a * x, by_ == b * y;
}

/// A ray that passes through `p` (its line goes through `p`, ahead of its
/// origin) meets the marker around `p`, whatever its radius; a ray whose line
/// passes farther than `radius` from `p` never meets it.
pub proof fn lemma_pick_by_distance(r: Ray, p: Vec3, radius: int)
    requires
        radius >= 0,
        r.direction.x != 0 || r.direction.y != 0 || r.direction.z != 0,
    ensures
        cross(offset(r, p), ints(r.direction)) == (0int, 0int, 0int) && dot(offset(r, p), ints(r.direction)) >= 0
            ==> ray_hits_ball(r, p, radius),
        dot(cross(offset(r, p), ints(r.direction)), cross(offset(r, p), ints(r.direction))) > radius * radius
            * dot(ints(r.direction), ints(r.direction)) ==> !ray_hits_ball(r, p, radius),
{
    let w = offset(r, p);
    let d = ints(r.direction);
    let c = cross(w, d);
    lemma_lagrange(w, d);
    assert(dot(d, d) > 0) by (nonlinear_arith)
        requires d.0 != 0 || d.1 != 0 || d.2 != 0, dot(d, d) == d.0 * d.0 + d.1 * d.1 + d.2 * d.2;
    assert(radius * radius * dot(d, d) >= 0) by (nonlinear_arith)
        requires dot(d, d) > 0;
    if dot(c, c) > radius * radius * dot(d, d) {
        let t = dot(w, d);
        assert(t * t >= 0) by (nonlinear_arith);
        assert(dot(w, w) * dot(d, d) > radius * radius * dot(d, d));
        assert(dot(w, w) > radius * radius) by (nonlinear_arith)
            requires dot(w, w) * dot(d, d) > radius * radius * dot(d, d), dot(d, d) > 0;
    }
}

/// The picked tracks come in strictly increasing order of track id, and each
/// is a track of the drawn event.
pub proof fn lemma_picks_ascending(ts: Seq<Track>, event: u64, r: Ray)
    requires
        sorted(ts),
    ensures
        forall|i: int, j: int| 0 <= i < j < picks(ts, event, r).len() ==> #[trigger] picks(ts, event, r)[i].0
            < #[trigger] picks(ts, event, r)[j].0,
        forall|i: int| 0 <= i < picks(ts, event, r).len() ==> exists|k: int| 0 <= k < ts.len() && ts[k].event == event
            && ts[k].tid == #[trigger] picks(ts, event, r)[i].0,
    decreases ts.len(),
{
    if ts.len() > 0 {
        let rest = ts.drop_last();
        assert(sorted(rest)) by {
            assert forall|i: int, j: int| 0 <= i < j < rest.len() implies key_lt(track_key(#[trigger] rest[i]), track_key(#[trigger] rest[j])) by {
                assert(rest[i] == ts[i] && rest[j] == ts[j]);
            }
        }
        lemma_picks_ascending(rest, event, r);
        let pr = picks(rest, event, r);
        let pk = picks(ts, event, r);
        assert forall|i: int| 0 <= i < pk.len() implies exists|k: int| 0 <= k < ts.len() && ts[k].event == event
            && ts[k].tid == #[trigger] pk[i].0 by {
            if i < pr.len() {
                assert(pk[i] == pr[i]);
                let k = choose|k: int| 0 <= k < rest.len() && rest[k].event == event && rest[k].tid == pr[i].0;
                assert(ts[k] == rest[k]);
            } else {
                assert(ts[ts.len() - 1] == ts.last());
            }
        }
        assert forall|i: int, j: int| 0 <= i < j < pk.len() implies #[trigger] pk[i].0 < #[trigger] pk[j].0 by {
            if j < pr.len() {
                assert(pk[i] == pr[i] && pk[j] == pr[j]);
            } else {
                assert(pk[i] == pr[i]);
                let k = choose|k: int| 0 <= k < rest.len() && rest[k].event == event && rest[k].tid == pr[i].0;
                assert(ts[k] == rest[k]);
                assert(key_lt(track_key(ts[k]), track_key(ts[ts.len() - 1])));
            }
        }
    }
}
/// What is drawn of a track of the drawn event: its position among the
/// event set's tracks, the radius of its markers and their number (one per
/// vertex but the first).
#[derive(Clone, Copy, Debug, PartialEq, Eq, Structural)]
pub struct DrawnTrack {
    pub track: usize,
    pub radius: i64,
    pub markers: usize,
}

/// The tracks below `n` that belong to event `event`, in order, as drawn.
pub open spec fn drawn_tracks(ts: Seq<Track>, event: u64, n: int) -> Seq<DrawnTrack>
    decreases n,
{
    if n <= 0 {
        seq![]
    } else if ts[n - 1].event == event {
        let t = ts[n - 1];
        drawn_tracks(ts, event, n - 1).push(
            DrawnTrack {
                track: (n - 1) as usize,
                radius: marker_radius_spec(t.pid),
                markers: if t.vertices@.len() > 0 { (t.vertices@.len() - 1) as usize } else { 0 },
            },
        )
    } else {
        drawn_tracks(ts, event, n - 1)
    }
}

impl EventPlayback {
    /// The tracks of the drawn event, each with its line through all its
    /// vertices and a marker at each vertex but the first.
    pub fn drawn(&self) -> (r: Vec<DrawnTrack>)
        ensures
            r@ == drawn_tracks(self.events.tracks@, self.index, self.events.tracks@.len() as int),
    {
        let tracks = &self.events.tracks;
        let mut r: Vec<DrawnTrack> = Vec::new();
        let mut i: usize = 0;
        while i < tracks.len()
            invariant
                0 <= i <= tracks@.len(),
                r@ == drawn_tracks(tracks@, self.index, i as int),
            decreases tracks@.len() - i,
        {
            let t = &tracks[i];
            if t.event == self.index {
                let n = t.vertices.len();
                let markers = if n > 0 { n - 1 } else { 0 };
                r.push(DrawnTrack { track: i, radius: marker_radius(t.pid), markers });
            }
            i = i + 1;
        }
        r
    }
}

} // verus!
