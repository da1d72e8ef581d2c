use vstd::prelude::*;
use crate::geom::Vec3;
use crate::shape::{EnvelopeKind, GeometryError, Shape, shape_ok, length_ok, LENGTH_LIMIT};
use crate::volume::{VolumeNode, MAX_DEPTH, tree_ok, forest_ok, lemma_forest_ok};

verus! {

/// Coordinate `a` (0, 1 or 2) of a vector.
pub open spec fn axis(v: Vec3, a: int) -> int {
    if a == 0 {
        v.x as int
    } else if a == 1 {
        v.y as int
    } else {
        v.z as int
    }
}

/// A volume that ends as a box: a box, or an envelope that is fitted as one.
pub open spec fn box_like(c: VolumeNode) -> bool {
    c.shape is Box || c.shape matches Shape::Envelope { kind: EnvelopeKind::Box, .. }
}

/// Full size along axis `a` of the box that `o` ends as, once its envelopes are fitted.
pub open spec fn final_size(o: VolumeNode, a: int) -> int
    decreases o, 0int,
{
    match o.shape {
        Shape::Box { size } => axis(size, a),
        Shape::Envelope { safety, .. } => forest_hi(o.children@, a) - forest_lo(o.children@, a)
            + 2 * safety,
        _ => 0,
    }
}

/// How far a fitted envelope's origin moves along axis `a`: to the middle of
/// its children's boxes, rounded down. Zero for any other volume.
pub open spec fn own_offset(o: VolumeNode, a: int) -> int
    decreases o, 1int,
{
    match o.shape {
        Shape::Envelope { .. } => forest_lo(o.children@, a) + (forest_hi(o.children@, a)
            - forest_lo(o.children@, a)) / 2,
        _ => 0,
    }
}

/// Lowest coordinate along axis `a` of the box of child `c` in its parent's
/// frame, before the parent is moved.
pub open spec fn child_lo(c: VolumeNode, a: int) -> int
    decreases c, 2int,
{
    axis(c.translation, a) + own_offset(c, a) - final_size(c, a) / 2
}

pub open spec fn child_hi(c: VolumeNode, a: int) -> int
    decreases c, 2int,
{
    axis(c.translation, a) + own_offset(c, a) + final_size(c, a) - final_size(c, a) / 2
}

/// Lowest coordinate along axis `a` over the boxes of the children `s`.
pub open spec fn forest_lo(s: Seq<VolumeNode>, a: int) -> int
    decreases s, 0int,
{
    if s.len() == 0 {
        0
    } else if s.len() == 1 {
        child_lo(s[0], a)
    } else {
        let p = forest_lo(s.drop_last(), a);
        let q = child_lo(s.last(), a);
        if p <= q { p } else { q }
    }
}

pub open spec fn forest_hi(s: Seq<VolumeNode>, a: int) -> int
    decreases s, 0int,
{
    if s.len() == 0 {
        0
    } else if s.len() == 1 {
        child_hi(s[0], a)
    } else {
        let p = forest_hi(s.drop_last(), a);
        let q = child_hi(s.last(), a);
        if p >= q { p } else { q }
    }
}
pub open spec fn in_length_range(v: int) -> bool {
    -LENGTH_LIMIT <= v <= LENGTH_LIMIT
}

/// Coordinate `a` of a triple.
pub open spec fn pick(d: (int, int, int), a: int) -> int {
    if a == 0 {
        d.0
    } else if a == 1 {
        d.1
    } else {
        d.2
    }
}

pub open spec fn offsets(o: VolumeNode) -> (int, int, int) {
    (own_offset(o, 0), own_offset(o, 1), own_offset(o, 2))
}

/// The origin of `o`, moved to the middle of its fitted envelope and then back
/// by `d`, stays within range.
pub open spec fn moved_in_range(o: VolumeNode, d: (int, int, int)) -> bool {
    forall|a: int|
        0 <= a < 3 ==> #[trigger] in_length_range(axis(o.translation, a) + own_offset(o, a) - pick(d, a))
}

/// An envelope can be fitted: it asks for a box, has children that all end as
/// boxes, a safety margin that is not negative, and a fitted size within range.
pub open spec fn envelope_fits(o: VolumeNode) -> bool {
    &&& o.shape matches Shape::Envelope { kind: EnvelopeKind::Box, safety } && safety >= 0
    &&& o.children@.len() > 0
    &&& forall|j: int| 0 <= j < o.children@.len() ==> box_like(#[trigger] o.children@[j])
    &&& forall|j: int, a: int| 0 <= j < o.children@.len() && 0 <= a < 3 ==> 0 <= #[trigger] final_size(o.children@[j], a)
    &&& forall|a: int| 0 <= a < 3 ==> forest_lo(o.children@, a) <= #[trigger] forest_hi(o.children@, a)
    &&& forall|a: int| 0 <= a < 3 ==> 0 <= #[trigger] final_size(o, a) <= LENGTH_LIMIT
}

/// Every envelope below and at `o` can be fitted, and every origin stays within range.
pub open spec fn fits_inside(o: VolumeNode) -> bool
    decreases o,
{
    &&& (o.shape is Envelope ==> envelope_fits(o))
    &&& forest_fits(o.children@, offsets(o))
}

/// Each of the children `s` fits, and stays within range once moved back by its
/// parent's offset `d`.
pub open spec fn forest_fits(s: Seq<VolumeNode>, d: (int, int, int)) -> bool
    decreases s,
{
    if s.len() == 0 {
        true
    } else {
        &&& forest_fits(s.drop_last(), d)
        &&& moved_in_range(s.last(), (0, 0, 0))
        &&& moved_in_range(s.last(), d)
        &&& fits_inside(s.last())
    }
}

/// `n` is `o` with its envelopes fitted, all but `n`'s own origin: same names,
/// materials and children; an envelope turned into the box that it fits;
/// every child moved to the middle of its own fitted envelope, then back by
/// the offset of its parent.
pub open spec fn fitted_inside(o: VolumeNode, n: VolumeNode) -> bool
    decreases o,
{
    &&& n.name == o.name
    &&& n.material == o.material
    &&& (o.shape is Envelope ==> n.shape == Shape::Box {
        size: Vec3 {
            x: final_size(o, 0) as i64,
            y: final_size(o, 1) as i64,
            z: final_size(o, 2) as i64,
        },
    })
    &&& (!(o.shape is Envelope) ==> n.shape == o.shape)
    &&& forest_fitted(o.children@, n.children@, offsets(o))
}

pub open spec fn moved_by(o: VolumeNode, n: VolumeNode, d: (int, int, int)) -> bool {
    forall|a: int|
        0 <= a < 3 ==> #[trigger] axis(n.translation, a) == axis(o.translation, a) + own_offset(o, a)
            - pick(d, a)
}

pub open spec fn forest_fitted(os: Seq<VolumeNode>, ns: Seq<VolumeNode>, d: (int, int, int)) -> bool
    decreases os,
{
    &&& os.len() == ns.len()
    &&& os.len() > 0 ==> {
        &&& forest_fitted(os.drop_last(), ns.drop_last(), d)
        &&& fitted_inside(os.last(), ns.last())
        &&& moved_by(os.last(), ns.last(), d)
    }
}

/// `n` is the tree `o` with every envelope fitted to its children.
pub open spec fn resolved(o: VolumeNode, n: VolumeNode) -> bool {
    fitted_inside(o, n) && moved_by(o, n, (0, 0, 0))
}

/// The envelopes of `o` can all be fitted within range.
pub open spec fn resolvable(o: VolumeNode) -> bool {
    fits_inside(o) && moved_in_range(o, (0, 0, 0))
}

/// Each tree of `ns` is the resolved tree of `cs` at the same position.
pub open spec fn all_resolved(cs: Seq<VolumeNode>, ns: Seq<VolumeNode>) -> bool {
    &&& cs.len() == ns.len()
    &&& forall|i: int| 0 <= i < cs.len() ==> resolved(cs[i], #[trigger] ns[i]) && resolvable(cs[i])
}

/// `lo` and `hi` are the corners of the box around the children `s`, and lie within range.
pub open spec fn box_matches(lo: Vec3, hi: Vec3, s: Seq<VolumeNode>) -> bool {
    &&& lo.x == forest_lo(s, 0) && hi.x == forest_hi(s, 0)
    &&& lo.y == forest_lo(s, 1) && hi.y == forest_hi(s, 1)
    &&& lo.z == forest_lo(s, 2) && hi.z == forest_hi(s, 2)
    &&& -3 * LENGTH_LIMIT <= lo.x <= 3 * LENGTH_LIMIT && -3 * LENGTH_LIMIT <= hi.x <= 3 * LENGTH_LIMIT
    &&& -3 * LENGTH_LIMIT <= lo.y <= 3 * LENGTH_LIMIT && -3 * LENGTH_LIMIT <= hi.y <= 3 * LENGTH_LIMIT
    &&& -3 * LENGTH_LIMIT <= lo.z <= 3 * LENGTH_LIMIT && -3 * LENGTH_LIMIT <= hi.z <= 3 * LENGTH_LIMIT
}

pub proof fn lemma_forest_fits(s: Seq<VolumeNode>, d: (int, int, int))
    ensures
        forest_fits(s, d) <==> forall|k: int|
            0 <= k < s.len() ==> moved_in_range(#[trigger] s[k], (0, 0, 0)) && moved_in_range(s[k], d)
                && fits_inside(s[k]),
    decreases s.len(),
{
    if s.len() > 0 {
        lemma_forest_fits(s.drop_last(), d);
        assert forall|k: int| 0 <= k < s.len() - 1 implies s.drop_last()[k] == s[k] by {}
    }
}

pub proof fn lemma_forest_fitted(os: Seq<VolumeNode>, ns: Seq<VolumeNode>, d: (int, int, int))
    requires
        os.len() == ns.len(),
        forall|k: int|
            0 <= k < os.len() ==> fitted_inside(#[trigger] os[k], ns[k]) && moved_by(os[k], ns[k], d),
    ensures
        forest_fitted(os, ns, d),
    decreases os.len(),
{
    if os.len() > 0 {
        assert forall|k: int| 0 <= k < os.len() - 1 implies fitted_inside(#[trigger] os.drop_last()[k], ns.drop_last()[k])
            && moved_by(os.drop_last()[k], ns.drop_last()[k], d) by {
            assert(os.drop_last()[k] == os[k]);
            assert(ns.drop_last()[k] == ns[k]);
        }
        lemma_forest_fitted(os.drop_last(), ns.drop_last(), d);
    }
}

/// The box that a resolved child ends as, in its parent's frame before the
/// parent moves.
proof fn lemma_child_box(c: VolumeNode, n: VolumeNode, a: int)
    requires
        resolved(c, n),
        resolvable(c),
        0 <= a < 3,
    ensures
        box_like(c) <==> n.shape is Box,
        n.shape matches Shape::Box { size } ==> final_size(c, a) == axis(size, a),
        child_lo(c, a) == axis(n.translation, a) - final_size(c, a) / 2,
        child_hi(c, a) == axis(n.translation, a) + final_size(c, a) - final_size(c, a) / 2,
{
    assert(moved_by(c, n, (0, 0, 0)));
    assert(axis(n.translation, a) == axis(c.translation, a) + own_offset(c, a) - pick((0, 0, 0), a));
    if c.shape is Envelope {
        assert(envelope_fits(c));
        assert(0 <= final_size(c, a) <= LENGTH_LIMIT);
    }
}

fn in_range(v: i64) -> (r: bool)
    ensures
        r == in_length_range(v as int),
{
    -LENGTH_LIMIT <= v && v <= LENGTH_LIMIT
}

/// Resolves each of the trees `children`, in order.
fn resolve_all(children: Vec<VolumeNode>, Ghost(cs): Ghost<Seq<VolumeNode>>, depth: usize) -> (r: Result<Vec<VolumeNode>, GeometryError>)
    requires
        children@ == cs,
        forest_ok(cs, depth as nat),
    ensures
        r is Err ==> exists|k: int| 0 <= k < cs.len() && !resolvable(#[trigger] cs[k]),
        r matches Ok(done) ==> all_resolved(cs, done@),
    decreases depth, 1int,
{
    let mut rest = children;
    let mut done: Vec<VolumeNode> = Vec::new();
    while rest.len() > 0
        invariant
            done@.len() + rest@.len() == cs.len(),
            rest@ == cs.subrange(done@.len() as int, cs.len() as int),
            forest_ok(cs, depth as nat),
            forall|j: int| 0 <= j < done@.len() ==> resolved(cs[j], #[trigger] done@[j]) && resolvable(cs[j]),
        decreases rest@.len(),
    {
        let ghost k = done@.len() as int;
        let c = rest.remove(0);
        proof {
            assert(c == cs[k]);
            lemma_forest_ok(cs, depth as nat, k);
            assert(rest@ =~= cs.subrange(k + 1, cs.len() as int));
        }
        match resolve_node(c, depth) {
            Ok(nc) => {
                done.push(nc);
            },
            Err(e) => {
                return Err(e);
            },
        }
    }
    Ok(done)
}

/// Fits every envelope of the tree `o` to its children, children first.
fn resolve_node(o: VolumeNode, depth: usize) -> (r: Result<VolumeNode, GeometryError>)
    requires
        tree_ok(o, depth as nat),
    ensures
        r is Ok <==> resolvable(o),
        r matches Ok(n) ==> resolved(o, n),
    decreases depth, 0int,
{
    let ghost o0 = o;
    let ghost cs = o.children@;
    let VolumeNode { name, material, shape, translation, children } = o;
    let done = match resolve_all(children, Ghost(cs), (depth - 1) as usize) {
        Ok(v) => v,
        Err(e) => {
            proof {
                lemma_forest_fits(cs, offsets(o0));
                let k = choose|k: int| 0 <= k < cs.len() && !resolvable(#[trigger] cs[k]);
                assert(!(moved_in_range(cs[k], (0, 0, 0)) && moved_in_range(cs[k], offsets(o0))
                    && fits_inside(cs[k])));
                assert(!forest_fits(cs, offsets(o0)));
            }
            return Err(e);
        },
    };
    let ghost done_v = done@;
    // An envelope turns into the box around its children, its origin moved to
    // the middle of that box.
    let (new_shape, m) = match shape {
        Shape::Envelope { kind, safety } => {
            proof {
                assert(shape_ok(o0.shape));
            }
            match fit_envelope(kind, safety, &done, Ghost(o0), Ghost(done_v), Ghost((depth - 1) as nat)) {
                Ok((size, m)) => (Shape::Box { size }, m),
                Err(e) => {
                    return Err(e);
                },
            }
        },
        other => (other, Vec3 { x: 0, y: 0, z: 0 }),
    };
    proof {
        assert forall|a: int| 0 <= a < 3 implies #[trigger] own_offset(o0, a) == axis(m, a)
            && -3 * LENGTH_LIMIT <= axis(m, a) <= 3 * LENGTH_LIMIT by {}
    }
    let t = Vec3 { x: translation.x + m.x, y: translation.y + m.y, z: translation.z + m.z };
    if !(in_range(t.x) && in_range(t.y) && in_range(t.z)) {
        proof {
            assert(!moved_in_range(o0, (0, 0, 0))) by {
                if !in_length_range(t.x as int) {
                    assert(!in_length_range(axis(o0.translation, 0) + own_offset(o0, 0) - pick((0, 0, 0), 0)));
                } else if !in_length_range(t.y as int) {
                    assert(!in_length_range(axis(o0.translation, 1) + own_offset(o0, 1) - pick((0, 0, 0), 1)));
                } else {
                    assert(!in_length_range(axis(o0.translation, 2) + own_offset(o0, 2) - pick((0, 0, 0), 2)));
                }
            }
        }
        return Err(GeometryError::OutOfRange);
    }
    // Move each child back, so that it stays where it was in the world.
    proof {
        assert(own_offset(o0, 0) == axis(m, 0));
        assert(own_offset(o0, 1) == axis(m, 1));
        assert(own_offset(o0, 2) == axis(m, 2));
        assert(pick(offsets(o0), 0) == axis(m, 0));
        assert(pick(offsets(o0), 1) == axis(m, 1));
        assert(pick(offsets(o0), 2) == axis(m, 2));
    }
    let fin = match shift_children(done, m, Ghost(cs), Ghost(offsets(o0))) {
        Ok(v) => v,
        Err(e) => {
            proof {
                lemma_forest_fits(cs, offsets(o0));
                assert(!forest_fits(cs, offsets(o0)));
                assert(!fits_inside(o0));
            }
            return Err(e);
        },
    };
    let n = VolumeNode { name, material, shape: new_shape, translation: t, children: fin };
    proof {
        lemma_forest_fitted(cs, n.children@, offsets(o0));
        lemma_forest_fits(cs, offsets(o0));
        assert forall|a: int| 0 <= a < 3 implies #[trigger] axis(n.translation, a) == axis(o0.translation, a)
            + own_offset(o0, a) - pick((0, 0, 0), a) by {}
        assert(moved_by(o0, n, (0, 0, 0)));
        assert forall|a: int| 0 <= a < 3 implies #[trigger] in_length_range(axis(o0.translation, a)
            + own_offset(o0, a) - pick((0, 0, 0), a)) by {
            assert(axis(n.translation, a) == axis(o0.translation, a) + own_offset(o0, a) - pick((0, 0, 0), a));
        }
        assert(fitted_inside(o0, n));
        assert(o0.shape is Envelope ==> envelope_fits(o0));
        assert forall|k: int| 0 <= k < cs.len() implies moved_in_range(#[trigger] cs[k], (0, 0, 0)) && moved_in_range(cs[k], offsets(o0))
                && fits_inside(cs[k]) by {
            assert(resolved(cs[k], done_v[k]) && resolvable(cs[k]));
            assert(fitted_inside(cs[k], fin@[k]) && moved_in_range(cs[k], offsets(o0)));
        }
        assert(forest_fits(cs, offsets(o0)));
        assert(fits_inside(o0));
    }
    Ok(n)
}

/// Fits the envelope `o0` (of kind `kind`, with margin `safety`) around its
/// resolved children `done`: the size of the box and the middle of the children.
fn fit_envelope(
    kind: EnvelopeKind,
    safety: i64,
    done: &Vec<VolumeNode>,
    Ghost(env): Ghost<VolumeNode>,
    Ghost(dv): Ghost<Seq<VolumeNode>>,
    Ghost(depth): Ghost<nat>,
) -> (r: Result<(Vec3, Vec3), GeometryError>)
    requires
        env.shape == (Shape::Envelope { kind, safety }),
        length_ok(safety),
        done@.len() == env.children@.len(),
        done@ == dv,
        all_resolved(env.children@, dv),
        forest_ok(env.children@, depth),
    ensures
        r is Ok <==> envelope_fits(env),
        r matches Ok(p) ==> final_size(env, 0) == p.0.x && final_size(env, 1) == p.0.y && final_size(env, 2) == p.0.z,
        r matches Ok(p) ==> own_offset(env, 0) == p.1.x && own_offset(env, 1) == p.1.y && own_offset(env, 2) == p.1.z,
        r matches Ok(p) ==> -3 * LENGTH_LIMIT <= p.1.x <= 3 * LENGTH_LIMIT && -3 * LENGTH_LIMIT <= p.1.y <= 3 * LENGTH_LIMIT
            && -3 * LENGTH_LIMIT <= p.1.z <= 3 * LENGTH_LIMIT,
{
    let ghost cs = env.children@;
    if kind != EnvelopeKind::Box || done.len() == 0 {
        return Err(GeometryError::UnsupportedEnvelope);
    }
    if safety < 0 {
        return Err(GeometryError::NegativeLength);
    }
    proof {
        assert(shape_ok(env.shape));
        assert(safety <= LENGTH_LIMIT);
        assert(forall|i: int| 0 <= i < done@.len() ==> resolved(cs[i], #[trigger] done@[i]) && resolvable(cs[i]));
    }
    let (lo, hi) = match children_box(&done, Ghost(cs), Ghost(depth)) {
        Ok(b) => b,
        Err(e) => {
            proof {
                let i = choose|i: int| 0 <= i < cs.len() && (!box_like(#[trigger] cs[i]) || exists|a: int| 0 <= a < 3 && #[trigger] final_size(cs[i], a) < 0);
                if !box_like(cs[i]) {
                    assert(!box_like(env.children@[i]));
                } else {
                    let a = choose|a: int| 0 <= a < 3 && #[trigger] final_size(cs[i], a) < 0;
                    assert(final_size(env.children@[i], a) < 0);
                }
                assert(!envelope_fits(env));
                assert(env.shape is Envelope);
                assert(!fits_inside(env));
            }
            return Err(e);
        },
    };
    proof {
        assert(box_matches(lo, hi, cs));
    }
    if lo.x > hi.x || lo.y > hi.y || lo.z > hi.z {
        proof {
            if lo.x > hi.x {
                assert(forest_lo(env.children@, 0) > forest_hi(env.children@, 0));
            } else if lo.y > hi.y {
                assert(forest_lo(env.children@, 1) > forest_hi(env.children@, 1));
            } else {
                assert(forest_lo(env.children@, 2) > forest_hi(env.children@, 2));
            }
            assert(!envelope_fits(env));
        }
        return Err(GeometryError::NegativeLength);
    }
    let size = Vec3 {
        x: hi.x - lo.x + 2 * safety,
        y: hi.y - lo.y + 2 * safety,
        z: hi.z - lo.z + 2 * safety,
    };
    proof {
        assert(final_size(env, 0) == axis(size, 0));
        assert(final_size(env, 1) == axis(size, 1));
        assert(final_size(env, 2) == axis(size, 2));
    }
    if !(0 <= size.x && size.x <= LENGTH_LIMIT && 0 <= size.y && size.y <= LENGTH_LIMIT && 0
        <= size.z && size.z <= LENGTH_LIMIT) {
        proof {
            assert(!envelope_fits(env));
            assert(!fits_inside(env));
        }
        return Err(GeometryError::OutOfRange);
    }
    let m = Vec3 {
        x: lo.x + (hi.x - lo.x) / 2,
        y: lo.y + (hi.y - lo.y) / 2,
        z: lo.z + (hi.z - lo.z) / 2,
    };
    proof {
        assert(final_size(env, 0) == axis(size, 0) && own_offset(env, 0) == axis(m, 0));
        assert(final_size(env, 1) == axis(size, 1) && own_offset(env, 1) == axis(m, 1));
        assert(final_size(env, 2) == axis(size, 2) && own_offset(env, 2) == axis(m, 2));
        assert(envelope_fits(env));
    }
    Ok((size, m))
}

/// Moves each resolved child `done` back by its parent's offset `m`; fails if
/// one of them then leaves the range.
fn shift_children(
    done: Vec<VolumeNode>,
    m: Vec3,
    Ghost(cs): Ghost<Seq<VolumeNode>>,
    Ghost(d): Ghost<(int, int, int)>,
) -> (r: Result<Vec<VolumeNode>, GeometryError>)
    requires
        done@.len() == cs.len(),
        forall|i: int| 0 <= i < cs.len() ==> resolved(cs[i], #[trigger] done@[i]) && resolvable(cs[i]),
        axis(m, 0) == pick(d, 0) && axis(m, 1) == pick(d, 1) && axis(m, 2) == pick(d, 2),
        -3 * LENGTH_LIMIT <= m.x <= 3 * LENGTH_LIMIT,
        -3 * LENGTH_LIMIT <= m.y <= 3 * LENGTH_LIMIT,
        -3 * LENGTH_LIMIT <= m.z <= 3 * LENGTH_LIMIT,
    ensures
        r is Err ==> exists|k: int| 0 <= k < cs.len() && !moved_in_range(#[trigger] cs[k], d),
        r matches Ok(fin) ==> fin@.len() == cs.len() && forall|i: int| 0 <= i < cs.len() ==> fitted_inside(cs[i], #[trigger] fin@[i])
            && moved_by(cs[i], fin@[i], d) && moved_in_range(cs[i], d),
{
    let ghost done0 = done@;
    let mut done = done;
    let mut fin: Vec<VolumeNode> = Vec::new();
    while done.len() > 0
        invariant
            fin@.len() + done@.len() == cs.len(),
            done0.len() == cs.len(),
            done@ == done0.subrange(fin@.len() as int, cs.len() as int),
            forall|i: int| 0 <= i < cs.len() ==> resolved(cs[i], #[trigger] done0[i]) && resolvable(cs[i]),
            forall|i: int| 0 <= i < fin@.len() ==> fitted_inside(cs[i], #[trigger] fin@[i])
                && moved_by(cs[i], fin@[i], d) && moved_in_range(cs[i], d),
            axis(m, 0) == pick(d, 0) && axis(m, 1) == pick(d, 1) && axis(m, 2) == pick(d, 2),
            -3 * LENGTH_LIMIT <= m.x <= 3 * LENGTH_LIMIT,
            -3 * LENGTH_LIMIT <= m.y <= 3 * LENGTH_LIMIT,
            -3 * LENGTH_LIMIT <= m.z <= 3 * LENGTH_LIMIT,
        decreases done@.len(),
    {
        let ghost k = fin@.len() as int;
        let mut c = done.remove(0);
        proof {
            assert(c == done0[k]);
            assert(done@ =~= done0.subrange(k + 1, cs.len() as int));
            assert(resolved(cs[k], c));
            assert(moved_in_range(cs[k], (0, 0, 0)));
            assert(in_length_range(axis(cs[k].translation, 0) + own_offset(cs[k], 0) - pick((0, 0, 0), 0)));
            assert(in_length_range(axis(cs[k].translation, 1) + own_offset(cs[k], 1) - pick((0, 0, 0), 1)));
            assert(in_length_range(axis(cs[k].translation, 2) + own_offset(cs[k], 2) - pick((0, 0, 0), 2)));
            assert(axis(c.translation, 0) == axis(cs[k].translation, 0) + own_offset(cs[k], 0) - pick((0, 0, 0), 0));
            assert(axis(c.translation, 1) == axis(cs[k].translation, 1) + own_offset(cs[k], 1) - pick((0, 0, 0), 1));
            assert(axis(c.translation, 2) == axis(cs[k].translation, 2) + own_offset(cs[k], 2) - pick((0, 0, 0), 2));
        }
        let ct = Vec3 { x: c.translation.x - m.x, y: c.translation.y - m.y, z: c.translation.z - m.z };
        if !(in_range(ct.x) && in_range(ct.y) && in_range(ct.z)) {
            proof {
                if !in_length_range(ct.x as int) {
                    assert(!in_length_range(axis(cs[k].translation, 0) + own_offset(cs[k], 0) - pick(d, 0)));
                } else if !in_length_range(ct.y as int) {
                    assert(!in_length_range(axis(cs[k].translation, 1) + own_offset(cs[k], 1) - pick(d, 1)));
                } else {
                    assert(!in_length_range(axis(cs[k].translation, 2) + own_offset(cs[k], 2) - pick(d, 2)));
                }
                assert(!moved_in_range(cs[k], d));
            }
            return Err(GeometryError::OutOfRange);
        }
        let ghost before = c;
        c.translation = ct;
        proof {
            assert(fitted_inside(cs[k], before));
            assert(fitted_inside(cs[k], c));
            assert(axis(c.translation, 0) == axis(cs[k].translation, 0) + own_offset(cs[k], 0) - pick(d, 0));
            assert(axis(c.translation, 1) == axis(cs[k].translation, 1) + own_offset(cs[k], 1) - pick(d, 1));
            assert(axis(c.translation, 2) == axis(cs[k].translation, 2) + own_offset(cs[k], 2) - pick(d, 2));
            assert(moved_by(cs[k], c, d));
            assert(moved_in_range(cs[k], d));
        }
        fin.push(c);
    }
    Ok(fin)
}

/// The box around the resolved children `done` of an envelope, in the
/// envelope's frame; fails if one of them is not a box.
fn children_box(done: &Vec<VolumeNode>, Ghost(cs): Ghost<Seq<VolumeNode>>, Ghost(depth): Ghost<nat>) -> (r: Result<(Vec3, Vec3), GeometryError>)
    requires
        done@.len() == cs.len(),
        cs.len() > 0,
        forall|i: int| 0 <= i < done@.len() ==> resolved(cs[i], #[trigger] done@[i]) && resolvable(cs[i]),
        forest_ok(cs, depth),
    ensures
        r is Err ==> exists|i: int| 0 <= i < cs.len() && (!box_like(#[trigger] cs[i]) || exists|a: int| 0 <= a < 3 && #[trigger] final_size(cs[i], a) < 0),
        r matches Ok(b) ==> box_matches(b.0, b.1, cs),
        r is Ok ==> forall|i: int| 0 <= i < cs.len() ==> box_like(#[trigger] cs[i]) && forall|a: int| 0 <= a < 3 ==> #[trigger] final_size(cs[i], a) >= 0,
{
    let mut lo = Vec3 { x: 0, y: 0, z: 0 };
    let mut hi = Vec3 { x: 0, y: 0, z: 0 };
    let mut j: usize = 0;
    while j < done.len()
        invariant
            0 <= j <= done@.len(),
            done@.len() == cs.len(),
            forall|i: int| 0 <= i < done@.len() ==> resolved(cs[i], #[trigger] done@[i]) && resolvable(cs[i]),
            forest_ok(cs, depth),
            forall|i: int| 0 <= i < j ==> box_like(#[trigger] cs[i]) && forall|a: int| 0 <= a < 3 ==> #[trigger] final_size(cs[i], a) >= 0,
            j > 0 ==> box_matches(lo, hi, cs.subrange(0, j as int)),
        decreases done@.len() - j,
    {
        let c = &done[j];
        proof {
            lemma_forest_ok(cs, depth, j as int);
            lemma_child_box(cs[j as int], done@[j as int], 0);
            lemma_child_box(cs[j as int], done@[j as int], 1);
            lemma_child_box(cs[j as int], done@[j as int], 2);
        }
        let size = match &c.shape {
            Shape::Box { size } => *size,
            _ => {
                return Err(GeometryError::UnsupportedEnvelope);
            },
        };
        proof {
            assert(moved_in_range(cs[j as int], (0, 0, 0)));
            assert forall|a: int| 0 <= a < 3 implies #[trigger] in_length_range(axis(c.translation, a)) by {
                assert(in_length_range(axis(cs[j as int].translation, a) + own_offset(cs[j as int], a) - pick((0, 0, 0), a)));
            }
            assert(in_length_range(axis(c.translation, 0)));
            assert(in_length_range(axis(c.translation, 1)));
            assert(in_length_range(axis(c.translation, 2)));
            assert(final_size(cs[j as int], 0) <= LENGTH_LIMIT);
            assert(final_size(cs[j as int], 1) <= LENGTH_LIMIT);
            assert(final_size(cs[j as int], 2) <= LENGTH_LIMIT);
        }
        if size.x < 0 || size.y < 0 || size.z < 0 {
            proof {
                if size.x < 0 {
                    assert(final_size(cs[j as int], 0) < 0);
                } else if size.y < 0 {
                    assert(final_size(cs[j as int], 1) < 0);
                } else {
                    assert(final_size(cs[j as int], 2) < 0);
                }
            }
            return Err(GeometryError::NegativeLength);
        }
        let clo = Vec3 {
            x: c.translation.x - size.x / 2,
            y: c.translation.y - size.y / 2,
            z: c.translation.z - size.z / 2,
        };
        let chi = Vec3 {
            x: c.translation.x + size.x - size.x / 2,
            y: c.translation.y + size.y - size.y / 2,
            z: c.translation.z + size.z - size.z / 2,
        };
        if j == 0 {
            lo = clo;
            hi = chi;
        } else {
            lo = Vec3 {
                x: if lo.x <= clo.x { lo.x } else { clo.x },
                y: if lo.y <= clo.y { lo.y } else { clo.y },
                z: if lo.z <= clo.z { lo.z } else { clo.z },
            };
            hi = Vec3 {
                x: if hi.x >= chi.x { hi.x } else { chi.x },
                y: if hi.y >= chi.y { hi.y } else { chi.y },
                z: if hi.z >= chi.z { hi.z } else { chi.z },
            };
        }
        proof {
            let sub = cs.subrange(0, j + 1);
            assert(sub.drop_last() =~= cs.subrange(0, j as int));
            assert(sub.last() == cs[j as int]);
            if j == 0 {
                assert(sub[0] == cs[0]);
            }
            assert(child_lo(cs[j as int], 0) == axis(clo, 0) && child_hi(cs[j as int], 0) == axis(chi, 0));
            assert(child_lo(cs[j as int], 1) == axis(clo, 1) && child_hi(cs[j as int], 1) == axis(chi, 1));
            assert(child_lo(cs[j as int], 2) == axis(clo, 2) && child_hi(cs[j as int], 2) == axis(chi, 2));
            assert(box_matches(lo, hi, sub));
        }
        j = j + 1;
    }
    proof {
        assert(cs.subrange(0, cs.len() as int) =~= cs);
    }
    Ok((lo, hi))
}
impl VolumeNode {
    /// Fits every envelope of the tree to its children, children first: an
    /// envelope becomes the box around its children's boxes, widened by its
    /// safety margin on each side, and moves to the middle of that box while
    /// its children move back by as much, so that nothing moves in the world.
    /// Fails if an envelope cannot be fitted (see `envelope_fits`) or a result
    /// leaves the range.
    pub fn resolve_envelopes(self) -> (r: Result<VolumeNode, GeometryError>)
        requires
            tree_ok(self, MAX_DEPTH as nat),
        ensures
            r is Ok <==> resolvable(self),
            r matches Ok(n) ==> resolved(self, n),
    {
        resolve_node(self, MAX_DEPTH)
    }
}

} // verus!
