use vstd::prelude::*;
use crate::geom::Vec3;
use crate::geom::Aabb;
use crate::shape::{
    Facet, GeometryError, Shape, bounds_spec, point_ok, shape_ok, length_ok, facet_ok, LENGTH_LIMIT,
};

verus! {

/// A named volume of the geometry: its solid, its material, its offset from
/// its parent's origin (micrometres) and the volumes that it holds.
#[derive(Debug)]
pub struct VolumeNode {
    pub name: String,
    pub material: String,
    pub shape: Shape,
    pub translation: Vec3,
    pub children: Vec<VolumeNode>,
}

/// Deepest nesting of volumes that the library accepts.
pub const MAX_DEPTH: usize = 256;

/// Number of volumes in the tree.
pub open spec fn tree_size(n: VolumeNode) -> nat
    decreases n,
{
    1 + forest_size(n.children@)
}

/// Number of volumes in a list of trees.
pub open spec fn forest_size(s: Seq<VolumeNode>) -> nat
    decreases s,
{
    if s.len() == 0 {
        0
    } else {
        forest_size(s.drop_last()) + tree_size(s.last())
    }
}

/// Every volume of the tree has lengths within range, and the tree is at most
/// `depth` levels deep.
pub open spec fn tree_ok(n: VolumeNode, depth: nat) -> bool
    decreases n,
{
    &&& depth >= 1
    &&& shape_ok(n.shape)
    &&& point_ok(n.translation)
    &&& forest_ok(n.children@, (depth - 1) as nat)
}

pub open spec fn forest_ok(s: Seq<VolumeNode>, depth: nat) -> bool
    decreases s,
{
    if s.len() == 0 {
        true
    } else {
        forest_ok(s.drop_last(), depth) && tree_ok(s.last(), depth)
    }
}
/// The volumes of a tree in pre-order (a volume before its children, children
/// in order), each with the pre-order position of its parent. `base` is the
/// position of `n` itself.
pub open spec fn flat_tree(n: VolumeNode, parent: Option<int>, base: int) -> Seq<(VolumeNode, Option<int>)>
    decreases n,
{
    seq![(n, parent)] + flat_forest(n.children@, base, base + 1)
}

/// The pre-order of a list of sibling trees whose parent is at `parent` and whose
/// first volume is at `base`.
pub open spec fn flat_forest(s: Seq<VolumeNode>, parent: int, base: int) -> Seq<(VolumeNode, Option<int>)>
    decreases s,
{
    if s.len() == 0 {
        seq![]
    } else {
        flat_forest(s.drop_last(), parent, base) + flat_tree(
            s.last(),
            Some(parent),
            base + forest_size(s.drop_last()),
        )
    }
}

/// Every solid of the tree has a mesh.
pub open spec fn tree_supported(n: VolumeNode) -> bool
    decreases n,
{
    bounds_spec(n.shape) is Ok && forest_supported(n.children@)
}

pub open spec fn forest_supported(s: Seq<VolumeNode>) -> bool
    decreases s,
{
    if s.len() == 0 {
        true
    } else {
        forest_supported(s.drop_last()) && tree_supported(s.last())
    }
}

/// Some solid of the tree fails with `e`.
pub open spec fn tree_fails_with(n: VolumeNode, e: GeometryError) -> bool
    decreases n,
{
    bounds_spec(n.shape) == Err::<Aabb, GeometryError>(e) || forest_fails_with(n.children@, e)
}

pub open spec fn forest_fails_with(s: Seq<VolumeNode>, e: GeometryError) -> bool
    decreases s,
{
    if s.len() == 0 {
        false
    } else {
        forest_fails_with(s.drop_last(), e) || tree_fails_with(s.last(), e)
    }
}

pub proof fn lemma_flat_tree_len(n: VolumeNode, parent: Option<int>, base: int)
    ensures
        flat_tree(n, parent, base).len() == tree_size(n),
    decreases n,
{
    lemma_flat_forest_len(n.children@, base, base + 1);
}

pub proof fn lemma_flat_forest_len(s: Seq<VolumeNode>, parent: int, base: int)
    ensures
        flat_forest(s, parent, base).len() == forest_size(s),
    decreases s,
{
    if s.len() > 0 {
        lemma_flat_forest_len(s.drop_last(), parent, base);
        lemma_flat_tree_len(s.last(), Some(parent), base + forest_size(s.drop_last()));
    }
}

/// A list of supported trees is supported one tree at a time, and the other way round.
pub proof fn lemma_forest_supported(s: Seq<VolumeNode>)
    ensures
        forest_supported(s) <==> forall|k: int| 0 <= k < s.len() ==> tree_supported(#[trigger] s[k]),
    decreases s.len(),
{
    if s.len() > 0 {
        lemma_forest_supported(s.drop_last());
        assert forall|k: int| 0 <= k < s.len() - 1 implies s.drop_last()[k] == s[k] by {}
    }
}

pub proof fn lemma_forest_fails_with(s: Seq<VolumeNode>, k: int, e: GeometryError)
    requires
        0 <= k < s.len(),
        tree_fails_with(s[k], e),
    ensures
        forest_fails_with(s, e),
    decreases s.len(),
{
    if k < s.len() - 1 {
        lemma_forest_fails_with(s.drop_last(), k, e);
    }
}

pub proof fn lemma_forest_ok(s: Seq<VolumeNode>, depth: nat, k: int)
    requires
        forest_ok(s, depth),
        0 <= k < s.len(),
    ensures
        tree_ok(s[k], depth),
    decreases s.len(),
{
    if k < s.len() - 1 {
        lemma_forest_ok(s.drop_last(), depth, k);
    }
}
fn length_in_range(v: i64) -> (r: bool)
    ensures
        r == length_ok(v),
{
    -LENGTH_LIMIT <= v && v <= LENGTH_LIMIT
}

fn point_in_range(v: &Vec3) -> (r: bool)
    ensures
        r == point_ok(*v),
{
    length_in_range(v.x) && length_in_range(v.y) && length_in_range(v.z)
}

fn facets_in_range(facets: &Vec<Facet>) -> (r: bool)
    ensures
        r == forall|j: int| 0 <= j < facets@.len() ==> facet_ok(#[trigger] facets@[j]),
{
    let mut i: usize = 0;
    while i < facets.len()
        invariant
            0 <= i <= facets@.len(),
            forall|j: int| 0 <= j < i ==> facet_ok(#[trigger] facets@[j]),
        decreases facets@.len() - i,
    {
        let f = &facets[i];
        if !(point_in_range(&f.a) && point_in_range(&f.b) && point_in_range(&f.c)) {
            assert(!facet_ok(facets@[i as int]));
            return false;
        }
        i = i + 1;
    }
    true
}

impl Shape {
    /// Whether every length of the shape lies within the library's range.
    pub fn in_range(&self) -> (r: bool)
        ensures
            r == shape_ok(*self),
    {
        match self {
            Shape::Box { size } => point_in_range(size),
            Shape::Orb { radius } => length_in_range(*radius),
            Shape::Sphere { inner_radius, outer_radius, .. } => length_in_range(*inner_radius)
                && length_in_range(*outer_radius),
            Shape::Tube { inner_radius, outer_radius, length, .. } => length_in_range(
                *inner_radius,
            ) && length_in_range(*outer_radius) && length_in_range(*length),
            Shape::Tessellation { facets } => facets_in_range(facets),
            Shape::Envelope { safety, .. } => length_in_range(*safety),
        }
    }
}

pub proof fn lemma_forest_ok_all(s: Seq<VolumeNode>, depth: nat)
    ensures
        forest_ok(s, depth) <==> forall|k: int| 0 <= k < s.len() ==> tree_ok(#[trigger] s[k], depth),
    decreases s.len(),
{
    if s.len() > 0 {
        lemma_forest_ok_all(s.drop_last(), depth);
        assert forall|k: int| 0 <= k < s.len() - 1 implies s.drop_last()[k] == s[k] by {}
    }
}

fn tree_in_range(n: &VolumeNode, depth: usize) -> (r: bool)
    ensures
        r == tree_ok(*n, depth as nat),
    decreases depth,
{
    if depth < 1 || !n.shape.in_range() || !point_in_range(&n.translation) {
        return false;
    }
    let mut k: usize = 0;
    while k < n.children.len()
        invariant
            0 <= k <= n.children@.len(),
            depth >= 1,
            forall|j: int| 0 <= j < k ==> tree_ok(#[trigger] n.children@[j], (depth - 1) as nat),
        decreases n.children@.len() - k,
    {
        if !tree_in_range(&n.children[k], depth - 1) {
            proof {
                lemma_forest_ok_all(n.children@, (depth - 1) as nat);
            }
            return false;
        }
        k = k + 1;
    }
    proof {
        lemma_forest_ok_all(n.children@, (depth - 1) as nat);
    }
    true
}

impl VolumeNode {
    /// Whether every length and offset of the tree lies within the library's
    /// range and the tree is at most `MAX_DEPTH` levels deep.
    pub fn within_limits(&self) -> (r: bool)
        ensures
            r == tree_ok(*self, MAX_DEPTH as nat),
    {
        tree_in_range(self, MAX_DEPTH)
    }
}

} // verus!
