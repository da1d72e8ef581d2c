use vstd::prelude::*;
use crate::geom::{
    Aabb, Vec3, vec_add, translated_spec, union_all, contains_spec, lemma_union_all_contains,
    COORD_LIMIT,
};
use crate::shape::{GeometryError, bounds_spec, LENGTH_LIMIT};
use crate::volume::{
    VolumeNode, MAX_DEPTH, tree_size, forest_size, tree_ok, flat_tree, flat_forest,
    tree_supported, forest_supported, tree_fails_with, lemma_flat_tree_len, lemma_flat_forest_len,
    lemma_forest_supported, lemma_forest_fails_with, lemma_forest_ok,
};

verus! {

/// How a volume is drawn.
#[derive(Clone, Copy, Debug, PartialEq, Eq, Structural)]
pub enum RenderStyle {
    /// An opaque solid.
    Plain,
    /// A see-through wireframe, for volumes that hold air.
    Wireframe,
}

/// The material names that stand for air.
pub open spec fn is_air(m: Seq<char>) -> bool {
    m == "G4_AIR"@ || m == "AIR"@ || m == "Air"@ || m == "air"@
}

pub open spec fn style_of(m: Seq<char>) -> RenderStyle {
    if is_air(m) {
        RenderStyle::Wireframe
    } else {
        RenderStyle::Plain
    }
}

/// Volumes of air are drawn as wireframes, all others as opaque solids.
pub fn render_style(material: &String) -> (r: RenderStyle)
    ensures
        r == style_of(material@),
{
    if *material == "G4_AIR".to_owned() || *material == "AIR".to_owned() || *material
        == "Air".to_owned() || *material == "air".to_owned() {
        RenderStyle::Wireframe
    } else {
        RenderStyle::Plain
    }
}

/// The materials made so far, one per name; a material's handle is its
/// position in the list.
pub struct SceneCache {
    pub materials: Vec<String>,
}

impl SceneCache {
    pub open spec fn names(&self) -> Seq<Seq<char>> {
        self.materials@.map_values(|s: String| s@)
    }

    /// No name is listed twice.
    pub open spec fn wf(&self) -> bool {
        forall|i: int, j: int|
            0 <= i < j < self.materials@.len() ==> #[trigger] self.materials@[i]@
                != #[trigger] self.materials@[j]@
    }

    pub fn new() -> (r: SceneCache)
        ensures
            r.wf(),
            r.names() == Seq::<Seq<char>>::empty(),
    {
        let r = SceneCache { materials: Vec::new() };
        assert(r.names() =~= Seq::<Seq<char>>::empty());
        r
    }

    /// The handle of the material called `name`, made if no material of that
    /// name exists yet.
    pub fn material(&mut self, name: &String) -> (h: usize)
        requires
            old(self).wf(),
        ensures
            final(self).wf(),
            h < final(self).names().len(),
            final(self).names()[h as int] == name@,
            old(self).names().contains(name@) ==> final(self).names() == old(self).names(),
            !old(self).names().contains(name@) ==> final(self).names() == old(self).names().push(
                name@,
            ),
    {
        let mut i: usize = 0;
        while i < self.materials.len()
            invariant
                0 <= i <= self.materials@.len(),
                *self == *old(self),
                self.wf(),
                forall|j: int| 0 <= j < i ==> self.materials@[j]@ != name@,
            decreases self.materials@.len() - i,
        {
            if self.materials[i] == *name {
                return i;
            }
            i = i + 1;
        }
        proof {
            assert(!self.names().contains(name@)) by {
                if self.names().contains(name@) {
                    let j = choose|j: int| 0 <= j < self.names().len() && self.names()[j] == name@;
                    assert(self.materials@[j]@ == name@);
                }
            }
        }
        self.materials.push(name.clone());
        assert(self.names() =~= old(self).names().push(name@));
        self.materials.len() - 1
    }
}
/// What is drawn for one volume.
#[derive(Debug)]
pub struct SceneEntity {
    pub name: String,
    /// Handle of the volume's material in the scene cache.
    pub material: usize,
    pub style: RenderStyle,
    /// Position of the parent volume's entity, `None` for the root.
    pub parent: Option<usize>,
    /// Offset from the parent's origin.
    pub translation: Vec3,
    /// Position of the volume's origin in the world.
    pub world: Vec3,
    /// Bounding box of the volume's mesh in its own frame.
    pub local_bounds: Aabb,
    /// Bounding box of the volume's mesh in the world.
    pub world_bounds: Aabb,
}

/// A built scene: one entity per volume, in pre-order, and the box around all of them.
#[derive(Debug)]
pub struct SceneRoot {
    pub entities: Vec<SceneEntity>,
    pub bounds: Aabb,
}

/// Entity `i` of `es` is what the scene holds for the volume `f.0`, whose
/// parent's entity is at `f.1`.
pub open spec fn entity_matches(
    es: Seq<SceneEntity>,
    i: int,
    f: (VolumeNode, Option<int>),
    names: Seq<Seq<char>>,
) -> bool {
    let e = es[i];
    let n = f.0;
    &&& e.name@ == n.name@
    &&& e.style == style_of(n.material@)
    &&& e.material < names.len()
    &&& names[e.material as int] == n.material@
    &&& e.translation == n.translation
    &&& match f.1 {
        None => e.parent is None && e.world == n.translation,
        Some(p) => e.parent is Some && e.parent->Some_0 as int == p && 0 <= p < i && e.world
            == vec_add(es[p].world, n.translation),
    }
    &&& bounds_spec(n.shape) == Ok::<Aabb, GeometryError>(e.local_bounds)
    &&& e.world_bounds == translated_spec(e.local_bounds, e.world)
}

/// The entities from `start` on are those of the volumes `flat`, in order.
pub open spec fn entities_match(
    es: Seq<SceneEntity>,
    start: int,
    flat: Seq<(VolumeNode, Option<int>)>,
    names: Seq<Seq<char>>,
) -> bool {
    &&& 0 <= start
    &&& start + flat.len() <= es.len()
    &&& forall|j: int| 0 <= j < flat.len() ==> entity_matches(es, start + j, #[trigger] flat[j], names)
}

pub open spec fn world_boxes(es: Seq<SceneEntity>) -> Seq<Aabb> {
    es.map_values(|e: SceneEntity| e.world_bounds)
}

/// Growing the entity list and the material list at their ends keeps what was matched.
proof fn lemma_match_extend(
    es1: Seq<SceneEntity>,
    es2: Seq<SceneEntity>,
    n1: Seq<Seq<char>>,
    n2: Seq<Seq<char>>,
    start: int,
    flat: Seq<(VolumeNode, Option<int>)>,
)
    requires
        entities_match(es1, start, flat, n1),
        es1.len() <= es2.len(),
        es2.subrange(0, es1.len() as int) == es1,
        n1.len() <= n2.len(),
        n2.subrange(0, n1.len() as int) == n1,
    ensures
        entities_match(es2, start, flat, n2),
{
    assert forall|j: int| 0 <= j < flat.len() implies entity_matches(es2, start + j, #[trigger] flat[j], n2) by {
        assert(entity_matches(es1, start + j, flat[j], n1));
        assert(es2[start + j] == es2.subrange(0, es1.len() as int)[start + j]);
        match flat[j].1 {
            Some(p) => {
                assert(es2[p] == es2.subrange(0, es1.len() as int)[p]);
            },
            None => {},
        }
        let m = es1[start + j].material as int;
        assert(n2[m] == n2.subrange(0, n1.len() as int)[m]);
    }
}

/// Builds the entities of one volume and its descendants at the end of `out`.
fn build_tree(
    n: &VolumeNode,
    parent: Option<usize>,
    parent_world: Vec3,
    level: usize,
    out: &mut Vec<SceneEntity>,
    cache: &mut SceneCache,
) -> (r: Result<(), GeometryError>)
    requires
        level < MAX_DEPTH,
        tree_ok(*n, (MAX_DEPTH - level) as nat),
        old(cache).wf(),
        -(level * LENGTH_LIMIT) <= parent_world.x <= level * LENGTH_LIMIT,
        -(level * LENGTH_LIMIT) <= parent_world.y <= level * LENGTH_LIMIT,
        -(level * LENGTH_LIMIT) <= parent_world.z <= level * LENGTH_LIMIT,
        match parent {
            Some(p) => p < old(out)@.len() && old(out)@[p as int].world == parent_world,
            None => parent_world == (Vec3 { x: 0, y: 0, z: 0 }),
        },
    ensures
        final(cache).wf(),
        final(cache).names().len() >= old(cache).names().len(),
        final(cache).names().subrange(0, old(cache).names().len() as int) == old(cache).names(),
        final(out)@.len() >= old(out)@.len(),
        final(out)@.subrange(0, old(out)@.len() as int) == old(out)@,
        r is Ok <==> tree_supported(*n),
        r matches Err(e) ==> tree_fails_with(*n, e),
        r is Ok ==> final(out)@.len() == old(out)@.len() + tree_size(*n),
        r is Ok ==> entities_match(
            final(out)@,
            old(out)@.len() as int,
            flat_tree(*n, match parent { Some(p) => Some(p as int), None => None }, old(out)@.len() as int),
            final(cache).names(),
        ),
    decreases MAX_DEPTH - level,
{
    let ghost parent_int: Option<int> = match parent { Some(p) => Some(p as int), None => None };
    let base = out.len();
    let local = match n.shape.local_bounds() {
        Ok(b) => b,
        Err(e) => {
            proof {
                assert(tree_fails_with(*n, e));
            }
            return Err(e);
        },
    };
    proof {
        assert((level + 1) * LENGTH_LIMIT == level * LENGTH_LIMIT + LENGTH_LIMIT) by (nonlinear_arith);
        assert(MAX_DEPTH * LENGTH_LIMIT < COORD_LIMIT);
        assert((level + 1) * LENGTH_LIMIT <= MAX_DEPTH * LENGTH_LIMIT) by (nonlinear_arith)
            requires level + 1 <= MAX_DEPTH;
    }
    let world = Vec3 {
        x: parent_world.x + n.translation.x,
        y: parent_world.y + n.translation.y,
        z: parent_world.z + n.translation.z,
    };
    let world_bounds = local.translated(&world);
    let material = cache.material(&n.material);
    let style = render_style(&n.material);
    let entity = SceneEntity {
        name: n.name.clone(),
        material,
        style,
        parent,
        translation: n.translation,
        world,
        local_bounds: local,
        world_bounds,
    };
    out.push(entity);
    proof {
        let es = out@;
        let f = (*n, parent_int);
        assert(entity_matches(es, base as int, f, cache.names()));
        assert(entities_match(out@, base as int, seq![f], cache.names()));
    }
    let ghost out0 = out@;
    let ghost names0 = cache.names();
    proof {
        if n.children@.len() > 0 {
            lemma_forest_ok(n.children@, (MAX_DEPTH - level - 1) as nat, 0);
        }
    }
    let mut k: usize = 0;
    while k < n.children.len()
        invariant
            0 <= k <= n.children@.len(),
            base == old(out)@.len(),
            out@.len() == base + 1 + forest_size(n.children@.subrange(0, k as int)),
            out@.subrange(0, base as int) == old(out)@,
            out@.subrange(0, base + 1) == out0,
            out0.len() == base + 1,
            out0[base as int].world == world,
            cache.wf(),
            cache.names().len() >= old(cache).names().len(),
            cache.names().subrange(0, old(cache).names().len() as int) == old(cache).names(),
            cache.names().len() >= names0.len(),
            cache.names().subrange(0, names0.len() as int) == names0,
            entities_match(out0, base as int, seq![(*n, parent_int)], names0),
            entities_match(
                out@,
                base + 1,
                flat_forest(n.children@.subrange(0, k as int), base as int, base + 1),
                cache.names(),
            ),
            forest_supported(n.children@.subrange(0, k as int)),
            level + 1 < MAX_DEPTH || n.children@.len() == 0,
            tree_ok(*n, (MAX_DEPTH - level) as nat),
            -((level + 1) * LENGTH_LIMIT) <= world.x <= (level + 1) * LENGTH_LIMIT,
            -((level + 1) * LENGTH_LIMIT) <= world.y <= (level + 1) * LENGTH_LIMIT,
            -((level + 1) * LENGTH_LIMIT) <= world.z <= (level + 1) * LENGTH_LIMIT,
            bounds_spec(n.shape) is Ok,
        decreases n.children@.len() - k,
    {
        let ghost before = out@;
        let ghost names_before = cache.names();
        proof {
            lemma_forest_ok(n.children@, (MAX_DEPTH - level - 1) as nat, k as int);
            assert(out@[base as int] == out0[base as int]);
        }
        let r = build_tree(&n.children[k], Some(base), world, level + 1, out, cache);
        let ghost sub = n.children@.subrange(0, k + 1);
        proof {
            assert(sub.drop_last() =~= n.children@.subrange(0, k as int));
            assert(sub.last() == n.children@[k as int]);
        }
        match r {
            Err(e) => {
                proof {
                    lemma_forest_supported(n.children@);
                    lemma_forest_fails_with(n.children@, k as int, e);
                    assert(!tree_supported(*n));
                }
                return Err(e);
            },
            Ok(()) => {},
        }
        proof {
            lemma_match_extend(before, out@, names_before, cache.names(), base + 1,
                flat_forest(n.children@.subrange(0, k as int), base as int, base + 1));
            lemma_flat_forest_len(n.children@.subrange(0, k as int), base as int, base + 1);
            let prev = flat_forest(n.children@.subrange(0, k as int), base as int, base + 1);
            let last = flat_tree(n.children@[k as int], Some(base as int), base + 1 + forest_size(n.children@.subrange(0, k as int)));
            assert(flat_forest(sub, base as int, base + 1) == prev + last);
            lemma_flat_tree_len(n.children@[k as int], Some(base as int), base + 1 + forest_size(n.children@.subrange(0, k as int)));
            assert forall|j: int| 0 <= j < (prev + last).len() implies entity_matches(out@, base + 1 + j, #[trigger] (prev + last)[j], cache.names()) by {
                if j < prev.len() {
                    assert((prev + last)[j] == prev[j]);
                } else {
                    assert((prev + last)[j] == last[j - prev.len()]);
                }
            }
            assert(out@.subrange(0, base as int) =~= before.subrange(0, base as int));
            assert(out@.subrange(0, base + 1) =~= before.subrange(0, base + 1));
            assert(cache.names().subrange(0, old(cache).names().len() as int) =~= names_before.subrange(0, old(cache).names().len() as int));
            assert(cache.names().subrange(0, names0.len() as int) =~= names_before.subrange(0, names0.len() as int));
        }
        k = k + 1;
    }
    proof {
        assert(n.children@.subrange(0, n.children@.len() as int) =~= n.children@);
        let f = flat_tree(*n, parent_int, base as int);
        let rest = flat_forest(n.children@, base as int, base + 1);
        assert(f == seq![(*n, parent_int)] + rest);
        lemma_match_extend(out0, out@, names0, cache.names(), base as int, seq![(*n, parent_int)]);
        assert forall|j: int| 0 <= j < f.len() implies entity_matches(out@, base + j, #[trigger] f[j], cache.names()) by {
            if j == 0 {
                assert(f[0] == (*n, parent_int));
                assert(seq![(*n, parent_int)][0] == (*n, parent_int));
            } else {
                assert(f[j] == rest[j - 1]);
            }
        }
        lemma_flat_forest_len(n.children@, base as int, base + 1);
        assert(out@.subrange(0, base as int) =~= old(out)@);
    }
    Ok(())
}
/// `s` is the scene of the geometry `root`, with material handles into `names`:
/// one entity per volume, in pre-order, and the box around all their world boxes.
pub open spec fn scene_of(s: SceneRoot, root: VolumeNode, names: Seq<Seq<char>>) -> bool {
    &&& s.entities@.len() == tree_size(root)
    &&& entities_match(s.entities@, 0, flat_tree(root, None, 0), names)
    &&& s.bounds == union_all(s.entities@[0].world_bounds, world_boxes(s.entities@))
}

/// Turns geometries into scenes, sharing one material per material name
/// across every scene that it builds.
pub struct SceneBuilder {
    pub cache: SceneCache,
}

impl SceneBuilder {
    pub fn new() -> (r: SceneBuilder)
        ensures
            r.cache.wf(),
            r.cache.names().len() == 0,
    {
        SceneBuilder { cache: SceneCache::new() }
    }

    /// Builds the scene of a geometry: one entity per volume, in pre-order, each
    /// placed at its parent's world position plus its own offset, and the box
    /// around every entity's world box. Fails if some solid has no mesh.
    pub fn build(&mut self, root: &VolumeNode) -> (r: Result<SceneRoot, GeometryError>)
        requires
            tree_ok(*root, MAX_DEPTH as nat),
            old(self).cache.wf(),
        ensures
            final(self).cache.wf(),
            final(self).cache.names().len() >= old(self).cache.names().len(),
            final(self).cache.names().subrange(0, old(self).cache.names().len() as int)
                == old(self).cache.names(),
            r is Ok <==> tree_supported(*root),
            r matches Err(e) ==> tree_fails_with(*root, e),
            r matches Ok(s) ==> scene_of(s, *root, final(self).cache.names()),
    {
        let mut entities: Vec<SceneEntity> = Vec::new();
        let r = build_tree(root, None, Vec3 { x: 0, y: 0, z: 0 }, 0, &mut entities, &mut self.cache);
        match r {
            Err(e) => {
                return Err(e);
            },
            Ok(()) => {},
        }
        proof {
            lemma_flat_tree_len(*root, None, 0);
        }
        let first = entities[0].world_bounds;
        let mut bounds = first;
        let mut i: usize = 0;
        while i < entities.len()
            invariant
                0 <= i <= entities@.len(),
                entities@.len() >= 1,
                first == entities@[0].world_bounds,
                bounds == union_all(first, world_boxes(entities@).subrange(0, i as int)),
            decreases entities@.len() - i,
        {
            bounds = bounds.union(&entities[i].world_bounds);
            proof {
                let b = world_boxes(entities@);
                assert(b.subrange(0, i + 1).drop_last() =~= b.subrange(0, i as int));
            }
            i = i + 1;
        }
        proof {
            assert(world_boxes(entities@).subrange(0, entities@.len() as int) =~= world_boxes(entities@));
        }
        Ok(SceneRoot { entities, bounds })
    }
}

/// A scene holds exactly one entity per volume of its geometry; the first is
/// the root's, placed at the root's own offset, and every other one is placed
/// at the world position of its parent's entity plus its own offset.
pub proof fn lemma_scene_transforms(s: SceneRoot, root: VolumeNode, names: Seq<Seq<char>>)
    requires
        scene_of(s, root, names),
    ensures
        s.entities@.len() == tree_size(root),
        forall|i: int| 0 <= i < s.entities@.len() ==> (#[trigger] s.entities@[i]).translation
            == flat_tree(root, None, 0)[i].0.translation,
        forall|i: int| 0 <= i < s.entities@.len() ==> placed_under_parent(s.entities@, i),
{
    assert forall|i: int| 0 <= i < s.entities@.len() implies (#[trigger] s.entities@[i]).translation
        == flat_tree(root, None, 0)[i].0.translation && placed_under_parent(s.entities@, i) by {
        lemma_entity_placement(s, root, names, i);
    }
}

/// Entity `i` is placed at its parent entity's world position plus its own
/// offset, or is the first entity, placed at its own offset.
pub open spec fn placed_under_parent(es: Seq<SceneEntity>, i: int) -> bool {
    match es[i].parent {
        Some(p) => 0 < i && p < i && es[i].world == vec_add(es[p as int].world, es[i].translation),
        None => i == 0 && es[i].world == es[i].translation,
    }
}

proof fn lemma_entity_placement(s: SceneRoot, root: VolumeNode, names: Seq<Seq<char>>, i: int)
    requires
        scene_of(s, root, names),
        0 <= i < s.entities@.len(),
    ensures
        s.entities@[i].translation == flat_tree(root, None, 0)[i].0.translation,
        placed_under_parent(s.entities@, i),
{
    let f = flat_tree(root, None, 0);
    lemma_flat_tree_len(root, None, 0);
    let rest = flat_forest(root.children@, 0, 1);
    assert(f == seq![(root, None::<int>)] + rest);
    assert(entity_matches(s.entities@, 0 + i, f[i], names));
    if i == 0 {
        assert(f[0] == (root, None::<int>));
    } else {
        lemma_flat_forest_parents(root.children@, 0, 1);
        assert(f[i] == rest[i - 1]);
        assert(rest[i - 1].1 is Some);
    }
}

/// Every volume below a root has a parent.
proof fn lemma_flat_forest_parents(s: Seq<VolumeNode>, parent: int, base: int)
    ensures
        forall|j: int| 0 <= j < flat_forest(s, parent, base).len() ==> (#[trigger] flat_forest(s, parent, base)[j]).1 is Some,
    decreases s,
{
    if s.len() > 0 {
        let prev = flat_forest(s.drop_last(), parent, base);
        let b = base + forest_size(s.drop_last());
        let last = flat_tree(s.last(), Some(parent), b);
        lemma_flat_forest_parents(s.drop_last(), parent, base);
        lemma_flat_forest_parents(s.last().children@, b, b + 1);
        assert(flat_forest(s, parent, base) == prev + last);
        assert forall|j: int| 0 <= j < (prev + last).len() implies (#[trigger] (prev + last)[j]).1 is Some by {
            if j >= prev.len() && j > prev.len() {
                assert((prev + last)[j] == flat_forest(s.last().children@, b, b + 1)[j - prev.len() - 1]);
            }
        }
    }
}

/// The box of a scene holds the world box of every one of its entities.
pub proof fn lemma_scene_bounds(s: SceneRoot, root: VolumeNode, names: Seq<Seq<char>>)
    requires
        scene_of(s, root, names),
    ensures
        forall|i: int| 0 <= i < s.entities@.len() ==> contains_spec(s.bounds, #[trigger] s.entities@[i].world_bounds),
{
    assert forall|i: int| 0 <= i < s.entities@.len() implies contains_spec(s.bounds, #[trigger] s.entities@[i].world_bounds) by {
        lemma_union_all_contains(s.entities@[0].world_bounds, world_boxes(s.entities@), i);
    }
}

} // verus!
