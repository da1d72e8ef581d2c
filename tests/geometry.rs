use calzone_viewer::app::{decide, AppState, Decision, Stage, SESSION_ENTITIES};
use calzone_viewer::geom::{Aabb, Vec3};
use calzone_viewer::scene::{render_style, RenderStyle, SceneBuilder};
use calzone_viewer::shape::{EnvelopeKind, Facet, GeometryError, Section, Shape};
use calzone_viewer::units::meters;
use calzone_viewer::volume::VolumeNode;

fn v(x: i64, y: i64, z: i64) -> Vec3 {
    Vec3::new(x, y, z)
}

fn node(name: &str, material: &str, shape: Shape, t: Vec3, children: Vec<VolumeNode>) -> VolumeNode {
    VolumeNode {
        name: name.to_string(),
        material: material.to_string(),
        shape,
        translation: t,
        children,
    }
}

fn cube(cm: i64) -> Shape {
    Shape::Box { size: v(meters(cm), meters(cm), meters(cm)) }
}

#[test]
fn centimetres_convert_to_metres() {
    // 150 cm is 1.5 m, that is 1 500 000 micrometres.
    assert_eq!(meters(150), 1_500_000);
    assert_eq!(meters(0), 0);
    assert_eq!(meters(-3), -30_000);
    assert!(meters(149) < meters(150));
}

#[test]
fn box_bounds_are_centred() {
    let b = cube(2).local_bounds().unwrap();
    assert_eq!(b.min, v(-10_000, -10_000, -10_000));
    assert_eq!(b.max, v(10_000, 10_000, 10_000));
    let odd = Shape::Box { size: v(3, 4, 5) }.local_bounds().unwrap();
    assert_eq!(odd.min, v(-1, -2, -2));
    assert_eq!(odd.max, v(2, 2, 3));
}

#[test]
fn round_solids_bounds() {
    let full = Section { start: 0, delta: 360_000 };
    let half = Section { start: 0, delta: 180_000 };
    let orb = Shape::Orb { radius: 7 }.local_bounds().unwrap();
    assert_eq!(orb.min, v(-7, -7, -7));
    assert_eq!(orb.max, v(7, 7, 7));
    let sphere = Shape::Sphere { inner_radius: 0, outer_radius: 5, phi: full, theta: half };
    assert_eq!(sphere.local_bounds().unwrap().max, v(5, 5, 5));
    let tube = Shape::Tube { inner_radius: 0, outer_radius: 4, length: 10, phi: full };
    let b = tube.local_bounds().unwrap();
    assert_eq!(b.min, v(-4, -5, -4));
    assert_eq!(b.max, v(4, 5, 4));
}

#[test]
fn unsupported_solids_are_refused() {
    let full = Section { start: 0, delta: 360_000 };
    let half = Section { start: 0, delta: 180_000 };
    let cut = Section { start: 0, delta: 90_000 };
    let partial = Shape::Sphere { inner_radius: 0, outer_radius: 5, phi: cut, theta: half };
    assert_eq!(partial.local_bounds().unwrap_err(), GeometryError::PartialSection);
    let hollow = Shape::Tube { inner_radius: 1, outer_radius: 4, length: 10, phi: full };
    assert_eq!(hollow.local_bounds().unwrap_err(), GeometryError::HollowSolid);
    let negative = Shape::Box { size: v(1, -1, 1) };
    assert_eq!(negative.local_bounds().unwrap_err(), GeometryError::NegativeLength);
    let empty = Shape::Tessellation { facets: Vec::new() };
    assert_eq!(empty.local_bounds().unwrap_err(), GeometryError::EmptyTessellation);
    let envelope = Shape::Envelope { kind: EnvelopeKind::Box, safety: 0 };
    assert_eq!(envelope.local_bounds().unwrap_err(), GeometryError::UnresolvedEnvelope);
}

#[test]
fn tessellation_bounds_cover_every_vertex() {
    let facets = vec![
        Facet { a: v(0, 0, 0), b: v(4, 0, 0), c: v(0, 2, 0) },
        Facet { a: v(-1, 0, 3), b: v(0, 5, 0), c: v(0, 0, -2) },
    ];
    let b = Shape::Tessellation { facets }.local_bounds().unwrap();
    assert_eq!(b.min, v(-1, 0, -2));
    assert_eq!(b.max, v(4, 5, 3));
}

#[test]
fn envelope_fits_two_boxes() {
    let env = node(
        "envelope",
        "G4_AIR",
        Shape::Envelope { kind: EnvelopeKind::Box, safety: 0 },
        v(0, 0, 0),
        vec![
            node("left", "G4_Fe", cube(1), v(meters(-1), 0, 0), vec![]),
            node("right", "G4_Fe", cube(1), v(meters(1), 0, 0), vec![]),
        ],
    );
    assert!(env.within_limits());
    let r = env.resolve_envelopes().unwrap();
    // Children span [-1.5, 1.5] cm along x: 3 cm; 1 cm along y and z.
    match r.shape {
        Shape::Box { size } => assert_eq!(size, v(meters(3), meters(1), meters(1))),
        _ => panic!("the envelope should be a box"),
    }
    assert_eq!(r.translation, v(0, 0, 0));
    assert_eq!(r.children[0].translation, v(meters(-1), 0, 0));
    assert_eq!(r.children[1].translation, v(meters(1), 0, 0));
}

#[test]
fn envelope_recentres_on_its_children() {
    let env = node(
        "envelope",
        "G4_AIR",
        Shape::Envelope { kind: EnvelopeKind::Box, safety: 100 },
        v(5, 0, 0),
        vec![
            node("a", "G4_Fe", Shape::Box { size: v(10, 10, 10) }, v(10, 0, 0), vec![]),
            node("b", "G4_Fe", Shape::Box { size: v(10, 10, 10) }, v(30, 0, 0), vec![]),
        ],
    );
    let r = env.resolve_envelopes().unwrap();
    // Union along x is [5, 35]: 30 wide plus 100 on each side; middle at 20.
    match r.shape {
        Shape::Box { size } => assert_eq!(size, v(230, 210, 210)),
        _ => panic!("the envelope should be a box"),
    }
    assert_eq!(r.translation, v(25, 0, 0));
    assert_eq!(r.children[0].translation, v(-10, 0, 0));
    assert_eq!(r.children[1].translation, v(10, 0, 0));
}

#[test]
fn envelope_refuses_other_children() {
    let env = node(
        "envelope",
        "G4_AIR",
        Shape::Envelope { kind: EnvelopeKind::Box, safety: 0 },
        v(0, 0, 0),
        vec![node("ball", "G4_Fe", Shape::Orb { radius: 3 }, v(0, 0, 0), vec![])],
    );
    assert_eq!(env.resolve_envelopes().unwrap_err(), GeometryError::UnsupportedEnvelope);
    let sphere = node(
        "envelope",
        "G4_AIR",
        Shape::Envelope { kind: EnvelopeKind::Sphere, safety: 0 },
        v(0, 0, 0),
        vec![node("box", "G4_Fe", cube(1), v(0, 0, 0), vec![])],
    );
    assert_eq!(sphere.resolve_envelopes().unwrap_err(), GeometryError::UnsupportedEnvelope);
    let lonely = node(
        "envelope",
        "G4_AIR",
        Shape::Envelope { kind: EnvelopeKind::Box, safety: 0 },
        v(0, 0, 0),
        vec![],
    );
    assert_eq!(lonely.resolve_envelopes().unwrap_err(), GeometryError::UnsupportedEnvelope);
}

#[test]
fn nested_envelopes_resolve_inside_out() {
    let inner = node(
        "inner",
        "Air",
        Shape::Envelope { kind: EnvelopeKind::Box, safety: 0 },
        v(0, 0, 0),
        vec![node("core", "G4_Pb", Shape::Box { size: v(4, 4, 4) }, v(6, 0, 0), vec![])],
    );
    let outer = node(
        "outer",
        "Air",
        Shape::Envelope { kind: EnvelopeKind::Box, safety: 1 },
        v(0, 0, 0),
        vec![inner],
    );
    let r = outer.resolve_envelopes().unwrap();
    match r.shape {
        Shape::Box { size } => assert_eq!(size, v(6, 6, 6)),
        _ => panic!("the envelope should be a box"),
    }
    assert_eq!(r.translation, v(6, 0, 0));
    assert_eq!(r.children[0].translation, v(0, 0, 0));
    assert_eq!(r.children[0].children[0].translation, v(0, 0, 0));
}

fn sample_tree() -> VolumeNode {
    node(
        "world",
        "G4_AIR",
        cube(10),
        v(0, 0, 0),
        vec![
            node(
                "detector",
                "G4_Si",
                cube(2),
                v(meters(1), 0, 0),
                vec![node("pixel", "G4_Si", cube(1), v(0, meters(1), 0), vec![])],
            ),
            node("shield", "G4_Pb", Shape::Orb { radius: meters(1) }, v(0, 0, meters(8)), vec![]),
        ],
    )
}

#[test]
fn build_makes_one_entity_per_volume() {
    let mut builder = SceneBuilder::new();
    let scene = builder.build(&sample_tree()).unwrap();
    assert_eq!(scene.entities.len(), 4);
    let names: Vec<&str> = scene.entities.iter().map(|e| e.name.as_str()).collect();
    assert_eq!(names, vec!["world", "detector", "pixel", "shield"]);
    assert_eq!(scene.entities[0].parent, None);
    assert_eq!(scene.entities[1].parent, Some(0));
    assert_eq!(scene.entities[2].parent, Some(1));
    assert_eq!(scene.entities[3].parent, Some(0));
    // Each entity sits at its parent's world position plus its own offset.
    assert_eq!(scene.entities[2].world, v(meters(1), meters(1), 0));
    assert_eq!(scene.entities[3].world, v(0, 0, meters(8)));
    for e in scene.entities.iter() {
        if let Some(p) = e.parent {
            assert_eq!(e.world, scene.entities[p].world.add(&e.translation));
        }
    }
}

#[test]
fn build_shares_materials_and_marks_air() {
    let mut builder = SceneBuilder::new();
    let scene = builder.build(&sample_tree()).unwrap();
    assert_eq!(scene.entities[1].material, scene.entities[2].material);
    assert_ne!(scene.entities[1].material, scene.entities[3].material);
    assert_eq!(builder.cache.materials.len(), 3);
    assert_eq!(scene.entities[0].style, RenderStyle::Wireframe);
    assert_eq!(scene.entities[1].style, RenderStyle::Plain);
    // A second scene reuses the materials already made.
    let again = builder.build(&sample_tree()).unwrap();
    assert_eq!(again.entities[3].material, scene.entities[3].material);
    assert_eq!(builder.cache.materials.len(), 3);
}

#[test]
fn air_spellings() {
    for m in ["G4_AIR", "AIR", "Air", "air"] {
        assert_eq!(render_style(&m.to_string()), RenderStyle::Wireframe);
    }
    for m in ["aIr", "G4_Air", "G4_WATER", ""] {
        assert_eq!(render_style(&m.to_string()), RenderStyle::Plain);
    }
}

#[test]
fn root_box_holds_every_entity() {
    let mut builder = SceneBuilder::new();
    let scene = builder.build(&sample_tree()).unwrap();
    for e in scene.entities.iter() {
        assert!(scene.bounds.contains(&e.world_bounds));
    }
    assert_eq!(scene.bounds.min, v(-50_000, -50_000, -50_000));
    assert_eq!(scene.bounds.max, v(50_000, 50_000, 90_000));
}

#[test]
fn build_refuses_unsupported_solids() {
    let mut tree = sample_tree();
    tree.children[1].shape = Shape::Envelope { kind: EnvelopeKind::Box, safety: 0 };
    let mut builder = SceneBuilder::new();
    assert_eq!(builder.build(&tree).unwrap_err(), GeometryError::UnresolvedEnvelope);
}

#[test]
fn limits_are_checked() {
    assert!(sample_tree().within_limits());
    let far = node("far", "G4_Fe", cube(1), v(i64::MAX / 2, 0, 0), vec![]);
    assert!(!far.within_limits());
}

#[test]
fn reloading_leaves_no_leftover() {
    let mut builder = SceneBuilder::new();
    let mut stage = Stage::new();
    stage.enter_display(builder.build(&sample_tree()).unwrap());
    let first = stage.scene.as_ref().unwrap().entities.len() + stage.session_entities + stage.event_entities;
    stage.redraw_event(12);
    stage.teardown();
    assert_eq!(stage.state, AppState::Idle);
    stage.enter_display(builder.build(&sample_tree()).unwrap());
    let second = stage.scene.as_ref().unwrap().entities.len() + stage.session_entities + stage.event_entities;
    assert_eq!(first, second);
    assert_eq!(second, 4 + SESSION_ENTITIES);
}

#[test]
fn decisions_of_a_tick() {
    assert_eq!(decide(AppState::Idle, true, false, false), Decision::OpenWindowAndDisplay);
    assert_eq!(decide(AppState::Idle, true, true, true), Decision::Display);
    assert_eq!(decide(AppState::Idle, false, false, true), Decision::Exit);
    assert_eq!(decide(AppState::Idle, false, true, false), Decision::Stay);
    assert_eq!(decide(AppState::Display, true, true, false), Decision::Teardown);
    assert_eq!(decide(AppState::Display, false, true, true), Decision::Stay);
}

#[test]
fn camera_target_of_a_box() {
    let b = Aabb { min: v(-4, -8, 0), max: v(4, 8, 2) };
    let (position, centre) = b.target();
    assert_eq!(centre, v(0, 0, 1));
    assert_eq!(position, v(-6, -12, 4));
}
