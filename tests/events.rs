use calzone_viewer::display::{on_mode_keys, DisplayMode, WireframeMode};
use calzone_viewer::energy::{energy_label, EnergyUnit};
use calzone_viewer::event::{EventSet, EventStore, TrackRow, Vertex, VertexRow};
use calzone_viewer::geom::Vec3;
use calzone_viewer::picking::{marker_radius, ray_hits, Ray};
use calzone_viewer::playback::EventPlayback;
use calzone_viewer::scene::RenderStyle;

fn track(event: u64, tid: i32, parent: i32, pid: i32, creator: &str) -> TrackRow {
    TrackRow { event, tid, parent, pid, creator: creator.to_string() }
}

fn vertex(event: u64, tid: i32, energy: u128, x: i64, y: i64, z: i64) -> VertexRow {
    VertexRow {
        event,
        tid,
        vertex: Vertex {
            energy,
            position: Vec3::new(x, y, z),
            process: "eIoni".to_string(),
            volume: "detector".to_string(),
        },
    }
}

fn sample_rows() -> (Vec<TrackRow>, Vec<VertexRow>) {
    let tracks = vec![
        track(1, 2, 1, 11, "compt"),
        track(0, 1, 0, 22, "primary"),
        track(1, 1, 0, 22, "primary"),
        track(0, 2, 1, 11, "phot"),
    ];
    let vertices = vec![
        vertex(0, 1, 5_000, 0, 0, 0),
        vertex(0, 1, 4_000, 0, 0, 1_000),
        vertex(0, 2, 3_000, 0, 0, 1_000),
        vertex(0, 3, 1, 0, 0, 0),
        vertex(0, 2, 2_000, 0, 500, 1_000),
        vertex(7, 1, 1, 0, 0, 0),
    ];
    (tracks, vertices)
}

#[test]
fn rows_group_into_events() {
    let (tracks, vertices) = sample_rows();
    let set = EventSet::from_rows(&tracks, &vertices);
    assert_eq!(set.events, vec![1, 0]);
    let keys: Vec<(u64, i32)> = set.tracks.iter().map(|t| (t.event, t.tid)).collect();
    assert_eq!(keys, vec![(0, 1), (0, 2), (1, 1), (1, 2)]);
    assert_eq!(set.tracks[0].vertices.len(), 2);
    assert_eq!(set.tracks[1].vertices.len(), 2);
    assert_eq!(set.tracks[1].vertices[1].position, Vec3::new(0, 500, 1_000));
    assert_eq!(set.tracks[1].creator, "phot");
    // Vertices of tracks without a record are dropped.
    assert_eq!(set.tracks[2].vertices.len(), 0);
    assert_eq!(set.tracks[3].vertices.len(), 0);
}

#[test]
fn later_track_record_wins() {
    let tracks = vec![track(0, 1, 0, 22, "first"), track(0, 1, 5, 11, "second")];
    let set = EventSet::from_rows(&tracks, &Vec::new());
    assert_eq!(set.tracks.len(), 1);
    assert_eq!(set.tracks[0].parent, 5);
    assert_eq!(set.tracks[0].pid, 11);
    assert_eq!(set.tracks[0].creator, "second");
}

#[test]
fn take_twice_gives_nothing_the_second_time() {
    let (tracks, vertices) = sample_rows();
    let mut store = EventStore::new();
    assert!(store.take().is_none());
    store.submit(&tracks, &vertices);
    assert!(store.take().is_some());
    assert!(store.take().is_none());
}

#[test]
fn last_submission_wins() {
    let (tracks, vertices) = sample_rows();
    let mut store = EventStore::new();
    store.submit(&tracks, &vertices);
    let b = vec![track(9, 4, 0, 13, "muon")];
    store.submit(&b, &Vec::new());
    let set = store.take().unwrap();
    assert_eq!(set.events, vec![9]);
    assert_eq!(set.tracks.len(), 1);
    assert_eq!(set.tracks[0].tid, 4);
}

#[test]
fn refresh_shows_the_first_event() {
    let (tracks, vertices) = sample_rows();
    let mut store = EventStore::new();
    let mut playback = EventPlayback::new();
    assert!(!playback.refresh(&mut store));
    store.submit(&tracks, &vertices);
    playback.index = 1;
    assert!(playback.refresh(&mut store));
    assert_eq!(playback.index, 0);
    assert_eq!(playback.events.tracks.len(), 4);
    assert!(!playback.refresh(&mut store));
}

#[test]
fn navigation_wraps() {
    let (tracks, vertices) = sample_rows();
    let mut playback = EventPlayback::new();
    playback.next();
    assert_eq!(playback.index, 0);
    playback.events = EventSet::from_rows(&tracks, &vertices);
    playback.next();
    assert_eq!(playback.index, 1);
    playback.next();
    assert_eq!(playback.index, 0);
    playback.previous();
    assert_eq!(playback.index, 1);
    playback.previous();
    assert_eq!(playback.index, 0);
}

fn picking_playback() -> EventPlayback {
    let (tracks, vertices) = sample_rows();
    let mut playback = EventPlayback::new();
    playback.events = EventSet::from_rows(&tracks, &vertices);
    playback
}

#[test]
fn ray_through_a_vertex_picks_it() {
    let playback = picking_playback();
    // Straight down the z axis from above: through (0, 0, 1000) of tracks 1 and 2.
    let ray = Ray { origin: Vec3::new(0, 0, 10_000), direction: Vec3::new(0, 0, -1) };
    let picked = playback.pick(&ray);
    assert_eq!(picked.len(), 2);
    assert_eq!(picked[0].tid, 1);
    assert_eq!(picked[0].vertices, vec![1]);
    assert_eq!(picked[1].tid, 2);
    // The first vertex of a track has no marker.
    assert_eq!(picked[1].vertices, vec![1]);
}

#[test]
fn ray_far_from_a_vertex_misses_it() {
    let playback = picking_playback();
    let ray = Ray { origin: Vec3::new(2_000, 0, 10_000), direction: Vec3::new(0, 0, -1) };
    assert!(playback.pick(&ray).is_empty());
}

#[test]
fn marker_radius_by_particle() {
    assert!(marker_radius(22) < marker_radius(11));
    let ray = Ray { origin: Vec3::new(400, 0, 10_000), direction: Vec3::new(0, 0, -1) };
    let p = Vec3::new(0, 0, 0);
    assert!(!ray_hits(&ray, &p, marker_radius(22)));
    assert!(ray_hits(&ray, &p, marker_radius(11)));
    // A ball behind the ray's origin is missed, one around the origin is hit.
    let away = Ray { origin: Vec3::new(0, 0, 10_000), direction: Vec3::new(0, 0, 1) };
    assert!(!ray_hits(&away, &p, 500));
    let inside = Ray { origin: Vec3::new(100, 0, 0), direction: Vec3::new(0, 0, 1) };
    assert!(ray_hits(&inside, &p, 500));
}

#[test]
fn one_mev_is_shown_in_mev() {
    let label = energy_label(1_000_000_000);
    assert_eq!(label.unit, EnergyUnit::MEV);
    assert_eq!(label.thousandths, 1_000);
}

#[test]
fn energy_units_by_decade() {
    assert_eq!(energy_label(0).unit, EnergyUnit::EV);
    assert_eq!(energy_label(999_999).unit, EnergyUnit::EV);
    assert_eq!(energy_label(999_999).thousandths, 999_999);
    assert_eq!(energy_label(1_000_000).unit, EnergyUnit::KEV);
    assert_eq!(energy_label(999_999_999).unit, EnergyUnit::KEV);
    assert_eq!(energy_label(999_999_999).thousandths, 1_000_000);
    assert_eq!(energy_label(1_234_567_890_000).unit, EnergyUnit::GEV);
    assert_eq!(energy_label(1_234_567_890_000).thousandths, 1_235);
    assert_eq!(energy_label(u128::MAX).unit, EnergyUnit::ZEV);
}

#[test]
fn display_modes_cycle() {
    let m = DisplayMode::initial();
    assert_eq!(m, DisplayMode::Opaque);
    assert!(m.shadows());
    assert_eq!(m.alpha_percent(), 100);
    assert_eq!(m.next(), DisplayMode::Premultiplied);
    assert_eq!(m.next().next(), DisplayMode::Blend);
    assert_eq!(m.previous(), DisplayMode::Blend);
    assert_eq!(DisplayMode::Blend.alpha_percent(), 33);
    assert!(!DisplayMode::Blend.shadows());
}

#[test]
fn wireframe_modes_cycle() {
    let w = WireframeMode::initial();
    assert_eq!(w, WireframeMode::Disabled);
    assert!(!w.shows_wireframe(RenderStyle::Wireframe));
    assert_eq!(w.next(), WireframeMode::Partial);
    assert!(w.next().shows_wireframe(RenderStyle::Wireframe));
    assert!(!w.next().shows_wireframe(RenderStyle::Plain));
    assert_eq!(w.previous(), WireframeMode::Enabled);
    assert!(w.previous().shows_wireframe(RenderStyle::Plain));
}

#[test]
fn mode_keys() {
    let d = DisplayMode::Opaque;
    let w = WireframeMode::Disabled;
    assert_eq!(on_mode_keys(d, w, true, false, false), (DisplayMode::Premultiplied, w));
    assert_eq!(on_mode_keys(d, w, false, true, false), (DisplayMode::Blend, w));
    assert_eq!(on_mode_keys(d, w, true, false, true), (d, WireframeMode::Partial));
    assert_eq!(on_mode_keys(d, w, false, true, true), (d, WireframeMode::Enabled));
    assert_eq!(on_mode_keys(d, w, true, true, false), (d, w));
}

#[test]
fn drawn_event_lists_its_tracks() {
    let mut playback = picking_playback();
    let drawn = playback.drawn();
    assert_eq!(drawn.len(), 2);
    assert_eq!(drawn[0].track, 0);
    assert_eq!(drawn[0].radius, marker_radius(22));
    assert_eq!(drawn[0].markers, 1);
    assert_eq!(drawn[1].radius, marker_radius(11));
    playback.next();
    let drawn = playback.drawn();
    assert_eq!(drawn.len(), 2);
    assert_eq!(drawn[0].track, 2);
    assert_eq!(drawn[0].markers, 0);
}
