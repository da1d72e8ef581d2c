use calzone_viewer::double::scale_double;
use calzone_viewer::event::{EventStore, Track, Vertex};
use calzone_viewer::geom::Vec3;
use calzone_viewer::rows::{parse_track_rows, parse_vertex_rows, EventParseError};
use calzone_viewer::source::{format_of_extension, SourceFormat};
use calzone_viewer::summary::summarize;

fn name(s: &str) -> [u8; 16] {
    let mut out = [0u8; 16];
    out[..s.len()].copy_from_slice(s.as_bytes());
    out
}

fn track_record(event: u64, tid: i32, parent: i32, pid: i32, creator: &str) -> Vec<u8> {
    let mut b = Vec::new();
    b.extend_from_slice(&event.to_le_bytes());
    b.extend_from_slice(&tid.to_le_bytes());
    b.extend_from_slice(&parent.to_le_bytes());
    b.extend_from_slice(&pid.to_le_bytes());
    b.extend_from_slice(&name(creator));
    b.extend_from_slice(&[0u8; 4]);
    b
}

fn vertex_record(event: u64, tid: i32, energy: f64, position: [f64; 3], volume: &str, process: &str) -> Vec<u8> {
    let mut b = Vec::new();
    b.extend_from_slice(&event.to_le_bytes());
    b.extend_from_slice(&tid.to_le_bytes());
    b.extend_from_slice(&[0u8; 4]);
    b.extend_from_slice(&energy.to_le_bytes());
    for c in position {
        b.extend_from_slice(&c.to_le_bytes());
    }
    for _ in 0..3 {
        b.extend_from_slice(&0f64.to_le_bytes());
    }
    b.extend_from_slice(&name(volume));
    b.extend_from_slice(&name(process));
    b
}

#[test]
fn track_records_are_read() {
    let mut b = track_record(3, 1, 0, 22, "primary");
    b.extend(track_record(3, 2, 1, -11, "conv"));
    let rows = parse_track_rows(&b).unwrap();
    assert_eq!(rows.len(), 2);
    assert_eq!(rows[0].event, 3);
    assert_eq!(rows[0].pid, 22);
    assert_eq!(rows[0].creator, "primary");
    assert_eq!(rows[1].parent, 1);
    assert_eq!(rows[1].pid, -11);
    assert_eq!(rows[1].creator, "conv");
}

#[test]
fn vertex_records_are_read() {
    let b = vertex_record(0, 7, 1.5, [1.0, -2.0, 0.25], "world", "eIoni");
    let rows = parse_vertex_rows(&b).unwrap();
    assert_eq!(rows.len(), 1);
    assert_eq!(rows[0].tid, 7);
    assert_eq!(f64::from_bits(rows[0].energy_bits), 1.5);
    assert_eq!(f64::from_bits(rows[0].position_bits.1), -2.0);
    assert_eq!(rows[0].volume, "world");
    assert_eq!(rows[0].process, "eIoni");
}

#[test]
fn malformed_records_are_refused() {
    let b = track_record(0, 1, 0, 22, "primary");
    assert_eq!(parse_track_rows(&b[..39]).unwrap_err(), EventParseError::Length);
    let mut unterminated = b.clone();
    for byte in unterminated[20..36].iter_mut() {
        *byte = b'x';
    }
    assert_eq!(parse_track_rows(&unterminated).unwrap_err(), EventParseError::Name);
    let mut non_ascii = b.clone();
    non_ascii[20] = 0xc3;
    assert_eq!(parse_track_rows(&non_ascii).unwrap_err(), EventParseError::Name);
    assert_eq!(parse_vertex_rows(&[0u8; 103]).unwrap_err(), EventParseError::Length);
    assert!(parse_track_rows(&[]).unwrap().is_empty());
}

#[test]
fn formats_by_extension() {
    for ext in ["json", "toml", "yml", "yaml"] {
        assert_eq!(format_of_extension(&ext.to_string()), Some(SourceFormat::Data));
    }
    assert_eq!(format_of_extension(&"stl".to_string()), Some(SourceFormat::Stl));
    assert_eq!(format_of_extension(&"gdml".to_string()), None);
    assert_eq!(format_of_extension(&"JSON".to_string()), None);
}

fn v(energy: u128, process: &str, volume: &str) -> Vertex {
    Vertex { energy, position: Vec3::new(0, 0, 0), process: process.to_string(), volume: volume.to_string() }
}

#[test]
fn picked_track_summary() {
    let t = Track {
        event: 0,
        tid: 2,
        parent: 1,
        pid: 11,
        creator: "compt".to_string(),
        vertices: vec![
            v(9, "", "world"),
            v(8, "eIoni", "world"),
            v(7, "", "detector"),
            v(6, "eIoni", "world"),
            v(5, "msc", "shield"),
        ],
    };
    let s = summarize(&t, &vec![1, 2, 3, 4]);
    assert!(s.shows_creator);
    assert_eq!(s.first_energy, 8);
    assert_eq!(s.last_energy, 5);
    assert_eq!(s.processes, vec!["eIoni".to_string(), "msc".to_string()]);
    assert_eq!(s.volumes, vec!["world".to_string(), "detector".to_string(), "shield".to_string()]);
    let primary = Track { tid: 1, ..t };
    let s = summarize(&primary, &vec![2]);
    assert!(!s.shows_creator);
    assert!(s.processes.is_empty());
    assert_eq!(s.first_energy, s.last_energy);
}

#[test]
fn doubles_scale_to_whole_units() {
    let f = |x: f64, s: u64| scale_double(x.to_bits(), s);
    assert_eq!(f(150.0, 10_000), Some(1_500_000));
    assert_eq!(f(-2.5, 10_000), Some(-25_000));
    assert_eq!(f(0.00005, 10_000), Some(1));
    assert_eq!(f(0.00004, 10_000), Some(0));
    assert_eq!(f(-0.0, 10_000), Some(0));
    assert_eq!(f(1.0, 1_000_000_000), Some(1_000_000_000));
    assert_eq!(f(1e300, 10_000), None);
    assert_eq!(f(f64::INFINITY, 1), None);
    assert_eq!(f(f64::NAN, 1), None);
    assert_eq!(f(5e-324, 1), Some(0));
    assert_eq!(f(4503599627370497.0, 1), Some(4503599627370497));
}

#[test]
fn submissions_are_read_from_bytes() {
    let mut store = EventStore::new();
    let mut tracks = track_record(0, 1, 0, 22, "primary");
    tracks.extend(track_record(0, 2, 1, 11, "compt"));
    let mut vertices = vertex_record(0, 1, 1.0, [0.0, 0.0, 0.0], "world", "");
    vertices.extend(vertex_record(0, 2, 0.5, [1.0, 2.0, -3.0], "detector", "compt"));
    store.submit_bytes(&tracks, &vertices).unwrap();
    let set = store.take().unwrap();
    assert_eq!(set.tracks.len(), 2);
    assert_eq!(set.tracks[0].vertices[0].energy, 1_000_000_000);
    assert_eq!(set.tracks[1].vertices[0].position, Vec3::new(10_000, 20_000, -30_000));
    assert_eq!(set.tracks[1].vertices[0].volume, "detector");
}

#[test]
fn refused_submission_keeps_the_slot() {
    let mut store = EventStore::new();
    let tracks = track_record(0, 1, 0, 22, "primary");
    let vertices = vertex_record(0, 1, 1.0, [0.0, 0.0, 0.0], "world", "");
    store.submit_bytes(&tracks, &vertices).unwrap();
    let bad = vertex_record(0, 1, -1.0, [0.0, 0.0, 0.0], "world", "");
    assert_eq!(store.submit_bytes(&tracks, &bad).unwrap_err(), EventParseError::Value);
    let nan = vertex_record(0, 1, 1.0, [f64::NAN, 0.0, 0.0], "world", "");
    assert_eq!(store.submit_bytes(&tracks, &nan).unwrap_err(), EventParseError::Value);
    assert_eq!(store.submit_bytes(&tracks[..10], &vertices).unwrap_err(), EventParseError::Length);
    let set = store.take().unwrap();
    assert_eq!(set.tracks[0].vertices[0].energy, 1_000_000_000);
}
