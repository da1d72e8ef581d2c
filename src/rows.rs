use vstd::prelude::*;
use crate::double::{scale_double, scaled_double};
use crate::event::{EventStore, TrackRow, Vertex, VertexRow, submits};
use crate::geom::Vec3;

verus! {

/// Bytes of one track record: event index (8), track id (4), parent id (4),
/// particle kind (4), creator process (16, nul-terminated), padding (4).
pub const TRACK_ROW_SIZE: usize = 40;

/// Bytes of one vertex record: event index (8), track id (4), padding (4),
/// energy (8), position (3 x 8), direction (3 x 8), volume name (16) and
/// process name (16), names nul-terminated; numbers little-endian.
pub const VERTEX_ROW_SIZE: usize = 104;

/// Width of a name field.
pub const NAME_SIZE: usize = 16;

/// Why a submission's bytes are refused.
#[derive(Clone, Copy, Debug, PartialEq, Eq, Structural)]
pub enum EventParseError {
    /// The bytes are not a whole number of records.
    Length,
    /// A name field holds no nul byte, or a byte that is not ASCII before it.
    Name,
    /// A number is not finite, out of range, or a negative energy.
    Value,
}

/// A vertex record as read, its floating-point fields left as their bit patterns.
#[derive(Debug)]
pub struct RawVertexRow {
    pub event: u64,
    pub tid: i32,
    pub energy_bits: u64,
    pub position_bits: (u64, u64, u64),
    pub volume: String,
    pub process: String,
}

/// The little-endian number in the `n` bytes of `s` from `off`.
pub open spec fn le(s: Seq<u8>, off: int, n: nat) -> nat
    decreases n,
{
    if n == 0 {
        0
    } else {
        s[off] as nat + 256 * le(s, off + 1, (n - 1) as nat)
    }
}

pub open spec fn pow256(n: nat) -> nat
    decreases n,
{
    if n == 0 {
        1
    } else {
        256 * pow256((n - 1) as nat)
    }
}

proof fn lemma_le_bound(s: Seq<u8>, off: int, n: nat)
    ensures
        le(s, off, n) < pow256(n),
    decreases n,
{
    if n > 0 {
        lemma_le_bound(s, off + 1, (n - 1) as nat);
        let rest = le(s, off + 1, (n - 1) as nat);
        assert(s[off] as nat + 256 * rest < 256 * pow256((n - 1) as nat)) by (nonlinear_arith)
            requires rest < pow256((n - 1) as nat), s[off] < 256;
    }
}

/// Length of the name in the field of `s` at `off`, counted from position
/// `k` on: the position of its first nul byte, if the field has one.
pub open spec fn nul_from(s: Seq<u8>, off: int, k: int) -> Option<int>
    decreases NAME_SIZE - k,
{
    if k >= NAME_SIZE || k < 0 {
        None
    } else if s[off + k] == 0 {
        Some(k)
    } else {
        nul_from(s, off, k + 1)
    }
}

/// The name field at `off` holds a nul byte, and only ASCII bytes before it.
pub open spec fn name_ok(s: Seq<u8>, off: int) -> bool {
    nul_from(s, off, 0) matches Some(n) && forall|j: int| 0 <= j < n ==> #[trigger] s[off + j] < 128
}

/// The text of the name field at `off`: its bytes up to the first nul, as characters.
pub open spec fn name_text(s: Seq<u8>, off: int) -> Seq<char> {
    s.subrange(off, off + nul_from(s, off, 0)->Some_0).map_values(|c: u8| c as char)
}

/// The track record of `s` at `off`.
pub open spec fn track_row_at(r: TrackRow, s: Seq<u8>, off: int) -> bool {
    &&& r.event == le(s, off, 8)
    &&& r.tid == le(s, off + 8, 4) as u32 as i32
    &&& r.parent == le(s, off + 12, 4) as u32 as i32
    &&& r.pid == le(s, off + 16, 4) as u32 as i32
    &&& r.creator@ == name_text(s, off + 20)
}

/// The vertex record of `s` at `off`.
pub open spec fn vertex_row_at(r: RawVertexRow, s: Seq<u8>, off: int) -> bool {
    &&& r.event == le(s, off, 8)
    &&& r.tid == le(s, off + 8, 4) as u32 as i32
    &&& r.energy_bits == le(s, off + 16, 8)
    &&& r.position_bits == (le(s, off + 24, 8) as u64, le(s, off + 32, 8) as u64, le(s, off + 40, 8) as u64)
    &&& r.volume@ == name_text(s, off + 72)
    &&& r.process@ == name_text(s, off + 88)
}

fn read_le(b: &[u8], off: usize, n: usize) -> (r: u64)
    requires
        1 <= n <= 8,
        off + n <= b@.len() <= usize::MAX,
    ensures
        r == le(b@, off as int, n as nat),
{
    let mut v: u64 = 0;
    let mut k: usize = n;
    proof {
        lemma_le_bound(b@, off as int, n as nat);
        lemma_pow256_values();
    }
    while k > 0
        invariant
            0 <= k <= n <= 8,
            off + n <= b@.len() <= usize::MAX,
            v == le(b@, off + k, (n - k) as nat),
        decreases k,
    {
        proof {
            lemma_le_bound(b@, (off + k) as int, (n - k) as nat);
            lemma_pow256_grows((n - k) as nat, 7);
            lemma_pow256_values();
        }
        let byte = b[off + k - 1];
        v = byte as u64 + 256 * v;
        k = k - 1;
    }
    v
}

proof fn lemma_pow256_values()
    ensures
        pow256(7) == 0x100_0000_0000_0000,
        pow256(8) == 0x1_0000_0000_0000_0000,
{
    assert(pow256(0) == 1);
    assert(pow256(1) == 0x100);
    assert(pow256(2) == 0x1_0000);
    assert(pow256(3) == 0x100_0000);
    assert(pow256(4) == 0x1_0000_0000);
    assert(pow256(5) == 0x100_0000_0000);
    assert(pow256(6) == 0x1_0000_0000_0000);
    assert(pow256(7) == 0x100_0000_0000_0000);
    assert(pow256(8) == 0x1_0000_0000_0000_0000);
}

proof fn lemma_pow256_grows(a: nat, b: nat)
    requires
        a <= b,
    ensures
        pow256(a) <= pow256(b),
    decreases b,
{
    if a < b {
        lemma_pow256_grows(a, (b - 1) as nat);
    }
}

/// Relies on std::str::from_utf8: ASCII bytes are valid UTF-8, one character each.
#[verifier::external_body]
fn ascii_text(b: &[u8], start: usize, end: usize) -> (r: String)
    requires
        start <= end <= b@.len(),
        forall|i: int| start <= i < end ==> #[trigger] b@[i] < 128,
    ensures
        r@ == b@.subrange(start as int, end as int).map_values(|c: u8| c as char),
{
    match std::str::from_utf8(&b[start..end]) {
        Ok(s) => s.to_owned(),
        Err(_) => String::new(),
    }
}

/// Reads the name field at `off`.
fn read_name(b: &[u8], off: usize) -> (r: Result<String, EventParseError>)
    requires
        off + NAME_SIZE <= b@.len() <= usize::MAX,
    ensures
        r is Ok <==> name_ok(b@, off as int),
        r matches Ok(t) ==> t@ == name_text(b@, off as int),
        r matches Err(e) ==> e == EventParseError::Name,
{
    let mut k: usize = 0;
    while k < NAME_SIZE
        invariant
            0 <= k <= NAME_SIZE,
            off + NAME_SIZE <= b@.len() <= usize::MAX,
            nul_from(b@, off as int, 0) == nul_from(b@, off as int, k as int),
            forall|j: int| 0 <= j < k ==> #[trigger] b@[off + j] < 128,
        decreases NAME_SIZE - k,
    {
        let c = b[off + k];
        if c == 0 {
            proof {
                assert forall|i: int| off <= i < off + k implies #[trigger] b@[i] < 128 by {
                    assert(b@[off + (i - off)] < 128);
                }
            }
            return Ok(ascii_text(b, off, off + k));
        }
        if c >= 128 {
            proof {
                lemma_nul_after(b@, off as int, k as int);
            }
            return Err(EventParseError::Name);
        }
        k = k + 1;
    }
    Err(EventParseError::Name)
}

/// When no nul byte comes before position `k`, the first nul (if any) is at `k` or later.
proof fn lemma_nul_after(s: Seq<u8>, off: int, k: int)
    requires
        0 <= k < NAME_SIZE,
        nul_from(s, off, 0) == nul_from(s, off, k),
        s[off + k] != 0,
    ensures
        nul_from(s, off, 0) matches Some(n) ==> n > k,
    decreases NAME_SIZE - k,
{
    if k + 1 < NAME_SIZE && s[off + k + 1] != 0 {
        lemma_nul_after(s, off, k + 1);
    }
    lemma_nul_ge(s, off, k + 1);
}

proof fn lemma_nul_ge(s: Seq<u8>, off: int, k: int)
    requires
        0 <= k,
    ensures
        nul_from(s, off, k) matches Some(n) ==> n >= k,
    decreases NAME_SIZE - k,
{
    if k < NAME_SIZE && s[off + k] != 0 {
        lemma_nul_ge(s, off, k + 1);
    }
}
/// Every name field of the `n` records of size `size` in `s`, at `at` within a
/// record, is well formed.
pub open spec fn names_ok(s: Seq<u8>, size: int, at: int, n: int) -> bool {
    forall|i: int| 0 <= i < n ==> #[trigger] name_ok(s, size * i + at)
}

proof fn lemma_record_fits(i: int, n: int, size: int, len: int)
    requires
        0 <= i < n,
        n == len / size,
        size > 0,
        len >= 0,
    ensures
        size * i + size <= len,
        size * i >= 0,
{
    assert(size * i + size <= len) by (nonlinear_arith)
        requires 0 <= i < n, n == len / size, size > 0, len >= 0;
    assert(size * i >= 0) by (nonlinear_arith)
        requires 0 <= i, size > 0;
}

/// Reads the track records of a submission.
pub fn parse_track_rows(b: &[u8]) -> (r: Result<Vec<TrackRow>, EventParseError>)
    ensures
        r == Err::<Vec<TrackRow>, EventParseError>(EventParseError::Length) <==> b@.len() % 40 != 0,
        r is Ok <==> b@.len() % 40 == 0 && names_ok(b@, 40, 20, (b@.len() / 40) as int),
        r matches Ok(rows) ==> rows@.len() == b@.len() / 40 && forall|i: int|
            0 <= i < rows@.len() ==> track_row_at(#[trigger] rows@[i], b@, 40 * i),
{
    let len = b.len();
    if len % TRACK_ROW_SIZE != 0 {
        return Err(EventParseError::Length);
    }
    let n = len / TRACK_ROW_SIZE;
    let mut rows: Vec<TrackRow> = Vec::new();
    let mut i: usize = 0;
    while i < n
        invariant
            0 <= i <= n,
            n == b@.len() / 40,
            len == b@.len(),
            b@.len() % 40 == 0,
            rows@.len() == i,
            names_ok(b@, 40, 20, i as int),
            forall|j: int| 0 <= j < i ==> track_row_at(#[trigger] rows@[j], b@, 40 * j),
        decreases n - i,
    {
        proof {
            lemma_record_fits(i as int, n as int, 40, len as int);
        }
        let off = i * TRACK_ROW_SIZE;
        let event = read_le(b, off, 8);
        let tid = read_le(b, off + 8, 4) as u32 as i32;
        let parent = read_le(b, off + 12, 4) as u32 as i32;
        let pid = read_le(b, off + 16, 4) as u32 as i32;
        let creator = match read_name(b, off + 20) {
            Ok(t) => t,
            Err(e) => {
                proof {
                    assert(!name_ok(b@, 40 * i + 20));
                }
                return Err(e);
            },
        };
        rows.push(TrackRow { event, tid, parent, pid, creator });
        proof {
            assert forall|j: int| 0 <= j < i + 1 implies #[trigger] name_ok(b@, 40 * j + 20) by {
                if j < i {
                    assert(name_ok(b@, 40 * j + 20));
                }
            }
        }
        i = i + 1;
    }
    Ok(rows)
}

/// Reads the vertex records of a submission.
pub fn parse_vertex_rows(b: &[u8]) -> (r: Result<Vec<RawVertexRow>, EventParseError>)
    ensures
        r == Err::<Vec<RawVertexRow>, EventParseError>(EventParseError::Length) <==> b@.len() % 104 != 0,
        r is Ok <==> b@.len() % 104 == 0 && names_ok(b@, 104, 72, (b@.len() / 104) as int) && names_ok(
            b@,
            104,
            88,
            (b@.len() / 104) as int,
        ),
        r matches Ok(rows) ==> rows@.len() == b@.len() / 104 && forall|i: int|
            0 <= i < rows@.len() ==> vertex_row_at(#[trigger] rows@[i], b@, 104 * i),
{
    let len = b.len();
    if len % VERTEX_ROW_SIZE != 0 {
        return Err(EventParseError::Length);
    }
    let n = len / VERTEX_ROW_SIZE;
    let mut rows: Vec<RawVertexRow> = Vec::new();
    let mut i: usize = 0;
    while i < n
        invariant
            0 <= i <= n,
            n == b@.len() / 104,
            len == b@.len(),
            b@.len() % 104 == 0,
            rows@.len() == i,
            names_ok(b@, 104, 72, i as int),
            names_ok(b@, 104, 88, i as int),
            forall|j: int| 0 <= j < i ==> vertex_row_at(#[trigger] rows@[j], b@, 104 * j),
        decreases n - i,
    {
        proof {
            lemma_record_fits(i as int, n as int, 104, len as int);
        }
        let off = i * VERTEX_ROW_SIZE;
        let event = read_le(b, off, 8);
        let tid = read_le(b, off + 8, 4) as u32 as i32;
        let energy_bits = read_le(b, off + 16, 8);
        let x = read_le(b, off + 24, 8);
        let y = read_le(b, off + 32, 8);
        let z = read_le(b, off + 40, 8);
        let volume = match read_name(b, off + 72) {
            Ok(t) => t,
            Err(e) => {
                proof {
                    assert(!name_ok(b@, 104 * i + 72));
                }
                return Err(e);
            },
        };
        let process = match read_name(b, off + 88) {
            Ok(t) => t,
            Err(e) => {
                proof {
                    assert(!name_ok(b@, 104 * i + 88));
                }
                return Err(e);
            },
        };
        rows.push(RawVertexRow { event, tid, energy_bits, position_bits: (x, y, z), volume, process });
        proof {
            assert forall|j: int| 0 <= j < i + 1 implies #[trigger] name_ok(b@, 104 * j + 72) by {
                if j < i {
                    assert(name_ok(b@, 104 * j + 72));
                }
            }
            assert forall|j: int| 0 <= j < i + 1 implies #[trigger] name_ok(b@, 104 * j + 88) by {
                if j < i {
                    assert(name_ok(b@, 104 * j + 88));
                }
            }
        }
        i = i + 1;
    }
    Ok(rows)
}
/// Micrometres per centimetre, the scale of positions.
pub const POSITION_SCALE: u64 = 10_000;

/// Milli-electronvolts per mega-electronvolt, the scale of energies.
pub const ENERGY_SCALE: u64 = 1_000_000_000;

/// The numbers of the vertex record at `off` convert: the energy (MeV) to a
/// whole number of milli-electronvolts that is not negative, each coordinate
/// (cm) to a whole number of micrometres, all within range.
#[verifier::opaque]
pub open spec fn vertex_numbers_ok(s: Seq<u8>, off: int) -> bool {
    &&& scaled_double(le(s, off + 16, 8) as u64, ENERGY_SCALE as nat) matches Some(e) && e >= 0
    &&& scaled_double(le(s, off + 24, 8) as u64, POSITION_SCALE as nat) is Some
    &&& scaled_double(le(s, off + 32, 8) as u64, POSITION_SCALE as nat) is Some
    &&& scaled_double(le(s, off + 40, 8) as u64, POSITION_SCALE as nat) is Some
}

/// `v` is the vertex record of `s` at `off`, its numbers converted.
#[verifier::opaque]
pub open spec fn vertex_decoded(v: VertexRow, s: Seq<u8>, off: int) -> bool {
    &&& v.event == le(s, off, 8)
    &&& v.tid == le(s, off + 8, 4) as u32 as i32
    &&& scaled_double(le(s, off + 16, 8) as u64, ENERGY_SCALE as nat) == Some(v.vertex.energy as int)
    &&& scaled_double(le(s, off + 24, 8) as u64, POSITION_SCALE as nat) == Some(v.vertex.position.x as int)
    &&& scaled_double(le(s, off + 32, 8) as u64, POSITION_SCALE as nat) == Some(v.vertex.position.y as int)
    &&& scaled_double(le(s, off + 40, 8) as u64, POSITION_SCALE as nat) == Some(v.vertex.position.z as int)
    &&& v.vertex.volume@ == name_text(s, off + 72)
    &&& v.vertex.process@ == name_text(s, off + 88)
}

/// The bytes are a list of well-formed track records.
pub open spec fn track_bytes_ok(s: Seq<u8>) -> bool {
    s.len() % 40 == 0 && names_ok(s, 40, 20, (s.len() / 40) as int)
}

/// The bytes are a list of well-formed vertex records whose numbers convert.
pub open spec fn vertex_bytes_ok(s: Seq<u8>) -> bool {
    &&& s.len() % 104 == 0
    &&& names_ok(s, 104, 72, (s.len() / 104) as int)
    &&& names_ok(s, 104, 88, (s.len() / 104) as int)
    &&& forall|i: int| 0 <= i < s.len() / 104 ==> #[trigger] vertex_numbers_ok(s, 104 * i)
}

/// `ts` are the track records of `s`.
pub open spec fn tracks_decoded(ts: Seq<TrackRow>, s: Seq<u8>) -> bool {
    ts.len() == s.len() / 40 && forall|i: int| 0 <= i < ts.len() ==> track_row_at(#[trigger] ts[i], s, 40 * i)
}

/// `vs` are the vertex records of `s`, their numbers converted.
pub open spec fn vertices_decoded(vs: Seq<VertexRow>, s: Seq<u8>) -> bool {
    vs.len() == s.len() / 104 && forall|i: int| 0 <= i < vs.len() ==> vertex_decoded(#[trigger] vs[i], s, 104 * i)
}

/// Converts the numbers of a vertex record.
fn convert_vertex(raw: RawVertexRow, Ghost(s): Ghost<Seq<u8>>, Ghost(off): Ghost<int>) -> (r: Result<VertexRow, EventParseError>)
    requires
        vertex_row_at(raw, s, off),
    ensures
        r is Ok <==> vertex_numbers_ok(s, off),
        r matches Ok(v) ==> vertex_decoded(v, s, off),
        r matches Err(e) ==> e == EventParseError::Value,
{
    reveal(vertex_numbers_ok);
    reveal(vertex_decoded);
    let energy = match scale_double(raw.energy_bits, ENERGY_SCALE) {
        Some(e) if e >= 0 => e,
        _ => {
            return Err(EventParseError::Value);
        },
    };
    let x = match scale_double(raw.position_bits.0, POSITION_SCALE) {
        Some(v) => v,
        None => {
            return Err(EventParseError::Value);
        },
    };
    let y = match scale_double(raw.position_bits.1, POSITION_SCALE) {
        Some(v) => v,
        None => {
            return Err(EventParseError::Value);
        },
    };
    let z = match scale_double(raw.position_bits.2, POSITION_SCALE) {
        Some(v) => v,
        None => {
            return Err(EventParseError::Value);
        },
    };
    Ok(
        VertexRow {
            event: raw.event,
            tid: raw.tid,
            vertex: Vertex {
                energy: energy as u128,
                position: Vec3 { x, y, z },
                process: raw.process,
                volume: raw.volume,
            },
        },
    )
}

impl EventStore {
    /// Reads a submission (its track records and its vertex records) and
    /// replaces whatever the slot holds with its events. A malformed
    /// submission is refused and the slot keeps what it held.
    pub fn submit_bytes(&mut self, tracks: &[u8], vertices: &[u8]) -> (r: Result<(), EventParseError>)
        ensures
            r is Ok <==> track_bytes_ok(tracks@) && vertex_bytes_ok(vertices@),
            r is Err ==> *final(self) == *old(self),
            r is Ok ==> exists|ts: Seq<TrackRow>, vs: Seq<VertexRow>|
                tracks_decoded(ts, tracks@) && vertices_decoded(vs, vertices@) && #[trigger] submits(
                    *old(self),
                    ts,
                    vs,
                    *final(self),
                ),
    {
        let ts = match parse_track_rows(tracks) {
            Ok(ts) => ts,
            Err(e) => {
                return Err(e);
            },
        };
        let raw = match parse_vertex_rows(vertices) {
            Ok(v) => v,
            Err(e) => {
                return Err(e);
            },
        };
        let ghost raw0 = raw@;
        let n = raw.len();
        let mut rest = raw;
        let mut vs: Vec<VertexRow> = Vec::new();
        while rest.len() > 0
            invariant
                raw0.len() == n,
                n == vertices@.len() / 104,
                vs@.len() + rest@.len() == n,
                rest@ == raw0.subrange(vs@.len() as int, n as int),
                forall|i: int| 0 <= i < n ==> vertex_row_at(#[trigger] raw0[i], vertices@, 104 * i),
                forall|i: int| 0 <= i < vs@.len() ==> #[trigger] vertex_numbers_ok(vertices@, 104 * i),
                forall|i: int| 0 <= i < vs@.len() ==> vertex_decoded(#[trigger] vs@[i], vertices@, 104 * i),
            decreases rest@.len(),
        {
            let ghost k = vs@.len() as int;
            let row = rest.remove(0);
            proof {
                assert(row == raw0[k]);
                assert(rest@ =~= raw0.subrange(k + 1, n as int));
            }
            match convert_vertex(row, Ghost(vertices@), Ghost(104 * k)) {
                Ok(v) => {
                    let ghost before = vs@;
                    vs.push(v);
                    proof {
                        assert(vertex_numbers_ok(vertices@, 104 * k));
                        assert(vertex_decoded(v, vertices@, 104 * k));
                        assert forall|i: int| 0 <= i < vs@.len() implies #[trigger] vertex_numbers_ok(vertices@, 104 * i) by {
                        }
                        assert forall|i: int| 0 <= i < vs@.len() implies vertex_decoded(#[trigger] vs@[i], vertices@, 104 * i) by {
                            if i < k {
                                assert(vs@[i] == before[i]);
                            }
                        }
                    }
                },
                Err(e) => {
                    return Err(e);
                },
            }
        }
        self.submit(&ts, &vs);
        proof {
            assert(tracks_decoded(ts@, tracks@));
            assert(vertices_decoded(vs@, vertices@));
            assert forall|i: int| 0 <= i < vertices@.len() / 104 implies #[trigger] vertex_numbers_ok(vertices@, 104 * i) by {
                assert(vertex_decoded(vs@[i], vertices@, 104 * i));
            }
        }
        Ok(())
    }
}

} // verus!
