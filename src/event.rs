use vstd::prelude::*;
use crate::geom::Vec3;

verus! {

/// A point of a track: the particle's energy there (milli-electronvolts), its
/// position (micrometres), the process that made the point and the volume it
/// lies in.
#[derive(Debug)]
pub struct Vertex {
    pub energy: u128,
    pub position: Vec3,
    pub process: String,
    pub volume: String,
}

/// A particle's track in an event: its id, its parent's id, its particle kind
/// (PDG number), the process that created it and its points in order.
#[derive(Debug)]
pub struct Track {
    pub event: u64,
    pub tid: i32,
    pub parent: i32,
    pub pid: i32,
    pub creator: String,
    pub vertices: Vec<Vertex>,
}

/// One track record of a submission.
#[derive(Debug)]
pub struct TrackRow {
    pub event: u64,
    pub tid: i32,
    pub parent: i32,
    pub pid: i32,
    pub creator: String,
}

/// One vertex record of a submission, for the track `tid` of event `event`.
#[derive(Debug)]
pub struct VertexRow {
    pub event: u64,
    pub tid: i32,
    pub vertex: Vertex,
}

/// The Monte Carlo events of one submission: the tracks of every event,
/// ordered by event index and then by track id, and the event indices in the
/// order in which they first appear.
#[derive(Debug)]
pub struct EventSet {
    pub tracks: Vec<Track>,
    pub events: Vec<u64>,
}

impl Vertex {
    /// A copy of the vertex.
    pub fn duplicate(&self) -> (r: Vertex)
        ensures
            r == *self,
    {
        Vertex {
            energy: self.energy,
            position: self.position,
            process: self.process.clone(),
            volume: self.volume.clone(),
        }
    }
}

pub open spec fn key_lt(a: (u64, i32), b: (u64, i32)) -> bool {
    a.0 < b.0 || (a.0 == b.0 && a.1 < b.1)
}

pub open spec fn track_key(t: Track) -> (u64, i32) {
    (t.event, t.tid)
}

pub open spec fn row_key(r: TrackRow) -> (u64, i32) {
    (r.event, r.tid)
}

/// The tracks are in strictly increasing order of (event, track id).
pub open spec fn sorted(ts: Seq<Track>) -> bool {
    forall|i: int, j: int| 0 <= i < j < ts.len() ==> key_lt(track_key(#[trigger] ts[i]), track_key(#[trigger] ts[j]))
}

/// The last track record of `rows` for `key`, if any: a later record replaces an earlier one.
pub open spec fn last_row(rows: Seq<TrackRow>, key: (u64, i32)) -> Option<TrackRow>
    decreases rows.len(),
{
    if rows.len() == 0 {
        None
    } else if row_key(rows.last()) == key {
        Some(rows.last())
    } else {
        last_row(rows.drop_last(), key)
    }
}

/// The vertices that `rows` give, in order, to the track `key`.
pub open spec fn attached(rows: Seq<VertexRow>, key: (u64, i32)) -> Seq<Vertex>
    decreases rows.len(),
{
    if rows.len() == 0 {
        seq![]
    } else if (rows.last().event, rows.last().tid) == key {
        attached(rows.drop_last(), key).push(rows.last().vertex)
    } else {
        attached(rows.drop_last(), key)
    }
}

/// The event indices of `rows`, each once, in order of first appearance.
pub open spec fn distinct_events(rows: Seq<TrackRow>) -> Seq<u64>
    decreases rows.len(),
{
    if rows.len() == 0 {
        seq![]
    } else if distinct_events(rows.drop_last()).contains(rows.last().event) {
        distinct_events(rows.drop_last())
    } else {
        distinct_events(rows.drop_last()).push(rows.last().event)
    }
}

/// `t` is the track that the last record `r` for its key made, with the vertices `vs`.
pub open spec fn track_from(t: Track, r: TrackRow, vs: Seq<Vertex>) -> bool {
    &&& t.event == r.event
    &&& t.tid == r.tid
    &&& t.parent == r.parent
    &&& t.pid == r.pid
    &&& t.creator@ == r.creator@
    &&& t.vertices@ == vs
}

/// `set` holds exactly the events of the records `ts` and `vs`: one track per
/// (event, track id) of a track record, with the fields of the last such
/// record and the vertices of the vertex records that name it; vertex records
/// of no track are dropped.
pub open spec fn set_from_rows(set: EventSet, ts: Seq<TrackRow>, vs: Seq<VertexRow>) -> bool {
    &&& sorted(set.tracks@)
    &&& set.events@ == distinct_events(ts)
    &&& forall|i: int| 0 <= i < set.tracks@.len() ==> #[trigger] last_row(ts, track_key(set.tracks@[i])) is Some
        && track_from(set.tracks@[i], last_row(ts, track_key(set.tracks@[i]))->Some_0, attached(vs, track_key(set.tracks@[i])))
    &&& forall|k: (u64, i32)| #[trigger] last_row(ts, k) is Some ==> exists|i: int| 0 <= i < set.tracks@.len() && track_key(set.tracks@[i]) == k
}
fn key_less(a: (u64, i32), b: (u64, i32)) -> (r: bool)
    ensures
        r == key_lt(a, b),
{
    a.0 < b.0 || (a.0 == b.0 && a.1 < b.1)
}

/// The first position whose track is not below `key`.
fn find_position(tracks: &Vec<Track>, key: (u64, i32)) -> (p: usize)
    requires
        sorted(tracks@),
    ensures
        p <= tracks@.len(),
        forall|i: int| 0 <= i < p ==> key_lt(track_key(#[trigger] tracks@[i]), key),
        p < tracks@.len() ==> !key_lt(track_key(tracks@[p as int]), key),
{
    let mut p: usize = 0;
    while p < tracks.len() && key_less((tracks[p].event, tracks[p].tid), key)
        invariant
            p <= tracks@.len(),
            forall|i: int| 0 <= i < p ==> key_lt(track_key(#[trigger] tracks@[i]), key),
        decreases tracks@.len() - p,
    {
        p = p + 1;
    }
    p
}

proof fn lemma_key_order(a: (u64, i32), b: (u64, i32), c: (u64, i32))
    ensures
        key_lt(a, b) && key_lt(b, c) ==> key_lt(a, c),
        !key_lt(a, b) && a != b ==> key_lt(b, a),
        key_lt(a, b) ==> a != b && !key_lt(b, a),
{
}

impl EventSet {
    /// Groups the records of a submission into events: one track per (event,
    /// track id) of a track record, with the fields of the last such record,
    /// and, in order, the vertices of the vertex records that name that track.
    /// A vertex record whose track has no record is dropped.
    pub fn from_rows(ts: &Vec<TrackRow>, vs: &Vec<VertexRow>) -> (set: EventSet)
        ensures
            set_from_rows(set, ts@, vs@),
    {
        let mut tracks: Vec<Track> = Vec::new();
        let mut events: Vec<u64> = Vec::new();
        let mut a: usize = 0;
        while a < ts.len()
            invariant
                0 <= a <= ts@.len(),
                sorted(tracks@),
                events@ == distinct_events(ts@.subrange(0, a as int)),
                forall|i: int| 0 <= i < tracks@.len() ==> #[trigger] last_row(ts@.subrange(0, a as int), track_key(tracks@[i])) is Some
                    && track_from(tracks@[i], last_row(ts@.subrange(0, a as int), track_key(tracks@[i]))->Some_0, seq![]),
                forall|k: (u64, i32)| #[trigger] last_row(ts@.subrange(0, a as int), k) is Some ==> exists|i: int| 0 <= i < tracks@.len() && track_key(tracks@[i]) == k,
            decreases ts@.len() - a,
        {
            let r = &ts[a];
            let key = (r.event, r.tid);
            let ghost pre = ts@.subrange(0, a as int);
            let ghost post = ts@.subrange(0, a + 1);
            proof {
                assert(post.drop_last() =~= pre);
                assert(post.last() == ts@[a as int]);
            }
            // The event index, if new.
            let mut seen = false;
            let mut e: usize = 0;
            while e < events.len()
                invariant
                    0 <= e <= events@.len(),
                    seen ==> events@.contains(r.event),
                    !seen ==> forall|j: int| 0 <= j < e ==> events@[j] != r.event,
                decreases events@.len() - e,
            {
                if events[e] == r.event {
                    seen = true;
                }
                e = e + 1;
            }
            if !seen {
                events.push(r.event);
            }
            let t = Track {
                event: r.event,
                tid: r.tid,
                parent: r.parent,
                pid: r.pid,
                creator: r.creator.clone(),
                vertices: Vec::new(),
            };
            let p = find_position(&tracks, key);
            let ghost old_tracks = tracks@;
            if p < tracks.len() && tracks[p].event == r.event && tracks[p].tid == r.tid {
                tracks.set(p, t);
                proof {
                    assert forall|i: int, j: int| 0 <= i < j < tracks@.len() implies key_lt(track_key(#[trigger] tracks@[i]), track_key(#[trigger] tracks@[j])) by {
                        assert(track_key(tracks@[i]) == track_key(old_tracks[i]));
                        assert(track_key(tracks@[j]) == track_key(old_tracks[j]));
                    }
                    assert forall|k: (u64, i32)| #[trigger] last_row(post, k) is Some implies exists|i: int| 0 <= i < tracks@.len() && track_key(tracks@[i]) == k by {
                        if k == key {
                            assert(track_key(tracks@[p as int]) == k);
                        } else {
                            assert(last_row(pre, k) is Some);
                            let i = choose|i: int| 0 <= i < old_tracks.len() && track_key(old_tracks[i]) == k;
                            assert(track_key(tracks@[i]) == k);
                        }
                    }
                }
            } else {
                tracks.insert(p, t);
                proof {
                    assert forall|i: int, j: int| 0 <= i < j < tracks@.len() implies key_lt(track_key(#[trigger] tracks@[i]), track_key(#[trigger] tracks@[j])) by {
                        if p < old_tracks.len() {
                            lemma_key_order(track_key(old_tracks[p as int]), key, key);
                        }
                        if i < p && j == p {
                        } else if i < p && j > p {
                            assert(tracks@[j] == old_tracks[j - 1]);
                            assert(key_lt(track_key(old_tracks[i]), track_key(old_tracks[j - 1])) || i == j - 1);
                        } else if i == p {
                            assert(tracks@[j] == old_tracks[j - 1]);
                            if j - 1 > p {
                                lemma_key_order(key, track_key(old_tracks[p as int]), track_key(old_tracks[j - 1]));
                            }
                        } else if j < p {
                            assert(tracks@[i] == old_tracks[i]);
                            assert(tracks@[j] == old_tracks[j]);
                        } else {
                            assert(tracks@[i] == old_tracks[i - 1]);
                            assert(tracks@[j] == old_tracks[j - 1]);
                        }
                    }
                    assert forall|k: (u64, i32)| #[trigger] last_row(post, k) is Some implies exists|i: int| 0 <= i < tracks@.len() && track_key(tracks@[i]) == k by {
                        if k == key {
                            assert(track_key(tracks@[p as int]) == k);
                        } else {
                            assert(last_row(pre, k) is Some);
                            let i = choose|i: int| 0 <= i < old_tracks.len() && track_key(old_tracks[i]) == k;
                            if i < p {
                                assert(track_key(tracks@[i]) == k);
                            } else {
                                assert(track_key(tracks@[i + 1]) == k);
                            }
                        }
                    }
                }
            }
            proof {
                assert forall|i: int| 0 <= i < tracks@.len() implies #[trigger] last_row(post, track_key(tracks@[i])) is Some
                    && track_from(tracks@[i], last_row(post, track_key(tracks@[i]))->Some_0, seq![]) by {
                    assert(tracks@[p as int] == t);
                    if i != p && track_key(tracks@[i]) == key {
                        if i < p {
                            assert(key_lt(track_key(tracks@[i]), track_key(tracks@[p as int])));
                        } else {
                            assert(key_lt(track_key(tracks@[p as int]), track_key(tracks@[i])));
                        }
                    }
                    if i != p {
                        let oi = if i < p || old_tracks.len() == tracks@.len() { i } else { i - 1 };
                        assert(tracks@[i] == old_tracks[oi]);
                        let k = track_key(old_tracks[oi]);
                        assert(last_row(pre, k) is Some);
                        assert(last_row(post, k) == last_row(pre, k));
                    } else {
                        assert(last_row(post, key) == Some(ts@[a as int]));
                    }
                }
                if !seen {
                    assert(!distinct_events(pre).contains(r.event));
                }
            }
            a = a + 1;
        }
        proof {
            assert(ts@.subrange(0, ts@.len() as int) =~= ts@);
        }
        let mut b: usize = 0;
        while b < vs.len()
            invariant
                0 <= b <= vs@.len(),
                sorted(tracks@),
                forall|i: int| 0 <= i < tracks@.len() ==> #[trigger] last_row(ts@, track_key(tracks@[i])) is Some
                    && track_from(tracks@[i], last_row(ts@, track_key(tracks@[i]))->Some_0, attached(vs@.subrange(0, b as int), track_key(tracks@[i]))),
                forall|k: (u64, i32)| #[trigger] last_row(ts@, k) is Some ==> exists|i: int| 0 <= i < tracks@.len() && track_key(tracks@[i]) == k,
            decreases vs@.len() - b,
        {
            let row = &vs[b];
            let key = (row.event, row.tid);
            let ghost pre = vs@.subrange(0, b as int);
            let ghost post = vs@.subrange(0, b + 1);
            proof {
                assert(post.drop_last() =~= pre);
                assert(post.last() == vs@[b as int]);
            }
            let p = find_position(&tracks, key);
            let ghost old_tracks = tracks@;
            if p < tracks.len() && tracks[p].event == row.event && tracks[p].tid == row.tid {
                let mut t = tracks.remove(p);
                t.vertices.push(row.vertex.duplicate());
                tracks.insert(p, t);
                proof {
                    assert(tracks@ =~= old_tracks.update(p as int, tracks@[p as int]));
                    assert forall|i: int| 0 <= i < tracks@.len() implies track_key(#[trigger] tracks@[i]) == track_key(old_tracks[i]) by {}
                    assert forall|i: int, j: int| 0 <= i < j < tracks@.len() implies key_lt(track_key(#[trigger] tracks@[i]), track_key(#[trigger] tracks@[j])) by {
                        assert(track_key(tracks@[i]) == track_key(old_tracks[i]));
                        assert(track_key(tracks@[j]) == track_key(old_tracks[j]));
                    }
                    assert forall|k: (u64, i32)| #[trigger] last_row(ts@, k) is Some implies exists|i: int| 0 <= i < tracks@.len() && track_key(tracks@[i]) == k by {
                        let i = choose|i: int| 0 <= i < old_tracks.len() && track_key(old_tracks[i]) == k;
                        assert(track_key(tracks@[i]) == k);
                    }
                    assert forall|i: int| 0 <= i < tracks@.len() implies #[trigger] last_row(ts@, track_key(tracks@[i])) is Some
                        && track_from(tracks@[i], last_row(ts@, track_key(tracks@[i]))->Some_0, attached(post, track_key(tracks@[i]))) by {
                        if i != p {
                            assert(tracks@[i] == old_tracks[i]);
                            if track_key(old_tracks[i]) == key {
                                if i < p {
                                    assert(key_lt(track_key(old_tracks[i]), key));
                                } else {
                                    assert(key_lt(track_key(old_tracks[p as int]), track_key(old_tracks[i])));
                                }
                            }
                        }
                    }
                }
            } else {
                proof {
                    assert forall|i: int| 0 <= i < tracks@.len() implies #[trigger] last_row(ts@, track_key(tracks@[i])) is Some
                        && track_from(tracks@[i], last_row(ts@, track_key(tracks@[i]))->Some_0, attached(post, track_key(tracks@[i]))) by {
                        if track_key(tracks@[i]) == key {
                            if i < p {
                                assert(key_lt(track_key(tracks@[i]), key));
                            } else if i > p {
                                lemma_key_order(track_key(tracks@[p as int]), key, key);
                                assert(key_lt(track_key(tracks@[p as int]), track_key(tracks@[i])));
                                lemma_key_order(key, track_key(tracks@[p as int]), track_key(tracks@[i]));
                            }
                        }
                    }
                }
            }
            b = b + 1;
        }
        proof {
            assert(vs@.subrange(0, vs@.len() as int) =~= vs@);
        }
        EventSet { tracks, events }
    }
}
impl EventSet {
    /// A set without any event.
    pub fn empty() -> (set: EventSet)
        ensures
            set.tracks@.len() == 0,
            set.events@.len() == 0,
    {
        EventSet { tracks: Vec::new(), events: Vec::new() }
    }
}

/// The hand-off slot between the producer of events and the display: it holds
/// at most the latest submission that the display has not taken yet.
#[derive(Debug)]
pub struct EventStore {
    pub slot: Option<EventSet>,
}

/// `after` is `before` once the records `ts` and `vs` were submitted: the slot
/// holds their events, whatever it held.
pub open spec fn submits(before: EventStore, ts: Seq<TrackRow>, vs: Seq<VertexRow>, after: EventStore) -> bool {
    after.slot matches Some(set) && set_from_rows(set, ts, vs)
}

/// Taking from `before` returned `r` and left `after`: what the slot held, and an empty slot.
pub open spec fn takes(before: EventStore, r: Option<EventSet>, after: EventStore) -> bool {
    r == before.slot && after.slot is None
}

impl EventStore {
    pub fn new() -> (r: EventStore)
        ensures
            r.slot is None,
    {
        EventStore { slot: None }
    }

    /// Replaces whatever the slot holds with the events of the records `ts` and `vs`.
    pub fn submit(&mut self, ts: &Vec<TrackRow>, vs: &Vec<VertexRow>)
        ensures
            submits(*old(self), ts@, vs@, *final(self)),
    {
        self.slot = Some(EventSet::from_rows(ts, vs));
    }

    /// Empties the slot and returns what it held.
    pub fn take(&mut self) -> (r: Option<EventSet>)
        ensures
            takes(*old(self), r, *final(self)),
    {
        let mut r: Option<EventSet> = None;
        std::mem::swap(&mut r, &mut self.slot);
        r
    }
}

/// Taking twice in a row without a submission in between gives the pending
/// events the first time and nothing the second time.
pub proof fn lemma_take_twice(s0: EventStore, r1: Option<EventSet>, s1: EventStore, r2: Option<EventSet>, s2: EventStore)
    requires
        s0.slot is Some,
        takes(s0, r1, s1),
        takes(s1, r2, s2),
    ensures
        r1 == s0.slot,
        r1 is Some,
        r2 is None,
{
}

/// Of two submissions in a row, a take returns the events of the second
/// alone: the slot keeps the latest submission and merges nothing.
pub proof fn lemma_last_submission_wins(
    s0: EventStore,
    ta: Seq<TrackRow>,
    va: Seq<VertexRow>,
    s1: EventStore,
    tb: Seq<TrackRow>,
    vb: Seq<VertexRow>,
    s2: EventStore,
    r: Option<EventSet>,
    s3: EventStore,
)
    requires
        submits(s0, ta, va, s1),
        submits(s1, tb, vb, s2),
        takes(s2, r, s3),
    ensures
        r matches Some(set) && set_from_rows(set, tb, vb),
        s3.slot is None,
{
}

} // verus!
