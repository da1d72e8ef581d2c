use vstd::prelude::*;
use crate::event::{Track, Vertex};

verus! {

/// What is shown of a track whose vertices were picked.
#[derive(Debug)]
pub struct TrackSummary {
    pub tid: i32,
    /// Whether the creator process and the parent are shown: not for the
    /// primary track.
    pub shows_creator: bool,
    /// Energies at the first and the last picked vertex.
    pub first_energy: u128,
    pub last_energy: u128,
    /// The processes of the picked vertices, each once, in order, empty names left out.
    pub processes: Vec<String>,
    /// The volumes of the picked vertices, each once, in order, empty names left out.
    pub volumes: Vec<String>,
}

/// The names of `s`, each once in order of first appearance, without empty names.
pub open spec fn distinct_names(s: Seq<Seq<char>>) -> Seq<Seq<char>>
    decreases s.len(),
{
    if s.len() == 0 {
        seq![]
    } else if s.last().len() == 0 || distinct_names(s.drop_last()).contains(s.last()) {
        distinct_names(s.drop_last())
    } else {
        distinct_names(s.drop_last()).push(s.last())
    }
}

pub open spec fn names_view(v: Seq<String>) -> Seq<Seq<char>> {
    v.map_values(|s: String| s@)
}

pub open spec fn processes_at(vs: Seq<Vertex>, picked: Seq<usize>) -> Seq<Seq<char>> {
    picked.map_values(|j: usize| vs[j as int].process@)
}

pub open spec fn volumes_at(vs: Seq<Vertex>, picked: Seq<usize>) -> Seq<Seq<char>> {
    picked.map_values(|j: usize| vs[j as int].volume@)
}

fn contains_name(v: &Vec<String>, name: &String) -> (r: bool)
    ensures
        r == names_view(v@).contains(name@),
{
    let mut i: usize = 0;
    while i < v.len()
        invariant
            0 <= i <= v@.len(),
            forall|j: int| 0 <= j < i ==> v@[j]@ != name@,
        decreases v@.len() - i,
    {
        if v[i] == *name {
            assert(names_view(v@)[i as int] == name@);
            return true;
        }
        i = i + 1;
    }
    proof {
        if names_view(v@).contains(name@) {
            let j = choose|j: int| 0 <= j < names_view(v@).len() && names_view(v@)[j] == name@;
            assert(v@[j]@ == name@);
        }
    }
    false
}

/// Adds `name` to `out` unless it is empty or already there.
fn add_name(out: &mut Vec<String>, name: &String)
    ensures
        names_view(final(out)@) == if name@.len() == 0 || names_view(old(out)@).contains(name@) {
            names_view(old(out)@)
        } else {
            names_view(old(out)@).push(name@)
        },
{
    if name.as_str().is_empty() || contains_name(out, name) {
        return;
    }
    let ghost before = out@;
    out.push(name.clone());
    assert(names_view(out@) =~= names_view(before).push(name@));
}

/// The summary of track `t` for its picked vertices `picked`.
pub fn summarize(t: &Track, picked: &Vec<usize>) -> (r: TrackSummary)
    requires
        picked@.len() > 0,
        forall|k: int| 0 <= k < picked@.len() ==> #[trigger] picked@[k] < t.vertices@.len(),
    ensures
        r.tid == t.tid,
        r.shows_creator == (t.tid > 1),
        r.first_energy == t.vertices@[picked@[0] as int].energy,
        r.last_energy == t.vertices@[picked@[picked@.len() - 1] as int].energy,
        names_view(r.processes@) == distinct_names(processes_at(t.vertices@, picked@)),
        names_view(r.volumes@) == distinct_names(volumes_at(t.vertices@, picked@)),
{
    let mut processes: Vec<String> = Vec::new();
    let mut volumes: Vec<String> = Vec::new();
    let mut k: usize = 0;
    while k < picked.len()
        invariant
            0 <= k <= picked@.len(),
            forall|q: int| 0 <= q < picked@.len() ==> #[trigger] picked@[q] < t.vertices@.len(),
            names_view(processes@) == distinct_names(processes_at(t.vertices@, picked@.subrange(0, k as int))),
            names_view(volumes@) == distinct_names(volumes_at(t.vertices@, picked@.subrange(0, k as int))),
        decreases picked@.len() - k,
    {
        let v = &t.vertices[picked[k]];
        add_name(&mut processes, &v.process);
        add_name(&mut volumes, &v.volume);
        proof {
            let sub = picked@.subrange(0, k + 1);
            assert(sub.drop_last() =~= picked@.subrange(0, k as int));
            assert(processes_at(t.vertices@, sub).drop_last() =~= processes_at(t.vertices@, picked@.subrange(0, k as int)));
            assert(volumes_at(t.vertices@, sub).drop_last() =~= volumes_at(t.vertices@, picked@.subrange(0, k as int)));
            assert(processes_at(t.vertices@, sub).last() == v.process@);
            assert(volumes_at(t.vertices@, sub).last() == v.volume@);
        }
        k = k + 1;
    }
    proof {
        assert(picked@.subrange(0, picked@.len() as int) =~= picked@);
    }
    let first = t.vertices[picked[0]].energy;
    let last = t.vertices[picked[picked.len() - 1]].energy;
    TrackSummary {
        tid: t.tid,
        shows_creator: t.tid > 1,
        first_energy: first,
        last_energy: last,
        processes,
        volumes,
    }
}

} // verus!
