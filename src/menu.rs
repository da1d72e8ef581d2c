use vstd::prelude::*;

verus! {

/// The volume list of the interface: which entries are unfolded. Entries
/// are the entities of a scene, in pre-order, given by their parents'
/// positions (each parent before its children).
#[derive(Debug)]
pub struct VolumeMenu {
    pub expanded: Vec<bool>,
}

/// One entry of the list as shown.
#[derive(Clone, Copy, Debug, PartialEq, Eq, Structural)]
pub struct MenuLine {
    /// Position of the entity.
    pub entity: usize,
    /// Nesting level, the root at zero.
    pub depth: usize,
    /// The entry has children that are hidden.
    pub folded: bool,
}

/// Each entry's parent comes before it.
pub open spec fn parents_ok(parents: Seq<Option<usize>>) -> bool {
    forall|j: int| 0 <= j < parents.len() ==> (#[trigger] parents[j] matches Some(p) ==> p < j)
}

/// Entry `j` lies below entry `i`.
pub open spec fn below(parents: Seq<Option<usize>>, i: int, j: int) -> bool
    decreases j,
{
    if 0 <= j < parents.len() {
        match parents[j] {
            Some(p) => p < j && (p == i || below(parents, i, p as int)),
            None => false,
        }
    } else {
        false
    }
}

/// Entry `j` is shown: it has no parent, or its parent is shown and unfolded.
pub open spec fn shown(parents: Seq<Option<usize>>, expanded: Seq<bool>, j: int) -> bool
    decreases j,
{
    if 0 <= j < parents.len() {
        match parents[j] {
            Some(p) => p < j && expanded[p as int] && shown(parents, expanded, p as int),
            None => true,
        }
    } else {
        false
    }
}

/// Nesting level of entry `j`.
pub open spec fn depth_of(parents: Seq<Option<usize>>, j: int) -> nat
    decreases j,
{
    if 0 <= j < parents.len() {
        match parents[j] {
            Some(p) => if p < j {
                depth_of(parents, p as int) + 1
            } else {
                0
            },
            None => 0,
        }
    } else {
        0
    }
}

pub open spec fn has_children(parents: Seq<Option<usize>>, i: int) -> bool {
    exists|j: int| 0 <= j < parents.len() && #[trigger] parents[j] == Some(i as usize)
}

/// The lines shown, for the entries below `n`.
pub open spec fn menu_lines(parents: Seq<Option<usize>>, expanded: Seq<bool>, n: int) -> Seq<MenuLine>
    decreases n,
{
    if n <= 0 {
        seq![]
    } else if shown(parents, expanded, n - 1) {
        menu_lines(parents, expanded, n - 1).push(
            MenuLine {
                entity: (n - 1) as usize,
                depth: depth_of(parents, n - 1) as usize,
                folded: has_children(parents, n - 1) && !expanded[n - 1],
            },
        )
    } else {
        menu_lines(parents, expanded, n - 1)
    }
}

impl VolumeMenu {
    /// A list of `n` entries, all folded.
    pub fn new(n: usize) -> (r: VolumeMenu)
        ensures
            r.expanded@.len() == n,
            forall|i: int| 0 <= i < n ==> !#[trigger] r.expanded@[i],
    {
        let mut expanded: Vec<bool> = Vec::new();
        let mut i: usize = 0;
        while i < n
            invariant
                0 <= i <= n,
                expanded@.len() == i,
                forall|k: int| 0 <= k < i ==> !#[trigger] expanded@[k],
            decreases n - i,
        {
            expanded.push(false);
            i = i + 1;
        }
        VolumeMenu { expanded }
    }

    /// Folds or unfolds entry `i`; with `recursive`, every entry below it
    /// takes the same state.
    pub fn toggle(&mut self, parents: &Vec<Option<usize>>, i: usize, recursive: bool)
        requires
            parents_ok(parents@),
            old(self).expanded@.len() == parents@.len(),
            i < parents@.len(),
        ensures
            final(self).expanded@.len() == old(self).expanded@.len(),
            final(self).expanded@[i as int] == !old(self).expanded@[i as int],
            forall|j: int| 0 <= j < parents@.len() && j != i ==> #[trigger] final(self).expanded@[j] == if recursive
                && below(parents@, i as int, j) {
                !old(self).expanded@[i as int]
            } else {
                old(self).expanded@[j]
            },
    {
        let state = !self.expanded[i];
        self.expanded.set(i, state);
        if !recursive {
            return;
        }
        let ghost start = self.expanded@;
        // Whether each entry lies below `i`, found in one pass since parents come first.
        let mut under: Vec<bool> = Vec::new();
        let mut j: usize = 0;
        while j < parents.len()
            invariant
                0 <= j <= parents@.len(),
                parents_ok(parents@),
                i < parents@.len(),
                under@.len() == j,
                self.expanded@.len() == parents@.len(),
                self.expanded@[i as int] == state,
                forall|k: int| 0 <= k < j ==> #[trigger] under@[k] == below(parents@, i as int, k),
                forall|k: int| 0 <= k < parents@.len() && k != i ==> #[trigger] self.expanded@[k] == if k < j
                    && below(parents@, i as int, k) {
                    state
                } else {
                    start[k]
                },
            decreases parents@.len() - j,
        {
            let b = match parents[j] {
                Some(p) => p == i || under[p],
                None => false,
            };
            proof {
                assert(parents@[j as int] matches Some(p) ==> p < j);
            }
            under.push(b);
            if b {
                self.expanded.set(j, state);
            }
            j = j + 1;
        }
    }
}
proof fn lemma_depth_bound(parents: Seq<Option<usize>>, j: int)
    requires
        0 <= j < parents.len(),
    ensures
        depth_of(parents, j) <= j,
    decreases j,
{
    if let Some(p) = parents[j] {
        if p < j {
            lemma_depth_bound(parents, p as int);
        }
    }
}

/// Which entries have children.
fn parent_flags(parents: &Vec<Option<usize>>) -> (r: Vec<bool>)
    requires
        parents_ok(parents@),
    ensures
        r@.len() == parents@.len(),
        forall|i: int| 0 <= i < parents@.len() ==> #[trigger] r@[i] == has_children(parents@, i),
{
    let n = parents.len();
    let mut r: Vec<bool> = Vec::new();
    let mut i: usize = 0;
    while i < n
        invariant
            0 <= i <= n,
            n == parents@.len(),
            r@.len() == i,
            forall|k: int| 0 <= k < i ==> !#[trigger] r@[k],
        decreases n - i,
    {
        r.push(false);
        i = i + 1;
    }
    let mut j: usize = 0;
    while j < n
        invariant
            0 <= j <= n,
            n == parents@.len(),
            parents_ok(parents@),
            r@.len() == n,
            forall|k: int| 0 <= k < n ==> #[trigger] r@[k] == exists|q: int| 0 <= q < j && #[trigger] parents@[q] == Some(k as usize),
        decreases n - j,
    {
        if let Some(p) = parents[j] {
            proof {
                assert(p < j);
            }
            r.set(p, true);
        }
        proof {
            assert forall|k: int| 0 <= k < n implies #[trigger] r@[k] == exists|q: int| 0 <= q < j + 1 && #[trigger] parents@[q] == Some(k as usize) by {
                if parents@[j as int] == Some(k as usize) {
                    assert(0 <= j < j + 1);
                } else if r@[k] {
                    let q = choose|q: int| 0 <= q < j && #[trigger] parents@[q] == Some(k as usize);
                    assert(0 <= q < j + 1);
                }
            }
        }
        j = j + 1;
    }
    r
}

impl VolumeMenu {
    /// The lines shown, in order: an entry is shown when every entry above it
    /// is unfolded; it comes with its nesting level, and marked as folded when
    /// it hides children.
    pub fn lines(&self, parents: &Vec<Option<usize>>) -> (r: Vec<MenuLine>)
        requires
            parents_ok(parents@),
            self.expanded@.len() == parents@.len(),
        ensures
            r@ == menu_lines(parents@, self.expanded@, parents@.len() as int),
    {
        let n = parents.len();
        let flags = parent_flags(parents);
        let mut shown_at: Vec<bool> = Vec::new();
        let mut depth_at: Vec<usize> = Vec::new();
        let mut r: Vec<MenuLine> = Vec::new();
        let mut j: usize = 0;
        while j < n
            invariant
                0 <= j <= n,
                n == parents@.len(),
                parents_ok(parents@),
                self.expanded@.len() == n,
                flags@.len() == n,
                forall|i: int| 0 <= i < n ==> #[trigger] flags@[i] == has_children(parents@, i),
                shown_at@.len() == j,
                depth_at@.len() == j,
                forall|k: int| 0 <= k < j ==> #[trigger] shown_at@[k] == shown(parents@, self.expanded@, k),
                forall|k: int| 0 <= k < j ==> #[trigger] depth_at@[k] == depth_of(parents@, k),
                r@ == menu_lines(parents@, self.expanded@, j as int),
            decreases n - j,
        {
            proof {
                lemma_depth_bound(parents@, j as int);
            }
            let (s, d) = match parents[j] {
                Some(p) => {
                    proof {
                        assert(p < j);
                        lemma_depth_bound(parents@, p as int);
                    }
                    (self.expanded[p] && shown_at[p], depth_at[p] + 1)
                },
                None => (true, 0),
            };
            shown_at.push(s);
            depth_at.push(d);
            if s {
                r.push(MenuLine { entity: j, depth: d, folded: flags[j] && !self.expanded[j] });
            }
            j = j + 1;
        }
        r
    }
}

} // verus!
