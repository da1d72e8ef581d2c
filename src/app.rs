use vstd::prelude::*;
use crate::scene::{SceneRoot, scene_of};
use crate::volume::VolumeNode;

verus! {

/// Whether a geometry is on show.
#[derive(Clone, Copy, Debug, PartialEq, Eq, Structural)]
pub enum AppState {
    /// No window, no scene.
    Idle,
    /// A window with the scene, its menu and its camera.
    Display,
}

/// What the application does on a tick.
#[derive(Clone, Copy, Debug, PartialEq, Eq, Structural)]
pub enum Decision {
    /// Nothing changes.
    Stay,
    /// Open a window, then show the pending geometry.
    OpenWindowAndDisplay,
    /// Show the pending geometry in the open window.
    Display,
    /// Remove everything on show and go idle; a pending geometry is shown on the next tick.
    Teardown,
    /// Leave the application.
    Exit,
}

pub open spec fn decide_spec(state: AppState, pending: bool, window_open: bool, exit_requested: bool) -> Decision {
    match state {
        AppState::Idle => if pending {
            if window_open {
                Decision::Display
            } else {
                Decision::OpenWindowAndDisplay
            }
        } else if exit_requested {
            Decision::Exit
        } else {
            Decision::Stay
        },
        AppState::Display => if pending {
            Decision::Teardown
        } else {
            Decision::Stay
        },
    }
}

/// The decision of a tick: when idle, a pending geometry is shown (in a new
/// window if none is open) and otherwise a stop request ends the application;
/// when displaying, a pending geometry first tears the current display down.
pub fn decide(state: AppState, pending: bool, window_open: bool, exit_requested: bool) -> (r: Decision)
    ensures
        r == decide_spec(state, pending, window_open, exit_requested),
{
    match state {
        AppState::Idle => {
            if pending {
                if window_open {
                    Decision::Display
                } else {
                    Decision::OpenWindowAndDisplay
                }
            } else if exit_requested {
                Decision::Exit
            } else {
                Decision::Stay
            }
        },
        AppState::Display => {
            if pending {
                Decision::Teardown
            } else {
                Decision::Stay
            }
        },
    }
}

/// The decision when the user closes the window: whatever is on show goes.
pub fn on_window_closed(state: AppState) -> (r: Decision)
    ensures
        r == Decision::Teardown,
{
    Decision::Teardown
}

/// Entities that a display session spawns besides the volumes: the menu, the
/// drone, its camera, its sky camera and the sun.
pub const SESSION_ENTITIES: usize = 5;

/// What is on show: the state, the scene of the displayed geometry, the other
/// entities of the session and those of the drawn event.
#[derive(Debug)]
pub struct Stage {
    pub state: AppState,
    pub scene: Option<SceneRoot>,
    pub session_entities: usize,
    pub event_entities: usize,
}

/// Number of entities on show.
pub open spec fn entity_count(s: Stage) -> nat {
    (match s.scene {
        Some(sc) => sc.entities@.len(),
        None => 0nat,
    }) + s.session_entities as nat + s.event_entities as nat
}

/// `after` is a fresh display of `scene`: nothing of what was on show before remains.
pub open spec fn entered(scene: SceneRoot, after: Stage) -> bool {
    &&& after.state == AppState::Display
    &&& after.scene == Some(scene)
    &&& after.session_entities == SESSION_ENTITIES
    &&& after.event_entities == 0
}

impl Stage {
    pub fn new() -> (r: Stage)
        ensures
            r.state == AppState::Idle,
            entity_count(r) == 0,
    {
        Stage { state: AppState::Idle, scene: None, session_entities: 0, event_entities: 0 }
    }

    /// Removes every entity on show and goes idle.
    pub fn teardown(&mut self)
        ensures
            final(self).state == AppState::Idle,
            final(self).scene is None,
            entity_count(*final(self)) == 0,
    {
        self.state = AppState::Idle;
        self.scene = None;
        self.session_entities = 0;
        self.event_entities = 0;
    }

    /// Shows `scene`, after removing everything that was on show.
    pub fn enter_display(&mut self, scene: SceneRoot)
        ensures
            entered(scene, *final(self)),
            entity_count(*final(self)) == scene.entities@.len() + SESSION_ENTITIES,
    {
        self.teardown();
        self.scene = Some(scene);
        self.session_entities = SESSION_ENTITIES;
        self.state = AppState::Display;
    }

    /// Replaces the entities of the drawn event by `n` new ones.
    pub fn redraw_event(&mut self, n: usize)
        ensures
            final(self).state == old(self).state,
            final(self).scene == old(self).scene,
            final(self).session_entities == old(self).session_entities,
            final(self).event_entities == n,
    {
        self.event_entities = n;
    }
}

/// Showing the same geometry again leaves as many entities as showing it the
/// first time: nothing of an earlier session survives.
pub proof fn lemma_reload_same_count(
    root: VolumeNode,
    first: SceneRoot,
    names1: Seq<Seq<char>>,
    after_first: Stage,
    second: SceneRoot,
    names2: Seq<Seq<char>>,
    after_second: Stage,
)
    requires
        scene_of(first, root, names1),
        entered(first, after_first),
        scene_of(second, root, names2),
        entered(second, after_second),
    ensures
        entity_count(after_second) == entity_count(after_first),
{
}

} // verus!
