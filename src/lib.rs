//! Scene and event logic of a viewer for detector geometries and Monte Carlo
//! events: the volume tree and its solids, the fitting of envelopes, the
//! scene built from a tree, the display state, the hand-off and playback of
//! events, and the picking of vertices. Lengths are whole micrometres, angles
//! whole millidegrees and energies whole milli-electronvolts.


pub mod app;
pub mod display;
pub mod double;
pub mod energy;
pub mod envelope;
pub mod event;
pub mod geom;
pub mod menu;
pub mod picking;
pub mod playback;
pub mod rows;
pub mod scene;
pub mod shape;
pub mod source;
pub mod summary;
pub mod units;
pub mod volume;
