//! Verified core of a workspace status-line generator for a tiling window
//! manager: an in-memory replica of the workspace/monitor topology, a state
//! machine that keeps it synchronized against a textual event stream, and a
//! deterministic renderer that projects the state into one frame of text.
pub mod config;
pub mod dispatch;
pub mod events;
pub mod keyed;
pub mod laws;
pub mod normalize;
pub mod render;
pub mod state;
pub mod text;
