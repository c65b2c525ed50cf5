//! Procedurally extends an endless obstacle course one platform at a time,
//! ahead of whichever participant is furthest along, and tracks each
//! participant's progress against that shared, ever-growing timeline.
//!
//! The course generator runs a randomized, constraint-checked, backtracking
//! search with a lookahead buffer: a platform is only committed and built
//! once a chain of further platforms is proven placeable beyond it. The
//! per-participant tracker classifies each tick as on course, skipped ahead,
//! walking backward, or fallen off, and prescribes a corrective teleport to
//! the last checkpoint in the last case.
//!
//! The world itself is a collaborator: terrain, loadedness and biomes come in
//! as a plain-value snapshot, and materialization leaves as a list of block
//! placements for that collaborator to write.

pub mod coords;
pub mod course;
pub mod jump;
pub mod palette;
pub mod port;
pub mod rng;
pub mod tracker;
pub mod world;
