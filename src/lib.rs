//! Snapshotting the readable and writable memory regions of a process:
//! parsing its memory-map descriptor, grouping regions by what backs them,
//! laying out output files, and copying exact byte ranges in chunks.
pub mod copy;
pub mod group;
pub mod layout;
pub mod region;
pub mod text;
