//! Structural dynamics of breakable lattice bodies.
//!
//! The crate holds the data structures and the control logic of a
//! position-based lattice simulation: stable-handle column stores, a cell
//! hash for nearest-neighbour queries, the constraint solver, the voxel skin
//! bound to the lattice, and the buffers that carry a frame to the renderer.
//!
//! Every index, handle and table operation is verified. Real arithmetic is a
//! parameter of the crate (see [`numeric`]): of a computed real the contracts
//! say which operations it came out of and on what, and nothing of what the
//! operations yield.

pub mod numeric;
pub mod geometry;
pub mod slots;
pub mod column;
pub mod xpbd;
pub mod lattice;
pub mod motion;
pub mod solver;
pub mod determinism;
pub mod system;
pub mod rotor;
pub mod structure;
pub mod hashing;
pub mod spatial;
pub mod voxel;
pub mod skin;
pub mod fragment;
pub mod frame;
pub mod layout;
pub mod state;
