//! Core storage and deterministic generation for chunk-based block structures.
//!
//! A `Structure` is a bounded, mutable 3D object (a ship, a planet, an
//! asteroid) built out of fixed-size chunks of blocks.  This crate owns the
//! sparse chunk storage engine (lazy chunk allocation, automatic unloading of
//! all-air chunks, a per-block damage overlay), the coordinate transforms
//! between block space, chunk space and centered continuous space, the event
//! types that report block changes to outside collaborators, the reconciler
//! that binds and unbinds external chunk representations, and the
//! deterministic procedural generators (layered terrain and galaxy star
//! placement).
//!
//! Rendering, physics, networking and persistence are outside collaborators:
//! they consume the events and query surface exposed here but own no part of
//! the invariants.

pub mod biosphere;
pub mod block;
pub mod chunk;
pub mod events;
pub mod structure;
pub mod structure_block;
pub mod structure_iterator;
pub mod universe;
pub mod lifecycle;
pub mod math;
pub mod saving;
