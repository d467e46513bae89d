//! Multi-scalar multiplication `Σ k_i · P_i` over a commutative group, with
//! fixed-window precomputation tables and a chunked parallel scheduler.
//!
//! * [`group`] states what the engine needs of a group, and what a
//!   multi-scalar sum is; [`algebra`] draws the consequences of the group laws.
//! * [`scalar`] reads scalars as little-endian limbs and cuts them into the
//!   digits of a window.
//! * [`table`] builds, for each base point, the multiples that one window
//!   can ask for, and hands out views of a table from some point onward.
//! * [`accumulate`] holds the single-threaded windowed accumulator.
//! * [`inputs`] holds the two kinds of scalar source.
//! * [`chunks`] cuts the points into chunks of work; [`schedule`] lets the
//!   workers of a [`pool`] claim them and adds up what the workers return.
//! * [`mod64`] is the group of integers modulo `2^64`.
//! * [`devices`] computes on the properties of compute devices.

pub mod accumulate;
pub mod algebra;
pub mod chunks;
pub mod devices;
pub mod group;
pub mod inputs;
pub mod mod64;
pub mod pool;
pub mod scalar;
pub mod schedule;
pub mod table;
mod ticket;
