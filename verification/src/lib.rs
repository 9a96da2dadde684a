//! Deterministic simulation core of an endless side-scroller with
//! gravity-flip mechanics.
//!
//! The player advances at constant horizontal speed through procedurally
//! generated wall pairs (each pair bounding one passable gap) and pickups,
//! dies on collision or on leaving the vertical play area, and accrues score
//! over time.  The whole simulation works on fixed-point integer coordinates
//! (`SCALE` subunits to one world unit, milliseconds for time), so every tick
//! is a pure function of the previous state and the tick input, and replay is
//! bit-exact.
//!
//! Rendering, windowing and clocks are external collaborators: the core only
//! consumes per-tick inputs (a time delta, discrete input events, a seed) and
//! produces an updated [`world::World`] plus a list of draw requests.

pub mod arena;
pub mod consts;
pub mod draw;
pub mod geom;
pub mod laws;
pub mod model;
pub mod rng;
pub mod world;
