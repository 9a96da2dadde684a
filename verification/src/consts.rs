//! Tuning constants of the simulation.
//!
//! Lengths are measured in fixed-point subunits: `SCALE` subunits make one
//! world unit, and the visible vertical extent is the two world units from
//! `-SCALE` to `SCALE`.  Time is measured in milliseconds, velocities in
//! subunits per millisecond, accelerations in subunits per squared
//! millisecond.  Score is measured in milli-points, so one point is 1000.

use vstd::prelude::*;

verus! {

/// Subunits per world unit.
pub const SCALE: i64 = 100_000_000;

/// Player collision radius, before forgiveness (0.04 world units).
pub const PLAYER_R_BASE: i64 = 4_000_000;

/// Forgiveness margin: the player's radius is shrunk by this much when
/// testing lethal wall contact, biasing detection in the player's favour.
pub const PLAYER_R_SYMPATHY: i64 = 1_000_000;

/// Effective lethal radius for wall contact.
pub const LETHAL_R: i64 = 3_000_000;

/// Gravity (2.9 world units per squared second).
pub const GRAVITY: i64 = 290;

/// Half of `GRAVITY`, used by the exact position integral of one tick.
pub const HALF_GRAVITY: i64 = 145;

/// Constant horizontal player speed (0.8 world units per second).
pub const PLAYER_SPEED: i64 = 80_000;

/// Horizontal camera lead ahead of the player (0.5 world units).
pub const CAM_X_OFFSET: i64 = 50_000_000;

/// Score bonus per collected pickup (1000 points).
pub const PICKUP_VALUE: i64 = 1_000_000;

/// Score accrued per millisecond while alive (100 points per second).
pub const SCORE_RATE: i64 = 100;

/// Pickup collision radius (0.05 world units).
pub const PICKUP_RADIUS: i64 = 5_000_000;

/// Vertical size of the passable gap of every wall pair (0.8 world units).
pub const GAP_H: i64 = 80_000_000;

/// Wall thickness (0.4 world units).
pub const WALL_W: i64 = 40_000_000;

/// Horizontal distance the player must travel past the last spawn before
/// the next spawn event fires (2 world units).
pub const WALL_SEPARATION: i64 = 200_000_000;

/// Horizontal distance ahead of the player at which a wall pair appears.
pub const SPAWN_AHEAD: i64 = 400_000_000;

/// A pickup is placed at the horizontal midpoint between one spawn and the
/// next, this far past the wall it was drawn with.
pub const PICKUP_MID_OFFSET: i64 = 100_000_000;

/// Vertical inset of a pickup from the gap edge it is placed near.
pub const PICKUP_INSET: i64 = 15_000_000;

/// Vertical overshoot of walls beyond the visible extent, so that a wall
/// always covers the full visible range without per-frame recomputation.
pub const WALL_OVERSHOOT: i64 = 1_000_000_000;

/// Walls and pickups this far behind the player are culled.
pub const CULL_BEHIND: i64 = 200_000_000;

/// Probability of placing a pickup at a spawn event, as a numerator over
/// 2^32 (about 0.33).
pub const PICKUP_CHANCE: u32 = 1_417_339_207;

/// Threshold of a fair coin flip on a uniform 32-bit draw (2^31).
pub const COIN_HALF: u32 = 2_147_483_648;

/// Upper clamp on a single tick's time delta.  A pathologically large delta
/// (after a host stall) would otherwise let the player tunnel through a wall
/// between two collision tests.
pub const DT_MAX: i64 = 1_000;

/// Vertical start position of the player (-0.9 world units).
pub const PLAYER_START_Y: i64 = -90_000_000;

/// Upper bound on the simulation clock (about twelve days of play).  The
/// arithmetic headroom of every tick is proved against it.
pub const T_MAX: i64 = 1_073_741_824;

/// Per-millisecond growth rate of the score potential: it dominates the
/// score accrual rate plus five times the horizontal speed.
pub const SCORE_POTENTIAL_RATE: i64 = 500_000;

/// Absolute bound on the player's horizontal position: the distance
/// travelled at full speed over the whole clock range, with margin.
pub const POS_X_LIMIT: i64 = 86_000_000_000_000;

/// Absolute bound on the score: the score potential over the whole clock
/// range, with margin.
pub const SCORE_LIMIT: i64 = 1_000_000_000_000_000;

/// Absolute bound on the player's vertical position.  While alive it is at
/// most `SCALE`; the tick that kills the player can push it at most one
/// tick's travel further.
pub const POS_Y_LIMIT: i64 = 400_000_000_000_000;

} // verus!
