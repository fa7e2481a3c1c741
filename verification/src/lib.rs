//! Deterministic simulation core of a last-player-standing arena game played
//! on the surface of a sphere.
//!
//! Players ride the sphere, leave a trail behind them, and are eliminated
//! when they touch a trail segment that is old enough. The simulation is
//! driven by a session that may replay steps, so every step is a function
//! of the state and of what the step is given, and of nothing else: time
//! is counted in whole nanoseconds, heights and fuel in whole units, and
//! positions in whole millionths of a world unit.
//!
//! What the simulation cannot do in whole numbers is to turn a player and
//! to carry it along a great circle. That is left to the caller. A step in
//! a round therefore runs in stages: [`sim::SimState::integrate`] moves the
//! players vertically and says how each one is to turn and travel; the
//! caller carries the players over the sphere; then
//! [`sim::SimState::emit_trails`], [`sim::SimState::resolve_collisions`]
//! and [`sim::SimState::evaluate_round`] take the new positions and settle
//! trails, eliminations and scores. Between rounds
//! [`sim::SimState::intermission`] lets the pause run.
//!
//! - [`input`]: a player's controls, packed into a byte.
//! - [`timer`]: timers over simulation time.
//! - [`geometry`]: exact distance tests between points and segments.
//! - [`spawn`]: the pole on which each slot's player starts.
//! - [`player`]: a player's state and its step.
//! - [`ledger`]: the scores and the pay-out of a round.
//! - [`arena`]: the state as a mathematical value, and what each stage
//!   makes of it.
//! - [`sim`]: the state that a session owns, its stages, snapshots.
//! - [`laws`]: what holds of the simulation whatever the inputs.
//! - [`lobby`] and [`text`]: what the lobby decides, and the two texts
//!   that the game writes.

pub mod arena;
pub mod geometry;
pub mod input;
pub mod laws;
pub mod ledger;
pub mod lobby;
pub mod player;
pub mod sim;
pub mod spawn;
pub mod text;
pub mod timer;
