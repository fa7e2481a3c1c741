//! One player's state and the locomotion rules that move it through a step.
//!
//! Everything a player carries is an integer. The altitude is the distance
//! from the sphere's centre; the direction in which the player stands and the
//! heading are the caller's to keep, and a step tells the caller how to turn
//! and how fast to travel along the surface.
//!
//! Units: time in nanoseconds, altitude in 10^-18 world units, vertical
//! velocity in 10^-9 world units per second, and fuel in thirds of a
//! billionth of a fuel point. With these a step multiplies and adds whole
//! numbers only: a velocity times a step duration is an altitude, gravity
//! takes 75 velocity units per nanosecond, hovering burns 300 fuel units per
//! nanosecond and resting on the ground wins back one.

use crate::geometry::Point;
use crate::input::Input;
use crate::spawn::{spawn_point, spawn_position, MAX_PLAYERS};
use crate::timer::{Timer, TimerMode};
use vstd::prelude::*;

verus! {

/// Altitude of the sphere's surface: 4 world units.
pub const SURFACE: u64 = 4_000_000_000_000_000_000;

/// Largest squared altitude that still counts as standing on the ground:
/// the squared radius plus a tolerance of 0.02 squared world units.
pub const GROUNDED_SQ: u128 = 16_020_000_000_000_000_000_000_000_000_000_000_000;

/// Largest altitude whose square is at most `GROUNDED_SQ`.
pub const GROUND_LIMIT: u64 = 4_002_499_219_237_900_113;

/// Vertical velocity right after a jump: 16 world units per second.
pub const JUMP_VELOCITY: i64 = 16_000_000_000;

/// Velocity units that gravity takes away per nanosecond: 75 world units
/// per second squared.
pub const GRAVITY_PER_NANO: i64 = 75;

/// A full tank: 100 fuel points.
pub const FUEL_MAX: u64 = 300_000_000_000;

/// Fuel units burnt per nanosecond of hovering: 100 points per second.
pub const FUEL_USAGE_PER_NANO: u64 = 300;

/// Fuel units won back per nanosecond on the ground: a third of a point per
/// second.
pub const FUEL_REGEN_PER_NANO: u64 = 1;

/// How long a dash lasts: 0.7 seconds.
pub const DASH_NANOS: u64 = 700_000_000;

/// How long after its start a dash cannot start again: 4 seconds.
pub const DASH_COOLDOWN_NANOS: u64 = 4_000_000_000;

/// Speed along the surface, in world units per second.
pub const MOVE_SPEED: u32 = 5;

/// Factor on the speed while a dash is active.
pub const DASH_SPEED_MULTIPLIER: u32 = 2;

/// Speed at which a held turn control turns a player about its own
/// vertical, in thousandths of a full turn per second: three eighths of a
/// turn.
pub const TURN_SPEED_MILLITURNS: u32 = 375;

/// Bound on `climb^2 + 150 * altitude`: its value for a jump that starts at
/// the highest altitude that still counts as ground.
pub const ENERGY_MAX: u128 = 856_374_882_885_685_016_950;

/// No player ever rises above this altitude.
pub const ALTITUDE_MAX: u64 = 5_709_165_885_904_566_779;

/// No player ever climbs or falls faster than this.
pub const CLIMB_MAX: i64 = 16_011_710_804;

/// A player that has not been eliminated in the current round.
#[derive(Clone, Copy, Debug, PartialEq, Eq, Structural)]
pub struct Player {
    /// The player's slot, fixed for the round.
    pub handle: usize,
    /// Distance from the sphere's centre.
    pub altitude: u64,
    /// Vertical velocity, positive away from the centre.
    pub climb: i64,
    pub fuel: u64,
    pub hovering: bool,
    /// Runs while a dash is active.
    pub dashing: Timer,
    /// Runs while a new dash is not yet allowed.
    pub dash_cooldown: Timer,
    /// Where the player stood when it emitted its last trail segment, or
    /// where it started the round.
    pub last_trail_pos: Point,
    /// Index of the trail segment this player emitted last, if any.
    pub last_trail: Option<usize>,
}

/// How the caller is to move a player over the surface in this step.
#[derive(Clone, Copy, Debug, PartialEq, Eq, Structural)]
pub struct Motion {
    pub turn_left: bool,
    pub turn_right: bool,
    /// Speed along the surface, in world units per second.
    pub speed: u32,
}

/// Whether a point at this distance from the centre counts as on the ground.
pub open spec fn on_ground(altitude: int) -> bool {
    altitude * altitude <= GROUNDED_SQ as int
}

/// Whether a point at this distance from the centre lies under the surface.
pub open spec fn under_surface(altitude: int) -> bool {
    altitude * altitude < (SURFACE as int) * (SURFACE as int)
}

/// What bounds a player's flight: squared velocity plus 150 times altitude.
/// A step under gravity alone lowers it by `5625 * dt^2`.
pub open spec fn energy(altitude: int, climb: int) -> int {
    climb * climb + 150 * altitude
}

/// Velocity that gravity takes away in a step of `dt` nanoseconds.
pub open spec fn fall(dt: u32) -> int {
    GRAVITY_PER_NANO as int * dt as int
}

/// Fuel left after hovering for `dt` nanoseconds, never below zero.
pub open spec fn drained(fuel: u64, dt: u32) -> u64 {
    if FUEL_USAGE_PER_NANO as int * dt as int >= fuel as int {
        0u64
    } else {
        (fuel as int - FUEL_USAGE_PER_NANO as int * dt as int) as u64
    }
}

/// Fuel after resting for `dt` nanoseconds, never above a full tank.
pub open spec fn refuelled(fuel: u64, dt: u32) -> u64 {
    if fuel as int + FUEL_REGEN_PER_NANO as int * dt as int >= FUEL_MAX as int {
        FUEL_MAX
    } else {
        (fuel as int + FUEL_REGEN_PER_NANO as int * dt as int) as u64
    }
}

impl Player {
    /// What holds of every player between steps: it is on or above the
    /// surface, within the flight bound, its tank is not over-full, and its
    /// two timers are the dash timers.
    pub open spec fn wf(self) -> bool {
        &&& SURFACE <= self.altitude
        &&& energy(self.altitude as int, self.climb as int) <= ENERGY_MAX as int
        &&& self.fuel <= FUEL_MAX
        &&& self.dashing.wf()
        &&& self.dashing.mode == TimerMode::Once
        &&& self.dashing.duration == DASH_NANOS
        &&& self.dash_cooldown.wf()
        &&& self.dash_cooldown.mode == TimerMode::Once
        &&& self.dash_cooldown.duration == DASH_COOLDOWN_NANOS
        &&& self.last_trail_pos.wf()
    }

    /// A player as a round starts: on the surface, at rest, with a full
    /// tank, and free to dash.
    pub open spec fn spawned(handle: usize) -> Player {
        Player {
            handle,
            altitude: SURFACE,
            climb: 0,
            fuel: FUEL_MAX,
            hovering: false,
            dashing: Timer::started(DASH_NANOS, TimerMode::Once).completed(),
            dash_cooldown: Timer::started(DASH_COOLDOWN_NANOS, TimerMode::Once).completed(),
            last_trail_pos: spawn_position(handle as int),
            last_trail: None,
        }
    }

    /// Whether the player stands on the ground as the step begins.
    pub open spec fn grounded(self) -> bool {
        on_ground(self.altitude as int)
    }

    /// Whether this step starts a dash: the control is held, the last dash
    /// and its cooldown are over once ticked, and the player is on the
    /// ground.
    pub open spec fn dash_starts(self, input: Input, dt: u32) -> bool {
        &&& input.dash()
        &&& self.dashing.ticked(dt as u64).finished
        &&& self.dash_cooldown.ticked(dt as u64).finished
        &&& self.grounded()
    }

    /// Whether this step is a jump: the control is held on the ground.
    pub open spec fn jumps(self, input: Input) -> bool {
        input.jump() && self.grounded()
    }

    /// The dash timer after the step: ticked, restarted where a dash starts,
    /// run to its end by a jump.
    pub open spec fn dashing_after(self, input: Input, dt: u32) -> Timer {
        let ticked = self.dashing.ticked(dt as u64);
        let started = if self.dash_starts(input, dt) {
            ticked.rewound()
        } else {
            ticked
        };
        if self.jumps(input) {
            started.completed()
        } else {
            started
        }
    }

    /// The cooldown timer after the step, by the same rules.
    pub open spec fn cooldown_after(self, input: Input, dt: u32) -> Timer {
        let ticked = self.dash_cooldown.ticked(dt as u64);
        let started = if self.dash_starts(input, dt) {
            ticked.rewound()
        } else {
            ticked
        };
        if self.jumps(input) {
            started.completed()
        } else {
            started
        }
    }

    /// Vertical velocity once a jump, if any, has set it.
    pub open spec fn climb_after_jump(self, input: Input) -> int {
        if self.jumps(input) {
            JUMP_VELOCITY as int
        } else {
            self.climb as int
        }
    }

    /// Whether hovering sets in: the jump control is held in the air while
    /// the player still rises, or rests at the top, and gravity would turn
    /// that into a fall within this step.
    pub open spec fn hover_sets_in(self, input: Input, dt: u32) -> bool {
        &&& input.jump()
        &&& self.climb_after_jump(input) >= 0
        &&& self.climb_after_jump(input) - fall(dt) < 0
        &&& !self.grounded()
        &&& !self.hovering
    }

    /// Whether the player burns fuel in this step.
    pub open spec fn burns_fuel(self, input: Input, dt: u32) -> bool {
        (self.hovering || self.hover_sets_in(input, dt)) && input.jump()
    }

    /// Fuel once hovering has taken its share.
    pub open spec fn fuel_after_hover(self, input: Input, dt: u32) -> u64 {
        if self.burns_fuel(input, dt) {
            drained(self.fuel, dt)
        } else {
            self.fuel
        }
    }

    /// Whether the player hovers through this step: it burns fuel and has
    /// some left.
    pub open spec fn hovers(self, input: Input, dt: u32) -> bool {
        self.burns_fuel(input, dt) && self.fuel_after_hover(input, dt) > 0
    }

    /// Whether gravity acts in this step: not while hovering, and not on a
    /// player at rest on the ground.
    pub open spec fn falls(self, input: Input, dt: u32) -> bool {
        !self.hovers(input, dt) && (!self.grounded() || self.climb_after_jump(input) != 0)
    }

    /// Vertical velocity with which the player travels in this step.
    pub open spec fn climb_travelled(self, input: Input, dt: u32) -> int {
        if self.falls(input, dt) {
            self.climb_after_jump(input) - fall(dt)
        } else {
            0
        }
    }

    /// Distance from the centre that the step arrives at, before the
    /// surface corrects it. A player cannot pass through the centre.
    pub open spec fn height_reached(self, input: Input, dt: u32) -> int {
        let raw = self.altitude as int + self.climb_travelled(input, dt) * dt as int;
        if raw < 0 {
            0
        } else {
            raw
        }
    }

    /// Whether the step ends under the surface and is set back onto it.
    pub open spec fn snaps(self, input: Input, dt: u32) -> bool {
        under_surface(self.height_reached(input, dt))
    }

    /// The player after one step of `dt` nanoseconds under `input`.
    pub open spec fn stepped(self, input: Input, dt: u32) -> Player {
        let height = self.height_reached(input, dt);
        let fuel = self.fuel_after_hover(input, dt);
        Player {
            handle: self.handle,
            altitude: if self.snaps(input, dt) {
                SURFACE
            } else {
                height as u64
            },
            climb: if self.snaps(input, dt) {
                0i64
            } else {
                self.climb_travelled(input, dt) as i64
            },
            fuel: if on_ground(height) {
                refuelled(fuel, dt)
            } else {
                fuel
            },
            hovering: self.hovers(input, dt),
            dashing: self.dashing_after(input, dt),
            dash_cooldown: self.cooldown_after(input, dt),
            last_trail_pos: self.last_trail_pos,
            last_trail: self.last_trail,
        }
    }

    /// How the caller moves the player over the surface in this step: the
    /// turns held, and the speed, doubled while a dash is active.
    pub open spec fn motion(self, input: Input, dt: u32) -> Motion {
        Motion {
            turn_left: input.left(),
            turn_right: input.right(),
            speed: if self.dashing_after(input, dt).finished {
                MOVE_SPEED
            } else {
                (MOVE_SPEED * DASH_SPEED_MULTIPLIER) as u32
            },
        }
    }

    /// Whether the step ends at the very top of a jump: gravity acted on a
    /// player in the air and took exactly the velocity it had.
    pub open spec fn tops_out(self, input: Input, dt: u32) -> bool {
        &&& self.falls(input, dt)
        &&& !self.grounded()
        &&& self.climb_after_jump(input) == fall(dt)
    }
}

/// Tests whether a point at this distance from the centre counts as on the
/// ground.
pub fn is_on_ground(altitude: u64) -> (r: bool)
    ensures
        r == on_ground(altitude as int),
{
    assert((altitude as int) * (altitude as int) <= 0xffff_ffff_ffff_ffff * 0xffff_ffff_ffff_ffff)
        by (nonlinear_arith)
        requires
            0 <= altitude as int <= 0xffff_ffff_ffff_ffff,
    ;
    let square: u128 = (altitude as u128) * (altitude as u128);
    square <= GROUNDED_SQ
}

impl Player {
    /// A player as a round starts, on the pole of its slot.
    pub fn spawn(handle: usize) -> (p: Player)
        requires
            handle < MAX_PLAYERS,
        ensures
            p == Player::spawned(handle),
            p.wf(),
            p.grounded(),
            p.dashing.finished,
            p.dash_cooldown.finished,
    {
        let mut dashing = Timer::new(DASH_NANOS, TimerMode::Once);
        dashing.finish();
        let mut dash_cooldown = Timer::new(DASH_COOLDOWN_NANOS, TimerMode::Once);
        dash_cooldown.finish();
        proof {
            lemma_ground_limit(SURFACE as int);
        }
        let last_trail_pos = match spawn_point(handle) {
            Some(pole) => pole.position(),
            None => Point { x: 0, y: 0, z: 0 },
        };
        Player {
            handle,
            altitude: SURFACE,
            climb: 0,
            fuel: FUEL_MAX,
            hovering: false,
            dashing,
            dash_cooldown,
            last_trail_pos,
            last_trail: None,
        }
    }

    /// Tests what holds of every player between steps.
    pub fn is_wf(&self) -> (r: bool)
        ensures
            r == self.wf(),
    {
        let climb: i128 = self.climb as i128;
        assert(0 <= climb * climb <= 0x8000_0000_0000_0000 * 0x8000_0000_0000_0000)
            by (nonlinear_arith)
            requires
                -0x8000_0000_0000_0000 <= climb <= 0x8000_0000_0000_0000,
        ;
        let energy: i128 = climb * climb + 150 * (self.altitude as i128);
        SURFACE <= self.altitude && energy <= ENERGY_MAX as i128 && self.fuel <= FUEL_MAX
            && self.dashing.is_wf() && self.dashing.mode == TimerMode::Once
            && self.dashing.duration == DASH_NANOS && self.dash_cooldown.is_wf()
            && self.dash_cooldown.mode == TimerMode::Once && self.dash_cooldown.duration
            == DASH_COOLDOWN_NANOS && self.last_trail_pos.in_range()
    }

    /// Moves the player through one step of `dt` nanoseconds: timers, dash,
    /// jump, hover and fuel, gravity, the vertical move and the correction
    /// onto the surface. Returns how the caller is to turn the player and
    /// carry it over the surface.
    pub fn step(&mut self, input: Input, dt: u32) -> (m: Motion)
        requires
            old(self).wf(),
        ensures
            *final(self) == old(self).stepped(input, dt),
            m == old(self).motion(input, dt),
            final(self).wf(),
    {
        let ghost before = *self;
        proof {
            lemma_flight_bounds(before.altitude as int, before.climb as int);
            lemma_stepped_wf(before, input, dt);
        }
        self.dashing.tick(dt as u64);
        self.dash_cooldown.tick(dt as u64);
        let grounded = is_on_ground(self.altitude);
        if input.dash() && self.dashing.is_finished() && self.dash_cooldown.is_finished()
            && grounded {
            self.dashing.reset();
            self.dash_cooldown.reset();
        }
        let jump = input.jump();
        if jump && grounded {
            self.climb = JUMP_VELOCITY;
            self.dashing.finish();
            self.dash_cooldown.finish();
        }
        let fall: i64 = GRAVITY_PER_NANO * (dt as i64);
        if jump && self.climb >= 0 && self.climb - fall < 0 && !grounded && !self.hovering {
            self.hovering = true;
        }
        if self.hovering && jump {
            self.fuel = self.fuel.saturating_sub(FUEL_USAGE_PER_NANO * (dt as u64));
        }
        if self.hovering && (!jump || self.fuel == 0) {
            self.hovering = false;
        }
        let travelled: i64 = if !self.hovering && (!grounded || self.climb != 0) {
            self.climb - fall
        } else {
            0
        };
        proof {
            assert(travelled == before.climb_travelled(input, dt));
            assert(-0x8000_0000_0000_0000_0000 <= travelled as int * dt as int
                <= 0x8000_0000_0000_0000_0000) by (nonlinear_arith)
                requires
                    -0x100_0000_0000 <= travelled as int <= 0x100_0000_0000,
                    0 <= dt as int <= 0xffff_ffff,
            ;
        }
        let raw: i128 = (self.altitude as i128) + (travelled as i128) * (dt as i128);
        proof {
            let height = before.height_reached(input, dt);
            lemma_ground_limit(height);
            lemma_under_surface(height);
        }
        let landed = raw < SURFACE as i128 || is_on_ground(raw as u64);
        if landed {
            let gain: u64 = FUEL_REGEN_PER_NANO * (dt as u64);
            self.fuel = if self.fuel + gain >= FUEL_MAX {
                FUEL_MAX
            } else {
                self.fuel + gain
            };
        }
        if raw < SURFACE as i128 {
            self.altitude = SURFACE;
            self.climb = 0;
        } else {
            self.altitude = raw as u64;
            self.climb = travelled;
        }
        Motion {
            turn_left: input.left(),
            turn_right: input.right(),
            speed: if self.dashing.is_finished() {
                MOVE_SPEED
            } else {
                MOVE_SPEED * DASH_SPEED_MULTIPLIER
            },
        }
    }
}

/// On or above the centre, the ground test on the square is a bound on the
/// altitude itself.
pub proof fn lemma_ground_limit(altitude: int)
    requires
        0 <= altitude,
    ensures
        on_ground(altitude) <==> altitude <= GROUND_LIMIT as int,
{
    let b = GROUND_LIMIT as int;
    assert(b * b <= GROUNDED_SQ as int) by (nonlinear_arith)
        requires
            b == 4_002_499_219_237_900_113,
    ;
    assert((b + 1) * (b + 1) > GROUNDED_SQ as int) by (nonlinear_arith)
        requires
            b == 4_002_499_219_237_900_113,
    ;
    if altitude <= b {
        assert(altitude * altitude <= b * b) by (nonlinear_arith)
            requires
                0 <= altitude <= b,
        ;
    } else {
        assert(altitude * altitude >= (b + 1) * (b + 1)) by (nonlinear_arith)
            requires
                altitude >= b + 1,
                b >= 0,
        ;
    }
}

/// On or above the centre, a point is under the surface exactly if its
/// altitude is below the radius.
pub proof fn lemma_under_surface(altitude: int)
    requires
        0 <= altitude,
    ensures
        under_surface(altitude) <==> altitude < SURFACE as int,
{
    let s = SURFACE as int;
    if altitude < s {
        assert(altitude * altitude < s * s) by (nonlinear_arith)
            requires
                0 <= altitude < s,
        ;
    } else {
        assert(altitude * altitude >= s * s) by (nonlinear_arith)
            requires
                altitude >= s,
                s >= 0,
        ;
    }
}

/// A step under gravity alone lowers the energy by `5625 * dt^2`.
pub proof fn lemma_gravity_lowers_energy(altitude: int, climb: int, dt: int)
    ensures
        energy(altitude + (climb - 75 * dt) * dt, climb - 75 * dt) == energy(altitude, climb) - 5625
            * dt * dt,
        5625 * dt * dt >= 0,
{
    assert(energy(altitude + (climb - 75 * dt) * dt, climb - 75 * dt) == energy(altitude, climb)
        - 5625 * dt * dt) by (nonlinear_arith);
    assert(5625 * dt * dt >= 0) by (nonlinear_arith);
}

/// Within the flight bound and on or above the surface, altitude and
/// velocity are bounded.
pub proof fn lemma_flight_bounds(altitude: int, climb: int)
    requires
        SURFACE as int <= altitude,
        energy(altitude, climb) <= ENERGY_MAX as int,
    ensures
        altitude <= ALTITUDE_MAX as int,
        -(CLIMB_MAX as int) <= climb <= CLIMB_MAX as int,
{
    assert(climb * climb >= 0) by (nonlinear_arith);
    let m = CLIMB_MAX as int;
    assert((m + 1) * (m + 1) > ENERGY_MAX as int - 150 * SURFACE as int) by (nonlinear_arith)
        requires
            m == 16_011_710_804,
    ;
    if climb > m {
        assert(climb * climb >= (m + 1) * (m + 1)) by (nonlinear_arith)
            requires
                climb >= m + 1,
                m >= 0,
        ;
    }
    if climb < -m {
        assert(climb * climb >= (m + 1) * (m + 1)) by (nonlinear_arith)
            requires
                climb <= -(m + 1),
                m >= 0,
        ;
    }
}

/// A step keeps a player well-formed, in its slot, and with the trail
/// segment it remembers.
pub proof fn lemma_stepped_wf(p: Player, input: Input, dt: u32)
    requires
        p.wf(),
    ensures
        p.stepped(input, dt).wf(),
        p.stepped(input, dt).handle == p.handle,
        p.stepped(input, dt).last_trail == p.last_trail,
        p.stepped(input, dt).last_trail_pos == p.last_trail_pos,
        SURFACE as int <= p.height_reached(input, dt) ==> p.height_reached(input, dt)
            <= ALTITUDE_MAX as int && -(CLIMB_MAX as int) <= p.climb_travelled(input, dt)
            <= CLIMB_MAX as int,
{
    let a = p.altitude as int;
    let c = p.climb_after_jump(input);
    let t = p.climb_travelled(input, dt);
    lemma_flight_bounds(a, p.climb as int);
    lemma_ground_limit(a);
    if p.jumps(input) {
        assert(c * c == 256_000_000_000_000_000_000) by (nonlinear_arith)
            requires
                c == 16_000_000_000,
        ;
    }
    assert(energy(a, c) <= ENERGY_MAX as int);
    assert(c * c >= 0) by (nonlinear_arith);
    if p.falls(input, dt) {
        lemma_gravity_lowers_energy(a, c, dt as int);
    }
    assert(energy(a + t * dt as int, t) <= ENERGY_MAX as int);
    let height = p.height_reached(input, dt);
    lemma_under_surface(height);
    if height >= SURFACE as int {
        lemma_flight_bounds(height, t);
    }
}

} // verus!
