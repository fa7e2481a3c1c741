//! Where each slot's player stands as a round starts.
//!
//! The three axes through the sphere's centre have six poles. Each handle
//! has one of them. A player that has not been turned faces in the
//! direction (0, 0, -1); on its pole it is turned by a quarter about an
//! axis chosen so that it faces along the surface, and never along the
//! axis of its own pole.

use crate::geometry::{dot, Point};
use vstd::prelude::*;

verus! {

/// Largest number of players in a match: one for each pole of the three
/// axes through the sphere.
pub const MAX_PLAYERS: usize = 6;

/// The sphere's radius in millionths of a world unit: 4 world units.
pub const RADIUS_MICROS: i32 = 4_000_000;

/// An axis through the sphere's centre.
#[derive(Clone, Copy, Debug, PartialEq, Eq, Structural)]
pub enum Axis {
    X,
    Y,
    Z,
}

/// A quarter turn about an axis, as seen from the positive end of the
/// axis.
#[derive(Clone, Copy, Debug, PartialEq, Eq, Structural)]
pub enum QuarterTurn {
    /// By a quarter of a circle clockwise.
    Clockwise,
    /// By a quarter of a circle counter-clockwise.
    CounterClockwise,
}

/// A pole of the sphere and the quarter turn of the player that stands on
/// it.
#[derive(Clone, Copy, Debug, PartialEq, Eq, Structural)]
pub struct SpawnPoint {
    /// The axis on which the pole lies.
    pub axis: Axis,
    /// Whether the pole is the one on the positive side of the axis.
    pub positive: bool,
    /// The axis about which the player is turned.
    pub turn_axis: Axis,
    /// The quarter turn about the turn axis.
    pub turn: QuarterTurn,
}

/// The vector `v` turned about `axis` by a quarter. A counter-clockwise
/// quarter turn about `Z` takes the direction of `X` to that of `Y`, one
/// about `X` takes `Y` to `Z`, and one about `Y` takes `Z` to `X`.
pub open spec fn quarter_turned(axis: Axis, turn: QuarterTurn, v: Point) -> Point {
    if turn == QuarterTurn::CounterClockwise {
        match axis {
            Axis::X => Point { x: v.x, y: (-v.z) as i32, z: v.y },
            Axis::Y => Point { x: v.z, y: v.y, z: (-v.x) as i32 },
            Axis::Z => Point { x: (-v.y) as i32, y: v.x, z: v.z },
        }
    } else {
        match axis {
            Axis::X => Point { x: v.x, y: v.z, z: (-v.y) as i32 },
            Axis::Y => Point { x: (-v.z) as i32, y: v.y, z: v.x },
            Axis::Z => Point { x: v.y, y: (-v.x) as i32, z: v.z },
        }
    }
}

/// The direction in which a player faces that has not been turned.
pub open spec fn unturned_facing() -> Point {
    Point { x: 0, y: 0, z: -1i32 }
}

/// The pole of each handle: handles 0 and 1 take the poles of the axis
/// `Y`, handles 2 and 3 those of `X`, handles 4 and 5 those of `Z`, the
/// even handle the positive pole. On `Y` and `X` the player is turned
/// about the axis of its pole, clockwise on the positive pole. A turn
/// about `Z` would leave it facing along `Z`, into or out of the sphere;
/// on the poles of `Z` it is turned about `X`, counter-clockwise on the
/// positive pole.
pub open spec fn spawn_point_of(handle: int) -> Option<SpawnPoint> {
    if 0 <= handle < MAX_PLAYERS as int {
        Some(
            SpawnPoint {
                axis: if handle / 2 == 0 {
                    Axis::Y
                } else if handle / 2 == 1 {
                    Axis::X
                } else {
                    Axis::Z
                },
                positive: handle % 2 == 0,
                turn_axis: if handle / 2 == 0 {
                    Axis::Y
                } else {
                    Axis::X
                },
                turn: if (handle % 2 == 0) == (handle / 2 == 2) {
                    QuarterTurn::CounterClockwise
                } else {
                    QuarterTurn::Clockwise
                },
            },
        )
    } else {
        None
    }
}

/// The pole on which the player with this handle starts a round, or
/// `None` where there is no such slot.
pub fn spawn_point(handle: usize) -> (r: Option<SpawnPoint>)
    ensures
        r == spawn_point_of(handle as int),
        r is Some <==> handle < MAX_PLAYERS,
        r matches Some(pole) ==> pole.faces_along_surface(),
{
    let r = match handle {
        0 => Some(
            SpawnPoint {
                axis: Axis::Y,
                positive: true,
                turn_axis: Axis::Y,
                turn: QuarterTurn::Clockwise,
            },
        ),
        1 => Some(
            SpawnPoint {
                axis: Axis::Y,
                positive: false,
                turn_axis: Axis::Y,
                turn: QuarterTurn::CounterClockwise,
            },
        ),
        2 => Some(
            SpawnPoint {
                axis: Axis::X,
                positive: true,
                turn_axis: Axis::X,
                turn: QuarterTurn::Clockwise,
            },
        ),
        3 => Some(
            SpawnPoint {
                axis: Axis::X,
                positive: false,
                turn_axis: Axis::X,
                turn: QuarterTurn::CounterClockwise,
            },
        ),
        4 => Some(
            SpawnPoint {
                axis: Axis::Z,
                positive: true,
                turn_axis: Axis::X,
                turn: QuarterTurn::CounterClockwise,
            },
        ),
        5 => Some(
            SpawnPoint {
                axis: Axis::Z,
                positive: false,
                turn_axis: Axis::X,
                turn: QuarterTurn::Clockwise,
            },
        ),
        _ => None,
    };
    proof {
        if handle < MAX_PLAYERS {
            lemma_spawn_facing_is_tangent(handle as int);
        }
    }
    r
}

impl SpawnPoint {
    /// Where the pole lies.
    pub open spec fn position_spec(self) -> Point {
        let reach = if self.positive {
            RADIUS_MICROS
        } else {
            (-RADIUS_MICROS) as i32
        };
        match self.axis {
            Axis::X => Point { x: reach, y: 0, z: 0 },
            Axis::Y => Point { x: 0, y: reach, z: 0 },
            Axis::Z => Point { x: 0, y: 0, z: reach },
        }
    }

    /// Where the pole lies.
    pub fn position(&self) -> (p: Point)
        ensures
            p == self.position_spec(),
            p.wf(),
    {
        let reach: i32 = if self.positive {
            RADIUS_MICROS
        } else {
            -RADIUS_MICROS
        };
        match self.axis {
            Axis::X => Point { x: reach, y: 0, z: 0 },
            Axis::Y => Point { x: 0, y: reach, z: 0 },
            Axis::Z => Point { x: 0, y: 0, z: reach },
        }
    }
}

impl SpawnPoint {
    /// The direction in which the player faces once turned: a vector of
    /// length one along an axis.
    pub open spec fn facing_spec(self) -> Point {
        quarter_turned(self.turn_axis, self.turn, unturned_facing())
    }

    /// Whether the player faces along the surface: the direction it faces
    /// in is perpendicular to the way from the centre to the pole.
    pub open spec fn faces_along_surface(self) -> bool {
        dot(
            self.facing_spec().x as int,
            self.facing_spec().y as int,
            self.facing_spec().z as int,
            self.position_spec().x as int,
            self.position_spec().y as int,
            self.position_spec().z as int,
        ) == 0
    }

    /// The direction in which the player faces once turned.
    pub fn facing(&self) -> (p: Point)
        ensures
            p == self.facing_spec(),
    {
        let s: i32 = match self.turn {
            QuarterTurn::CounterClockwise => 1,
            QuarterTurn::Clockwise => -1,
        };
        match self.turn_axis {
            Axis::X => Point { x: 0, y: s, z: 0 },
            Axis::Y => Point { x: -s, y: 0, z: 0 },
            Axis::Z => Point { x: 0, y: 0, z: -1 },
        }
    }
}

/// The direction in which the player with this handle faces as a round
/// starts, or no direction where there is no such slot.
pub open spec fn spawn_facing(handle: int) -> Point {
    match spawn_point_of(handle) {
        Some(pole) => pole.facing_spec(),
        None => Point { x: 0, y: 0, z: 0 },
    }
}

/// Where the player with this handle stands as a round starts: on its
/// pole, or at the centre where there is no such slot.
pub open spec fn spawn_position(handle: int) -> Point {
    match spawn_point_of(handle) {
        Some(pole) => pole.position_spec(),
        None => Point { x: 0, y: 0, z: 0 },
    }
}

/// No two slots share a pole.
pub proof fn lemma_spawn_points_distinct(a: int, b: int)
    requires
        0 <= a < MAX_PLAYERS as int,
        0 <= b < MAX_PLAYERS as int,
        a != b,
    ensures
        spawn_point_of(a) is Some,
        spawn_point_of(b) is Some,
        spawn_point_of(a)->0.axis != spawn_point_of(b)->0.axis || spawn_point_of(a)->0.positive
            != spawn_point_of(b)->0.positive,
        spawn_position(a) != spawn_position(b),
{
}

/// Every player faces along the surface as a round starts: the direction
/// it faces in has length one and is perpendicular to the way from the
/// centre to its pole.
pub proof fn lemma_spawn_facing_is_tangent(handle: int)
    requires
        0 <= handle < MAX_PLAYERS as int,
    ensures
        spawn_point_of(handle) is Some,
        spawn_point_of(handle)->0.faces_along_surface(),
        dot(
            spawn_facing(handle).x as int,
            spawn_facing(handle).y as int,
            spawn_facing(handle).z as int,
            spawn_position(handle).x as int,
            spawn_position(handle).y as int,
            spawn_position(handle).z as int,
        ) == 0,
        spawn_facing(handle).dist_sq(Point { x: 0, y: 0, z: 0 }) == 1,
{
    let f = spawn_facing(handle);
    let p = spawn_position(handle);
    if handle == 0 {
        assert(f == Point { x: 1, y: 0, z: 0 } && p == Point { x: 0, y: RADIUS_MICROS, z: 0 });
    } else if handle == 1 {
        assert(f == Point { x: -1i32, y: 0, z: 0 });
        assert(p == Point { x: 0, y: (-RADIUS_MICROS) as i32, z: 0 });
    } else if handle == 2 {
        assert(f == Point { x: 0, y: -1i32, z: 0 } && p == Point { x: RADIUS_MICROS, y: 0, z: 0 });
    } else if handle == 3 {
        assert(f == Point { x: 0, y: 1, z: 0 });
        assert(p == Point { x: (-RADIUS_MICROS) as i32, y: 0, z: 0 });
    } else if handle == 4 {
        assert(f == Point { x: 0, y: 1, z: 0 } && p == Point { x: 0, y: 0, z: RADIUS_MICROS });
    } else {
        assert(f == Point { x: 0, y: -1i32, z: 0 });
        assert(p == Point { x: 0, y: 0, z: (-RADIUS_MICROS) as i32 });
    }
    let (fx, fy, fz) = (f.x as int, f.y as int, f.z as int);
    let (px, py, pz) = (p.x as int, p.y as int, p.z as int);
    assert(fx * px + fy * py + fz * pz == 0) by (nonlinear_arith)
        requires
            fx == 0 || px == 0,
            fy == 0 || py == 0,
            fz == 0 || pz == 0,
    ;
    assert((fx - 0) * (fx - 0) + (fy - 0) * (fy - 0) + (fz - 0) * (fz - 0) == 1)
        by (nonlinear_arith)
        requires
            ((fx == 1 || fx == -1) && fy == 0 && fz == 0) || (fx == 0 && (fy == 1 || fy == -1)
                && fz == 0),
    ;
}

} // verus!
