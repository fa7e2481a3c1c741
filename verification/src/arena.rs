//! The simulation's state as a mathematical value, and what each stage of a
//! step makes of it.
//!
//! A step in a round runs four stages in order: the players move, trails
//! are emitted, collisions eliminate players, and the round is judged.
//! Between rounds a step only lets the intermission run. The first stage
//! tells the caller how each player is to turn and travel; the caller
//! carries the players over the sphere and hands back where each one
//! stands, and between which two points its next trail segment would lie.

use crate::geometry::{Point, Segment, REACH, TRAIL_SPAWN_DIST};
use crate::input::Input;
use crate::ledger::{settled, zeroed};
use crate::player::{Motion, Player};
use crate::spawn::MAX_PLAYERS;
use crate::timer::{saturating_sum, Timer, TimerMode};
use vstd::prelude::*;

verus! {

/// The age, in nanoseconds, that a trail segment must reach before it
/// eliminates anybody, unless a simulation is set up with another: 0.07
/// seconds.
pub const MIN_TRAIL_LIFE_NANOS: u64 = 70_000_000;

/// Length of the intermission between two rounds: 0.75 seconds.
pub const ROUND_END_NANOS: u64 = 750_000_000;

/// Where the match stands.
#[derive(Clone, Copy, Debug, PartialEq, Eq, Structural)]
pub enum RoundState {
    /// No match has begun.
    Idle,
    /// The players are running around.
    InRound,
    /// At most one player is left, and the next round is about to begin.
    RoundEnd,
}

/// A piece of a player's trail. It never changes once emitted.
#[derive(Clone, Copy, Debug, PartialEq, Eq, Structural)]
pub struct TrailSegment {
    /// Handle of the player that emitted the segment.
    pub owner: usize,
    /// Simulation time at which it was emitted, in nanoseconds.
    pub created_at: u64,
    /// The two ends between which it lies.
    pub ends: Segment,
}

impl TrailSegment {
    /// Whether the segment is old enough at time `now` to eliminate a
    /// player: its age has reached `min_life`.
    pub open spec fn lethal_at(self, now: u64, min_life: u64) -> bool {
        now - self.created_at >= min_life
    }
}

/// The simulation's state.
pub struct SimView {
    pub round: RoundState,
    /// Simulation time in nanoseconds: the sum of the steps' durations.
    pub clock: u64,
    /// The slots by handle; an eliminated player leaves its slot empty.
    pub players: Seq<Option<Player>>,
    /// The trail segments of the current round, in the order of emission.
    pub trails: Seq<TrailSegment>,
    /// The handles eliminated in the current round, first to last.
    pub deaths: Seq<usize>,
    /// Points per handle.
    pub scores: Map<usize, u32>,
    /// Runs during the intermission between two rounds.
    pub intermission: Timer,
    /// The age, in nanoseconds, that a trail segment must reach before it
    /// eliminates anybody.
    pub min_trail_life: u64,
}

/// The slots of `n` players as a round starts.
pub open spec fn fresh_players(n: nat) -> Seq<Option<Player>> {
    Seq::new(n, |h: int| Some(Player::spawned(h as usize)))
}

/// The state before any match: no slots, no scores, no time passed.
pub open spec fn idle(min_trail_life: u64) -> SimView {
    SimView {
        min_trail_life,
        round: RoundState::Idle,
        clock: 0,
        players: Seq::empty(),
        trails: Seq::empty(),
        deaths: Seq::empty(),
        scores: zeroed(0),
        intermission: Timer::started(ROUND_END_NANOS, TimerMode::Repeating),
    }
}

impl SimView {
    /// Whether the player with handle `h` is still in the round.
    pub open spec fn alive(self, h: int) -> bool {
        0 <= h < self.players.len() && self.players[h] is Some
    }

    /// The handles of the players still in the round.
    pub open spec fn live_set(self) -> Set<int> {
        Set::new(|h: int| self.alive(h))
    }

    /// Whether `p` may sit in slot `h`: it carries that handle, is
    /// well-formed, and the segment it remembers, if any, is one of the
    /// round's and its own.
    pub open spec fn seats(self, h: int, p: Player) -> bool {
        &&& p.handle == h
        &&& p.wf()
        &&& p.last_trail matches Some(i) ==> i < self.trails.len() && self.trails[i as int].owner
            == h
    }

    /// What holds of the state between any two stages: there are no more
    /// slots than poles; every live player may sit in its slot; the death
    /// stack names each empty slot once and nothing else; every trail
    /// segment belongs to a slot, was not emitted in the future and lies in
    /// range; the ledger has an entry for each slot and no other; and the
    /// intermission timer is the repeating one.
    pub open spec fn wf(self) -> bool {
        &&& self.players.len() <= MAX_PLAYERS
        &&& forall|h: int|
            0 <= h < self.players.len() ==> (#[trigger] self.players[h] matches Some(p)
                ==> self.seats(h, p))
        &&& self.deaths.no_duplicates()
        &&& forall|i: int|
            0 <= i < self.deaths.len() ==> (#[trigger] self.deaths[i]) < self.players.len()
                && self.players[self.deaths[i] as int] is None
        &&& forall|h: int|
            0 <= h < self.players.len() && (#[trigger] self.players[h]) is None
                ==> self.deaths.contains(h as usize)
        &&& forall|i: int|
            0 <= i < self.trails.len() ==> (#[trigger] self.trails[i]).owner < self.players.len()
                && self.trails[i].created_at <= self.clock && self.trails[i].ends.wf()
        &&& forall|h: usize| self.scores.contains_key(h) <==> (h as nat) < self.players.len()
        &&& self.intermission.wf()
        &&& self.intermission.mode == TimerMode::Repeating
        &&& self.intermission.duration == ROUND_END_NANOS
    }

    /// The state right after a match among `n` players has begun: every
    /// slot has a fresh player and no points, the first round runs, and
    /// nothing is left of an earlier match but the time and the
    /// intermission timer.
    pub open spec fn begun(self, n: nat) -> SimView {
        SimView {
            round: RoundState::InRound,
            players: fresh_players(n),
            trails: Seq::empty(),
            deaths: Seq::empty(),
            scores: zeroed(n),
            ..self
        }
    }

    // ---- the players move -------------------------------------------------

    /// The slots after every live player has moved through a step.
    pub open spec fn players_stepped(self, inputs: Seq<Input>, dt: u32) -> Seq<Option<Player>> {
        Seq::new(
            self.players.len(),
            |h: int|
                match self.players[h] {
                    Some(p) => Some(p.stepped(inputs[h], dt)),
                    None => None,
                },
        )
    }

    /// How the caller is to move each live player over the surface.
    pub open spec fn motions(self, inputs: Seq<Input>, dt: u32) -> Seq<Option<Motion>> {
        if self.round == RoundState::InRound {
            Seq::new(
                self.players.len(),
                |h: int|
                    match self.players[h] {
                        Some(p) => Some(p.motion(inputs[h], dt)),
                        None => None,
                    },
            )
        } else {
            Seq::empty()
        }
    }

    /// The state after the first stage of a step in a round: time has
    /// passed and every live player has moved. Outside a round nothing
    /// changes.
    pub open spec fn integrated(self, inputs: Seq<Input>, dt: u32) -> SimView {
        if self.round == RoundState::InRound {
            SimView {
                clock: saturating_sum(self.clock, dt as u64),
                players: self.players_stepped(inputs, dt),
                ..self
            }
        } else {
            self
        }
    }

    // ---- trails are emitted -----------------------------------------------

    /// Whether positions and segment ends fit the state: one of each for
    /// each slot, all coordinates in range.
    pub open spec fn places_fit(self, positions: Seq<Point>, trail_ends: Seq<Segment>) -> bool {
        &&& positions.len() == self.players.len()
        &&& trail_ends.len() == self.players.len()
        &&& forall|h: int| 0 <= h < positions.len() ==> (#[trigger] positions[h]).wf()
        &&& forall|h: int| 0 <= h < trail_ends.len() ==> (#[trigger] trail_ends[h]).wf()
    }

    /// Whether the player with handle `h` emits a segment: it is in the
    /// round and stands farther than `TRAIL_SPAWN_DIST` from where it
    /// emitted its last one.
    pub open spec fn emits(self, positions: Seq<Point>, h: int) -> bool {
        self.alive(h) && positions[h].farther_than_spec(
            self.players[h]->0.last_trail_pos,
            TRAIL_SPAWN_DIST,
        )
    }

    /// The segments emitted by the players with handles below `upto`, in
    /// handle order: each lies where the caller said this player's next
    /// segment would lie, and carries the current time.
    pub open spec fn new_segments(
        self,
        positions: Seq<Point>,
        trail_ends: Seq<Segment>,
        upto: nat,
    ) -> Seq<TrailSegment>
        decreases upto,
    {
        if upto == 0 {
            Seq::empty()
        } else {
            let earlier = self.new_segments(positions, trail_ends, (upto - 1) as nat);
            if self.emits(positions, upto - 1) {
                earlier.push(
                    TrailSegment {
                        owner: (upto - 1) as usize,
                        created_at: self.clock,
                        ends: trail_ends[upto - 1],
                    },
                )
            } else {
                earlier
            }
        }
    }

    /// The slots after emission: each emitting player remembers where it
    /// stands and the index of its new segment.
    pub open spec fn players_emitted(
        self,
        positions: Seq<Point>,
        trail_ends: Seq<Segment>,
    ) -> Seq<Option<Player>> {
        Seq::new(
            self.players.len(),
            |h: int|
                if self.emits(positions, h) {
                    Some(
                        Player {
                            last_trail_pos: positions[h],
                            last_trail: Some(
                                (self.trails.len() + self.new_segments(
                                    positions,
                                    trail_ends,
                                    h as nat,
                                ).len()) as usize,
                            ),
                            ..self.players[h]->0
                        },
                    )
                } else {
                    self.players[h]
                },
        )
    }

    /// The state after the second stage: every live player that has
    /// travelled far enough has emitted a segment stamped with the current
    /// time.
    pub open spec fn emitted(self, positions: Seq<Point>, trail_ends: Seq<Segment>) -> SimView {
        if self.round == RoundState::InRound {
            SimView {
                trails: self.trails + self.new_segments(positions, trail_ends, self.players.len()),
                players: self.players_emitted(positions, trail_ends),
                ..self
            }
        } else {
            self
        }
    }

    // ---- collisions eliminate players -------------------------------------

    /// Whether the segment with index `i` eliminates a player that stands
    /// at `p`: it is old enough, and `p` is nearer to it than `REACH`.
    pub open spec fn hits(self, i: int, p: Point) -> bool {
        &&& 0 <= i < self.trails.len()
        &&& self.trails[i].lethal_at(self.clock, self.min_trail_life)
        &&& self.trails[i].ends.within_reach_spec(p, REACH)
    }

    /// Whether some segment eliminates a player that stands at `p`.
    pub open spec fn struck_at(self, p: Point) -> bool {
        exists|i: int| #[trigger] self.hits(i, p)
    }

    /// Whether the player with handle `h` is eliminated where it stands.
    pub open spec fn falls(self, positions: Seq<Point>, h: int) -> bool {
        self.alive(h) && self.struck_at(positions[h])
    }

    /// The handles below `upto` that are eliminated, in handle order.
    pub open spec fn fallen(self, positions: Seq<Point>, upto: nat) -> Seq<usize>
        decreases upto,
    {
        if upto == 0 {
            Seq::empty()
        } else {
            let earlier = self.fallen(positions, (upto - 1) as nat);
            if self.falls(positions, upto - 1) {
                earlier.push((upto - 1) as usize)
            } else {
                earlier
            }
        }
    }

    /// The slots after the eliminated players have left.
    pub open spec fn players_culled(self, positions: Seq<Point>) -> Seq<Option<Player>> {
        Seq::new(
            self.players.len(),
            |h: int|
                if self.falls(positions, h) {
                    None
                } else {
                    self.players[h]
                },
        )
    }

    /// The state after the third stage: every live player that stands
    /// within reach of a segment old enough has left the round, and its
    /// handle has been put on the death stack, lower handles first.
    pub open spec fn collided(self, positions: Seq<Point>) -> SimView {
        if self.round == RoundState::InRound {
            SimView {
                players: self.players_culled(positions),
                deaths: self.deaths + self.fallen(positions, self.players.len()),
                ..self
            }
        } else {
            self
        }
    }

    // ---- the round is judged ----------------------------------------------

    /// Whether at most one player is left.
    pub open spec fn decided(self) -> bool {
        forall|i: int, j: int| self.alive(i) && self.alive(j) ==> i == j
    }

    /// The last player standing, if anybody is left.
    pub open spec fn survivor(self) -> Option<usize> {
        if exists|h: int| self.alive(h) {
            Some((choose|h: int| self.alive(h)) as usize)
        } else {
            None
        }
    }

    /// The state after the fourth stage: where at most one player is left
    /// in a round, the round has paid out and the intermission begins.
    pub open spec fn judged(self) -> SimView {
        if self.round == RoundState::InRound && self.decided() {
            SimView {
                round: RoundState::RoundEnd,
                scores: settled(self.scores, self.players.len(), self.survivor(), self.deaths),
                ..self
            }
        } else {
            self
        }
    }

    // ---- between rounds ---------------------------------------------------

    /// The state as the next round starts: all players are back, no trail
    /// and no elimination is left over, and the scores stand.
    pub open spec fn respawned(self) -> SimView {
        SimView {
            round: RoundState::InRound,
            players: fresh_players(self.players.len()),
            trails: Seq::empty(),
            deaths: Seq::empty(),
            ..self
        }
    }

    /// The state after `dt` nanoseconds on the clock and on the
    /// intermission timer.
    pub open spec fn waited(self, dt: u32) -> SimView {
        SimView {
            clock: saturating_sum(self.clock, dt as u64),
            intermission: self.intermission.ticked(dt as u64),
            ..self
        }
    }

    /// Whether the intermission ends within the next `dt` nanoseconds.
    pub open spec fn intermission_ends(self, dt: u32) -> bool {
        self.round == RoundState::RoundEnd && self.intermission.ticked(dt as u64).just_finished
    }

    /// The state after a step between rounds: time has passed, and where
    /// the intermission has run out the next round has started.
    pub open spec fn rested(self, dt: u32) -> SimView {
        if self.round == RoundState::RoundEnd {
            if self.intermission_ends(dt) {
                self.waited(dt).respawned()
            } else {
                self.waited(dt)
            }
        } else {
            self
        }
    }
}

/// What one step is given: the players' inputs by handle, the step's
/// duration, and where the step's motion carries each player.
pub struct FrameView {
    pub inputs: Seq<Input>,
    /// Nanoseconds that the step lasts.
    pub dt: u32,
    /// By handle: where the player stands once moved.
    pub positions: Seq<Point>,
    /// By handle: the two ends of the segment that the player emits if it
    /// emits one in this step.
    pub trail_ends: Seq<Segment>,
}

impl FrameView {
    /// Whether the frame fits a match of `n` slots: it has an input, a
    /// position and a pair of ends for each slot, all coordinates in
    /// range.
    pub open spec fn fits(self, n: nat) -> bool {
        &&& self.inputs.len() == n
        &&& self.positions.len() == n
        &&& self.trail_ends.len() == n
        &&& forall|h: int| 0 <= h < n ==> (#[trigger] self.positions[h]).wf()
        &&& forall|h: int| 0 <= h < n ==> (#[trigger] self.trail_ends[h]).wf()
    }
}

impl SimView {
    /// The state after one whole step.
    pub open spec fn advanced(self, frame: FrameView) -> SimView {
        match self.round {
            RoundState::Idle => self,
            RoundState::InRound => self.integrated(frame.inputs, frame.dt).emitted(
                frame.positions,
                frame.trail_ends,
            ).collided(frame.positions).judged(),
            RoundState::RoundEnd => self.rested(frame.dt),
        }
    }

    /// The state after the steps of `frames`, one after the other.
    pub open spec fn run(self, frames: Seq<FrameView>) -> SimView
        decreases frames.len(),
    {
        if frames.len() == 0 {
            self
        } else {
            self.run(frames.drop_last()).advanced(frames.last())
        }
    }
}

} // verus!
