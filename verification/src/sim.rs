//! The simulation: the state that a session owns, and the stages that carry
//! it through a step.

use crate::arena::{
    fresh_players, idle, FrameView, RoundState, SimView, TrailSegment, MIN_TRAIL_LIFE_NANOS,
    ROUND_END_NANOS,
};
use crate::geometry::{Point, Segment, REACH, TRAIL_SPAWN_DIST};
use crate::input::Input;
use crate::ledger::{listed, Scores};
use crate::player::{Motion, Player};
use crate::spawn::MAX_PLAYERS;
use crate::timer::{Timer, TimerMode};
use vstd::prelude::*;

verus! {

/// Why a match could not be set up.
#[derive(Clone, Copy, Debug, PartialEq, Eq, Structural)]
pub enum SetupError {
    /// More players were asked for than there are slots.
    TooManyPlayers,
}

/// What one step is given: the inputs by handle, the step's duration in
/// nanoseconds, and where the step's motion carries each player.
#[derive(Clone, Debug)]
pub struct Frame {
    /// One input for each slot, by handle.
    pub inputs: Vec<Input>,
    /// Nanoseconds that the step lasts.
    pub dt: u32,
    /// By handle: where the player stands once moved. The entry of an
    /// eliminated player is not read.
    pub positions: Vec<Point>,
    /// By handle: the two ends of the segment that the player emits if it
    /// emits one in this step.
    pub trail_ends: Vec<Segment>,
}

impl View for Frame {
    type V = FrameView;

    open spec fn view(&self) -> FrameView {
        FrameView {
            inputs: self.inputs@,
            dt: self.dt,
            positions: self.positions@,
            trail_ends: self.trail_ends@,
        }
    }
}

impl Frame {
    /// Tests whether the frame fits a match of `n` slots: it has an input,
    /// a position and a pair of ends for each slot, all coordinates in
    /// range.
    pub fn is_fit(&self, n: usize) -> (r: bool)
        ensures
            r == self@.fits(n as nat),
    {
        if self.inputs.len() != n || self.positions.len() != n || self.trail_ends.len() != n {
            return false;
        }
        let mut h: usize = 0;
        while h < n
            invariant
                h <= n,
                self.positions@.len() == n,
                self.trail_ends@.len() == n,
                forall|k: int| 0 <= k < h ==> (#[trigger] self.positions@[k]).wf(),
                forall|k: int| 0 <= k < h ==> (#[trigger] self.trail_ends@[k]).wf(),
            decreases n - h,
        {
            if !self.positions[h].in_range() || !self.trail_ends[h].in_range() {
                return false;
            }
            h = h + 1;
        }
        true
    }
}

/// What each of `frames` is given, in their order.
pub open spec fn frame_views(frames: Seq<Frame>) -> Seq<FrameView> {
    Seq::new(frames.len(), |i: int| frames[i]@)
}

/// Everything the simulation holds, laid open as plain values: what a
/// session stores at a step and hands back to resume from it.
#[derive(Clone, Debug, PartialEq, Eq)]
pub struct Snapshot {
    pub round: RoundState,
    pub clock: u64,
    /// The slots by handle; an eliminated player leaves its slot empty.
    pub players: Vec<Option<Player>>,
    pub trails: Vec<TrailSegment>,
    /// The handles eliminated in the round, first to last.
    pub deaths: Vec<usize>,
    /// The points by handle.
    pub scores: Vec<u32>,
    pub intermission: Timer,
    /// The age, in nanoseconds, that a trail segment must reach before it
    /// eliminates anybody.
    pub min_trail_life: u64,
}

impl View for Snapshot {
    type V = SimView;

    open spec fn view(&self) -> SimView {
        SimView {
            round: self.round,
            clock: self.clock,
            players: self.players@,
            trails: self.trails@,
            deaths: self.deaths@,
            scores: listed(self.scores@),
            intermission: self.intermission,
            min_trail_life: self.min_trail_life,
        }
    }
}

impl Snapshot {
    /// Whether a state can be resumed from the snapshot: it has points for
    /// each slot and for no other, and the state it lays open is
    /// well-formed.
    pub open spec fn valid(&self) -> bool {
        self.scores@.len() == self.players@.len() && self@.wf()
    }
}

/// The simulation's state. Only the functions of this module change it.
pub struct SimState {
    round: RoundState,
    clock: u64,
    players: Vec<Option<Player>>,
    trails: Vec<TrailSegment>,
    deaths: Vec<usize>,
    scores: Scores,
    intermission: Timer,
    min_trail_life: u64,
}

impl View for SimState {
    type V = SimView;

    closed spec fn view(&self) -> SimView {
        SimView {
            round: self.round,
            clock: self.clock,
            players: self.players@,
            trails: self.trails@,
            deaths: self.deaths@,
            scores: self.scores@,
            intermission: self.intermission,
            min_trail_life: self.min_trail_life,
        }
    }
}

impl SimState {
    /// What holds of every state that this module hands out.
    pub closed spec fn wf(&self) -> bool {
        &&& self@.wf()
        &&& self.scores.wf()
        &&& self.scores.slots() == self.players@.len()
    }

    /// A well-formed state has a well-formed value.
    pub proof fn lemma_wf(&self)
        requires
            self.wf(),
        ensures
            self@.wf(),
    {
    }

    /// The state before any match: no slots, no scores, and the usual
    /// grace for young trail segments.
    pub fn new() -> (s: SimState)
        ensures
            s.wf(),
            s@ == idle(MIN_TRAIL_LIFE_NANOS),
    {
        SimState::with_min_trail_life(MIN_TRAIL_LIFE_NANOS)
    }

    /// The state before any match, for a simulation in which a trail
    /// segment eliminates nobody before it is `min_trail_life` nanoseconds
    /// old.
    pub fn with_min_trail_life(min_trail_life: u64) -> (s: SimState)
        ensures
            s.wf(),
            s@ == idle(min_trail_life),
    {
        let s = SimState {
            min_trail_life,
            round: RoundState::Idle,
            clock: 0,
            players: Vec::new(),
            trails: Vec::new(),
            deaths: Vec::new(),
            scores: Scores::new(),
            intermission: Timer::new(ROUND_END_NANOS, TimerMode::Repeating),
        };
        proof {
            assert(s@.players =~= Seq::empty());
            assert(s@.trails =~= Seq::empty());
            assert(s@.deaths =~= Seq::empty());
            assert(s@.scores =~= crate::ledger::zeroed(0));
        }
        s
    }

    /// Puts a player on each of `n` slots.
    fn spawn_players(&mut self, n: usize)
        requires
            n <= MAX_PLAYERS,
        ensures
            final(self).players@ == fresh_players(n as nat),
            final(self).round == old(self).round,
            final(self).clock == old(self).clock,
            final(self).trails == old(self).trails,
            final(self).deaths == old(self).deaths,
            final(self).scores == old(self).scores,
            final(self).intermission == old(self).intermission,
            final(self).min_trail_life == old(self).min_trail_life,
    {
        self.players.clear();
        let mut h: usize = 0;
        while h < n
            invariant
                h <= n,
                n <= MAX_PLAYERS,
                self.players@ == fresh_players(h as nat),
                self.round == old(self).round,
                self.clock == old(self).clock,
                self.trails == old(self).trails,
                self.deaths == old(self).deaths,
                self.scores == old(self).scores,
                self.intermission == old(self).intermission,
                self.min_trail_life == old(self).min_trail_life,
            decreases n - h,
        {
            self.players.push(Some(Player::spawn(h)));
            h = h + 1;
            assert(self.players@ =~= fresh_players(h as nat));
        }
    }

    /// Starts a round: whatever is left of the players and the trails is
    /// cleared away, every slot gets a fresh player on its pole, and the
    /// death stack is emptied. The scores, the time and the intermission
    /// timer stand.
    pub fn spawn_round(&mut self)
        requires
            old(self).wf(),
        ensures
            final(self).wf(),
            final(self)@ == old(self)@.respawned(),
    {
        proof {
            crate::laws::lemma_respawned_wf(self@);
        }
        let n: usize = self.players.len();
        self.spawn_players(n);
        self.trails.clear();
        self.deaths.clear();
        self.round = RoundState::InRound;
        proof {
            assert(self@.trails =~= Seq::empty());
            assert(self@.deaths =~= Seq::empty());
        }
    }

    /// Begins a match among `num_players`: every slot gets a fresh player
    /// and zero points, trails and death stack are emptied, and the first
    /// round starts; the time and the intermission timer stand. More than
    /// `MAX_PLAYERS` is refused, and the state stays as it was.
    pub fn begin_match(&mut self, num_players: usize) -> (r: Result<(), SetupError>)
        requires
            old(self).wf(),
        ensures
            final(self).wf(),
            r is Ok <==> num_players <= MAX_PLAYERS,
            r is Ok ==> final(self)@ == old(self)@.begun(num_players as nat),
            r is Err ==> r == Err::<(), SetupError>(SetupError::TooManyPlayers) && final(self)@
                == old(self)@,
    {
        if num_players > MAX_PLAYERS {
            return Err(SetupError::TooManyPlayers);
        }
        self.spawn_players(num_players);
        self.trails.clear();
        self.deaths.clear();
        self.scores.reset(num_players);
        self.round = RoundState::InRound;
        proof {
            assert(self@.trails =~= Seq::empty());
            assert(self@.deaths =~= Seq::empty());
            assert(self@ == old(self)@.begun(num_players as nat));
            crate::laws::lemma_begun_wf(old(self)@, num_players as nat);
        }
        Ok(())
    }

    /// The first stage of a step in a round: time passes, and every live
    /// player moves through the step under its input. Returns, by handle,
    /// how the caller is to move each live player over the surface. Outside
    /// a round nothing changes and nothing is returned.
    pub fn integrate(&mut self, inputs: &Vec<Input>, dt: u32) -> (motions: Vec<Option<Motion>>)
        requires
            old(self).wf(),
            inputs@.len() == old(self)@.players.len(),
        ensures
            final(self).wf(),
            final(self)@ == old(self)@.integrated(inputs@, dt),
            motions@ == old(self)@.motions(inputs@, dt),
    {
        let mut motions: Vec<Option<Motion>> = Vec::new();
        if self.round != RoundState::InRound {
            assert(motions@ =~= old(self)@.motions(inputs@, dt));
            return motions;
        }
        self.clock = self.clock.saturating_add(dt as u64);
        let n: usize = self.players.len();
        let mut h: usize = 0;
        while h < n
            invariant
                h <= n,
                n == self.players@.len(),
                n == old(self).players@.len(),
                n == inputs@.len(),
                old(self)@.wf(),
                motions@.len() == h,
                forall|k: int|
                    0 <= k < h ==> motions@[k] == old(self)@.motions(inputs@, dt)[k],
                forall|k: int|
                    0 <= k < h ==> self.players@[k] == old(self)@.players_stepped(inputs@, dt)[k],
                forall|k: int| h <= k < n ==> self.players@[k] == old(self).players@[k],
                old(self).round == RoundState::InRound,
                self.round == old(self).round,
                self.trails == old(self).trails,
                self.deaths == old(self).deaths,
                self.scores == old(self).scores,
                self.intermission == old(self).intermission,
                self.min_trail_life == old(self).min_trail_life,
                self.clock == crate::timer::saturating_sum(old(self).clock, dt as u64),
            decreases n - h,
        {
            match self.players[h] {
                Some(p) => {
                    let mut q = p;
                    let m = q.step(inputs[h], dt);
                    self.players.set(h, Some(q));
                    motions.push(Some(m));
                },
                None => {
                    motions.push(None);
                },
            }
            h = h + 1;
        }
        proof {
            assert(motions@ =~= old(self)@.motions(inputs@, dt));
            assert(self.players@ =~= old(self)@.players_stepped(inputs@, dt));
            assert(self@ == old(self)@.integrated(inputs@, dt));
            crate::laws::lemma_integrated_wf(old(self)@, inputs@, dt);
        }
        motions
    }

    /// The second stage of a step in a round. `positions` holds, by handle,
    /// where the motion of the first stage has carried each player. Every
    /// live player that stands farther than `TRAIL_SPAWN_DIST` from where it
    /// emitted its last segment emits one, lower handles first: the segment
    /// lies between the ends that `trail_ends` holds for the player and is
    /// stamped with the current time, and the player remembers it and where
    /// it stands. Returns the handles that emitted, in the order of their
    /// segments. Outside a round nothing changes and nothing is returned.
    pub fn emit_trails(&mut self, positions: &Vec<Point>, trail_ends: &Vec<Segment>) -> (emitters:
        Vec<usize>)
        requires
            old(self).wf(),
            old(self)@.places_fit(positions@, trail_ends@),
        ensures
            final(self).wf(),
            final(self)@ == old(self)@.emitted(positions@, trail_ends@),
            final(self)@.trails.len() == old(self)@.trails.len() + emitters@.len(),
            forall|k: int|
                0 <= k < emitters@.len() ==> emitters@[k] == (#[trigger] final(self)@.trails[old(
                    self,
                )@.trails.len() + k]).owner,
    {
        let mut emitters: Vec<usize> = Vec::new();
        if self.round != RoundState::InRound {
            return emitters;
        }
        let ghost before = self@;
        let n: usize = self.players.len();
        let mut h: usize = 0;
        while h < n
            invariant
                h <= n,
                n == self.players@.len(),
                n == before.players.len(),
                before == old(self)@,
                before.wf(),
                before.places_fit(positions@, trail_ends@),
                before.round == RoundState::InRound,
                self.trails@ == before.trails + before.new_segments(
                    positions@,
                    trail_ends@,
                    h as nat,
                ),
                emitters@.len() == before.new_segments(positions@, trail_ends@, h as nat).len(),
                forall|k: int|
                    0 <= k < emitters@.len() ==> emitters@[k] == (#[trigger] before.new_segments(
                        positions@,
                        trail_ends@,
                        h as nat,
                    )[k]).owner,
                forall|k: int|
                    0 <= k < h ==> self.players@[k] == before.players_emitted(
                        positions@,
                        trail_ends@,
                    )[k],
                forall|k: int| h <= k < n ==> self.players@[k] == before.players[k],
                self.round == old(self).round,
                self.clock == old(self).clock,
                self.deaths == old(self).deaths,
                self.scores == old(self).scores,
                self.intermission == old(self).intermission,
                self.min_trail_life == old(self).min_trail_life,
            decreases n - h,
        {
            match self.players[h] {
                Some(p) => {
                    assert(before.players[h as int] == Some(p));
                    assert(p.wf());
                    assert(positions@[h as int].wf());
                    if positions[h].farther_than(&p.last_trail_pos, TRAIL_SPAWN_DIST) {
                        let index: usize = self.trails.len();
                        self.trails.push(
                            TrailSegment { owner: h, created_at: self.clock, ends: trail_ends[h] },
                        );
                        let mut q = p;
                        q.last_trail_pos = positions[h];
                        q.last_trail = Some(index);
                        self.players.set(h, Some(q));
                        emitters.push(h);
                    }
                },
                None => {},
            }
            h = h + 1;
            assert(self.trails@ =~= before.trails + before.new_segments(
                positions@,
                trail_ends@,
                h as nat,
            ));
        }
        let total: usize = self.trails.len();
        proof {
            assert(self.players@ =~= before.players_emitted(positions@, trail_ends@));
            assert(self@ == before.emitted(positions@, trail_ends@));
            assert(before.trails.len() + before.new_segments(
                positions@,
                trail_ends@,
                n as nat,
            ).len() == total);
            crate::laws::lemma_emitted_wf(before, positions@, trail_ends@);
        }
        emitters
    }

    /// Tests whether some trail segment eliminates a player that stands at
    /// `p`: one that is old enough and nearer to `p` than `REACH`.
    pub fn is_struck(&self, p: &Point) -> (r: bool)
        requires
            self.wf(),
            p.wf(),
        ensures
            r == self@.struck_at(*p),
    {
        let mut i: usize = 0;
        while i < self.trails.len()
            invariant
                i <= self.trails.len(),
                self.wf(),
                p.wf(),
                forall|k: int| 0 <= k < i ==> !self@.hits(k, *p),
            decreases self.trails.len() - i,
        {
            let segment = self.trails[i];
            assert(self@.trails[i as int] == segment);
            assert(segment.created_at <= self.clock && segment.ends.wf());
            if self.clock - segment.created_at >= self.min_trail_life
                && segment.ends.within_reach(p, REACH) {
                assert(self@.hits(i as int, *p));
                return true;
            }
            i = i + 1;
        }
        assert forall|k: int| !(#[trigger] self@.hits(k, *p)) by {}
        false
    }

    /// The third stage of a step in a round. `positions` holds, by handle,
    /// where each player stands. Every live player that stands nearer than
    /// `REACH` to a segment that has reached the minimum life leaves the
    /// round, and its handle goes onto the death stack, lower handles
    /// first. A younger segment eliminates nobody. Returns the handles eliminated. Outside a round nothing
    /// changes and nothing is returned.
    pub fn resolve_collisions(&mut self, positions: &Vec<Point>) -> (eliminated: Vec<usize>)
        requires
            old(self).wf(),
            positions@.len() == old(self)@.players.len(),
            forall|h: int| 0 <= h < positions@.len() ==> (#[trigger] positions@[h]).wf(),
        ensures
            final(self).wf(),
            final(self)@ == old(self)@.collided(positions@),
            eliminated@ == (if old(self)@.round == RoundState::InRound {
                old(self)@.fallen(positions@, old(self)@.players.len())
            } else {
                Seq::empty()
            }),
    {
        let mut eliminated: Vec<usize> = Vec::new();
        if self.round != RoundState::InRound {
            return eliminated;
        }
        let ghost before = self@;
        let n: usize = self.players.len();
        let mut struck: Vec<bool> = Vec::new();
        let mut h: usize = 0;
        while h < n
            invariant
                h <= n,
                n == self@.players.len(),
                n == positions@.len(),
                self.wf(),
                forall|k: int| 0 <= k < positions@.len() ==> (#[trigger] positions@[k]).wf(),
                struck@.len() == h,
                forall|k: int|
                    0 <= k < h ==> (#[trigger] struck@[k]) == self@.struck_at(positions@[k]),
            decreases n - h,
        {
            assert(positions@[h as int].wf());
            let hit = self.is_struck(&positions[h]);
            struck.push(hit);
            h = h + 1;
        }
        let mut h: usize = 0;
        while h < n
            invariant
                h <= n,
                n == self.players@.len(),
                n == before.players.len(),
                n == struck@.len(),
                before == old(self)@,
                before.round == RoundState::InRound,
                forall|k: int|
                    0 <= k < n ==> (#[trigger] struck@[k]) == before.struck_at(positions@[k]),
                self.deaths@ == before.deaths + before.fallen(positions@, h as nat),
                eliminated@ == before.fallen(positions@, h as nat),
                forall|k: int|
                    0 <= k < h ==> self.players@[k] == before.players_culled(positions@)[k],
                forall|k: int| h <= k < n ==> self.players@[k] == before.players[k],
                self.round == old(self).round,
                self.clock == old(self).clock,
                self.trails == old(self).trails,
                self.scores == old(self).scores,
                self.intermission == old(self).intermission,
                self.min_trail_life == old(self).min_trail_life,
            decreases n - h,
        {
            let alive = match self.players[h] {
                Some(_) => true,
                None => false,
            };
            if alive && struck[h] {
                self.players.set(h, None);
                self.deaths.push(h);
                eliminated.push(h);
            }
            h = h + 1;
            assert(self.deaths@ =~= before.deaths + before.fallen(positions@, h as nat));
        }
        proof {
            assert(self.players@ =~= before.players_culled(positions@));
            assert(self@ == before.collided(positions@));
            crate::laws::lemma_collided_wf(before, positions@);
        }
        eliminated
    }

    /// The fourth stage of a step in a round: where at most one player is
    /// left, the round pays out and the intermission begins. The survivor,
    /// if there is one, gets one point less than there are slots; the
    /// eliminated get, from the last to the first, two less than there are
    /// slots, then one less each, never less than zero. Returns whether
    /// the round ended.
    pub fn evaluate_round(&mut self) -> (ended: bool)
        requires
            old(self).wf(),
        ensures
            final(self).wf(),
            final(self)@ == old(self)@.judged(),
            ended == (old(self)@.round == RoundState::InRound && old(self)@.decided()),
    {
        if self.round != RoundState::InRound {
            return false;
        }
        let n: usize = self.players.len();
        let mut first: Option<usize> = None;
        let mut several = false;
        let mut h: usize = 0;
        while h < n
            invariant
                h <= n,
                n == self@.players.len(),
                first is None ==> forall|k: int| 0 <= k < h ==> !self@.alive(k),
                first matches Some(a) ==> a < h && self@.alive(a as int),
                !several ==> forall|k: int|
                    0 <= k < h && self@.alive(k) ==> first == Some(k as usize),
                several ==> exists|i: int, j: int| self@.alive(i) && self@.alive(j) && i != j,
            decreases n - h,
        {
            match self.players[h] {
                Some(_) => {
                    match first {
                        Some(a) => {
                            several = true;
                            assert(self@.alive(a as int) && self@.alive(h as int));
                        },
                        None => {
                            first = Some(h);
                        },
                    }
                },
                None => {},
            }
            h = h + 1;
        }
        if several {
            return false;
        }
        proof {
            assert(self@.decided());
            crate::laws::lemma_survivor(self@);
            if first is Some {
                assert(self@.alive(first->0 as int));
            }
            assert(first == self@.survivor());
        }
        self.scores.settle_round(n as u32, first, &self.deaths);
        self.round = RoundState::RoundEnd;
        true
    }

    /// A step between rounds: time passes and the intermission runs. Where
    /// it runs out, the next round starts: every slot gets a fresh player,
    /// no trail segment and no elimination is left over, and the scores
    /// stand. Returns whether the next round started. Outside an
    /// intermission nothing changes.
    pub fn intermission(&mut self, dt: u32) -> (restarted: bool)
        requires
            old(self).wf(),
        ensures
            final(self).wf(),
            final(self)@ == old(self)@.rested(dt),
            restarted == old(self)@.intermission_ends(dt),
    {
        if self.round != RoundState::RoundEnd {
            return false;
        }
        proof {
            crate::laws::lemma_waited_wf(self@, dt);
        }
        self.clock = self.clock.saturating_add(dt as u64);
        self.intermission.tick(dt as u64);
        if self.intermission.just_finished() {
            self.spawn_round();
            true
        } else {
            false
        }
    }

    /// One whole step: in a round the four stages in order, between rounds
    /// the intermission, before a match nothing.
    pub fn advance(&mut self, frame: &Frame)
        requires
            old(self).wf(),
            frame@.fits(old(self)@.players.len()),
        ensures
            final(self).wf(),
            final(self)@ == old(self)@.advanced(frame@),
            final(self)@.players.len() == old(self)@.players.len(),
    {
        match self.round {
            RoundState::Idle => {},
            RoundState::InRound => {
                self.integrate(&frame.inputs, frame.dt);
                self.emit_trails(&frame.positions, &frame.trail_ends);
                self.resolve_collisions(&frame.positions);
                self.evaluate_round();
            },
            RoundState::RoundEnd => {
                self.intermission(frame.dt);
            },
        }
    }

    /// Runs the steps of `frames`, one after the other.
    pub fn replay(&mut self, frames: &Vec<Frame>)
        requires
            old(self).wf(),
            forall|i: int|
                0 <= i < frames@.len() ==> (#[trigger] frames@[i])@.fits(old(self)@.players.len()),
        ensures
            final(self).wf(),
            final(self)@ == old(self)@.run(frame_views(frames@)),
            final(self)@.players.len() == old(self)@.players.len(),
    {
        let ghost before = self@;
        let mut i: usize = 0;
        while i < frames.len()
            invariant
                i <= frames.len(),
                self.wf(),
                before == old(self)@,
                self@.players.len() == before.players.len(),
                forall|k: int|
                    0 <= k < frames@.len() ==> (#[trigger] frames@[k])@.fits(before.players.len()),
                self@ == before.run(frame_views(frames@.take(i as int))),
            decreases frames.len() - i,
        {
            proof {
                let done = frame_views(frames@.take(i as int));
                let next = frame_views(frames@.take(i + 1));
                assert(next.drop_last() =~= done);
                assert(next.last() == frames@[i as int]@);
            }
            self.advance(&frames[i]);
            i = i + 1;
        }
        assert(frames@.take(i as int) =~= frames@);
    }

    /// Lays the whole state open as plain values.
    pub fn snapshot(&self) -> (snap: Snapshot)
        requires
            self.wf(),
        ensures
            snap@ == self@,
            snap.valid(),
    {
        let scores = self.scores.in_order();
        let snap = Snapshot {
            round: self.round,
            clock: self.clock,
            players: copy_slots(&self.players),
            trails: copy_trails(&self.trails),
            deaths: self.deaths.clone(),
            scores,
            intermission: self.intermission,
            min_trail_life: self.min_trail_life,
        };
        assert(snap@.scores =~= self@.scores);
        snap
    }

    /// Resumes from a snapshot. A snapshot that is not valid, as one that
    /// was cut short or tampered with, gives `None`.
    pub fn restore(snap: &Snapshot) -> (r: Option<SimState>)
        ensures
            r is Some <==> snap.valid(),
            r matches Some(s) ==> s.wf() && s@ == snap@,
    {
        if !snap.is_valid() {
            return None;
        }
        let state = SimState {
            round: snap.round,
            clock: snap.clock,
            players: copy_slots(&snap.players),
            trails: copy_trails(&snap.trails),
            deaths: snap.deaths.clone(),
            scores: Scores::from_points(&snap.scores),
            intermission: snap.intermission,
            min_trail_life: snap.min_trail_life,
        };
        Some(state)
    }

    /// Where the match stands.
    pub fn round_state(&self) -> (r: RoundState)
        ensures
            r == self@.round,
    {
        self.round
    }

    /// Simulation time in nanoseconds.
    pub fn clock(&self) -> (r: u64)
        ensures
            r == self@.clock,
    {
        self.clock
    }

    /// Number of slots in the match.
    pub fn num_players(&self) -> (n: usize)
        ensures
            n == self@.players.len(),
    {
        self.players.len()
    }

    /// The player with this handle, if it is still in the round.
    pub fn player(&self, handle: usize) -> (r: Option<Player>)
        ensures
            r == (if handle < self@.players.len() {
                self@.players[handle as int]
            } else {
                None
            }),
    {
        if handle < self.players.len() {
            self.players[handle]
        } else {
            None
        }
    }

    /// Number of trail segments in the round.
    pub fn trail_count(&self) -> (n: usize)
        ensures
            n == self@.trails.len(),
    {
        self.trails.len()
    }

    /// The trail segment with this index, if there is one.
    pub fn trail(&self, index: usize) -> (r: Option<TrailSegment>)
        ensures
            r == (if index < self@.trails.len() {
                Some(self@.trails[index as int])
            } else {
                None
            }),
    {
        if index < self.trails.len() {
            Some(self.trails[index])
        } else {
            None
        }
    }

    /// The handles eliminated in this round, first to last.
    pub fn death_stack(&self) -> (r: Vec<usize>)
        ensures
            r@ == self@.deaths,
    {
        self.deaths.clone()
    }

    /// The points of `handle`, or `None` where it has no slot.
    pub fn score(&self, handle: usize) -> (r: Option<u32>)
        ensures
            r == (if self@.scores.contains_key(handle) {
                Some(self@.scores[handle])
            } else {
                None
            }),
    {
        self.scores.get(handle)
    }

    /// The points of all slots, by handle in ascending order.
    pub fn scores_in_order(&self) -> (r: Vec<u32>)
        requires
            self.wf(),
        ensures
            r@.len() == self@.players.len(),
            forall|h: usize| h < r@.len() ==> r@[h as int] == self@.scores[h],
    {
        self.scores.in_order()
    }
}

/// A copy of the slots.
fn copy_slots(slots: &Vec<Option<Player>>) -> (r: Vec<Option<Player>>)
    ensures
        r@ == slots@,
{
    let mut out: Vec<Option<Player>> = Vec::new();
    let mut i: usize = 0;
    while i < slots.len()
        invariant
            i <= slots.len(),
            out@ == slots@.take(i as int),
        decreases slots.len() - i,
    {
        out.push(slots[i]);
        i = i + 1;
        assert(out@ =~= slots@.take(i as int));
    }
    assert(slots@.take(i as int) =~= slots@);
    out
}

/// A copy of the trail segments.
fn copy_trails(trails: &Vec<TrailSegment>) -> (r: Vec<TrailSegment>)
    ensures
        r@ == trails@,
{
    let mut out: Vec<TrailSegment> = Vec::new();
    let mut i: usize = 0;
    while i < trails.len()
        invariant
            i <= trails.len(),
            out@ == trails@.take(i as int),
        decreases trails.len() - i,
    {
        out.push(trails[i]);
        i = i + 1;
        assert(out@ =~= trails@.take(i as int));
    }
    assert(trails@.take(i as int) =~= trails@);
    out
}

/// Tests that every live player of a snapshot is well-formed, sits in its
/// own slot, and remembers a segment of its own.
fn players_are_valid(snap: &Snapshot) -> (r: bool)
    ensures
        r == (forall|h: int|
            0 <= h < snap@.players.len() ==> (#[trigger] snap@.players[h] matches Some(p)
                ==> snap@.seats(h, p))),
{
    let mut h: usize = 0;
    while h < snap.players.len()
        invariant
            h <= snap.players.len(),
            forall|k: int|
                0 <= k < h ==> (#[trigger] snap@.players[k] matches Some(p)
                    ==> snap@.seats(k, p)),
        decreases snap.players.len() - h,
    {
        match snap.players[h] {
            Some(p) => {
                let remembers_own = match p.last_trail {
                    Some(i) => i < snap.trails.len() && snap.trails[i].owner == h,
                    None => true,
                };
                if !(p.handle == h && p.is_wf() && remembers_own) {
                    assert(snap@.players[h as int] is Some);
                    return false;
                }
            },
            None => {},
        }
        h = h + 1;
    }
    true
}

/// Tests that the death stack of a snapshot names each empty slot once and
/// nothing else.
fn deaths_are_valid(snap: &Snapshot) -> (r: bool)
    ensures
        r == {
            &&& snap@.deaths.no_duplicates()
            &&& forall|i: int|
                0 <= i < snap@.deaths.len() ==> (#[trigger] snap@.deaths[i]) < snap@.players.len()
                    && snap@.players[snap@.deaths[i] as int] is None
            &&& forall|h: int|
                0 <= h < snap@.players.len() && (#[trigger] snap@.players[h]) is None
                    ==> snap@.deaths.contains(h as usize)
        },
{
    let n: usize = snap.players.len();
    let mut named: Vec<bool> = Vec::new();
    let mut h: usize = 0;
    while h < n
        invariant
            h <= n,
            named@.len() == h,
            forall|k: int| 0 <= k < h ==> !(#[trigger] named@[k]),
        decreases n - h,
    {
        named.push(false);
        h = h + 1;
    }
    let mut i: usize = 0;
    while i < snap.deaths.len()
        invariant
            i <= snap.deaths.len(),
            n == snap@.players.len(),
            named@.len() == n,
            forall|a: int, b: int| 0 <= a < b < i ==> snap@.deaths[a] != snap@.deaths[b],
            forall|a: int|
                0 <= a < i ==> (#[trigger] snap@.deaths[a]) < n
                    && snap@.players[snap@.deaths[a] as int] is None,
            forall|k: int|
                0 <= k < n ==> (#[trigger] named@[k]) == (exists|a: int|
                    0 <= a < i && snap@.deaths[a] == k),
        decreases snap.deaths.len() - i,
    {
        let d: usize = snap.deaths[i];
        if d >= n {
            return false;
        }
        let empty = match snap.players[d] {
            Some(_) => false,
            None => true,
        };
        if !empty {
            return false;
        }
        if named[d] {
            proof {
                let a = choose|a: int| 0 <= a < i && snap@.deaths[a] == d;
                assert(snap@.deaths[a] == snap@.deaths[i as int]);
            }
            return false;
        }
        named.set(d, true);
        i = i + 1;
    }
    let mut h: usize = 0;
    while h < n
        invariant
            h <= n,
            n == snap@.players.len(),
            named@.len() == n,
            forall|k: int|
                0 <= k < n ==> (#[trigger] named@[k]) == (exists|a: int|
                    0 <= a < snap@.deaths.len() && snap@.deaths[a] == k),
            forall|k: int|
                0 <= k < h && (#[trigger] snap@.players[k]) is None ==> snap@.deaths.contains(
                    k as usize,
                ),
        decreases n - h,
    {
        let empty = match snap.players[h] {
            Some(_) => false,
            None => true,
        };
        if empty && !named[h] {
            proof {
                if snap@.deaths.contains(h) {
                    let a = choose|a: int| 0 <= a < snap@.deaths.len() && snap@.deaths[a] == h;
                    assert(named@[h as int]);
                }
            }
            return false;
        }
        proof {
            if empty {
                let a = choose|a: int| 0 <= a < snap@.deaths.len() && snap@.deaths[a] == h;
                assert(snap@.deaths[a] == h);
            }
        }
        h = h + 1;
    }
    true
}

/// Tests that every trail segment of a snapshot belongs to a slot, was
/// not emitted in the future, and lies in range.
fn trails_are_valid(snap: &Snapshot) -> (r: bool)
    ensures
        r == (forall|i: int|
            0 <= i < snap@.trails.len() ==> (#[trigger] snap@.trails[i]).owner
                < snap@.players.len() && snap@.trails[i].created_at <= snap@.clock
                && snap@.trails[i].ends.wf()),
{
    let mut i: usize = 0;
    while i < snap.trails.len()
        invariant
            i <= snap.trails.len(),
            forall|k: int|
                0 <= k < i ==> (#[trigger] snap@.trails[k]).owner < snap@.players.len()
                    && snap@.trails[k].created_at <= snap@.clock && snap@.trails[k].ends.wf(),
        decreases snap.trails.len() - i,
    {
        let segment = snap.trails[i];
        if !(segment.owner < snap.players.len() && segment.created_at <= snap.clock
            && segment.ends.in_range()) {
            assert(snap@.trails[i as int] == segment);
            return false;
        }
        i = i + 1;
    }
    true
}

impl Snapshot {
    /// Tests whether a state can be resumed from the snapshot.
    pub fn is_valid(&self) -> (r: bool)
        ensures
            r == self.valid(),
    {
        let shape = self.players.len() <= MAX_PLAYERS && self.scores.len() == self.players.len()
            && self.intermission.is_wf() && self.intermission.mode == TimerMode::Repeating
            && self.intermission.duration == ROUND_END_NANOS;
        let r = shape && players_are_valid(self) && deaths_are_valid(self) && trails_are_valid(
            self,
        );
        proof {
            if self.scores@.len() == self.players@.len() {
                assert forall|h: usize|
                    self@.scores.contains_key(h) <==> (h as nat) < self@.players.len() by {}
            }
        }
        r
    }
}

} // verus!
