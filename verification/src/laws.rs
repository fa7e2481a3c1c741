//! What holds of the simulation whatever the inputs: the state stays
//! well-formed, a replay gives the same state, players only leave a round,
//! young trail segments harm nobody, and nobody ends a step under the
//! surface.

use crate::arena::{fresh_players, FrameView, RoundState, SimView, TrailSegment};
use crate::geometry::{Point, Segment};
use crate::input::Input;
use crate::ledger::{lemma_position, payable, round_points};
use crate::player::{
    lemma_ground_limit, lemma_stepped_wf, lemma_under_surface, on_ground, under_surface, Player,
    FUEL_MAX, SURFACE,
};
use crate::spawn::MAX_PLAYERS;
use vstd::prelude::*;

verus! {

/// A player as a round starts is well-formed.
pub proof fn lemma_spawned_wf(handle: usize)
    ensures
        Player::spawned(handle).wf(),
        Player::spawned(handle).handle == handle,
        Player::spawned(handle).last_trail is None,
{
}

/// The state right after a match has begun is well-formed.
pub proof fn lemma_begun_wf(v: SimView, n: nat)
    requires
        v.wf(),
        n <= MAX_PLAYERS,
    ensures
        v.begun(n).wf(),
{
    let w = v.begun(n);
    assert forall|h: int| 0 <= h < w.players.len() implies (#[trigger] w.players[h] matches Some(
        p,
    ) ==> w.seats(h, p)) by {
        lemma_spawned_wf(h as usize);
    }
}

/// The first stage keeps the state well-formed.
pub proof fn lemma_integrated_wf(v: SimView, inputs: Seq<Input>, dt: u32)
    requires
        v.wf(),
        inputs.len() == v.players.len(),
    ensures
        v.integrated(inputs, dt).wf(),
{
    let w = v.integrated(inputs, dt);
    if v.round == RoundState::InRound {
        assert forall|h: int| 0 <= h < w.players.len() implies (#[trigger] w.players[h] matches Some(
            p,
        ) ==> w.seats(h, p)) by {
            if v.players[h] is Some {
                lemma_stepped_wf(v.players[h]->0, inputs[h], dt);
            }
        }
        assert forall|i: int| 0 <= i < w.deaths.len() implies (#[trigger] w.deaths[i])
            < w.players.len() && w.players[w.deaths[i] as int] is None by {
            assert(v.players[v.deaths[i] as int] is None);
        }
        assert forall|h: int|
            0 <= h < w.players.len() && (#[trigger] w.players[h]) is None implies w.deaths.contains(
            h as usize,
        ) by {
            assert(v.players[h] is None);
        }
    }
}

/// Every segment emitted by handles below `upto` belongs to one of them,
/// lies where the caller said, and carries the current time.
pub proof fn lemma_new_segments_owned(
    v: SimView,
    positions: Seq<Point>,
    trail_ends: Seq<Segment>,
    upto: nat,
)
    requires
        upto <= usize::MAX,
    ensures
        v.new_segments(positions, trail_ends, upto).len() <= upto,
        forall|k: int|
            0 <= k < v.new_segments(positions, trail_ends, upto).len() ==> {
                &&& (#[trigger] v.new_segments(positions, trail_ends, upto)[k]).owner < upto
                &&& v.new_segments(positions, trail_ends, upto)[k].created_at == v.clock
                &&& v.new_segments(positions, trail_ends, upto)[k].ends == trail_ends[v.new_segments(
                    positions,
                    trail_ends,
                    upto,
                )[k].owner as int]
                &&& v.emits(positions, v.new_segments(positions, trail_ends, upto)[k].owner as int)
            },
    decreases upto,
{
    if upto > 0 {
        lemma_new_segments_owned(v, positions, trail_ends, (upto - 1) as nat);
    }
}

/// The segment that an emitting player `h` below `upto` adds stands right
/// behind those of the lower handles.
pub proof fn lemma_new_segment_place(
    v: SimView,
    positions: Seq<Point>,
    trail_ends: Seq<Segment>,
    upto: nat,
    h: nat,
)
    requires
        h < upto,
        v.emits(positions, h as int),
    ensures
        v.new_segments(positions, trail_ends, h).len() < v.new_segments(
            positions,
            trail_ends,
            upto,
        ).len(),
        v.new_segments(positions, trail_ends, upto)[v.new_segments(
            positions,
            trail_ends,
            h,
        ).len() as int] == (TrailSegment {
            owner: h as usize,
            created_at: v.clock,
            ends: trail_ends[h as int],
        }),
    decreases upto,
{
    if upto - 1 > h {
        lemma_new_segment_place(v, positions, trail_ends, (upto - 1) as nat, h);
    }
}

/// The second stage keeps the state well-formed.
pub proof fn lemma_emitted_wf(v: SimView, positions: Seq<Point>, trail_ends: Seq<Segment>)
    requires
        v.wf(),
        v.places_fit(positions, trail_ends),
        v.trails.len() + v.new_segments(positions, trail_ends, v.players.len()).len()
            <= usize::MAX,
    ensures
        v.emitted(positions, trail_ends).wf(),
{
    let w = v.emitted(positions, trail_ends);
    if v.round == RoundState::InRound {
        let n = v.players.len();
        let fresh = v.new_segments(positions, trail_ends, n);
        lemma_new_segments_owned(v, positions, trail_ends, n);
        assert forall|h: int| 0 <= h < w.players.len() implies (#[trigger] w.players[h] matches Some(
            p,
        ) ==> w.seats(h, p)) by {
            if v.emits(positions, h) {
                lemma_new_segment_place(v, positions, trail_ends, n, h as nat);
                lemma_new_segments_owned(v, positions, trail_ends, h as nat);
                assert(positions[h].wf());
            } else if v.players[h] is Some {
                let p = v.players[h]->0;
                if p.last_trail is Some {
                    assert(w.trails[p.last_trail->0 as int] == v.trails[p.last_trail->0 as int]);
                }
            }
        }
        assert forall|i: int| 0 <= i < w.deaths.len() implies (#[trigger] w.deaths[i])
            < w.players.len() && w.players[w.deaths[i] as int] is None by {
            assert(v.players[v.deaths[i] as int] is None);
        }
        assert forall|h: int|
            0 <= h < w.players.len() && (#[trigger] w.players[h]) is None implies w.deaths.contains(
            h as usize,
        ) by {
            assert(v.players[h] is None);
        }
        assert forall|i: int| 0 <= i < w.trails.len() implies (#[trigger] w.trails[i]).owner
            < w.players.len() && w.trails[i].created_at <= w.clock && w.trails[i].ends.wf() by {
            if i < v.trails.len() {
                assert(w.trails[i] == v.trails[i]);
            } else {
                assert(w.trails[i] == fresh[i - v.trails.len()]);
                assert(trail_ends[fresh[i - v.trails.len()].owner as int].wf());
            }
        }
    }
}

/// The handles that a stage eliminates are live, struck, and listed in
/// ascending order.
pub proof fn lemma_fallen_sorted(v: SimView, positions: Seq<Point>, upto: nat)
    requires
        upto <= usize::MAX,
    ensures
        v.fallen(positions, upto).len() <= upto,
        forall|k: int|
            0 <= k < v.fallen(positions, upto).len() ==> (#[trigger] v.fallen(positions, upto)[k])
                < upto && v.falls(positions, v.fallen(positions, upto)[k] as int),
        forall|i: int, j: int|
            0 <= i < j < v.fallen(positions, upto).len() ==> v.fallen(positions, upto)[i] < v.fallen(
                positions,
                upto,
            )[j],
    decreases upto,
{
    if upto > 0 {
        lemma_fallen_sorted(v, positions, (upto - 1) as nat);
    }
}

/// Every eliminated handle below `upto` is listed.
pub proof fn lemma_fallen_complete(v: SimView, positions: Seq<Point>, upto: nat, h: nat)
    requires
        h < upto <= usize::MAX,
        v.falls(positions, h as int),
    ensures
        v.fallen(positions, upto).contains(h as usize),
    decreases upto,
{
    if upto - 1 > h {
        lemma_fallen_complete(v, positions, (upto - 1) as nat, h);
        let earlier = v.fallen(positions, (upto - 1) as nat);
        let i = choose|i: int| 0 <= i < earlier.len() && earlier[i] == h as usize;
        assert(v.fallen(positions, upto)[i] == h as usize);
    } else {
        let earlier = v.fallen(positions, (upto - 1) as nat);
        assert(v.fallen(positions, upto)[earlier.len() as int] == h as usize);
    }
}

/// The third stage keeps the state well-formed.
pub proof fn lemma_collided_wf(v: SimView, positions: Seq<Point>)
    requires
        v.wf(),
    ensures
        v.collided(positions).wf(),
{
    let w = v.collided(positions);
    if v.round == RoundState::InRound {
        let n = v.players.len();
        let gone = v.fallen(positions, n);
        lemma_fallen_sorted(v, positions, n);
        assert forall|i: int| 0 <= i < w.deaths.len() implies (#[trigger] w.deaths[i])
            < w.players.len() && w.players[w.deaths[i] as int] is None by {
            if i < v.deaths.len() {
                assert(w.deaths[i] == v.deaths[i]);
                assert(v.players[v.deaths[i] as int] is None);
            } else {
                assert(w.deaths[i] == gone[i - v.deaths.len()]);
            }
        }
        assert forall|i: int, j: int| 0 <= i < j < w.deaths.len() implies w.deaths[i]
            != w.deaths[j] by {
            if j < v.deaths.len() {
                assert(w.deaths[i] == v.deaths[i] && w.deaths[j] == v.deaths[j]);
            } else if i < v.deaths.len() {
                assert(w.deaths[i] == v.deaths[i]);
                assert(w.deaths[j] == gone[j - v.deaths.len()]);
                assert(v.players[v.deaths[i] as int] is None);
            } else {
                assert(w.deaths[i] == gone[i - v.deaths.len()]);
                assert(w.deaths[j] == gone[j - v.deaths.len()]);
            }
        }
        assert(w.deaths.no_duplicates());
        assert forall|h: int|
            0 <= h < w.players.len() && (#[trigger] w.players[h]) is None implies w.deaths.contains(
            h as usize,
        ) by {
            if v.falls(positions, h) {
                lemma_fallen_complete(v, positions, n, h as nat);
                let i = choose|i: int| 0 <= i < gone.len() && gone[i] == h as usize;
                assert(w.deaths[v.deaths.len() + i] == h as usize);
            } else {
                assert(v.players[h] is None);
                let i = choose|i: int| 0 <= i < v.deaths.len() && v.deaths[i] == h as usize;
                assert(w.deaths[i] == h as usize);
            }
        }
        assert forall|h: int| 0 <= h < w.players.len() implies (#[trigger] w.players[h] matches Some(
            p,
        ) ==> w.seats(h, p)) by {
            assert(w.players[h] is Some ==> w.players[h] == v.players[h]);
        }
    }
}

/// Where at most one player is left, the survivor is that player, and
/// what the round has to pay can be paid.
pub proof fn lemma_survivor(v: SimView)
    requires
        v.wf(),
        v.decided(),
    ensures
        forall|h: int| v.alive(h) ==> v.survivor() == Some(h as usize),
        (forall|h: int| !v.alive(h)) ==> v.survivor() is None,
        crate::ledger::payable(v.players.len(), v.survivor(), v.deaths),
{
    if exists|h: int| v.alive(h) {
        let s = choose|h: int| v.alive(h);
        assert forall|h: int| v.alive(h) implies v.survivor() == Some(h as usize) by {
            assert(h == s);
        }
        assert(v.players[s] is Some);
        if v.deaths.contains(s as usize) {
            let i = choose|i: int| 0 <= i < v.deaths.len() && v.deaths[i] == s as usize;
            assert(v.players[v.deaths[i] as int] is None);
        }
    }
}

/// The fourth stage keeps the state well-formed.
pub proof fn lemma_judged_wf(v: SimView)
    requires
        v.wf(),
    ensures
        v.judged().wf(),
{
}

/// Starting a round keeps the state well-formed.
pub proof fn lemma_respawned_wf(v: SimView)
    requires
        v.wf(),
    ensures
        v.respawned().wf(),
{
    let w = v.respawned();
    assert forall|h: int| 0 <= h < w.players.len() implies (#[trigger] w.players[h] matches Some(
        p,
    ) ==> w.seats(h, p)) by {
        lemma_spawned_wf(h as usize);
    }
}

/// Letting time pass between rounds keeps the state well-formed.
pub proof fn lemma_waited_wf(v: SimView, dt: u32)
    requires
        v.wf(),
        v.round == RoundState::RoundEnd,
    ensures
        v.waited(dt).wf(),
{
    let w = v.waited(dt);
    assert forall|h: int| 0 <= h < w.players.len() implies (#[trigger] w.players[h] matches Some(
        p,
    ) ==> w.seats(h, p)) by {
        assert(w.players[h] == v.players[h]);
    }
}

/// A step between rounds keeps the state well-formed.
pub proof fn lemma_rested_wf(v: SimView, dt: u32)
    requires
        v.wf(),
    ensures
        v.rested(dt).wf(),
{
    if v.round == RoundState::RoundEnd {
        lemma_waited_wf(v, dt);
        if v.intermission_ends(dt) {
            lemma_respawned_wf(v.waited(dt));
        }
    }
}

/// Whether the trail can take the segments of `steps` more steps without
/// its length leaving the machine's range.
pub open spec fn room_for(v: SimView, steps: nat) -> bool {
    v.trails.len() + steps * MAX_PLAYERS <= usize::MAX
}

/// A step keeps the state well-formed and the number of slots, and adds
/// at most one segment for each slot.
pub proof fn lemma_advanced_wf(v: SimView, frame: FrameView)
    requires
        v.wf(),
        frame.fits(v.players.len()),
        room_for(v, 1),
    ensures
        v.advanced(frame).wf(),
        v.advanced(frame).players.len() == v.players.len(),
        v.advanced(frame).trails.len() <= v.trails.len() + MAX_PLAYERS,
{
    match v.round {
        RoundState::Idle => {},
        RoundState::InRound => {
            let a = v.integrated(frame.inputs, frame.dt);
            lemma_integrated_wf(v, frame.inputs, frame.dt);
            lemma_new_segments_owned(a, frame.positions, frame.trail_ends, a.players.len());
            lemma_emitted_wf(a, frame.positions, frame.trail_ends);
            let b = a.emitted(frame.positions, frame.trail_ends);
            lemma_collided_wf(b, frame.positions);
            let c = b.collided(frame.positions);
            lemma_judged_wf(c);
        },
        RoundState::RoundEnd => {
            lemma_rested_wf(v, frame.dt);
        },
    }
}

/// A step keeps the number of slots, whatever it is given.
pub proof fn lemma_advanced_keeps_slots(v: SimView, frame: FrameView)
    ensures
        v.advanced(frame).players.len() == v.players.len(),
{
}

/// Any number of steps keeps the number of slots, whatever they are
/// given.
pub proof fn lemma_run_keeps_slots(v: SimView, frames: Seq<FrameView>)
    ensures
        v.run(frames).players.len() == v.players.len(),
    decreases frames.len(),
{
    if frames.len() > 0 {
        lemma_run_keeps_slots(v, frames.drop_last());
        lemma_advanced_keeps_slots(v.run(frames.drop_last()), frames.last());
    }
}

/// Whether each of `frames` fits a match of `n` slots.
pub open spec fn frames_fit(n: nat, frames: Seq<FrameView>) -> bool {
    forall|i: int| 0 <= i < frames.len() ==> (#[trigger] frames[i]).fits(n)
}

/// Any number of steps keeps the state well-formed and the number of
/// slots.
pub proof fn lemma_run_wf(v: SimView, frames: Seq<FrameView>)
    requires
        v.wf(),
        frames_fit(v.players.len(), frames),
        room_for(v, frames.len()),
    ensures
        v.run(frames).wf(),
        v.run(frames).players.len() == v.players.len(),
        v.run(frames).trails.len() <= v.trails.len() + frames.len() * MAX_PLAYERS,
    decreases frames.len(),
{
    if frames.len() > 0 {
        let earlier = frames.drop_last();
        assert forall|i: int| 0 <= i < earlier.len() implies (#[trigger] earlier[i]).fits(
            v.players.len(),
        ) by {
            assert(earlier[i] == frames[i]);
        }
        lemma_run_wf(v, earlier);
        lemma_advanced_wf(v.run(earlier), frames.last());
    }
}

/// Running all of `frames` is running the first `k` of them and then the
/// rest.
pub proof fn lemma_run_split(v: SimView, frames: Seq<FrameView>, k: int)
    requires
        0 <= k <= frames.len(),
    ensures
        v.run(frames) == v.run(frames.take(k)).run(frames.skip(k)),
    decreases frames.len() - k,
{
    if k == frames.len() {
        assert(frames.take(k) =~= frames);
        assert(frames.skip(k).len() == 0);
    } else {
        let rest = frames.skip(k);
        assert(rest.drop_last() =~= frames.drop_last().skip(k));
        assert(frames.drop_last().take(k) =~= frames.take(k));
        assert(rest.last() == frames.last());
        lemma_run_split(v, frames.drop_last(), k);
    }
}

/// Determinism under replay. A step is a function of the state and the
/// frame alone, and a snapshot lays open exactly the state. So the state
/// after `frames` is the state reached by snapshotting after the first `k`
/// steps, resuming from the snapshot `restored`, and replaying the rest.
pub proof fn lemma_replay_from_snapshot(
    v: SimView,
    frames: Seq<FrameView>,
    k: int,
    restored: SimView,
)
    requires
        0 <= k <= frames.len(),
        restored == v.run(frames.take(k)),
    ensures
        restored.run(frames.skip(k)) == v.run(frames),
{
    lemma_run_split(v, frames, k);
}

/// The surface correction. A player whose step arrives under the surface
/// ends the step exactly on it, at rest.
pub proof fn lemma_snap(p: Player, input: Input, dt: u32)
    requires
        p.wf(),
        under_surface(p.height_reached(input, dt)),
    ensures
        p.stepped(input, dt).altitude == SURFACE,
        p.stepped(input, dt).climb == 0,
{
}

/// Fuel bounds. After a step a player's tank holds between nothing and a
/// full tank.
pub proof fn lemma_fuel_bounds(p: Player, input: Input, dt: u32)
    requires
        p.wf(),
    ensures
        0 <= p.stepped(input, dt).fuel <= FUEL_MAX,
{
    lemma_stepped_wf(p, input, dt);
}

/// The grounded invariant for one player. After a step no player is under
/// the surface; and a player that ends the step at rest, neither hovering
/// nor at the very top of a jump, stands on the ground: its squared
/// distance from the centre is at least the squared radius and exceeds it
/// by no more than the tolerance.
pub proof fn lemma_rest_is_on_ground(p: Player, input: Input, dt: u32)
    requires
        p.wf(),
    ensures
        !under_surface(p.stepped(input, dt).altitude as int),
        p.stepped(input, dt).climb == 0 && !p.stepped(input, dt).hovering && !p.tops_out(
            input,
            dt,
        ) ==> on_ground(p.stepped(input, dt).altitude as int),
{
    let q = p.stepped(input, dt);
    lemma_stepped_wf(p, input, dt);
    lemma_under_surface(q.altitude as int);
    lemma_ground_limit(q.altitude as int);
    lemma_ground_limit(p.altitude as int);
    lemma_under_surface(p.height_reached(input, dt));
    if q.climb == 0 && !q.hovering && !p.tops_out(input, dt) && !p.snaps(input, dt) {
        if p.falls(input, dt) {
            assert(p.climb_travelled(input, dt) == 0);
            assert(p.grounded());
        }
        assert(p.height_reached(input, dt) == p.altitude);
    }
}

/// What a step in a round makes of a live player: the player's own step,
/// and the trail segment it remembers.
pub proof fn lemma_player_after_step(v: SimView, frame: FrameView, h: int)
    requires
        v.wf(),
        v.round == RoundState::InRound,
        frame.fits(v.players.len()),
        v.advanced(frame).alive(h),
    ensures
        v.alive(h),
        v.advanced(frame).players[h]->0 == (Player {
            last_trail_pos: v.advanced(frame).players[h]->0.last_trail_pos,
            last_trail: v.advanced(frame).players[h]->0.last_trail,
            ..v.players[h]->0.stepped(frame.inputs[h], frame.dt)
        }),
{
    let a = v.integrated(frame.inputs, frame.dt);
    let b = a.emitted(frame.positions, frame.trail_ends);
    let c = b.collided(frame.positions);
    let w = c.judged();
    assert(w == v.advanced(frame));
    assert(w.players == c.players);
    assert(c.players[h] == b.players[h]);
    assert(a.players[h] == Some(v.players[h]->0.stepped(frame.inputs[h], frame.dt)));
    if a.emits(frame.positions, h) {
        assert(b.players[h]->0.handle == a.players[h]->0.handle);
    } else {
        assert(b.players[h] == a.players[h]);
    }
}

/// The grounded invariant and the fuel bounds for a whole step. After a
/// step in a round, every live player is on or above the surface with a
/// tank between nothing and full; and one that ends the step at rest,
/// neither hovering nor at the very top of a jump, stands on the ground.
pub proof fn lemma_players_after_step(v: SimView, frame: FrameView, h: int)
    requires
        v.wf(),
        v.round == RoundState::InRound,
        frame.fits(v.players.len()),
        v.advanced(frame).alive(h),
    ensures
        v.alive(h),
        !under_surface(v.advanced(frame).players[h]->0.altitude as int),
        0 <= v.advanced(frame).players[h]->0.fuel <= FUEL_MAX,
        ({
            let q = v.advanced(frame).players[h]->0;
            q.climb == 0 && !q.hovering && !v.players[h]->0.tops_out(frame.inputs[h], frame.dt)
                ==> on_ground(q.altitude as int)
        }),
{
    lemma_player_after_step(v, frame, h);
    let p = v.players[h]->0;
    lemma_rest_is_on_ground(p, frame.inputs[h], frame.dt);
    lemma_fuel_bounds(p, frame.inputs[h], frame.dt);
}

/// Elimination is monotone. As long as no new round starts, a step never
/// brings a player back and never takes a handle off the death stack: the
/// live set after the step is part of the live set before it, so it is no
/// larger, and the death stack before the step is the start of the death
/// stack after it.
pub proof fn lemma_elimination_monotone(v: SimView, frame: FrameView)
    requires
        v.wf(),
        !v.intermission_ends(frame.dt),
    ensures
        v.advanced(frame).live_set().subset_of(v.live_set()),
        v.live_set().finite(),
        v.advanced(frame).live_set().len() <= v.live_set().len(),
        v.deaths.is_prefix_of(v.advanced(frame).deaths),
{
    let w = v.advanced(frame);
    assert forall|h: int| w.alive(h) implies v.alive(h) by {}
    assert(w.live_set().subset_of(v.live_set()));
    let slots = Set::new(|h: int| 0 <= h < v.players.len());
    assert(slots =~= vstd::set_lib::set_int_range(0, v.players.len() as int));
    vstd::set_lib::lemma_int_range(0, v.players.len() as int);
    assert(v.live_set().subset_of(slots));
    vstd::set_lib::lemma_len_subset(v.live_set(), slots);
    vstd::set_lib::lemma_len_subset(w.live_set(), v.live_set());
    assert(v.deaths =~= w.deaths.subrange(0, v.deaths.len() as int));
}

/// A stage of collisions takes out exactly the live players that stand
/// within reach of a segment old enough, and puts each on the death stack.
pub proof fn lemma_collisions_only_eliminate(v: SimView, positions: Seq<Point>, h: int)
    requires
        v.wf(),
        v.round == RoundState::InRound,
    ensures
        v.collided(positions).alive(h) <==> v.alive(h) && !v.struck_at(positions[h]),
        v.alive(h) && v.struck_at(positions[h]) ==> v.collided(positions).deaths.contains(
            h as usize,
        ),
{
    if v.alive(h) && v.struck_at(positions[h]) {
        let n = v.players.len();
        lemma_fallen_complete(v, positions, n, h as nat);
        let gone = v.fallen(positions, n);
        let i = choose|i: int| 0 <= i < gone.len() && gone[i] == h as usize;
        assert(v.collided(positions).deaths[v.deaths.len() + i] == h as usize);
    }
}

/// Where no player is struck, none is eliminated.
pub proof fn lemma_nobody_falls(v: SimView, positions: Seq<Point>, upto: nat)
    requires
        forall|h: int| !v.falls(positions, h),
    ensures
        v.fallen(positions, upto).len() == 0,
    decreases upto,
{
    if upto > 0 {
        lemma_nobody_falls(v, positions, (upto - 1) as nat);
    }
}

/// The grace of young segments. A segment younger than the minimum life
/// eliminates no player, wherever the player stands and whoever emitted
/// the segment. So a player that is eliminated stands within reach of a
/// segment that has reached the minimum life.
pub proof fn lemma_young_segment_never_hits(v: SimView, i: int, p: Point)
    requires
        0 <= i < v.trails.len(),
        v.clock - v.trails[i].created_at < v.min_trail_life,
    ensures
        !v.hits(i, p),
{
}

/// While every segment of the round is younger than the minimum life, a
/// stage of collisions eliminates nobody: the state stays as it is.
pub proof fn lemma_young_segments_harm_nobody(v: SimView, positions: Seq<Point>)
    requires
        v.wf(),
        forall|i: int|
            0 <= i < v.trails.len() ==> v.clock - (#[trigger] v.trails[i]).created_at
                < v.min_trail_life,
    ensures
        v.collided(positions) == v,
{
    if v.round == RoundState::InRound {
        let n = v.players.len();
        assert forall|h: int| !v.falls(positions, h) by {
            if v.struck_at(positions[h]) {
                let i = choose|i: int| #[trigger] v.hits(i, positions[h]);
                assert(v.trails[i].lethal_at(v.clock, v.min_trail_life));
            }
        }
        lemma_nobody_falls(v, positions, n);
        assert(v.players_culled(positions) =~= v.players);
        assert(v.deaths + v.fallen(positions, n) =~= v.deaths);
    }
}

/// Unless the minimum life is zero, a segment emitted in a step
/// eliminates nobody in that step: it is stamped with the step's time, so
/// its age is zero.
pub proof fn lemma_fresh_segment_is_not_lethal(
    v: SimView,
    positions: Seq<Point>,
    trail_ends: Seq<Segment>,
    i: int,
    p: Point,
)
    requires
        v.wf(),
        v.places_fit(positions, trail_ends),
        v.round == RoundState::InRound,
        v.min_trail_life > 0,
        v.trails.len() <= i < v.emitted(positions, trail_ends).trails.len(),
    ensures
        !v.emitted(positions, trail_ends).hits(i, p),
{
    lemma_new_segments_owned(v, positions, trail_ends, v.players.len());
    let fresh = v.new_segments(positions, trail_ends, v.players.len());
    assert(v.emitted(positions, trail_ends).trails[i] == fresh[i - v.trails.len()]);
}

/// The death stack names each eliminated player once and nobody else, so
/// it is never longer than the match has slots; and while somebody is
/// left in the round, it is shorter.
pub proof fn lemma_death_stack_bound(v: SimView)
    requires
        v.wf(),
    ensures
        v.deaths.len() <= v.players.len(),
        (exists|h: int| v.alive(h)) ==> v.deaths.len() < v.players.len(),
{
    let n = v.players.len() as int;
    let slots = vstd::set_lib::set_int_range(0, n);
    vstd::set_lib::lemma_int_range(0, n);
    let named = v.deaths.map_values(|h: usize| h as int);
    assert(named.no_duplicates()) by {
        assert forall|i: int, j: int| 0 <= i < j < named.len() implies named[i] != named[j] by {
            assert(v.deaths[i] != v.deaths[j]);
        }
    }
    named.unique_seq_to_set();
    assert forall|x: int| named.to_set().contains(x) implies slots.contains(x) && !v.alive(x) by {
        let i = choose|i: int| 0 <= i < named.len() && named[i] == x;
        assert(v.deaths[i] as int == x);
    }
    assert(named.to_set().subset_of(slots));
    vstd::set_lib::lemma_len_subset(named.to_set(), slots);
    if exists|h: int| v.alive(h) {
        let h = choose|h: int| v.alive(h);
        let others = slots.remove(h);
        assert(named.to_set().subset_of(others));
        vstd::set_lib::lemma_len_subset(named.to_set(), others);
    }
}

/// A round rewards staying in. Of two eliminated players the one that
/// fell later is paid no less, and is paid more as long as the earlier one
/// is paid anything; and a survivor among at least two players is paid
/// more than anybody who fell.
pub proof fn lemma_later_elimination_pays_no_less(
    n: nat,
    survivor: Option<usize>,
    deaths: Seq<usize>,
    i: int,
    j: int,
)
    requires
        payable(n, survivor, deaths),
        0 <= i < j < deaths.len(),
    ensures
        round_points(n, survivor, deaths, deaths[i]) <= round_points(
            n,
            survivor,
            deaths,
            deaths[j],
        ),
        round_points(n, survivor, deaths, deaths[i]) > 0 ==> round_points(
            n,
            survivor,
            deaths,
            deaths[i],
        ) < round_points(n, survivor, deaths, deaths[j]),
        survivor matches Some(s) ==> n >= 2 ==> round_points(n, survivor, deaths, deaths[j])
            < round_points(n, survivor, deaths, s),
{
    lemma_position(deaths, i);
    lemma_position(deaths, j);
}

/// The round cycle. A step between rounds that lasts at least what
/// remains of the intermission starts the next round: every slot has a
/// fresh player, no trail segment and no elimination is left over, and
/// the scores stand.
pub proof fn lemma_round_cycle(v: SimView, dt: u32)
    requires
        v.wf(),
        v.round == RoundState::RoundEnd,
        v.intermission.elapsed + dt >= v.intermission.duration,
    ensures
        v.rested(dt).round == RoundState::InRound,
        v.rested(dt).players == fresh_players(v.players.len()),
        v.rested(dt).trails.len() == 0,
        v.rested(dt).deaths.len() == 0,
        v.rested(dt).scores == v.scores,
{
}

/// A step between rounds that lasts less than what remains of the
/// intermission changes nothing but the time.
pub proof fn lemma_intermission_waits(v: SimView, dt: u32)
    requires
        v.wf(),
        v.round == RoundState::RoundEnd,
        v.intermission.elapsed + dt < v.intermission.duration,
    ensures
        v.rested(dt).round == RoundState::RoundEnd,
        v.rested(dt).players == v.players,
        v.rested(dt).trails == v.trails,
        v.rested(dt).deaths == v.deaths,
        v.rested(dt).scores == v.scores,
        v.rested(dt).intermission.elapsed == v.intermission.elapsed + dt,
{
}

} // verus!
