use galaxy_cats::arena::RoundState;
use galaxy_cats::geometry::{Point, Segment};
use galaxy_cats::input::Input;
use galaxy_cats::sim::{Frame, SetupError, SimState, Snapshot};
use galaxy_cats::spawn::spawn_point;

const FRAME_NANOS: u32 = 16_666_667;

fn pole(handle: usize) -> Point {
    spawn_point(handle).unwrap().position()
}

/// A point far from every pole and from the segments these tests lay.
fn far_away(handle: usize) -> Point {
    Point { x: 100_000_000 + 10_000_000 * handle as i32, y: 100_000_000, z: 100_000_000 }
}

fn no_segment() -> Segment {
    Segment { start: Point { x: 0, y: 0, z: 0 }, end: Point { x: 0, y: 0, z: 0 } }
}

/// A frame in which nobody presses anything and everybody stays on its pole.
fn quiet_frame(n: usize, dt: u32) -> Frame {
    Frame {
        inputs: vec![Input(0); n],
        dt,
        positions: (0..n).map(pole).collect(),
        trail_ends: vec![no_segment(); n],
    }
}

/// The segment that player 0 lays in these tests: a short piece far away
/// from every pole.
fn bait() -> Segment {
    Segment {
        start: Point { x: 50_000_000, y: 0, z: 0 },
        end: Point { x: 50_100_000, y: 0, z: 0 },
    }
}

/// A point within reach of the bait.
fn on_bait() -> Point {
    Point { x: 50_050_000, y: 100_000, z: 0 }
}

/// A match of `n` players in which player 0 has laid the bait, and the bait
/// is old enough to eliminate. Every player then stands far away.
fn match_with_bait(n: usize) -> SimState {
    let mut sim = SimState::new();
    assert_eq!(sim.begin_match(n), Ok(()));
    let mut first = quiet_frame(n, FRAME_NANOS);
    first.positions = (0..n).map(far_away).collect();
    first.trail_ends = vec![bait(); n];
    sim.advance(&first);
    assert_eq!(sim.trail_count(), n);
    for _ in 0..5 {
        sim.advance(&away_frame(n));
    }
    assert_eq!(sim.trail_count(), n);
    assert_eq!(sim.round_state(), RoundState::InRound);
    sim
}

fn away_frame(n: usize) -> Frame {
    let mut frame = quiet_frame(n, FRAME_NANOS);
    frame.positions = (0..n).map(far_away).collect();
    frame
}

/// Steps once with the given players standing on the bait.
fn step_on_bait(sim: &mut SimState, handles: &[usize]) {
    let n = sim.num_players();
    let mut frame = away_frame(n);
    for h in handles {
        frame.positions[*h] = on_bait();
    }
    sim.advance(&frame);
}

#[test]
fn scoring_four_players_in_elimination_order() {
    // Survivor 3; eliminated 0, then 1, then 2.
    let mut sim = match_with_bait(4);
    step_on_bait(&mut sim, &[0]);
    step_on_bait(&mut sim, &[1]);
    assert_eq!(sim.round_state(), RoundState::InRound);
    assert_eq!(sim.death_stack(), vec![0, 1]);
    step_on_bait(&mut sim, &[2]);
    assert_eq!(sim.round_state(), RoundState::RoundEnd);
    assert_eq!(sim.death_stack(), vec![0, 1, 2]);
    assert_eq!(sim.score(3), Some(3));
    assert_eq!(sim.score(2), Some(2));
    assert_eq!(sim.score(1), Some(1));
    assert_eq!(sim.score(0), Some(0));
    assert_eq!(sim.scores_in_order(), vec![0, 1, 2, 3]);
}

#[test]
fn scores_add_up_over_rounds() {
    let mut sim = match_with_bait(3);
    step_on_bait(&mut sim, &[2]);
    step_on_bait(&mut sim, &[0]);
    assert_eq!(sim.round_state(), RoundState::RoundEnd);
    // Survivor 1 gets 2, player 0 (eliminated last) 1, player 2 nothing.
    assert_eq!(sim.scores_in_order(), vec![1, 2, 0]);
    sim.advance(&quiet_frame(3, 750_000_000));
    assert_eq!(sim.round_state(), RoundState::InRound);
    assert_eq!(sim.scores_in_order(), vec![1, 2, 0]);
    // Second round: everybody emits, then 1 and 2 fall in the same step.
    let mut first = quiet_frame(3, FRAME_NANOS);
    first.positions = (0..3).map(far_away).collect();
    first.trail_ends = vec![bait(); 3];
    sim.advance(&first);
    for _ in 0..5 {
        sim.advance(&away_frame(3));
    }
    step_on_bait(&mut sim, &[2, 1]);
    assert_eq!(sim.death_stack(), vec![1, 2]);
    assert_eq!(sim.round_state(), RoundState::RoundEnd);
    // Survivor 0 gets 2, player 2 (last on the stack) 1, player 1 nothing.
    assert_eq!(sim.scores_in_order(), vec![3, 2, 1]);
}

#[test]
fn nobody_left_pays_the_eliminated_only() {
    let mut sim = match_with_bait(2);
    step_on_bait(&mut sim, &[0, 1]);
    assert_eq!(sim.round_state(), RoundState::RoundEnd);
    assert_eq!(sim.death_stack(), vec![0, 1]);
    assert_eq!(sim.player(0), None);
    assert_eq!(sim.player(1), None);
    // Nobody survives; the eliminated start at two less than the slots.
    assert_eq!(sim.scores_in_order(), vec![0, 0]);
}

#[test]
fn too_many_players_are_refused() {
    let mut sim = SimState::new();
    assert_eq!(sim.begin_match(7), Err(SetupError::TooManyPlayers));
    assert_eq!(sim.round_state(), RoundState::Idle);
    assert_eq!(sim.num_players(), 0);
    assert_eq!(sim.begin_match(6), Ok(()));
    assert_eq!(sim.num_players(), 6);
    assert_eq!(sim.round_state(), RoundState::InRound);
    assert_eq!(sim.scores_in_order(), vec![0; 6]);
}

#[test]
fn a_step_before_any_match_changes_nothing() {
    let mut sim = SimState::new();
    sim.advance(&quiet_frame(0, FRAME_NANOS));
    assert_eq!(sim.round_state(), RoundState::Idle);
    assert_eq!(sim.clock(), 0);
}

#[test]
fn round_cycle_restarts_after_the_intermission() {
    let mut sim = match_with_bait(2);
    step_on_bait(&mut sim, &[1]);
    assert_eq!(sim.round_state(), RoundState::RoundEnd);
    assert_eq!(sim.score(0), Some(1));
    // Two segments from the start, and one that player 1 laid on its way
    // to the bait.
    assert_eq!(sim.trail_count(), 3);
    // 0.75 s remain on the intermission; 0.5 s is not enough.
    sim.advance(&quiet_frame(2, 500_000_000));
    assert_eq!(sim.round_state(), RoundState::RoundEnd);
    assert_eq!(sim.trail_count(), 3);
    sim.advance(&quiet_frame(2, 250_000_000));
    assert_eq!(sim.round_state(), RoundState::InRound);
    assert_eq!(sim.trail_count(), 0);
    assert_eq!(sim.death_stack(), Vec::<usize>::new());
    assert!(sim.player(0).is_some());
    assert!(sim.player(1).is_some());
    assert_eq!(sim.scores_in_order(), vec![1, 0]);
}

#[test]
fn the_intermission_timer_repeats() {
    let mut sim = match_with_bait(2);
    step_on_bait(&mut sim, &[1]);
    // 1 s runs the 0.75 s out and leaves 0.25 s on the timer.
    sim.advance(&quiet_frame(2, 1_000_000_000));
    assert_eq!(sim.round_state(), RoundState::InRound);
    assert_eq!(sim.snapshot().intermission.elapsed, 250_000_000);
}

#[test]
fn young_segments_eliminate_nobody() {
    let mut sim = SimState::new();
    assert_eq!(sim.begin_match(2), Ok(()));
    let mut first = quiet_frame(2, FRAME_NANOS);
    first.positions = vec![far_away(0), on_bait()];
    first.trail_ends = vec![bait(); 2];
    sim.advance(&first);
    assert_eq!(sim.trail_count(), 2);
    // The segments are 0, 1, 2, 3 and 4 frames old: under 70 ms.
    for _ in 0..4 {
        let mut frame = away_frame(2);
        frame.positions[1] = on_bait();
        sim.advance(&frame);
        assert_eq!(sim.death_stack(), Vec::<usize>::new());
    }
    // At 5 frames, 83 ms, the segment eliminates.
    let mut frame = away_frame(2);
    frame.positions[1] = on_bait();
    sim.advance(&frame);
    assert_eq!(sim.death_stack(), vec![1]);
}

#[test]
fn a_player_is_not_spared_by_its_own_old_segment() {
    let mut sim = match_with_bait(2);
    assert_eq!(sim.trail(0).unwrap().owner, 0);
    step_on_bait(&mut sim, &[0]);
    assert_eq!(sim.death_stack(), vec![0]);
}

#[test]
fn an_eliminated_player_stays_out() {
    let mut sim = match_with_bait(3);
    step_on_bait(&mut sim, &[1]);
    assert_eq!(sim.death_stack(), vec![1]);
    step_on_bait(&mut sim, &[1]);
    assert_eq!(sim.death_stack(), vec![1]);
    assert_eq!(sim.player(1), None);
    assert!(sim.player(0).is_some());
    assert!(sim.player(2).is_some());
    assert_eq!(sim.round_state(), RoundState::InRound);
}

#[test]
fn trails_are_emitted_in_handle_order_after_enough_travel() {
    let mut sim = SimState::new();
    assert_eq!(sim.begin_match(3), Ok(()));
    let mut frame = quiet_frame(3, FRAME_NANOS);
    // Player 0 travels 0.1 exactly: not far enough. Players 1 and 2 travel
    // a millionth more.
    frame.positions[0] = Point { x: 100_000, y: 4_000_000, z: 0 };
    frame.positions[1] = Point { x: 100_001, y: -4_000_000, z: 0 };
    frame.positions[2] = Point { x: 4_000_000, y: 0, z: 100_001 };
    frame.trail_ends[1] = bait();
    sim.integrate(&frame.inputs, frame.dt);
    let emitters = sim.emit_trails(&frame.positions, &frame.trail_ends);
    assert_eq!(emitters, vec![1, 2]);
    assert_eq!(sim.trail_count(), 2);
    let first = sim.trail(0).unwrap();
    assert_eq!(first.owner, 1);
    assert_eq!(first.created_at, FRAME_NANOS as u64);
    assert_eq!(first.ends, bait());
    assert_eq!(sim.trail(1).unwrap().owner, 2);
    assert_eq!(sim.trail(2), None);
    assert_eq!(sim.player(0).unwrap().last_trail, None);
    assert_eq!(sim.player(0).unwrap().last_trail_pos, pole(0));
    assert_eq!(sim.player(1).unwrap().last_trail, Some(0));
    assert_eq!(sim.player(1).unwrap().last_trail_pos, frame.positions[1]);
    assert_eq!(sim.player(2).unwrap().last_trail, Some(1));
}

#[test]
fn stages_outside_a_round_do_nothing() {
    let mut sim = match_with_bait(2);
    step_on_bait(&mut sim, &[1]);
    assert_eq!(sim.round_state(), RoundState::RoundEnd);
    let before = sim.snapshot();
    let frame = away_frame(2);
    assert!(sim.integrate(&frame.inputs, frame.dt).is_empty());
    assert!(sim.emit_trails(&frame.positions, &frame.trail_ends).is_empty());
    assert!(sim.resolve_collisions(&vec![on_bait(), on_bait()]).is_empty());
    assert!(!sim.evaluate_round());
    assert_eq!(sim.snapshot(), before);
    let mut idle = SimState::new();
    assert!(!idle.intermission(1_000_000_000));
    assert_eq!(idle.clock(), 0);
}

#[test]
fn replay_from_a_snapshot_gives_the_same_state() {
    let frames: Vec<Frame> = (0..40)
        .map(|i| {
            let mut frame = away_frame(3);
            frame.inputs = vec![Input((i % 16) as u8), Input(((i / 2) % 16) as u8), Input(1)];
            frame.trail_ends = vec![bait(); 3];
            if i % 7 == 0 {
                frame.positions[0] = pole(0);
            }
            if i == 25 {
                frame.positions[2] = on_bait();
            }
            if i == 30 {
                frame.positions[1] = on_bait();
                frame.dt = 800_000_000;
            }
            frame
        })
        .collect();
    let mut straight = SimState::new();
    assert_eq!(straight.begin_match(3), Ok(()));
    for frame in &frames {
        straight.advance(frame);
    }
    for k in [0usize, 1, 13, 26, 31, 40] {
        let mut first = SimState::new();
        assert_eq!(first.begin_match(3), Ok(()));
        for frame in &frames[..k] {
            first.advance(frame);
        }
        let snap: Snapshot = first.snapshot();
        let mut resumed = SimState::restore(&snap).unwrap();
        assert_eq!(resumed.snapshot(), snap);
        resumed.replay(&frames[k..].to_vec());
        assert_eq!(resumed.snapshot(), straight.snapshot());
    }
    let mut at_once = SimState::new();
    assert_eq!(at_once.begin_match(3), Ok(()));
    at_once.replay(&frames);
    assert_eq!(at_once.snapshot(), straight.snapshot());
    // Player 2 falls in step 25 and player 1 in step 30, which ends the
    // round; the nine short steps that follow do not end the intermission.
    assert_eq!(straight.round_state(), RoundState::RoundEnd);
    assert_eq!(straight.death_stack(), vec![2, 1]);
    assert_eq!(straight.scores_in_order(), vec![2, 1, 0]);
}

#[test]
fn damaged_snapshots_are_refused() {
    let mut sim = match_with_bait(3);
    step_on_bait(&mut sim, &[1]);
    let good = sim.snapshot();
    assert!(SimState::restore(&good).is_some());

    let mut snap = good.clone();
    snap.scores.pop();
    assert!(SimState::restore(&snap).is_none());

    let mut snap = good.clone();
    snap.deaths.clear();
    assert!(SimState::restore(&snap).is_none());

    let mut snap = good.clone();
    snap.deaths.push(1);
    assert!(SimState::restore(&snap).is_none());

    let mut snap = good.clone();
    snap.deaths = vec![0];
    assert!(SimState::restore(&snap).is_none());

    let mut snap = good.clone();
    snap.trails[0].owner = 3;
    assert!(SimState::restore(&snap).is_none());

    let mut snap = good.clone();
    snap.trails[0].created_at = snap.clock + 1;
    assert!(SimState::restore(&snap).is_none());

    let mut snap = good.clone();
    snap.trails[0].ends.start.x = i32::MAX;
    assert!(SimState::restore(&snap).is_none());

    let mut snap = good.clone();
    snap.players[0].as_mut().unwrap().fuel = 300_000_000_001;
    assert!(SimState::restore(&snap).is_none());

    let mut snap = good.clone();
    snap.players[0].as_mut().unwrap().altitude = 3_999_999_999_999_999_999;
    assert!(SimState::restore(&snap).is_none());

    let mut snap = good.clone();
    snap.players[0].as_mut().unwrap().handle = 2;
    assert!(SimState::restore(&snap).is_none());

    let mut snap = good.clone();
    snap.players[0].as_mut().unwrap().last_trail = Some(1);
    assert!(SimState::restore(&snap).is_none());

    let mut snap = good.clone();
    snap.players[0].as_mut().unwrap().climb = 17_000_000_000;
    assert!(SimState::restore(&snap).is_none());

    let mut snap = good.clone();
    snap.intermission.duration = 1;
    assert!(SimState::restore(&snap).is_none());

    let mut snap = good.clone();
    snap.players.push(None);
    snap.players.push(None);
    snap.players.push(None);
    snap.players.push(None);
    assert!(SimState::restore(&snap).is_none());
}

#[test]
fn the_live_set_only_shrinks_within_a_round() {
    let mut sim = match_with_bait(4);
    let mut alive_before = 4;
    let mut deaths_before: Vec<usize> = Vec::new();
    for step in 0..6 {
        let on: Vec<usize> = if step % 2 == 1 { vec![step / 2] } else { Vec::new() };
        step_on_bait(&mut sim, &on);
        let alive = (0..4).filter(|h| sim.player(*h).is_some()).count();
        let deaths = sim.death_stack();
        assert!(alive <= alive_before);
        assert_eq!(&deaths[..deaths_before.len()], &deaths_before[..]);
        assert_eq!(alive + deaths.len(), 4);
        alive_before = alive;
        deaths_before = deaths;
    }
    assert_eq!(deaths_before, vec![0, 1, 2]);
}

#[test]
fn a_step_is_its_four_stages_in_order() {
    let mut whole = match_with_bait(3);
    let mut staged = SimState::restore(&whole.snapshot()).unwrap();
    let mut frame = away_frame(3);
    frame.inputs = vec![Input(1), Input(8), Input(6)];
    frame.positions[2] = on_bait();
    frame.trail_ends = vec![bait(); 3];
    whole.advance(&frame);
    let motions = staged.integrate(&frame.inputs, frame.dt);
    assert_eq!(motions.len(), 3);
    // Player 0 jumps, player 1 starts a dash, player 2 holds both turns.
    assert_eq!(motions[0].unwrap().speed, 5);
    assert_eq!(motions[1].unwrap().speed, 10);
    assert!(motions[2].unwrap().turn_left && motions[2].unwrap().turn_right);
    assert_eq!(staged.emit_trails(&frame.positions, &frame.trail_ends), vec![2]);
    assert!(staged.is_struck(&on_bait()));
    assert!(!staged.is_struck(&far_away(0)));
    assert_eq!(staged.resolve_collisions(&frame.positions), vec![2]);
    assert!(!staged.evaluate_round());
    assert_eq!(staged.snapshot(), whole.snapshot());
    assert_eq!(whole.death_stack(), vec![2]);
    assert_eq!(whole.clock(), 7 * FRAME_NANOS as u64);
}

#[test]
fn the_first_stage_hands_out_a_motion_for_each_live_player() {
    let mut sim = SimState::new();
    assert_eq!(sim.begin_match(2), Ok(()));
    // On the ground the dash control starts a dash.
    let motions = sim.integrate(&vec![Input(8), Input(2)], FRAME_NANOS);
    assert_eq!(motions.len(), 2);
    assert_eq!(motions[0].unwrap().speed, 10);
    assert!(!motions[0].unwrap().turn_left);
    assert_eq!(motions[1].unwrap().speed, 5);
    assert!(motions[1].unwrap().turn_left);
    assert_eq!(sim.clock(), FRAME_NANOS as u64);
    assert_eq!(sim.player(0).unwrap().dashing.elapsed, 0);
    assert_eq!(sim.player(2), None);
}

#[test]
fn starting_a_round_keeps_the_scores_and_the_time() {
    let mut sim = match_with_bait(2);
    step_on_bait(&mut sim, &[0]);
    assert_eq!(sim.scores_in_order(), vec![0, 1]);
    let clock = sim.clock();
    sim.spawn_round();
    assert_eq!(sim.round_state(), RoundState::InRound);
    assert_eq!(sim.clock(), clock);
    assert_eq!(sim.scores_in_order(), vec![0, 1]);
    assert_eq!(sim.trail_count(), 0);
    assert_eq!(sim.death_stack(), Vec::<usize>::new());
    assert_eq!(sim.player(0).unwrap().last_trail_pos, pole(0));
    assert_eq!(sim.player(1).unwrap().fuel, 300_000_000_000);
}

#[test]
fn a_new_match_wipes_the_scores() {
    let mut sim = match_with_bait(2);
    step_on_bait(&mut sim, &[0]);
    assert_eq!(sim.scores_in_order(), vec![0, 1]);
    assert_eq!(sim.begin_match(3), Ok(()));
    assert_eq!(sim.scores_in_order(), vec![0, 0, 0]);
    assert_eq!(sim.score(3), None);
    assert_eq!(sim.round_state(), RoundState::InRound);
    assert_eq!(sim.trail_count(), 0);
}

#[test]
fn a_snapshot_knows_whether_it_is_valid() {
    let sim = match_with_bait(2);
    let mut snap = sim.snapshot();
    assert!(snap.is_valid());
    assert_eq!(snap.players.len(), 2);
    assert_eq!(snap.trails.len(), 2);
    assert_eq!(snap.scores, vec![0, 0]);
    assert_eq!(snap.round, RoundState::InRound);
    snap.players[1] = None;
    assert!(!snap.is_valid());
    snap.deaths.push(1);
    assert!(snap.is_valid());
    assert_eq!(SimState::restore(&snap).unwrap().death_stack(), vec![1]);
}

#[test]
fn the_grace_for_young_segments_can_be_set() {
    // Without grace a segment eliminates in the step that lays it.
    let mut harsh = SimState::with_min_trail_life(0);
    assert_eq!(harsh.begin_match(2), Ok(()));
    let mut frame = quiet_frame(2, FRAME_NANOS);
    frame.positions = vec![far_away(0), on_bait()];
    frame.trail_ends = vec![bait(); 2];
    harsh.advance(&frame);
    assert_eq!(harsh.death_stack(), vec![1]);
    assert_eq!(harsh.snapshot().min_trail_life, 0);
    // With a grace of one second the bait stays harmless for a second.
    let mut mild = SimState::with_min_trail_life(1_000_000_000);
    assert_eq!(mild.begin_match(2), Ok(()));
    mild.advance(&frame);
    let mut wait = away_frame(2);
    wait.positions[1] = on_bait();
    wait.dt = 999_999_999;
    mild.advance(&wait);
    assert_eq!(mild.death_stack(), Vec::<usize>::new());
    wait.dt = 1;
    mild.advance(&wait);
    assert_eq!(mild.death_stack(), vec![1]);
    assert_eq!(SimState::new().snapshot().min_trail_life, 70_000_000);
}

#[test]
fn a_frame_knows_whether_it_fits() {
    let frame = quiet_frame(3, FRAME_NANOS);
    assert!(frame.is_fit(3));
    assert!(!frame.is_fit(2));
    assert!(!frame.is_fit(4));
    let mut short = frame.clone();
    short.inputs.pop();
    assert!(!short.is_fit(3));
    let mut wide = frame.clone();
    wide.positions[2].z = i32::MAX;
    assert!(!wide.is_fit(3));
    let mut long = frame.clone();
    long.trail_ends[0].end.x = -536_870_913;
    assert!(!long.is_fit(3));
    long.trail_ends[0].end.x = -536_870_912;
    assert!(long.is_fit(3));
    assert!(quiet_frame(0, 1).is_fit(0));
}
