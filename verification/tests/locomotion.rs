use galaxy_cats::geometry::Point;
use galaxy_cats::input::{
    read_local_inputs, Controls, Input, INPUT_DASH, INPUT_JUMP, INPUT_LEFT, INPUT_RIGHT,
};
use galaxy_cats::player::{
    is_on_ground, Motion, Player, DASH_COOLDOWN_NANOS, DASH_NANOS, FUEL_MAX, GROUND_LIMIT, SURFACE,
    TURN_SPEED_MILLITURNS,
};
use galaxy_cats::timer::{Timer, TimerMode};

const FRAME: u32 = 16_666_667;

/// A player in the air at `altitude`, climbing at `climb`.
fn airborne(altitude: u64, climb: i64) -> Player {
    let mut p = Player::spawn(0);
    p.altitude = altitude;
    p.climb = climb;
    assert!(p.is_wf());
    p
}

#[test]
fn a_spawned_player_rests_on_its_pole() {
    let p = Player::spawn(3);
    assert_eq!(p.handle, 3);
    assert_eq!(p.altitude, 4_000_000_000_000_000_000);
    assert_eq!(p.climb, 0);
    assert_eq!(p.fuel, 300_000_000_000);
    assert!(!p.hovering);
    assert!(p.dashing.is_finished());
    assert!(p.dash_cooldown.is_finished());
    assert_eq!(p.dashing.duration, 700_000_000);
    assert_eq!(p.dash_cooldown.duration, 4_000_000_000);
    assert_eq!(p.last_trail_pos, Point { x: -4_000_000, y: 0, z: 0 });
    assert_eq!(p.last_trail, None);
    assert!(p.is_wf());
}

#[test]
fn a_resting_player_stays_as_it_is() {
    let mut p = Player::spawn(0);
    let before = p;
    let m = p.step(Input(0), FRAME);
    assert_eq!(m, Motion { turn_left: false, turn_right: false, speed: 5 });
    assert_eq!(p.altitude, before.altitude);
    assert_eq!(p.climb, 0);
    assert_eq!(p.fuel, FUEL_MAX);
    assert!(!p.hovering);
    assert!(p.is_wf());
}

#[test]
fn a_jump_sets_the_velocity_and_gravity_acts_at_once() {
    let mut p = Player::spawn(0);
    p.step(Input(INPUT_JUMP), FRAME);
    // 16 per second less 75 per second squared over a sixtieth of a second.
    assert_eq!(p.climb, 14_749_999_975);
    assert_eq!(p.altitude, 4_245_833_337_833_333_325);
    assert!(!p.hovering);
    assert_eq!(p.fuel, FUEL_MAX);
    // In the air the jump control does not jump again.
    p.step(Input(INPUT_JUMP), FRAME);
    assert_eq!(p.climb, 13_499_999_950);
    assert_eq!(p.altitude, 4_470_833_341_499_999_975);
    assert!(p.is_wf());
}

#[test]
fn a_jump_without_hover_lands_on_the_surface() {
    let mut p = Player::spawn(0);
    p.step(Input(INPUT_JUMP), FRAME);
    let mut steps = 1;
    while p.altitude > SURFACE {
        p.step(Input(0), FRAME);
        steps += 1;
        assert!(p.is_wf());
        assert!(steps < 100);
    }
    assert_eq!(steps, 25);
    assert_eq!(p.altitude, SURFACE);
    assert_eq!(p.climb, 0);
    assert_eq!(p.fuel, FUEL_MAX);
}

#[test]
fn hover_sets_in_at_the_top_while_jump_is_held() {
    let mut p = airborne(5_000_000_000_000_000_000, 1_000_000_000);
    p.step(Input(INPUT_JUMP), FRAME);
    assert!(p.hovering);
    assert_eq!(p.climb, 0);
    assert_eq!(p.altitude, 5_000_000_000_000_000_000);
    // 100 points per second over a sixtieth of a second.
    assert_eq!(p.fuel, 294_999_999_900);
    p.step(Input(INPUT_JUMP), FRAME);
    assert!(p.hovering);
    assert_eq!(p.fuel, 289_999_999_800);
    assert_eq!(p.altitude, 5_000_000_000_000_000_000);
}

#[test]
fn hover_does_not_set_in_while_still_rising_or_already_falling() {
    let mut rising = airborne(5_000_000_000_000_000_000, 2_000_000_000);
    rising.step(Input(INPUT_JUMP), FRAME);
    assert!(!rising.hovering);
    assert_eq!(rising.climb, 749_999_975);
    let mut falling = airborne(5_000_000_000_000_000_000, -1);
    falling.step(Input(INPUT_JUMP), FRAME);
    assert!(!falling.hovering);
    assert_eq!(falling.climb, -1_250_000_026);
    let mut released = airborne(5_000_000_000_000_000_000, 1_000_000_000);
    released.step(Input(0), FRAME);
    assert!(!released.hovering);
    assert_eq!(released.fuel, FUEL_MAX);
}

#[test]
fn hover_ends_when_jump_is_released() {
    let mut p = airborne(5_000_000_000_000_000_000, 0);
    p.hovering = true;
    p.fuel = 1_000_000_000;
    p.step(Input(0), FRAME);
    assert!(!p.hovering);
    assert_eq!(p.fuel, 1_000_000_000);
    assert_eq!(p.climb, -1_250_000_025);
    assert_eq!(p.altitude, 4_979_166_665_833_333_325);
}

#[test]
fn hover_ends_when_the_tank_runs_dry_and_fuel_stops_at_zero() {
    let mut p = airborne(5_000_000_000_000_000_000, 0);
    p.hovering = true;
    p.fuel = 1_000;
    p.step(Input(INPUT_JUMP), FRAME);
    assert_eq!(p.fuel, 0);
    assert!(!p.hovering);
    assert_eq!(p.climb, -1_250_000_025);
    // With an empty tank hovering sets in and ends within the same step.
    let mut q = airborne(5_000_000_000_000_000_000, 1_000_000_000);
    q.fuel = 0;
    q.step(Input(INPUT_JUMP), FRAME);
    assert!(!q.hovering);
    assert_eq!(q.fuel, 0);
    assert_eq!(q.climb, -250_000_025);
}

#[test]
fn fuel_comes_back_on_the_ground_up_to_a_full_tank() {
    let mut p = Player::spawn(0);
    p.fuel = 100;
    p.step(Input(0), 1_000);
    assert_eq!(p.fuel, 1_100);
    p.fuel = FUEL_MAX - 10;
    p.step(Input(0), 1_000);
    assert_eq!(p.fuel, FUEL_MAX);
    let mut q = airborne(5_000_000_000_000_000_000, 0);
    q.fuel = 100;
    q.step(Input(0), 1_000);
    assert_eq!(q.fuel, 100);
}

#[test]
fn a_player_under_the_surface_is_set_back_onto_it() {
    let mut p = airborne(4_010_000_000_000_000_000, -10_000_000_000);
    p.fuel = 7;
    p.step(Input(0), FRAME);
    // The step arrives at 3.8225 world units: under the surface.
    assert_eq!(p.altitude, SURFACE);
    assert_eq!(p.climb, 0);
    assert_eq!(p.fuel, 7 + FRAME as u64);
    assert!(p.is_wf());
}

#[test]
fn a_very_long_step_cannot_carry_a_player_through_the_centre() {
    let mut p = airborne(4_100_000_000_000_000_000, -15_000_000_000);
    p.step(Input(0), u32::MAX);
    assert_eq!(p.altitude, SURFACE);
    assert_eq!(p.climb, 0);
    assert!(p.is_wf());
}

#[test]
fn the_ground_reaches_a_little_above_the_surface() {
    assert!(is_on_ground(SURFACE));
    assert!(is_on_ground(GROUND_LIMIT));
    assert!(!is_on_ground(GROUND_LIMIT + 1));
    assert!(is_on_ground(0));
    // A player within the tolerance may jump.
    let mut p = airborne(GROUND_LIMIT, 0);
    p.step(Input(INPUT_JUMP), FRAME);
    assert_eq!(p.climb, 14_749_999_975);
    // One step higher the control does not jump; held at rest in the air
    // it hovers.
    let mut q = airborne(GROUND_LIMIT + 1, 0);
    q.step(Input(INPUT_JUMP), FRAME);
    assert_eq!(q.climb, 0);
    assert!(q.hovering);
    assert_eq!(q.altitude, GROUND_LIMIT + 1);
    assert_eq!(q.fuel, 294_999_999_900);
}

#[test]
fn a_dash_doubles_the_speed_for_its_length() {
    let mut p = Player::spawn(0);
    let m = p.step(Input(INPUT_DASH), FRAME);
    assert_eq!(m.speed, 10);
    assert_eq!(p.dashing.elapsed, 0);
    assert!(!p.dashing.is_finished());
    assert_eq!(p.dash_cooldown.elapsed, 0);
    // Holding the control does not restart the dash.
    let m = p.step(Input(INPUT_DASH), 600_000_000);
    assert_eq!(m.speed, 10);
    assert_eq!(p.dashing.elapsed, 600_000_000);
    let m = p.step(Input(INPUT_DASH), 100_000_000);
    assert_eq!(m.speed, 5);
    assert!(p.dashing.is_finished());
    assert!(!p.dash_cooldown.is_finished());
    assert_eq!(p.dash_cooldown.elapsed, 700_000_000);
    // The cooldown of 4 s runs from the start of the dash.
    let m = p.step(Input(INPUT_DASH), 3_299_999_999);
    assert_eq!(m.speed, 5);
    let m = p.step(Input(INPUT_DASH), 1);
    assert_eq!(m.speed, 10);
    assert_eq!(p.dashing.elapsed, 0);
}

#[test]
fn a_dash_does_not_start_in_the_air() {
    let mut p = airborne(5_000_000_000_000_000_000, 0);
    let m = p.step(Input(INPUT_DASH), FRAME);
    assert_eq!(m.speed, 5);
    assert!(p.dashing.is_finished());
}

#[test]
fn a_jump_ends_a_dash_and_frees_the_next() {
    let mut p = Player::spawn(0);
    p.step(Input(INPUT_DASH), FRAME);
    assert!(!p.dashing.is_finished());
    let m = p.step(Input(INPUT_JUMP), FRAME);
    assert_eq!(m.speed, 5);
    assert!(p.dashing.is_finished());
    assert!(p.dash_cooldown.is_finished());
    assert_eq!(p.dashing.elapsed, DASH_NANOS);
    assert_eq!(p.dash_cooldown.elapsed, DASH_COOLDOWN_NANOS);
}

#[test]
fn a_dash_and_a_jump_in_one_step_leave_no_dash() {
    let mut p = Player::spawn(0);
    let m = p.step(Input(INPUT_DASH | INPUT_JUMP), FRAME);
    assert_eq!(m.speed, 5);
    assert!(p.dashing.is_finished());
    assert_eq!(p.climb, 14_749_999_975);
}

#[test]
fn turns_are_handed_through() {
    let mut p = Player::spawn(0);
    let m = p.step(Input(INPUT_LEFT), FRAME);
    assert_eq!(m, Motion { turn_left: true, turn_right: false, speed: 5 });
    let m = p.step(Input(INPUT_RIGHT), FRAME);
    assert_eq!(m, Motion { turn_left: false, turn_right: true, speed: 5 });
    let m = p.step(Input(INPUT_LEFT | INPUT_RIGHT), FRAME);
    assert_eq!(m, Motion { turn_left: true, turn_right: true, speed: 5 });
    assert_eq!(TURN_SPEED_MILLITURNS, 375);
}

#[test]
fn fuel_and_altitude_stay_in_bounds_under_any_inputs() {
    let mut p = Player::spawn(0);
    let mut seed: u32 = 12345;
    for _ in 0..20_000 {
        seed = seed.wrapping_mul(1_664_525).wrapping_add(1_013_904_223);
        let input = Input((seed >> 24) as u8);
        let dt = if seed & 0x100 == 0 { FRAME } else { (seed >> 8) % 50_000_000 };
        p.step(input, dt);
        assert!(p.fuel <= FUEL_MAX);
        assert!(p.altitude >= SURFACE);
        assert!(p.altitude <= 5_709_165_885_904_566_779);
        assert!(p.climb.abs() <= 16_011_710_804);
        assert!(p.is_wf());
    }
}

#[test]
fn a_player_at_rest_after_a_step_stands_on_the_ground() {
    // From the ground, at rest, without a jump: the player stays.
    let mut p = airborne(GROUND_LIMIT, 0);
    p.step(Input(INPUT_LEFT), FRAME);
    assert_eq!(p.climb, 0);
    assert!(!p.hovering);
    assert!(is_on_ground(p.altitude));
    assert!(p.altitude >= SURFACE);
    // The one exception: gravity takes exactly the velocity a player in
    // the air had, at the very top of its jump.
    let mut q = airborne(5_000_000_000_000_000_000, 75_000);
    q.step(Input(0), 1_000);
    assert_eq!(q.climb, 0);
    assert!(!q.hovering);
    assert!(!is_on_ground(q.altitude));
}

#[test]
fn input_bits_are_read_one_by_one() {
    assert_eq!(INPUT_JUMP, 1);
    assert_eq!(INPUT_LEFT, 2);
    assert_eq!(INPUT_RIGHT, 4);
    assert_eq!(INPUT_DASH, 8);
    let i = Input(INPUT_LEFT | INPUT_DASH);
    assert!(i.left());
    assert!(i.dash());
    assert!(!i.right());
    assert!(!i.jump());
    assert_eq!(i.controls(), Controls { left: true, right: false, jump: false, dash: true });
    assert_eq!(Input::neutral(), Input(0));
    assert_eq!(
        Input::neutral().controls(),
        Controls { left: false, right: false, jump: false, dash: false }
    );
    // The upper four bits carry nothing.
    assert_eq!(Input(0xf0).controls(), Input(0).controls());
}

#[test]
fn every_set_of_controls_packs_and_unpacks() {
    for bits in 0u8..16 {
        let c = Controls {
            jump: bits & 1 != 0,
            left: bits & 2 != 0,
            right: bits & 4 != 0,
            dash: bits & 8 != 0,
        };
        let i = Input::from_controls(c);
        assert_eq!(i, Input(bits));
        assert_eq!(i.controls(), c);
    }
}

#[test]
fn local_players_share_the_keyboard() {
    let c = Controls { left: false, right: true, jump: true, dash: false };
    assert_eq!(read_local_inputs(c, &vec![2, 0]), vec![(2, Input(5)), (0, Input(5))]);
    assert_eq!(read_local_inputs(c, &Vec::new()), Vec::new());
}

#[test]
fn a_once_timer_stops_at_its_duration() {
    let mut t = Timer::new(1_000, TimerMode::Once);
    assert!(!t.is_finished());
    assert_eq!(t.remaining(), 1_000);
    t.tick(400);
    assert_eq!(t.elapsed, 400);
    assert!(!t.is_finished() && !t.just_finished());
    t.tick(700);
    assert_eq!(t.elapsed, 1_000);
    assert!(t.is_finished() && t.just_finished());
    t.tick(5);
    assert_eq!(t.elapsed, 1_000);
    assert!(t.is_finished() && !t.just_finished());
    t.reset();
    assert_eq!(t, Timer::new(1_000, TimerMode::Once));
    t.tick(1);
    t.finish();
    assert_eq!(t.elapsed, 1_000);
    assert!(t.is_finished() && t.just_finished());
    t.finish();
    assert!(t.is_finished() && !t.just_finished());
}

#[test]
fn a_repeating_timer_keeps_the_remainder() {
    let mut t = Timer::new(750_000_000, TimerMode::Repeating);
    t.tick(500_000_000);
    assert!(!t.is_finished());
    t.tick(250_000_000);
    assert!(t.is_finished() && t.just_finished());
    assert_eq!(t.elapsed, 0);
    t.tick(100);
    assert!(!t.is_finished() && !t.just_finished());
    assert_eq!(t.elapsed, 100);
    t.tick(1_600_000_000);
    assert!(t.just_finished());
    assert_eq!(t.elapsed, 100_000_100);
    let mut zero = Timer::new(0, TimerMode::Repeating);
    zero.tick(5);
    assert!(zero.just_finished());
    assert_eq!(zero.elapsed, 0);
}

#[test]
fn a_repeating_timer_counts_its_completions_in_32_bits() {
    // Three whole durations and a rest.
    let mut t = Timer::new(10, TimerMode::Repeating);
    t.tick(37);
    assert!(t.is_finished() && t.just_finished());
    assert_eq!(t.elapsed, 7);
    // 2^32 whole durations count as none: finished, but not just now.
    let mut fast = Timer::new(1, TimerMode::Repeating);
    fast.tick(1 << 32);
    assert!(fast.is_finished());
    assert!(!fast.just_finished());
    assert_eq!(fast.elapsed, 0);
    fast.tick((1 << 32) + 1);
    assert!(fast.is_finished() && fast.just_finished());
    // Sums beyond 64 bits are counted in full.
    let mut long = Timer::new(u64::MAX, TimerMode::Repeating);
    long.tick(u64::MAX - 1);
    assert!(!long.is_finished());
    long.tick(u64::MAX);
    assert!(long.is_finished() && long.just_finished());
    assert_eq!(long.elapsed, u64::MAX - 1);
}

#[test]
fn a_once_timer_stops_at_its_duration_whatever_the_sum() {
    let mut t = Timer::new(u64::MAX, TimerMode::Once);
    t.tick(u64::MAX - 1);
    assert!(!t.is_finished());
    t.tick(u64::MAX);
    assert!(t.is_finished());
    assert_eq!(t.elapsed, u64::MAX);
    assert!(t.is_wf());
    assert!(!Timer { elapsed: 2, duration: 1, ..t }.is_wf());
}
