use fps::lifecycle::{count_failed, count_loading, spawn_position, transition};
use fps::movement::{
    apply_jump, apply_movement, cap_speed, drive, intent_sum, look_delta, PITCH_MAX, PITCH_MIN,
};
use fps::vector::ONE;
use fps::{GameState, HeldKeys, Lifecycle, LoadStatus, Movement, Vec3, YawRotation};

fn keys(forward: bool, back: bool, left: bool, right: bool) -> HeldKeys {
    HeldKeys { forward, back, left, right }
}

#[test]
fn game_state_defaults_to_load() {
    assert_eq!(GameState::default(), GameState::Load);
}

#[test]
fn movement_defaults() {
    let m = Movement::default();
    assert_eq!(m.direction, Vec3::zero());
    assert_eq!(m.pitch, 0);
    assert!(m.pitch >= PITCH_MIN && m.pitch <= PITCH_MAX);
    assert_eq!(m.yaw, 0);
    assert_eq!(m.speed, 8 * ONE);
    assert_eq!(m.acceleration, 100 * ONE);
    assert_eq!(m.sensitivity, 50_000);
    assert!(!m.wants_to_jump);
    assert_eq!(m.facing(), YawRotation::identity());
}

#[test]
fn pitch_stays_in_range_for_any_delta() {
    let mut m = Movement::new();
    m.accumulate(1_000_000_000_000_000_000, 0);
    assert_eq!(m.pitch, PITCH_MAX);
    m.accumulate(-1_000_000_000_000_000_000, 0);
    assert_eq!(m.pitch, PITCH_MIN);
    m.accumulate(5_000_000_000, 0);
    assert_eq!(m.pitch, -175_000_000_000);
    for d in [-7_i128, 3, 900_000_000_000, -400_000_000_000] {
        m.accumulate(d, d);
        assert!(m.pitch >= PITCH_MIN && m.pitch <= PITCH_MAX);
    }
}

#[test]
fn yaw_saturates_instead_of_overflowing() {
    let mut m = Movement::new();
    m.accumulate(0, i64::MAX as i128 + 10);
    assert_eq!(m.yaw, i64::MAX);
    m.accumulate(0, -5);
    assert_eq!(m.yaw, i64::MAX - 5);
}

#[test]
fn look_delta_formula_end_to_end() {
    // 10 * 720 * 0.05 / 1000 = 0.36 degrees
    assert_eq!(look_delta(10, 720, 50_000), 360_000_000);
    let mut m = Movement::new();
    m.look(10, 0, 720);
    assert_eq!(m.yaw, 360_000_000);
    assert_eq!(m.pitch, 0);
    m.look(-20, -100, 720);
    assert_eq!(m.yaw, 360_000_000 - 720_000_000);
    assert_eq!(m.pitch, -3_600_000_000);
}

#[test]
fn zero_pointer_delta_is_a_no_op() {
    let mut m = Movement::new();
    m.look(0, -50, 1000);
    let before = m;
    m.look(0, 0, 1000);
    assert_eq!(m, before);
}

#[test]
fn facing_of_zero_direction_is_zero() {
    let r = YawRotation { cos: 600_000, sin: -800_000 };
    assert_eq!(r.rotate(&Vec3::zero()), Vec3::zero());
    let mut v = Vec3::new(5, 7, 0);
    apply_movement(&mut v, &Movement::new(), 16_000);
    assert_eq!(v, Vec3::new(5, 7, 0));
}

#[test]
fn rotation_turns_forward() {
    let r = YawRotation { cos: 0, sin: ONE };
    assert_eq!(r.rotate(&Vec3::new(0, ONE, 3)), Vec3::new(ONE, 0, 3));
    let r2 = YawRotation { cos: 600_000, sin: 800_000 };
    assert_eq!(r2.rotate(&Vec3::new(ONE, 0, 0)), Vec3::new(600_000, -800_000, 0));
}

#[test]
fn opposite_keys_cancel_exactly() {
    let mut m = Movement::new();
    m.resolve_intent(keys(true, true, false, false));
    assert_eq!(m.direction, Vec3::zero());
    m.resolve_intent(keys(true, true, true, true));
    assert_eq!(m.direction, Vec3::zero());
    m.resolve_intent(keys(false, false, true, true));
    assert_eq!(m.direction, Vec3::zero());
}

#[test]
fn diagonal_intent_is_normalized_after_summing() {
    assert_eq!(intent_sum(keys(true, false, false, true)), Vec3::new(ONE, ONE, 0));
    let mut m = Movement::new();
    m.resolve_intent(keys(true, false, false, true));
    assert_eq!(m.direction, Vec3::new(707_106, 707_106, 0));
    m.resolve_intent(keys(false, true, true, false));
    assert_eq!(m.direction, Vec3::new(-707_106, -707_106, 0));
    m.resolve_intent(keys(true, false, false, false));
    assert_eq!(*m.direction(), Vec3::new(0, ONE, 0));
}

#[test]
fn set_direction_normalizes_and_unchecked_does_not() {
    let mut m = Movement::new();
    m.set_direction(Vec3::new(-3 * ONE, 4 * ONE, 0));
    assert_eq!(m.direction, Vec3::new(-600_000, 800_000, 0));
    m.set_direction(Vec3::zero());
    assert_eq!(m.direction, Vec3::zero());
    m.set_direction_unchecked(Vec3::new(-3, 4, 0));
    assert_eq!(m.direction, Vec3::new(-3, 4, 0));
    assert_eq!(Vec3::new(0, 0, -9).normalize_or_zero(), Vec3::new(0, 0, -ONE));
}

#[test]
fn cap_keeps_vertical_component() {
    let v = Vec3::new(20 * ONE, 0, -5 * ONE);
    assert_eq!(cap_speed(v, 8 * ONE), Vec3::new(7_761_139, 0, -5 * ONE));
}

#[test]
fn cap_with_level_velocity_reaches_speed_exactly() {
    let v = Vec3::new(30 * ONE, 40 * ONE, 0);
    let c = cap_speed(v, 8 * ONE);
    assert_eq!(c, Vec3::new(4_800_000, 6_400_000, 0));
    assert_eq!(c.length_squared(), 64 * (ONE as u128) * (ONE as u128));
}

#[test]
fn cap_leaves_slow_velocity_alone() {
    let v = Vec3::new(3 * ONE, 4 * ONE, 7);
    assert_eq!(cap_speed(v, 8 * ONE), v);
}

#[test]
fn movement_integrates_acceleration() {
    let mut m = Movement::new();
    m.resolve_intent(keys(true, false, false, false));
    let mut v = Vec3::zero();
    apply_movement(&mut v, &m, 16_000);
    assert_eq!(v, Vec3::new(0, 1_600_000, 0));
    apply_movement(&mut v, &m, 16_000);
    assert_eq!(v, Vec3::new(0, 3_200_000, 0));
    m.set_facing(YawRotation { cos: 0, sin: ONE });
    let mut w = Vec3::new(0, 0, -2 * ONE);
    apply_movement(&mut w, &m, 10_000);
    assert_eq!(w, Vec3::new(1_000_000, 0, -2 * ONE));
}

#[test]
fn movement_is_capped_at_speed() {
    let mut m = Movement::new();
    m.resolve_intent(keys(true, false, false, false));
    let mut v = Vec3::new(0, 8 * ONE, -3 * ONE);
    apply_movement(&mut v, &m, 1_000_000);
    assert_eq!(v.z, -3 * ONE);
    assert!(v.y <= 8 * ONE && v.y > 7 * ONE);
}

#[test]
fn jump_held_for_frames_is_cumulative() {
    let mut m = Movement::new();
    m.set_wants_to_jump(true);
    let mut v = Vec3::new(1, 2, 3);
    for _ in 0..5 {
        apply_jump(&mut v, &m);
    }
    assert_eq!(v, Vec3::new(1, 2, 3 + 5 * ONE));
    m.set_wants_to_jump(false);
    apply_jump(&mut v, &m);
    assert_eq!(v, Vec3::new(1, 2, 3 + 5 * ONE));
}

#[test]
fn count_loading_counts_only_loading() {
    let s = vec![LoadStatus::Loading, LoadStatus::Loaded, LoadStatus::Failed, LoadStatus::Loading, LoadStatus::NotLoaded];
    assert_eq!(count_loading(&s), 2);
    assert_eq!(count_loading(&Vec::new()), 0);
}

#[test]
fn transition_waits_for_loading_assets() {
    assert_eq!(transition(GameState::Load, &vec![LoadStatus::Loading]), GameState::Load);
    assert_eq!(transition(GameState::Load, &vec![LoadStatus::Loaded]), GameState::Main);
    assert_eq!(transition(GameState::Load, &vec![LoadStatus::Failed]), GameState::Main);
    assert_eq!(transition(GameState::Main, &vec![LoadStatus::Loading]), GameState::Main);
}

#[test]
fn lifecycle_sets_up_exactly_once() {
    let mut lc = Lifecycle::new();
    assert_eq!(lc.state, GameState::Load);
    lc.init_load(42);
    assert_eq!(lc.pending, vec![42]);
    let mut setups = 0;
    assert!(!lc.tick(&vec![LoadStatus::Loading]));
    assert_eq!(lc.state, GameState::Load);
    for _ in 0..3 {
        if lc.tick(&vec![LoadStatus::Loaded]) {
            setups += 1;
        }
        assert_eq!(lc.state, GameState::Main);
    }
    assert_eq!(setups, 1);
    assert_eq!(spawn_position(), Vec3::new(0, 0, 2 * ONE));
}

#[test]
fn small_vectors_normalize_to_unit_length() {
    let r = Vec3::new(1, 1, 0).normalize_or_zero();
    assert_eq!(r, Vec3::new(707_106, 707_106, 0));
    let big = Vec3::new(1 << 62, 1 << 62, 0).normalize_or_zero();
    assert_eq!(big, Vec3::new(707_106, 707_106, 0));
    let l = r.length_squared();
    assert!(l <= (ONE as u128) * (ONE as u128));
    assert!(l > (ONE as u128 - 3) * (ONE as u128 - 3));
}

#[test]
fn cap_never_leaves_speed_above_the_cap() {
    let c = cap_speed(Vec3::new(8 * ONE, 1, 0), 8 * ONE);
    assert_eq!(c, Vec3::new(7_999_999, 0, 0));
    let d = cap_speed(Vec3::new(9 * ONE, 9 * ONE, 0), 8 * ONE);
    assert_eq!(d, Vec3::new(5_656_853, 5_656_853, 0));
    assert!((d.x as i128) * (d.x as i128) + (d.y as i128) * (d.y as i128) <= 64 * (ONE as i128) * (ONE as i128));
}

#[test]
fn negative_sensitivity_inverts_look() {
    assert_eq!(look_delta(10, 720, -50_000), -360_000_000);
    let mut m = Movement::new();
    m.sensitivity = -50_000;
    m.look(10, 0, 720);
    assert_eq!(m.yaw, -360_000_000);
}

#[test]
fn failed_loads_are_counted() {
    let s = vec![LoadStatus::Failed, LoadStatus::Loaded, LoadStatus::Failed];
    assert_eq!(count_failed(&s), 2);
    assert_eq!(count_loading(&s), 0);
    assert_eq!(transition(GameState::Load, &s), GameState::Main);
}

#[test]
fn refused_transition_is_retried() {
    let mut lc = Lifecycle::new();
    lc.init_load(0);
    assert!(lc.tick(&vec![LoadStatus::Loaded]));
    lc.retry_transition();
    assert_eq!(lc.state, GameState::Load);
    assert!(lc.tick(&vec![LoadStatus::Loaded]));
    assert_eq!(lc.state, GameState::Main);
}

#[test]
fn drive_runs_one_frame_in_order() {
    let mut m = Movement::new();
    let mut v = Vec3::zero();
    drive(&mut m, &mut v, YawRotation { cos: 0, sin: ONE }, keys(true, false, false, false), true, 16_000);
    assert_eq!(m.direction, Vec3::new(0, ONE, 0));
    assert!(m.wants_to_jump);
    assert_eq!(m.facing(), YawRotation { cos: 0, sin: ONE });
    assert_eq!(v, Vec3::new(1_600_000, 0, ONE));
    drive(&mut m, &mut v, YawRotation::identity(), keys(false, false, false, false), false, 16_000);
    assert_eq!(m.direction, Vec3::zero());
    assert_eq!(v, Vec3::new(1_600_000, 0, ONE));
}

#[test]
fn huge_acceleration_does_not_overflow() {
    let mut m = Movement::new();
    m.acceleration = i64::MAX;
    m.speed = i64::MAX;
    m.resolve_intent(keys(true, false, false, false));
    let mut v = Vec3::zero();
    apply_movement(&mut v, &m, 16_000);
    assert_eq!(v, Vec3::new(0, 147_573_952_589_676_412, 0));
    m.resolve_intent(keys(false, true, false, false));
    let mut w = Vec3::new(0, -(i64::MAX - 5), 0);
    apply_movement(&mut w, &m, 4_000_000_000);
    // the push saturates at i64::MIN, just over the cap, which brings it to -i64::MAX
    assert_eq!(w, Vec3::new(0, -i64::MAX, 0));
}
