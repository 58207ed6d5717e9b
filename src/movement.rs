use crate::vector::{lemma_ceil_sqrt, lemma_rescaled_length, sat64, tdiv, Vec3, ONE};
use vstd::arithmetic::div_mod::{lemma_fundamental_div_mod, lemma_hoist_over_denominator};
use vstd::arithmetic::mul::lemma_mul_inequality;
use vstd::prelude::*;

verus! {

/// Angles are held in billionths of a degree: `DEGREE` steps make one degree.
pub const DEGREE: i64 = 1_000_000_000;

/// Lowest pitch: -180 degrees.
pub const PITCH_MIN: i64 = -180_000_000_000;

/// Highest pitch: 0 degrees.
pub const PITCH_MAX: i64 = 0;

/// Microseconds in one second (frame times are given in microseconds).
pub const MICROS_PER_SECOND: i64 = 1_000_000;

/// The yaw-only rotation about the vertical axis, by minus the yaw angle,
/// held as the cosine and sine of the yaw in fixed point (`ONE` is 1.0).
#[derive(Clone, Copy, Debug, PartialEq, Eq, Structural)]
pub struct YawRotation {
    pub cos: i64,
    pub sin: i64,
}

/// Which movement keys are held this frame.
#[derive(Clone, Copy, Debug, PartialEq, Eq, Structural)]
pub struct HeldKeys {
    pub forward: bool,
    pub back: bool,
    pub left: bool,
    pub right: bool,
}

/// Movement and orientation state of one controllable actor.
#[derive(Clone, Copy, Debug, PartialEq, Eq, Structural)]
pub struct Movement {
    /// Normalized planar intent, in fixed point; zero means no movement input.
    pub direction: Vec3,
    /// Pitch in billionths of a degree.
    pub pitch: i64,
    /// Yaw in billionths of a degree.
    pub yaw: i64,
    pub roll: i64,
    /// The facing rotation, derived by the host from `yaw`.
    pub rotation_yaw: YawRotation,
    /// Speed cap, in fixed point units per second.
    pub speed: i64,
    /// Acceleration, in fixed point units per second squared.
    pub acceleration: i64,
    pub wants_to_jump: bool,
    /// Look sensitivity in millionths.
    pub sensitivity: i32,
}

/// `v` rounded toward zero by `d`, then clamped to `i64`.
fn sat_tdiv(v: i128, d: i128) -> (r: i64)
    requires
        0 < d,
        -0x4000_0000_0000_0000_0000_0000_0000_0000int <= v
            <= 0x4000_0000_0000_0000_0000_0000_0000_0000int,
    ensures
        r == sat64(tdiv(v as int, d as int)),
{
    let q: i128 = if v >= 0 {
        v / d
    } else {
        -((-v) / d)
    };
    if q < i64::MIN as i128 {
        i64::MIN
    } else if q > i64::MAX as i128 {
        i64::MAX
    } else {
        q as i64
    }
}

impl YawRotation {
    pub open spec fn wf(self) -> bool {
        -ONE <= self.cos <= ONE && -ONE <= self.sin <= ONE
    }

    /// `v` turned about the vertical axis; the vertical component is kept.
    pub open spec fn rotated(self, v: Vec3) -> Vec3 {
        Vec3 {
            x: sat64(tdiv(v.x * self.cos + v.y * self.sin, ONE as int)) as i64,
            y: sat64(tdiv(v.y * self.cos - v.x * self.sin, ONE as int)) as i64,
            z: v.z,
        }
    }

    /// The rotation of a zero yaw.
    pub fn identity() -> (r: YawRotation)
        ensures
            r.cos == ONE && r.sin == 0,
            r.wf(),
    {
        YawRotation { cos: ONE, sin: 0 }
    }

    /// Apply the rotation to a vector.
    pub fn rotate(&self, v: &Vec3) -> (r: Vec3)
        requires
            self.wf(),
        ensures
            r == self.rotated(*v),
    {
        proof {
            let (x, y, c, s) = (v.x as int, v.y as int, self.cos as int, self.sin as int);
            assert(forall|a: int, b: int|
                -0x8000_0000_0000_0000int <= a <= 0x8000_0000_0000_0000int && -1_000_000 <= b
                    <= 1_000_000 ==> -0x1000_0000_0000_0000_0000_0000int <= #[trigger] (a * b)
                    <= 0x1000_0000_0000_0000_0000_0000int) by {
                assert forall|a: int, b: int|
                    -0x8000_0000_0000_0000int <= a <= 0x8000_0000_0000_0000int && -1_000_000 <= b
                        <= 1_000_000 implies -0x1000_0000_0000_0000_0000_0000int <= #[trigger] (a
                        * b) <= 0x1000_0000_0000_0000_0000_0000int by {
                    assert(-0x1000_0000_0000_0000_0000_0000int <= a * b
                        <= 0x1000_0000_0000_0000_0000_0000int) by (nonlinear_arith)
                        requires
                            -0x8000_0000_0000_0000int <= a <= 0x8000_0000_0000_0000int,
                            -1_000_000 <= b <= 1_000_000,
                    ;
                }
            }
            assert(-0x1000_0000_0000_0000_0000_0000int <= x * c);
            assert(-0x1000_0000_0000_0000_0000_0000int <= y * s);
            assert(-0x1000_0000_0000_0000_0000_0000int <= y * c);
            assert(-0x1000_0000_0000_0000_0000_0000int <= x * s);
            assert(-0x4000_0000_0000_0000_0000_0000_0000_0000int <= x * c + y * s
                <= 0x4000_0000_0000_0000_0000_0000_0000_0000int) by (nonlinear_arith)
                requires
                    -0x8000_0000_0000_0000int <= x <= 0x8000_0000_0000_0000int,
                    -0x8000_0000_0000_0000int <= y <= 0x8000_0000_0000_0000int,
                    -1_000_000 <= c <= 1_000_000,
                    -1_000_000 <= s <= 1_000_000,
            ;
            assert(-0x4000_0000_0000_0000_0000_0000_0000_0000int <= y * c - x * s
                <= 0x4000_0000_0000_0000_0000_0000_0000_0000int) by (nonlinear_arith)
                requires
                    -0x8000_0000_0000_0000int <= x <= 0x8000_0000_0000_0000int,
                    -0x8000_0000_0000_0000int <= y <= 0x8000_0000_0000_0000int,
                    -1_000_000 <= c <= 1_000_000,
                    -1_000_000 <= s <= 1_000_000,
            ;
        }
        let xc = (v.x as i128) * (self.cos as i128);
        let ys = (v.y as i128) * (self.sin as i128);
        let yc = (v.y as i128) * (self.cos as i128);
        let xs = (v.x as i128) * (self.sin as i128);
        let x = xc + ys;
        let y = yc - xs;
        Vec3 { x: sat_tdiv(x, ONE as i128), y: sat_tdiv(y, ONE as i128), z: v.z }
    }
}

/// The angle change for a pointer movement of `d`: `d * window_scale * sensitivity / 1000`
/// degrees, with sensitivity in millionths, i.e. `d * window_scale * sensitivity`
/// billionths of a degree.
pub open spec fn look_angle(d: int, window_scale: int, sensitivity: int) -> int {
    d * window_scale * sensitivity
}

/// `a` clamped to `[lo, hi]`.
pub open spec fn clamp(a: int, lo: int, hi: int) -> int {
    if a < lo {
        lo
    } else if a > hi {
        hi
    } else {
        a
    }
}

/// The signed contribution of an opposing pair of keys along one axis.
pub open spec fn axis(pos: bool, neg: bool) -> int {
    (if pos { ONE as int } else { 0 }) - (if neg { ONE as int } else { 0 })
}

/// The sum of the unit contributions of the held keys: forward `+y`, back `-y`,
/// left `-x`, right `+x`.
pub open spec fn intent_of(keys: HeldKeys) -> Vec3 {
    Vec3 { x: axis(keys.right, keys.left) as i64, y: axis(keys.forward, keys.back) as i64, z: 0 }
}

/// The velocity change for a force component `f` over `dt` microseconds.
pub open spec fn impulse(f: int, acceleration: int, dt: int) -> int {
    tdiv(f * acceleration * dt, ONE * MICROS_PER_SECOND)
}

/// `v` with the scaled force `f` added, each component clamped to `i64`.
pub open spec fn pushed(v: Vec3, f: Vec3, acceleration: int, dt: int) -> Vec3 {
    Vec3 {
        x: sat64(v.x + impulse(f.x as int, acceleration, dt)) as i64,
        y: sat64(v.y + impulse(f.y as int, acceleration, dt)) as i64,
        z: sat64(v.z + impulse(f.z as int, acceleration, dt)) as i64,
    }
}

/// The speed cap: a velocity faster than `speed` is scaled down to length `speed`,
/// and then its vertical component is put back to what it was.
pub open spec fn capped(v: Vec3, speed: int) -> Vec3 {
    if v.len_sq() > speed * speed {
        let c = v.shrunk_to(speed);
        Vec3 { x: c.x, y: c.y, z: v.z }
    } else {
        v
    }
}

/// The velocity after one frame of movement.
pub open spec fn moved(v: Vec3, m: Movement, dt: int) -> Vec3 {
    capped(pushed(v, m.rotation_yaw.rotated(m.direction), m.acceleration as int, dt), m.speed as int)
}

/// The velocity after one frame of the jump rule: one unit upward while jump is held.
pub open spec fn jumped(v: Vec3, wants_to_jump: bool) -> Vec3 {
    if wants_to_jump {
        Vec3 { z: sat64(v.z + ONE) as i64, ..v }
    } else {
        v
    }
}

/// The velocity after `n` frames of the jump rule.
pub open spec fn jumped_frames(v: Vec3, wants_to_jump: bool, n: nat) -> Vec3
    decreases n,
{
    if n == 0 {
        v
    } else {
        jumped(jumped_frames(v, wants_to_jump, (n - 1) as nat), wants_to_jump)
    }
}

impl Movement {
    pub open spec fn wf(self) -> bool {
        &&& PITCH_MIN <= self.pitch <= PITCH_MAX
        &&& self.rotation_yaw.wf()
        &&& 0 <= self.speed
        &&& 0 <= self.acceleration
    }

    /// Default actor: level pitch, speed 8, acceleration 100, sensitivity 0.05.
    pub open spec fn initial() -> Movement {
        Movement {
            direction: Vec3 { x: 0, y: 0, z: 0 },
            pitch: 0,
            yaw: 0,
            roll: 0,
            rotation_yaw: YawRotation { cos: ONE, sin: 0 },
            speed: 8_000_000,
            acceleration: 100_000_000,
            wants_to_jump: false,
            sensitivity: 50_000,
        }
    }

    pub fn new() -> (r: Movement)
        ensures
            r == Movement::initial(),
            r.wf(),
    {
        Movement {
            direction: Vec3::zero(),
            pitch: 0,
            yaw: 0,
            roll: 0,
            rotation_yaw: YawRotation::identity(),
            speed: 8 * ONE,
            acceleration: 100 * ONE,
            wants_to_jump: false,
            sensitivity: 50_000,
        }
    }

    /// The yaw-only facing rotation.
    pub fn facing(&self) -> (r: YawRotation)
        ensures
            r == self.rotation_yaw,
    {
        self.rotation_yaw
    }

    /// Set the direction, normalizing it (a zero vector stays zero).
    pub fn set_direction(&mut self, direction: Vec3)
        ensures
            *final(self) == (Movement { direction: direction.normalized_or_zero(), ..*old(self) }),
    {
        self.direction = direction.normalize_or_zero();
    }

    /// Set the direction without normalizing.
    pub fn set_direction_unchecked(&mut self, direction: Vec3)
        ensures
            *final(self) == (Movement { direction, ..*old(self) }),
    {
        self.direction = direction;
    }

    /// The current direction.
    pub fn direction(&self) -> (r: &Vec3)
        ensures
            *r == self.direction,
    {
        &self.direction
    }

    /// Set the facing rotation that the host derived from `yaw`.
    pub fn set_facing(&mut self, rotation: YawRotation)
        ensures
            *final(self) == (Movement { rotation_yaw: rotation, ..*old(self) }),
    {
        self.rotation_yaw = rotation;
    }

    /// Add to the yaw (clamped to the range of `i64`) and to the pitch, which is
    /// then clamped to `[PITCH_MIN, PITCH_MAX]` whatever the delta.
    pub fn accumulate(&mut self, pitch_delta: i128, yaw_delta: i128)
        requires
            -0x4000_0000_0000_0000_0000_0000_0000_0000int <= pitch_delta
                <= 0x4000_0000_0000_0000_0000_0000_0000_0000int,
            -0x4000_0000_0000_0000_0000_0000_0000_0000int <= yaw_delta
                <= 0x4000_0000_0000_0000_0000_0000_0000_0000int,
        ensures
            final(self).pitch == clamp(old(self).pitch + pitch_delta, PITCH_MIN as int, PITCH_MAX as int),
            PITCH_MIN <= final(self).pitch <= PITCH_MAX,
            final(self).yaw == sat64(old(self).yaw + yaw_delta),
            *final(self) == (Movement { pitch: final(self).pitch, yaw: final(self).yaw, ..*old(self) }),
    {
        let p: i128 = self.pitch as i128 + pitch_delta;
        self.pitch = if p < PITCH_MIN as i128 {
            PITCH_MIN
        } else if p > PITCH_MAX as i128 {
            PITCH_MAX
        } else {
            p as i64
        };
        let y: i128 = self.yaw as i128 + yaw_delta;
        self.yaw = if y < i64::MIN as i128 {
            i64::MIN
        } else if y > i64::MAX as i128 {
            i64::MAX
        } else {
            y as i64
        };
    }

    /// The look controller: turn by a pointer movement `(dx, dy)` summed over the frame,
    /// with `window_scale` the smaller side of the viewport.
    pub fn look(&mut self, dx: i32, dy: i32, window_scale: u32)
        ensures
            final(self).pitch == clamp(
                old(self).pitch + look_angle(dy as int, window_scale as int, old(self).sensitivity as int),
                PITCH_MIN as int,
                PITCH_MAX as int,
            ),
            final(self).yaw == sat64(
                old(self).yaw + look_angle(dx as int, window_scale as int, old(self).sensitivity as int),
            ),
            *final(self) == (Movement { pitch: final(self).pitch, yaw: final(self).yaw, ..*old(self) }),
    {
        let pd = look_delta(dy, window_scale, self.sensitivity);
        let yd = look_delta(dx, window_scale, self.sensitivity);
        self.accumulate(pd, yd);
    }

    /// The movement intent resolver: the held keys' contributions summed, then
    /// normalized-or-zero, become the direction.
    pub fn resolve_intent(&mut self, keys: HeldKeys)
        ensures
            *final(self) == (Movement { direction: intent_of(keys).normalized_or_zero(), ..*old(self) }),
    {
        let d = intent_sum(keys);
        self.set_direction(d);
    }

    /// Record whether jump is held this frame.
    pub fn set_wants_to_jump(&mut self, held: bool)
        ensures
            *final(self) == (Movement { wants_to_jump: held, ..*old(self) }),
    {
        self.wants_to_jump = held;
    }
}

impl Default for Movement {
    fn default() -> (r: Movement)
        ensures
            r == Movement::initial(),
            r.wf(),
    {
        Movement::new()
    }
}

/// The look angle for one pointer axis, in billionths of a degree.
pub fn look_delta(d: i32, window_scale: u32, sensitivity: i32) -> (r: i128)
    ensures
        r == look_angle(d as int, window_scale as int, sensitivity as int),
        -0x4000_0000_0000_0000_0000_0000_0000_0000int <= r
            <= 0x4000_0000_0000_0000_0000_0000_0000_0000int,
{
    assert(-0x4000_0000_0000_0000_0000_0000_0000_0000int <= (d as int) * (window_scale as int)
        * (sensitivity as int) <= 0x4000_0000_0000_0000_0000_0000_0000_0000int)
        by (nonlinear_arith)
        requires
            -0x8000_0000int <= d <= 0x8000_0000int,
            0 <= window_scale <= 0x1_0000_0000int,
            -0x8000_0000int <= sensitivity <= 0x8000_0000int,
    ;
    assert(-0x1_0000_0000_0000_0000int <= (d as int) * (window_scale as int)
        <= 0x1_0000_0000_0000_0000int) by (nonlinear_arith)
        requires
            -0x8000_0000int <= d <= 0x8000_0000int,
            0 <= window_scale <= 0x1_0000_0000int,
    ;
    (d as i128) * (window_scale as i128) * (sensitivity as i128)
}

/// The unnormalized sum of the held keys' contributions.
pub fn intent_sum(keys: HeldKeys) -> (r: Vec3)
    ensures
        r == intent_of(keys),
{
    let mut x: i64 = 0;
    let mut y: i64 = 0;
    if keys.forward {
        y = y + ONE;
    }
    if keys.back {
        y = y - ONE;
    }
    if keys.left {
        x = x - ONE;
    }
    if keys.right {
        x = x + ONE;
    }
    Vec3 { x, y, z: 0 }
}

/// The speed cap applied to a velocity.
pub fn cap_speed(v: Vec3, speed: i64) -> (r: Vec3)
    requires
        0 <= speed,
    ensures
        r == capped(v, speed as int),
        r.z == v.z,
        v.len_sq() > speed * speed ==> r.x * r.x + r.y * r.y <= speed * speed,
{
    let l = v.length_squared();
    let s = speed as u128;
    assert(s * s <= u128::MAX) by (nonlinear_arith)
        requires
            0 <= s <= 0x8000_0000_0000_0000int,
    ;
    if l > s * s {
        assert(v.len_sq() > 0) by (nonlinear_arith)
            requires
                v.len_sq() > s * s,
        ;
        let c = v.shrink_to(speed);
        assert(c.z * c.z >= 0) by (nonlinear_arith);
        Vec3 { x: c.x, y: c.y, z: v.z }
    } else {
        v
    }
}

/// The physics force applier: push `velocity` along the facing-rotated direction by
/// `acceleration` over `dt_micros` microseconds, then apply the speed cap.
pub fn apply_movement(velocity: &mut Vec3, movement: &Movement, dt_micros: u32)
    requires
        movement.wf(),
    ensures
        *final(velocity) == moved(*old(velocity), *movement, dt_micros as int),
{
    let f = movement.facing().rotate(&movement.direction);
    let x = push_component(velocity.x, f.x, movement.acceleration, dt_micros);
    let y = push_component(velocity.y, f.y, movement.acceleration, dt_micros);
    let z = push_component(velocity.z, f.z, movement.acceleration, dt_micros);
    let pushed_v = Vec3 { x, y, z };
    *velocity = cap_speed(pushed_v, movement.speed);
}

/// One velocity component pushed by a force component over `dt` microseconds.
/// The product is split at `ONE * MICROS_PER_SECOND` so that it never overflows.
fn push_component(v: i64, f: i64, acceleration: i64, dt: u32) -> (r: i64)
    requires
        0 <= acceleration,
    ensures
        r == sat64(v + impulse(f as int, acceleration as int, dt as int)),
{
    assert(-0x4000_0000_0000_0000_0000_0000_0000_0000int <= (f as int) * (acceleration as int)
        <= 0x4000_0000_0000_0000_0000_0000_0000_0000int) by (nonlinear_arith)
        requires
            -0x8000_0000_0000_0000int <= f <= 0x8000_0000_0000_0000int,
            0 <= acceleration <= 0x8000_0000_0000_0000int,
    ;
    let p: i128 = (f as i128) * (acceleration as i128);
    let mag: i128 = if p >= 0 {
        p
    } else {
        -p
    };
    let d: i128 = 1_000_000_000_000;
    let q: i128 = mag / d;
    let rem: i128 = mag % d;
    let t: i128 = dt as i128;
    let ghost (mi, qi, ri, ti, di) = (mag as int, q as int, rem as int, t as int, d as int);
    proof {
        lemma_fundamental_div_mod(mi, di);
        assert(0 <= ri < di);
        if qi < 0 {
            lemma_mul_inequality(qi, -1, di);
            assert(qi * di == di * qi) by (nonlinear_arith);
        }
        if qi > 0x100_0000_0000_0000_0000_0000int {
            lemma_mul_inequality(0x100_0000_0000_0000_0000_0000int + 1, qi, di);
            assert(qi * di == di * qi) by (nonlinear_arith);
        }
        assert(0 <= qi <= 0x100_0000_0000_0000_0000_0000int);
        lemma_mul_inequality(qi, 0x100_0000_0000_0000_0000_0000int, ti);
        lemma_mul_inequality(ti, 0x1_0000_0000int, 0x100_0000_0000_0000_0000_0000int);
        assert(0 <= qi * ti) by (nonlinear_arith)
            requires
                0 <= qi,
                0 <= ti,
        ;
        assert(0x100_0000_0000_0000_0000_0000int * ti == ti * 0x100_0000_0000_0000_0000_0000int)
            by (nonlinear_arith);
        assert(qi * ti <= 0x100_0000_0000_0000_0000_0000_0000_0000int);
        assert(0 <= ri * ti <= 0x1_0000_0000_0000_0000_0000_0000int) by (nonlinear_arith)
            requires
                0 <= ri < 1_000_000_000_000,
                0 <= ti <= 0x1_0000_0000int,
        ;
        assert(mi * ti == ri * ti + (qi * ti) * di) by (nonlinear_arith)
            requires
                mi == di * qi + ri,
        ;
        lemma_hoist_over_denominator(ri * ti, qi * ti, di as nat);
        assert((ri * ti) / di >= 0) by (nonlinear_arith)
            requires
                ri * ti >= 0,
                di > 0,
        ;
        assert((ri * ti) / di <= ri * ti) by (nonlinear_arith)
            requires
                ri * ti >= 0,
                di >= 1,
        ;
        if p >= 0 {
            assert((f as int) * (acceleration as int) * ti == mi * ti);
            assert(mi * ti >= 0) by (nonlinear_arith)
                requires
                    mi >= 0,
                    ti >= 0,
            ;
        } else {
            assert((f as int) * (acceleration as int) * ti == -(mi * ti)) by (nonlinear_arith)
                requires
                    (f as int) * (acceleration as int) == -mi,
            ;
            assert(mi * ti >= 0) by (nonlinear_arith)
                requires
                    mi >= 0,
                    ti >= 0,
            ;
        }
    }
    let m: i128 = q * t + rem * t / d;
    let s: i128 = if p >= 0 {
        v as i128 + m
    } else {
        v as i128 - m
    };
    if s < i64::MIN as i128 {
        i64::MIN
    } else if s > i64::MAX as i128 {
        i64::MAX
    } else {
        s as i64
    }
}

/// The jump rule: while jump is held, add one unit of upward velocity, every frame.
pub fn apply_jump(velocity: &mut Vec3, movement: &Movement)
    ensures
        *final(velocity) == jumped(*old(velocity), movement.wants_to_jump),
{
    if movement.wants_to_jump {
        velocity.z = if velocity.z > i64::MAX - ONE {
            i64::MAX
        } else {
            velocity.z + ONE
        };
    }
}

/// The actor's record after this frame's input: the facing rotation, the
/// movement intent of the held keys, and the jump key.
pub open spec fn with_input(m: Movement, facing: YawRotation, keys: HeldKeys, jump: bool) -> Movement {
    Movement {
        rotation_yaw: facing,
        direction: intent_of(keys).normalized_or_zero(),
        wants_to_jump: jump,
        ..m
    }
}

/// One frame of one actor after its look step, in the fixed order: take the facing
/// rotation the host derived from the new yaw, resolve the movement intent, record
/// the jump key, push the velocity, then apply the jump.
pub fn drive(
    movement: &mut Movement,
    velocity: &mut Vec3,
    facing: YawRotation,
    keys: HeldKeys,
    jump: bool,
    dt_micros: u32,
)
    requires
        old(movement).wf(),
        facing.wf(),
    ensures
        *final(movement) == with_input(*old(movement), facing, keys, jump),
        final(movement).wf(),
        *final(velocity) == jumped(moved(*old(velocity), *final(movement), dt_micros as int), jump),
{
    movement.set_facing(facing);
    movement.resolve_intent(keys);
    movement.set_wants_to_jump(jump);
    apply_movement(velocity, movement, dt_micros);
    apply_jump(velocity, movement);
}

/// The facing rotation leaves a zero direction at zero, whatever the yaw; so a
/// frame with no movement input adds nothing to the velocity before the cap.
pub proof fn lemma_facing_zero(r: YawRotation, m: Movement, v: Vec3, dt: int)
    ensures
        r.rotated(Vec3 { x: 0, y: 0, z: 0 }).is_zero(),
        m.direction.is_zero() ==> moved(v, m, dt) == capped(v, m.speed as int),
{
    let z = Vec3 { x: 0, y: 0, z: 0 };
    assert(z.x * r.cos + z.y * r.sin == 0);
    assert(z.y * r.cos - z.x * r.sin == 0);
    if m.direction.is_zero() {
        let f = m.rotation_yaw.rotated(m.direction);
        assert(m.direction.x * m.rotation_yaw.cos + m.direction.y * m.rotation_yaw.sin == 0);
        assert(m.direction.y * m.rotation_yaw.cos - m.direction.x * m.rotation_yaw.sin == 0);
        assert(f.is_zero());
        assert(0 * (m.acceleration as int) * dt == 0) by (nonlinear_arith);
        assert(pushed(v, f, m.acceleration as int, dt) == v);
    }
}

/// Opposite keys cancel: holding forward and back (and likewise left and right)
/// yields the zero direction exactly.
pub proof fn lemma_opposite_keys_cancel(keys: HeldKeys)
    requires
        keys.forward == keys.back,
        keys.left == keys.right,
    ensures
        intent_of(keys).normalized_or_zero().is_zero(),
{
}

/// The speed cap keeps the vertical component exactly, whatever it was, and a
/// velocity over the cap leaves with its horizontal speed within `speed`.
pub proof fn lemma_cap_keeps_vertical(v: Vec3, speed: int)
    requires
        0 <= speed <= i64::MAX,
    ensures
        capped(v, speed).z == v.z,
        v.len_sq() > speed * speed ==> capped(v, speed).x * capped(v, speed).x + capped(v, speed).y
            * capped(v, speed).y <= speed * speed,
{
    if v.len_sq() > speed * speed {
        assert(speed * speed >= 0) by (nonlinear_arith);
        let l = v.len_sq();
        lemma_ceil_sqrt(l);
        let n = crate::vector::ceil_sqrt(l);
        lemma_rescaled_length(v.x as int, v.y as int, v.z as int, speed, n);
        let z = crate::vector::rescale(v.z as int, speed, n);
        assert(z * z >= 0) by (nonlinear_arith);
    }
}

/// Holding jump for `n` frames adds `n` units of upward velocity, and nothing else.
pub proof fn lemma_jump_held_frames(v: Vec3, n: nat)
    requires
        v.z + n * ONE <= i64::MAX,
    ensures
        jumped_frames(v, true, n) == (Vec3 { z: (v.z + n * ONE) as i64, ..v }),
    decreases n,
{
    if n > 0 {
        let k = (n - 1) as nat;
        assert(v.z + k * ONE <= i64::MAX) by (nonlinear_arith)
            requires
                v.z + n * ONE <= i64::MAX,
                k == n - 1,
        ;
        lemma_jump_held_frames(v, k);
        assert(v.z + k * ONE + ONE == v.z + n * ONE) by (nonlinear_arith)
            requires
                k == n - 1,
        ;
    }
}

} // verus!
