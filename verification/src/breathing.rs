//! The saturated RGB color wheel walked by the breathing effect, and the
//! integer timing rules of a breathing cycle.
use vstd::prelude::*;
use vstd::arithmetic::div_mod::lemma_fundamental_div_mod;
use crate::protocol::{hex_color_rgb, hex_color_digits, hex_pair_value, is_hex_color};
use crate::text::{
    ascii_upper, chars_of, decimal, hex_byte, hex_digit_lower, hex_value, is_ascii_hexdigit, is_whitespace,
    push_chars, push_decimal, push_hex_byte, string_of, trim, trim_end, trim_start, upper,
};

verus! {

/// Six edges of the saturated RGB color wheel, with 255 unit changes per edge.
pub const COLOR_COUNT: u16 = 1530;

pub const MAX_COLOR_STEP: u16 = 100;

/// Minimum average pace of a cycle, in nanoseconds (300 ms).
pub const MIN_AVERAGE_INTERVAL_NANOS: u64 = 300_000_000;

pub const MAX_CYCLE_SECONDS: u32 = 3600;

pub open spec fn valid_color_step(step: int) -> bool {
    1 <= step <= 100
}

/// `ceil(1530 / step)`: the number of updates in one lap.
pub open spec fn spec_frames_per_cycle(step: int) -> int {
    (1530 + step - 1) / step
}

/// `ceil(frames * 0.3)` seconds: the shortest allowed lap.
pub open spec fn spec_minimum_cycle_seconds(step: int) -> int {
    (spec_frames_per_cycle(step) * 300 + 999) / 1000
}

pub open spec fn color_step_error() -> Seq<char> {
    "breathing color step must be between 1 and 100"@
}

pub open spec fn cycle_range_error(minimum: nat, step: nat) -> Seq<char> {
    "full cycle must be between "@ + decimal(minimum) + " and 3600 seconds for color step "@
        + decimal(step)
}

/// The default color step: the smallest possible change.
pub fn default_color_step() -> (s: u16)
    ensures
        s == 1,
{
    1
}

/// The default lap duration: ten minutes.
pub fn default_cycle_seconds() -> (s: u32)
    ensures
        s == 600,
{
    600
}

pub fn frames_per_cycle(color_step: u16) -> (n: u16)
    requires
        color_step >= 1,
    ensures
        n == spec_frames_per_cycle(color_step as int),
        color_step <= 1530 ==> n >= 1,
{
    let n = (1530u32 + color_step as u32 - 1) / color_step as u32;
    assert(n <= 1530) by (nonlinear_arith)
        requires
            n == (1530 + color_step - 1) / (color_step as int),
            color_step >= 1,
    ;
    proof {
        if color_step <= 1530 {
            assert(n >= 1) by (nonlinear_arith)
                requires
                    n == (1530 + color_step - 1) / (color_step as int),
                    1 <= color_step <= 1530,
            ;
        }
    }
    n as u16
}

pub fn minimum_cycle_seconds(color_step: u16) -> (s: u32)
    requires
        color_step >= 1,
    ensures
        s == spec_minimum_cycle_seconds(color_step as int),
{
    let frames = frames_per_cycle(color_step) as u32;
    (frames * 300 + 999) / 1000
}

pub fn validate_color_step(step: u16) -> (r: Result<(), String>)
    ensures
        match r {
            Ok(()) => valid_color_step(step as int),
            Err(m) => !valid_color_step(step as int) && m@ == color_step_error(),
        },
{
    if 1 <= step && step <= MAX_COLOR_STEP {
        Ok(())
    } else {
        Err("breathing color step must be between 1 and 100".to_string())
    }
}

/// Whether `cycle_seconds` is an allowed lap duration for `step`.
pub open spec fn valid_cycle(cycle_seconds: int, step: int) -> bool {
    valid_color_step(step) && spec_minimum_cycle_seconds(step) <= cycle_seconds <= 3600
}

/// Mean time per update of a lap, in nanoseconds (rounded down).
pub open spec fn spec_average_interval_nanos(cycle_seconds: int, step: int) -> int {
    let exact = cycle_seconds * 1_000_000_000 / spec_frames_per_cycle(step);
    if exact < 300_000_000 {
        300_000_000
    } else {
        exact
    }
}

/// Why a lap duration is refused: a bad step first, then the duration range.
pub open spec fn cycle_error(color_step: int) -> Seq<char> {
    if valid_color_step(color_step) {
        cycle_range_error(spec_minimum_cycle_seconds(color_step) as nat, color_step as nat)
    } else {
        color_step_error()
    }
}

/// Checks a lap duration and returns the average time per update in nanoseconds.
pub fn average_frame_interval(cycle_seconds: u32, color_step: u16) -> (r: Result<u64, String>)
    ensures
        match r {
            Ok(n) => valid_cycle(cycle_seconds as int, color_step as int) && n
                == spec_average_interval_nanos(cycle_seconds as int, color_step as int),
            Err(m) => !valid_cycle(cycle_seconds as int, color_step as int) && m@ == cycle_error(
                color_step as int,
            ),
        },
{
    validate_color_step(color_step)?;
    let minimum = minimum_cycle_seconds(color_step);
    if !(minimum <= cycle_seconds && cycle_seconds <= MAX_CYCLE_SECONDS) {
        let mut m = chars_of("full cycle must be between ");
        push_decimal(&mut m, minimum as u64);
        let tail = chars_of(" and 3600 seconds for color step ");
        push_chars(&mut m, &tail);
        push_decimal(&mut m, color_step as u64);
        return Err(string_of(&m));
    }
    let frames = frames_per_cycle(color_step) as u64;
    let exact = cycle_seconds as u64 * 1_000_000_000 / frames;
    if exact < MIN_AVERAGE_INTERVAL_NANOS {
        Ok(MIN_AVERAGE_INTERVAL_NANOS)
    } else {
        Ok(exact)
    }
}

/// Chooses the lap duration of a breathing request: an explicit duration, or
/// one converted from a legacy per-update pace (`legacy_cycle` holds the
/// outcome of that conversion), or the default; never both.
pub fn resolve_cycle_seconds(
    cycle: Option<u32>,
    legacy_cycle: Option<Result<u32, String>>,
    color_step: u16,
) -> (r: Result<u32, String>)
    ensures
        cycle.is_some() && legacy_cycle.is_some() ==> (r matches Err(m)
            && m@ == "choose cycle_seconds or legacy pace_seconds, not both"@),
        cycle.is_none() ==> (legacy_cycle matches Some(Err(e)) ==> r == Err::<u32, String>(e)),
        ({
            let chosen = match (cycle, legacy_cycle) {
                (Some(c), None) => Some(c),
                (None, Some(Ok(c))) => Some(c),
                (None, None) => Some(600u32),
                _ => None,
            };
            chosen matches Some(c) ==> match r {
                Ok(v) => v == c && valid_cycle(c as int, color_step as int),
                Err(m) => !valid_cycle(c as int, color_step as int) && m@ == cycle_error(
                    color_step as int,
                ),
            }
        }),
{
    let chosen = match (cycle, legacy_cycle) {
        (Some(_), Some(_)) => {
            return Err("choose cycle_seconds or legacy pace_seconds, not both".to_string());
        },
        (Some(c), None) => c,
        (None, Some(converted)) => converted?,
        (None, None) => default_cycle_seconds(),
    };
    average_frame_interval(chosen, color_step)?;
    Ok(chosen)
}

/// When the next update is due: one interval after the last one started, but
/// never earlier than the moment its write finished, so slow writes shift the
/// schedule instead of producing a burst of overdue updates.
pub fn next_frame_deadline(started: u64, finished: u64, interval: u64) -> (d: u64)
    requires
        started + interval <= u64::MAX,
    ensures
        d >= finished,
        d >= started + interval,
        d == started + interval || d == finished,
{
    let due = started + interval;
    if due >= finished {
        due
    } else {
        finished
    }
}

/// Distance travelled along the wheel after one more update.
pub open spec fn advance_travelled(travelled: nat, step: nat) -> nat {
    if travelled + step >= 1530 {
        0
    } else {
        travelled + step
    }
}

/// Distance travelled after `k` updates of a fresh cycle.
pub open spec fn lap_travelled(step: nat, k: nat) -> nat
    decreases k,
{
    if k == 0 {
        0
    } else {
        advance_travelled(lap_travelled(step, (k - 1) as nat), step)
    }
}

/// Wheel position after `k` updates of a cycle started at `origin`.
pub open spec fn lap_position(origin: nat, step: nat, k: nat) -> nat {
    (origin % 1530 + lap_travelled(step, k)) % 1530
}

proof fn lemma_frames_bounds(step: int)
    requires
        valid_color_step(step),
    ensures
        (spec_frames_per_cycle(step) - 1) * step < 1530,
        spec_frames_per_cycle(step) * step >= 1530,
        1 <= spec_frames_per_cycle(step) <= 1530,
{
    let f = spec_frames_per_cycle(step);
    lemma_fundamental_div_mod(1530 + step - 1, step);
    let r = (1530 + step - 1) % step;
    assert(0 <= r < step);
    assert(step * f + r == 1529 + step);
    assert((f - 1) * step == step * f - step) by (nonlinear_arith);
    assert(f * step == step * f) by (nonlinear_arith);
    assert(f >= 1) by (nonlinear_arith)
        requires
            step * f + r == 1529 + step,
            r < step,
            1 <= step,
    ;
    assert(f <= 1530) by (nonlinear_arith)
        requires
            step * f + r == 1529 + step,
            0 <= r,
            1 <= step,
    ;
}

proof fn lemma_lap_travelled_linear(step: nat, k: nat)
    requires
        1 <= step,
        k * step < 1530,
    ensures
        lap_travelled(step, k) == k * step,
    decreases k,
{
    if k > 0 {
        let j = (k - 1) as nat;
        assert(j * step + step == k * step) by (nonlinear_arith)
            requires
                j == k - 1,
        ;
        lemma_lap_travelled_linear(step, j);
        assert(lap_travelled(step, k) == advance_travelled(lap_travelled(step, j), step));
    } else {
        assert(k * step == 0) by (nonlinear_arith)
            requires
                k == 0,
        ;
    }
}

/// A lap is exact: every update moves `step` positions except the last, which
/// moves the remainder (`1530 - (frames - 1) * step`), and after
/// `frames_per_cycle(step)` updates the cycle is back at its origin.
#[verifier::spinoff_prover]
#[verifier::rlimit(30)]
pub proof fn lemma_lap_closes(origin: nat, step: nat)
    requires
        valid_color_step(step as int),
    ensures
        forall|k: nat| k < spec_frames_per_cycle(step as int) ==> #[trigger] lap_travelled(step, k)
            == k * step,
        lap_travelled(step, spec_frames_per_cycle(step as int) as nat) == 0,
        lap_position(origin, step, spec_frames_per_cycle(step as int) as nat) == origin % 1530,
        forall|k: nat|
            0 < k < spec_frames_per_cycle(step as int) ==> (#[trigger] lap_position(origin, step, k)
                + 1530 - lap_position(origin, step, (k - 1) as nat)) % 1530 == step,
        (lap_position(origin, step, spec_frames_per_cycle(step as int) as nat) + 1530 - lap_position(
            origin,
            step,
            (spec_frames_per_cycle(step as int) - 1) as nat,
        )) % 1530 == 1530 - (spec_frames_per_cycle(step as int) - 1) * step,
{
    let f = spec_frames_per_cycle(step as int);
    lemma_frames_bounds(step as int);
    assert forall|k: nat| k < f implies #[trigger] lap_travelled(step, k) == k * step by {
        assert(k * step <= (f - 1) * step) by (nonlinear_arith)
            requires
                k < f,
                step >= 1,
        ;
        lemma_lap_travelled_linear(step, k);
    }
    let last = (f - 1) as nat;
    assert(lap_travelled(step, last) == last * step);
    assert(last * step + step == f * step) by (nonlinear_arith)
        requires
            last == f - 1,
    ;
    assert(lap_travelled(step, f as nat) == 0);
    let o = origin % 1530;
    assert forall|k: nat|
        0 < k < f implies (#[trigger] lap_position(origin, step, k) + 1530 - lap_position(
        origin,
        step,
        (k - 1) as nat,
    )) % 1530 == step by {
        assert(lap_travelled(step, (k - 1) as nat) == (k - 1) * step);
        assert(lap_travelled(step, k) == k * step);
        assert(k * step == (k - 1) * step + step) by (nonlinear_arith);
        assert(k * step <= (f - 1) * step) by (nonlinear_arith)
            requires
                k < f,
                step >= 1,
        ;
        let a = (o + (k - 1) * step) % 1530;
        let b = (o + k * step) % 1530;
        assert((b + 1530 - a) % 1530 == step) by {
            lemma_fundamental_div_mod(o + (k - 1) * step, 1530);
            lemma_fundamental_div_mod((o + k * step) as int, 1530);
        }
    }
    assert((o + 1530 - (o + last * step) % 1530) % 1530 == 1530 - last * step) by {
        lemma_fundamental_div_mod((o + last * step) as int, 1530);
    }
}

/// The positions of one lap, walked one update at a time; the last update
/// may be shorter so that every lap ends exactly where it started.
pub struct ColorCycle {
    origin: u16,
    travelled: u16,
    color_step: u16,
    /// Updates made since the lap started at `origin`.
    updates: Ghost<nat>,
}

impl ColorCycle {
    #[verifier::type_invariant]
    spec fn inv(self) -> bool {
        &&& self.origin < 1530
        &&& self.travelled < 1530
        &&& valid_color_step(self.color_step as int)
        &&& self.travelled == lap_travelled(self.color_step as nat, self.updates@)
    }

    pub closed spec fn origin(self) -> nat {
        self.origin as nat
    }

    pub closed spec fn travelled(self) -> nat {
        self.travelled as nat
    }

    pub closed spec fn step(self) -> nat {
        self.color_step as nat
    }

    /// How many updates the lap has made since it started.
    pub closed spec fn updates(self) -> nat {
        self.updates@
    }

    /// The current wheel position.
    pub open spec fn position(self) -> nat {
        (self.origin() + self.travelled()) % 1530
    }

    pub fn new(origin: u16, color_step: u16) -> (r: Result<Self, String>)
        ensures
            match r {
                Ok(c) => valid_color_step(color_step as int) && c.origin() == origin % 1530
                    && c.travelled() == 0 && c.step() == color_step && c.updates() == 0,
                Err(m) => !valid_color_step(color_step as int) && m@ == color_step_error(),
            },
    {
        validate_color_step(color_step)?;
        Ok(ColorCycle { origin: origin % COLOR_COUNT, travelled: 0, color_step, updates: Ghost(0) })
    }

    /// Moves one update along the wheel and returns the new position: after
    /// `k` updates of a lap started at `origin` it is `lap_position(origin,
    /// step, k)`, which `lemma_lap_closes` walks around the wheel and back.
    pub fn advance(&mut self) -> (p: u16)
        ensures
            final(self).origin() == old(self).origin(),
            final(self).step() == old(self).step(),
            final(self).travelled() == advance_travelled(old(self).travelled(), old(self).step()),
            final(self).updates() == old(self).updates() + 1,
            final(self).travelled() == lap_travelled(final(self).step(), final(self).updates()),
            p == final(self).position(),
            p == lap_position(final(self).origin(), final(self).step(), final(self).updates()),
    {
        proof {
            use_type_invariant(&*self);
        }
        let t = self.travelled + self.color_step;
        let travelled = if t >= COLOR_COUNT {
            0
        } else {
            t
        };
        let ghost updates = self.updates@ + 1;
        *self = ColorCycle {
            origin: self.origin,
            travelled,
            color_step: self.color_step,
            updates: Ghost(updates),
        };
        (self.origin + self.travelled) % COLOR_COUNT
    }

    /// Restarts the lap at `position`, keeping the step.
    pub fn seek(&mut self, position: u16)
        requires
            position < 1530,
        ensures
            final(self).origin() == position,
            final(self).travelled() == 0,
            final(self).updates() == 0,
            final(self).step() == old(self).step(),
            final(self).position() == position,
    {
        proof {
            use_type_invariant(&*self);
        }
        *self = ColorCycle {
            origin: position,
            travelled: 0,
            color_step: self.color_step,
            updates: Ghost(0),
        };
    }

    /// The current wheel position.
    pub fn current(&self) -> (p: u16)
        ensures
            p == self.position(),
    {
        proof {
            use_type_invariant(self);
        }
        (self.origin + self.travelled) % COLOR_COUNT
    }
}

/// The positions of one complete lap from `origin`, one per update: the
/// frame sequence of a breathing plan.
pub fn cycle_positions(origin: u16, color_step: u16) -> (r: Result<Vec<u16>, String>)
    ensures
        match r {
            Ok(v) => valid_color_step(color_step as int) && v@.len() == spec_frames_per_cycle(
                color_step as int,
            ) && forall|k: int|
                0 <= k < v@.len() ==> #[trigger] v@[k] == lap_position(
                    origin as nat,
                    color_step as nat,
                    k as nat,
                ),
            Err(m) => !valid_color_step(color_step as int) && m@ == color_step_error(),
        },
{
    let mut cycle = ColorCycle::new(origin, color_step)?;
    let frames = frames_per_cycle(color_step);
    let mut v: Vec<u16> = Vec::new();
    let mut position = origin % COLOR_COUNT;
    let mut k: u16 = 0;
    while k < frames
        invariant
            k <= frames,
            frames == spec_frames_per_cycle(color_step as int),
            v@.len() == k,
            cycle.origin() == origin % 1530,
            cycle.step() == color_step,
            cycle.travelled() == lap_travelled(color_step as nat, k as nat),
            position == cycle.position(),
            forall|j: int|
                0 <= j < k ==> #[trigger] v@[j] == lap_position(
                    origin as nat,
                    color_step as nat,
                    j as nat,
                ),
        decreases frames - k,
    {
        v.push(position);
        position = cycle.advance();
        k += 1;
    }
    Ok(v)
}

/// One frame of a perceptually timed lap: its wheel position, the brightness
/// packet level sent with it, and the time until the next frame.
#[derive(Debug, Clone, Copy)]
pub struct PerceptualFrame {
    pub position: u16,
    pub brightness: u8,
    pub interval_nanos: u64,
}

/// A precomputed lap: one frame per update, starting at the origin.
#[derive(Debug, Clone)]
pub struct PerceptualCycle {
    pub frames: Vec<PerceptualFrame>,
}

impl PerceptualCycle {
    /// Builds the lap from `origin` at `color_step`, for a duration of
    /// `cycle_seconds`, giving frame `k` the brightness `brightness[k]` and
    /// interval `intervals[k]` (the application derives both from its color
    /// model, one per lap position). The duration must be allowed for the step.
    pub fn new(
        origin: u16,
        color_step: u16,
        cycle_seconds: u32,
        brightness: &Vec<u8>,
        intervals: &Vec<u64>,
    ) -> (r: Result<Self, String>)
        requires
            valid_color_step(color_step as int) ==> brightness@.len() == spec_frames_per_cycle(
                color_step as int,
            ) && intervals@.len() == spec_frames_per_cycle(color_step as int),
        ensures
            match r {
                Ok(c) => {
                    &&& valid_cycle(cycle_seconds as int, color_step as int)
                    &&& c.frames@.len() == spec_frames_per_cycle(color_step as int)
                    &&& forall|k: int|
                        0 <= k < c.frames@.len() ==> {
                            &&& #[trigger] c.frames@[k].position == lap_position(
                                origin as nat,
                                color_step as nat,
                                k as nat,
                            )
                            &&& c.frames@[k].brightness == brightness@[k]
                            &&& c.frames@[k].interval_nanos == intervals@[k]
                        }
                },
                Err(m) => !valid_cycle(cycle_seconds as int, color_step as int) && m@ == cycle_error(
                    color_step as int,
                ),
            },
    {
        average_frame_interval(cycle_seconds, color_step)?;
        let positions = match cycle_positions(origin, color_step) {
            Ok(p) => p,
            Err(m) => {
                return Err(m);
            },
        };
        let mut frames: Vec<PerceptualFrame> = Vec::new();
        let mut k: usize = 0;
        while k < positions.len()
            invariant
                k <= positions@.len(),
                positions@.len() == spec_frames_per_cycle(color_step as int),
                brightness@.len() == positions@.len(),
                intervals@.len() == positions@.len(),
                frames@.len() == k,
                forall|j: int|
                    0 <= j < positions@.len() ==> #[trigger] positions@[j] == lap_position(
                        origin as nat,
                        color_step as nat,
                        j as nat,
                    ),
                forall|j: int|
                    0 <= j < k ==> {
                        &&& #[trigger] frames@[j].position == positions@[j]
                        &&& frames@[j].brightness == brightness@[j]
                        &&& frames@[j].interval_nanos == intervals@[j]
                    },
            decreases positions@.len() - k,
        {
            frames.push(
                PerceptualFrame {
                    position: positions[k],
                    brightness: brightness[k],
                    interval_nanos: intervals[k],
                },
            );
            k += 1;
        }
        Ok(PerceptualCycle { frames })
    }
}

/// The color at a wheel position: red → yellow → green → cyan → blue → magenta.
pub open spec fn wheel_rgb(position: nat) -> Seq<u8> {
    let p = position % 1530;
    let offset = (p % 255) as u8;
    let edge = p / 255;
    if edge == 0 {
        seq![255u8, offset, 0u8]
    } else if edge == 1 {
        seq![(255 - offset) as u8, 255u8, 0u8]
    } else if edge == 2 {
        seq![0u8, 255u8, offset]
    } else if edge == 3 {
        seq![0u8, (255 - offset) as u8, 255u8]
    } else if edge == 4 {
        seq![offset, 0u8, 255u8]
    } else {
        seq![255u8, 0u8, (255 - offset) as u8]
    }
}

pub fn rgb_at_position(position: u16) -> (rgb: [u8; 3])
    ensures
        rgb@ == wheel_rgb(position as nat),
{
    let p = position % COLOR_COUNT;
    let offset = (p % 255) as u8;
    let edge = p / 255;
    let rgb = if edge == 0 {
        [255, offset, 0]
    } else if edge == 1 {
        [255 - offset, 255, 0]
    } else if edge == 2 {
        [0, 255, offset]
    } else if edge == 3 {
        [0, 255 - offset, 255]
    } else if edge == 4 {
        [offset, 0, 255]
    } else {
        [255, 0, 255 - offset]
    };
    assert(rgb@ =~= wheel_rgb(position as nat));
    rgb
}

/// `#rrggbb` in lowercase hexadecimal.
pub open spec fn color_text(rgb: Seq<u8>) -> Seq<char> {
    seq!['#'] + hex_byte(rgb[0]) + hex_byte(rgb[1]) + hex_byte(rgb[2])
}

pub fn color_at_position(position: u16) -> (s: String)
    ensures
        s@ == color_text(wheel_rgb(position as nat)),
{
    let rgb = rgb_at_position(position);
    let mut v: Vec<char> = Vec::new();
    v.push('#');
    push_hex_byte(&mut v, rgb[0]);
    push_hex_byte(&mut v, rgb[1]);
    push_hex_byte(&mut v, rgb[2]);
    assert(v@ =~= color_text(rgb@));
    string_of(&v)
}


pub open spec fn abs_diff(a: u8, b: u8) -> int {
    if a >= b {
        a - b
    } else {
        b - a
    }
}

/// Total change of the three channels between two colors.
pub open spec fn channel_change(a: Seq<u8>, b: Seq<u8>) -> int {
    abs_diff(a[0], b[0]) + abs_diff(a[1], b[1]) + abs_diff(a[2], b[2])
}

/// The smallest step along the wheel changes exactly one channel by exactly
/// one, including at the corners and where the wheel wraps around.
pub proof fn lemma_wheel_unit_step(position: nat)
    ensures
        channel_change(wheel_rgb(position), wheel_rgb(position + 1)) == 1,
{
    let p = position % 1530;
    lemma_fundamental_div_mod(position as int, 1530);
    lemma_fundamental_div_mod((position + 1) as int, 1530);
    let q = (position + 1) % 1530;
    assert(q == if p == 1529 { 0 } else { p + 1 });
    lemma_fundamental_div_mod(p as int, 255);
    lemma_fundamental_div_mod(q as int, 255);
}

/// Distinct positions of one lap have distinct colors.
pub proof fn lemma_wheel_injective(p: nat, q: nat)
    requires
        p < 1530,
        q < 1530,
        wheel_rgb(p) == wheel_rgb(q),
    ensures
        p == q,
{
    lemma_fundamental_div_mod(p as int, 255);
    lemma_fundamental_div_mod(q as int, 255);
    assert(wheel_rgb(p)[0] == wheel_rgb(q)[0]);
    assert(wheel_rgb(p)[1] == wheel_rgb(q)[1]);
    assert(wheel_rgb(p)[2] == wheel_rgb(q)[2]);
}

/// Every supported step moves to a different color, from every position.
pub proof fn lemma_every_step_changes_color(position: nat, step: nat)
    requires
        valid_color_step(step as int),
    ensures
        wheel_rgb(position) != wheel_rgb(position + step),
{
    let p = position % 1530;
    let q = (position + step) % 1530;
    lemma_fundamental_div_mod(position as int, 1530);
    lemma_fundamental_div_mod((position + step) as int, 1530);
    assert(wheel_rgb(position) == wheel_rgb(p)) by {
        assert(p % 1530 == p);
    }
    assert(wheel_rgb(position + step) == wheel_rgb(q)) by {
        assert(q % 1530 == q);
    }
    assert(p != q);
    if wheel_rgb(p) == wheel_rgb(q) {
        lemma_wheel_injective(p, q);
    }
}

proof fn lemma_hex_digit_roundtrip(d: nat)
    requires
        d < 16,
    ensures
        is_ascii_hexdigit(hex_digit_lower(d)),
        !is_whitespace(hex_digit_lower(d)),
        hex_value(hex_digit_lower(d)) == d,
{
}

/// `color_at_position` text is accepted by `parse_hex_color`, which gives
/// back exactly the color it was made from.
pub proof fn lemma_color_text_parses(rgb: Seq<u8>)
    requires
        rgb.len() == 3,
    ensures
        is_hex_color(color_text(rgb)),
        hex_color_rgb(color_text(rgb)) == rgb,
{
    let t = color_text(rgb);
    lemma_hex_digit_roundtrip((rgb[0] / 16) as nat);
    lemma_hex_digit_roundtrip((rgb[0] % 16) as nat);
    lemma_hex_digit_roundtrip((rgb[1] / 16) as nat);
    lemma_hex_digit_roundtrip((rgb[1] % 16) as nat);
    lemma_hex_digit_roundtrip((rgb[2] / 16) as nat);
    lemma_hex_digit_roundtrip((rgb[2] % 16) as nat);
    assert(t.len() == 7);
    assert(!is_whitespace(t[0]));
    assert(trim_start(t) == t);
    assert(!is_whitespace(t.last()));
    assert(trim_end(t) == t);
    assert(trim(t) == t);
    let h = hex_color_digits(t);
    assert(h =~= t.drop_first());
    assert(h =~= hex_byte(rgb[0]) + hex_byte(rgb[1]) + hex_byte(rgb[2]));
    assert(hex_color_rgb(t) =~= rgb);
}

proof fn lemma_hex_digit_upper(d: nat)
    requires
        d < 16,
    ensures
        is_ascii_hexdigit(ascii_upper(hex_digit_lower(d))),
        !is_whitespace(ascii_upper(hex_digit_lower(d))),
        ascii_upper(hex_digit_lower(d)) != '#',
        hex_value(ascii_upper(hex_digit_lower(d))) == d,
{
}

/// Every spelling of a color parses back to it: with or without the
/// leading `#`, in lowercase or in uppercase hexadecimal.
pub proof fn lemma_color_spellings_parse(rgb: Seq<u8>, hash: bool, uppercase: bool)
    requires
        rgb.len() == 3,
    ensures
        ({
            let digits = hex_byte(rgb[0]) + hex_byte(rgb[1]) + hex_byte(rgb[2]);
            let spelled = if uppercase {
                upper(digits)
            } else {
                digits
            };
            let text = if hash {
                seq!['#'] + spelled
            } else {
                spelled
            };
            is_hex_color(text) && hex_color_rgb(text) == rgb
        }),
{
    let digits = hex_byte(rgb[0]) + hex_byte(rgb[1]) + hex_byte(rgb[2]);
    let spelled = if uppercase {
        upper(digits)
    } else {
        digits
    };
    let text = if hash {
        seq!['#'] + spelled
    } else {
        spelled
    };
    let n = seq![
        (rgb[0] / 16) as nat,
        (rgb[0] % 16) as nat,
        (rgb[1] / 16) as nat,
        (rgb[1] % 16) as nat,
        (rgb[2] / 16) as nat,
        (rgb[2] % 16) as nat,
    ];
    assert forall|k: int| 0 <= k < 6 implies {
        &&& is_ascii_hexdigit(#[trigger] spelled[k])
        &&& !is_whitespace(spelled[k])
        &&& spelled[k] != '#'
        &&& hex_value(spelled[k]) == n[k]
    } by {
        assert(digits[k] == hex_digit_lower(n[k]));
        lemma_hex_digit_roundtrip(n[k]);
        lemma_hex_digit_upper(n[k]);
    }
    assert(!is_whitespace(text[0]));
    assert(trim_start(text) == text);
    assert(!is_whitespace(text.last()));
    assert(trim_end(text) == text);
    assert(trim(text) == text);
    assert(hex_color_digits(text) =~= spelled);
    assert(hex_color_rgb(text) =~= rgb);
}

}
