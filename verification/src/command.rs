//! Light commands and the packets each one sends to a light, including the
//! per-link bookkeeping that resends brightness after a reconnect.
//!
//! Brightness values cross the application boundary as `BrightnessValue`:
//! the bits of the `f32` the user chose, and the 8-bit packet level the
//! application derived from it (`round(value * 255)`).
use vstd::prelude::*;
use crate::protocol::{
    brightness_level_frame, color_frame, color_payload, experiment_bytes, experiment_error,
    experiment_frame, frame_bytes, hex_color_error,
    hex_color_rgb, is_hex_color, parse_hex_color, white_frame, white_payload, DeviceProfile,
};
use crate::settings::{unit_interval, is_unit_interval, LightMode, Preset};
use crate::text::{chars_of, eq_ignore_ascii_case, eq_ignore_case, push_str, string_of};

verus! {

/// A brightness chosen by the user: `f32` bits and the packet level.
#[derive(Debug, Clone, Copy, PartialEq)]
pub struct BrightnessValue {
    pub bits: u32,
    pub level: u8,
}

/// A request to the running application, from the interface or the command line.
#[derive(Debug, Clone)]
pub enum ControlCommand {
    Color { value: String, brightness: Option<BrightnessValue>, device: Option<String> },
    White {
        value: String,
        kelvin: Option<u16>,
        brightness: Option<BrightnessValue>,
        device: Option<String>,
    },
    Brightness { value: BrightnessValue, device: Option<String> },
    Power { on: bool, device: Option<String> },
    Preset { name: String, device: Option<String> },
    Party { device: Option<String> },
    Breathe {
        interval_ms: Option<u32>,
        cycle_seconds: Option<u32>,
        /// Legacy per-update pace, as `f32` bits.
        pace_seconds: Option<u32>,
        color_step: u16,
        /// Legacy hue step in degrees, as `f32` bits.
        hue_step_degrees: Option<u32>,
        device: Option<String>,
    },
    TraceBreathing { seconds: u32 },
    SeekBreathing { position: u16, request_id: u64 },
    StopParty,
    StopEffect,
    PartyFrame { value: String, enter: bool, device: Option<String> },
    BreathingFrame { value: String, device: Option<String> },
    Experiment { payload: String, device: Option<String> },
}

pub open spec fn opt_string(s: Option<String>) -> Option<Seq<char>> {
    match s {
        Some(t) => Some(t@),
        None => None,
    }
}

impl ControlCommand {
    /// The light a command names, if any.
    pub open spec fn target(self) -> Option<Seq<char>> {
        match self {
            ControlCommand::Color { device, .. } => opt_string(device),
            ControlCommand::White { device, .. } => opt_string(device),
            ControlCommand::Brightness { device, .. } => opt_string(device),
            ControlCommand::Power { device, .. } => opt_string(device),
            ControlCommand::Preset { device, .. } => opt_string(device),
            ControlCommand::Party { device } => opt_string(device),
            ControlCommand::Breathe { device, .. } => opt_string(device),
            ControlCommand::PartyFrame { device, .. } => opt_string(device),
            ControlCommand::BreathingFrame { device, .. } => opt_string(device),
            ControlCommand::Experiment { device, .. } => opt_string(device),
            _ => None,
        }
    }

    pub fn device(&self) -> (r: Option<&str>)
        ensures
            match r {
                Some(d) => self.target() == Some(d@),
                None => self.target() is None,
            },
    {
        let device = match self {
            ControlCommand::Color { device, .. } => device,
            ControlCommand::White { device, .. } => device,
            ControlCommand::Brightness { device, .. } => device,
            ControlCommand::Power { device, .. } => device,
            ControlCommand::Preset { device, .. } => device,
            ControlCommand::Party { device } => device,
            ControlCommand::Breathe { device, .. } => device,
            ControlCommand::PartyFrame { device, .. } => device,
            ControlCommand::BreathingFrame { device, .. } => device,
            ControlCommand::Experiment { device, .. } => device,
            _ => {
                return None;
            },
        };
        match device {
            Some(d) => Some(d.as_str()),
            None => None,
        }
    }
}

/// Why packets could not be built. An out-of-range brightness carries its
/// bits; the application words that message because it prints the number.
#[derive(Debug)]
pub enum FrameError {
    Message(String),
    BrightnessOutOfRange(u32),
}

pub open spec fn brightness_bytes(b: BrightnessValue) -> Seq<u8> {
    frame_bytes(0x04, seq![b.level])
}

/// The brightness packet of a value in `0.0..=1.0`.
pub fn brightness_frame(b: BrightnessValue) -> (r: Result<[u8; 20], FrameError>)
    ensures
        match r {
            Ok(f) => unit_interval(b.bits) && f@ == brightness_bytes(b),
            Err(e) => !unit_interval(b.bits) && e == FrameError::BrightnessOutOfRange(b.bits),
        },
{
    if !is_unit_interval(b.bits) {
        return Err(FrameError::BrightnessOutOfRange(b.bits));
    }
    Ok(brightness_level_frame(b.level))
}

pub open spec fn frames_view(v: Seq<[u8; 20]>) -> Seq<Seq<u8>> {
    Seq::new(v.len(), |i: int| v[i]@)
}

pub open spec fn color_bytes(profile: DeviceProfile, value: Seq<char>) -> Seq<u8> {
    frame_bytes(0x05, color_payload(profile, hex_color_rgb(value)))
}

pub open spec fn white_bytes(profile: DeviceProfile, value: Seq<char>, kelvin: Option<u16>) -> Seq<
    u8,
> {
    frame_bytes(0x05, white_payload(profile, hex_color_rgb(value), kelvin))
}

/// The packets of a color or white command: the color packet, then the
/// brightness packet when a brightness is given.
pub open spec fn tinted_frames(
    first: Seq<u8>,
    value: Seq<char>,
    brightness: Option<BrightnessValue>,
    r: Result<Vec<[u8; 20]>, FrameError>,
) -> bool {
    if !is_hex_color(value) {
        r matches Err(FrameError::Message(m)) && m@ == hex_color_error(value)
    } else {
        match brightness {
            None => r matches Ok(v) && frames_view(v@) == seq![first],
            Some(b) => if unit_interval(b.bits) {
                r matches Ok(v) && frames_view(v@) == seq![first, brightness_bytes(b)]
            } else {
                r == Err::<Vec<[u8; 20]>, FrameError>(FrameError::BrightnessOutOfRange(b.bits))
            },
        }
    }
}

/// What `frames_for` answers for each command.
pub open spec fn frames_for_spec(
    command: ControlCommand,
    profile: DeviceProfile,
    r: Result<Vec<[u8; 20]>, FrameError>,
) -> bool {
    match command {
        ControlCommand::Color { value, brightness, .. } => tinted_frames(
            color_bytes(profile, value@),
            value@,
            brightness,
            r,
        ),
        ControlCommand::White { value, kelvin, brightness, .. } => tinted_frames(
            white_bytes(profile, value@, kelvin),
            value@,
            brightness,
            r,
        ),
        ControlCommand::Brightness { value, .. } => if unit_interval(value.bits) {
            r matches Ok(v) && frames_view(v@) == seq![brightness_bytes(value)]
        } else {
            r == Err::<Vec<[u8; 20]>, FrameError>(FrameError::BrightnessOutOfRange(value.bits))
        },
        ControlCommand::Power { on, .. } => r matches Ok(v) && frames_view(v@) == seq![
            frame_bytes(0x01, seq![if on { 1u8 } else { 0u8 }]),
        ],
        ControlCommand::BreathingFrame { value, .. } => if is_hex_color(value@) {
            r matches Ok(v) && frames_view(v@) == seq![color_bytes(profile, value@)]
        } else {
            r matches Err(FrameError::Message(m)) && m@ == hex_color_error(value@)
        },
        ControlCommand::PartyFrame { value, .. } => if is_hex_color(value@) {
            r matches Ok(v) && frames_view(v@) == seq![color_bytes(profile, value@)]
        } else {
            r matches Err(FrameError::Message(m)) && m@ == hex_color_error(value@)
        },
        ControlCommand::Experiment { payload, .. } => match experiment_bytes(payload@) {
            Some(b) => r matches Ok(v) && frames_view(v@) == seq![frame_bytes(0x05, b)],
            None => r matches Err(FrameError::Message(m)) && m@ == experiment_error(),
        },
        ControlCommand::Preset { .. } => r matches Err(FrameError::Message(m)) && m@
            == "preset commands must be resolved before reaching Bluetooth"@,
        _ => r matches Err(FrameError::Message(m)) && m@
            == "effect commands must be resolved before reaching Bluetooth"@,
    }
}

fn message(e: String) -> (r: FrameError)
    ensures
        r == FrameError::Message(e),
{
    FrameError::Message(e)
}

fn tinted(first: [u8; 20], brightness: Option<BrightnessValue>) -> (r: Result<
    Vec<[u8; 20]>,
    FrameError,
>)
    ensures
        match brightness {
            None => r matches Ok(v) && frames_view(v@) == seq![first@],
            Some(b) => if unit_interval(b.bits) {
                r matches Ok(v) && frames_view(v@) == seq![first@, brightness_bytes(b)]
            } else {
                r == Err::<Vec<[u8; 20]>, FrameError>(FrameError::BrightnessOutOfRange(b.bits))
            },
        },
{
    let mut frames: Vec<[u8; 20]> = Vec::new();
    frames.push(first);
    if let Some(b) = brightness {
        frames.push(brightness_frame(b)?);
    }
    assert(frames_view(frames@) =~= match brightness {
        None => seq![first@],
        Some(b) => seq![first@, brightness_bytes(b)],
    });
    Ok(frames)
}

/// The packets that carry out a light command on one light. A party frame
/// is sent as an ordinary color packet: the packet that would switch H6005
/// lights into their instant music stream is not documented, so `enter`
/// adds no packet and H6005 lights fade between party colors. Preset and
/// effect commands are resolved before they reach a light.
pub fn frames_for(command: &ControlCommand, profile: DeviceProfile) -> (r: Result<
    Vec<[u8; 20]>,
    FrameError,
>)
    ensures
        frames_for_spec(*command, profile, r),
{
    match command {
        ControlCommand::Color { value, brightness, .. } => {
            let rgb = match parse_hex_color(value.as_str()) {
                Ok(rgb) => rgb,
                Err(e) => {
                    return Err(message(e));
                },
            };
            tinted(color_frame(profile, rgb), *brightness)
        },
        ControlCommand::White { value, kelvin, brightness, .. } => {
            let rgb = match parse_hex_color(value.as_str()) {
                Ok(rgb) => rgb,
                Err(e) => {
                    return Err(message(e));
                },
            };
            tinted(white_frame(profile, rgb, *kelvin), *brightness)
        },
        ControlCommand::Brightness { value, .. } => {
            let mut frames: Vec<[u8; 20]> = Vec::new();
            frames.push(brightness_frame(*value)?);
            assert(frames_view(frames@) =~= seq![brightness_bytes(*value)]);
            Ok(frames)
        },
        ControlCommand::Power { on, .. } => {
            let mut frames: Vec<[u8; 20]> = Vec::new();
            frames.push(crate::protocol::power_frame(*on));
            assert(frames_view(frames@) =~= seq![
                frame_bytes(0x01, seq![if *on { 1u8 } else { 0u8 }]),
            ]);
            Ok(frames)
        },
        ControlCommand::BreathingFrame { value, .. } => {
            let rgb = match parse_hex_color(value.as_str()) {
                Ok(rgb) => rgb,
                Err(e) => {
                    return Err(message(e));
                },
            };
            let mut frames: Vec<[u8; 20]> = Vec::new();
            frames.push(color_frame(profile, rgb));
            assert(frames_view(frames@) =~= seq![color_bytes(profile, value@)]);
            Ok(frames)
        },
        ControlCommand::PartyFrame { value, .. } => {
            let rgb = match parse_hex_color(value.as_str()) {
                Ok(rgb) => rgb,
                Err(e) => {
                    return Err(message(e));
                },
            };
            let mut frames: Vec<[u8; 20]> = Vec::new();
            frames.push(color_frame(profile, rgb));
            assert(frames_view(frames@) =~= seq![color_bytes(profile, value@)]);
            Ok(frames)
        },
        ControlCommand::Experiment { payload, .. } => {
            let f = match experiment_frame(payload.as_str()) {
                Ok(f) => f,
                Err(e) => {
                    return Err(message(e));
                },
            };
            let mut frames: Vec<[u8; 20]> = Vec::new();
            frames.push(f);
            assert(frames_view(frames@) =~= seq![f@]);
            Ok(frames)
        },
        ControlCommand::Preset { .. } => Err(
            FrameError::Message(
                "preset commands must be resolved before reaching Bluetooth".to_string(),
            ),
        ),
        _ => Err(
            FrameError::Message(
                "effect commands must be resolved before reaching Bluetooth".to_string(),
            ),
        ),
    }
}

/// What a light connection last received. Desired values survive a
/// disconnect; `needs_sync` marks a fresh link that must receive both color
/// and brightness again.
#[derive(Debug, Clone, Copy)]
pub struct LightState {
    pub color: Option<[u8; 20]>,
    pub brightness: Option<BrightnessValue>,
    pub needs_sync: bool,
}

impl Default for LightState {
    fn default() -> (s: Self)
        ensures
            s.color is None,
            s.brightness is None,
            s.needs_sync,
    {
        LightState { color: None, brightness: None, needs_sync: true }
    }
}

/// Whether the binary32 value with these bits is a NaN: all exponent bits
/// set and a nonzero fraction, with either sign.
pub open spec fn f32_bits_nan(bits: u32) -> bool {
    (0x7f80_0000 < bits && bits < 0x8000_0000) || 0xff80_0000 < bits
}

/// Floating-point equality of two binary32 values given by their bits: the
/// same bits and not a NaN, or both zeros of either sign.
pub open spec fn f32_bits_eq(a: u32, b: u32) -> bool {
    ||| (a == b && !f32_bits_nan(a))
    ||| ((a == 0 || a == 0x8000_0000) && (b == 0 || b == 0x8000_0000))
}

/// Decides [`f32_bits_eq`].
pub fn f32_bits_equal(a: u32, b: u32) -> (r: bool)
    ensures
        r == f32_bits_eq(a, b),
{
    let a_zero = a == 0 || a == 0x8000_0000;
    let b_zero = b == 0 || b == 0x8000_0000;
    let a_nan = (0x7f80_0000 < a && a < 0x8000_0000) || 0xff80_0000 < a;
    (a == b && !a_nan) || (a_zero && b_zero)
}

/// Whether a requested brightness differs from the last one as a value
/// (floating-point inequality of the chosen values; an unknown last value
/// always differs).
pub open spec fn brightness_changed(requested: Option<BrightnessValue>, last: Option<BrightnessValue>) -> bool {
    match requested {
        None => false,
        Some(v) => match last {
            None => true,
            Some(o) => !f32_bits_eq(v.bits, o.bits),
        },
    }
}

impl LightState {
    /// The packets to send for `command` on this link, and the link's new
    /// state. A color or white command resends brightness only on a fresh
    /// link or when the requested brightness differs from the last one as a
    /// value; a brightness command on a fresh
    /// link first restores the last color (or `default_color`). Without an
    /// explicit brightness, the last one (or `default_brightness`) is kept.
    /// On an error nothing changes.
    pub fn frames(
        &mut self,
        command: &ControlCommand,
        profile: DeviceProfile,
        default_color: &str,
        default_brightness: BrightnessValue,
    ) -> (r: Result<Vec<[u8; 20]>, FrameError>)
        ensures
            r is Err ==> *final(self) == *old(self),
            match *command {
                ControlCommand::Color { value, brightness, .. } | ControlCommand::White {
                    value,
                    brightness,
                    ..
                } => {
                    let first = if command is Color {
                        color_bytes(profile, value@)
                    } else {
                        white_bytes(profile, value@, command->kelvin)
                    };
                    let desired = match brightness {
                        Some(b) => b,
                        None => match old(self).brightness {
                            Some(b) => b,
                            None => default_brightness,
                        },
                    };
                    let resend = old(self).needs_sync || brightness_changed(
                        brightness,
                        old(self).brightness,
                    );
                    if !is_hex_color(value@) {
                        r matches Err(FrameError::Message(m)) && m@ == hex_color_error(value@)
                    } else if brightness is Some && !unit_interval(brightness->0.bits) {
                        r == Err::<Vec<[u8; 20]>, FrameError>(
                            FrameError::BrightnessOutOfRange(brightness->0.bits),
                        )
                    } else if resend && !unit_interval(desired.bits) {
                        r == Err::<Vec<[u8; 20]>, FrameError>(
                            FrameError::BrightnessOutOfRange(desired.bits),
                        )
                    } else {
                        &&& r matches Ok(v) && frames_view(v@) == (if resend {
                            seq![first, brightness_bytes(desired)]
                        } else {
                            seq![first]
                        })
                        &&& final(self).color matches Some(c) && c@ == first
                        &&& final(self).brightness == Some(desired)
                        &&& !final(self).needs_sync
                    }
                },
                ControlCommand::Brightness { value, .. } => if !unit_interval(value.bits) {
                    r == Err::<Vec<[u8; 20]>, FrameError>(
                        FrameError::BrightnessOutOfRange(value.bits),
                    )
                } else if old(self).needs_sync && old(self).color is None && !is_hex_color(
                    default_color@,
                ) {
                    r matches Err(FrameError::Message(m)) && m@ == hex_color_error(default_color@)
                } else {
                    &&& final(self).brightness == Some(value)
                    &&& !final(self).needs_sync
                    &&& if old(self).needs_sync {
                        let restored = match old(self).color {
                            Some(c) => c@,
                            None => color_bytes(profile, default_color@),
                        };
                        &&& r matches Ok(v) && frames_view(v@) == seq![
                            restored,
                            brightness_bytes(value),
                        ]
                        &&& final(self).color matches Some(c) && c@ == restored
                    } else {
                        &&& r matches Ok(v) && frames_view(v@) == seq![brightness_bytes(value)]
                        &&& final(self).color == old(self).color
                    }
                },
                _ => {
                    &&& frames_for_spec(*command, profile, r)
                    &&& *final(self) == *old(self)
                },
            },
    {
        let frames = frames_for(command, profile)?;
        assert(frames_view(frames@).len() == frames@.len());
        match command {
            ControlCommand::Color { brightness, .. } | ControlCommand::White { brightness, .. } => {
                let desired = match brightness {
                    Some(b) => *b,
                    None => match self.brightness {
                        Some(b) => b,
                        None => default_brightness,
                    },
                };
                let changed = match brightness {
                    None => false,
                    Some(v) => match self.brightness {
                        None => true,
                        Some(o) => !f32_bits_equal(v.bits, o.bits),
                    },
                };
                assert(frames_view(frames@)[0] == frames@[0]@);
                let first = frames[0];
                let mut out: Vec<[u8; 20]> = Vec::new();
                out.push(first);
                if self.needs_sync || changed {
                    out.push(brightness_frame(desired)?);
                }
                self.color = Some(first);
                self.brightness = Some(desired);
                self.needs_sync = false;
                assert(frames_view(out@) =~= if old(self).needs_sync || changed {
                    seq![first@, brightness_bytes(desired)]
                } else {
                    seq![first@]
                });
                Ok(out)
            },
            ControlCommand::Brightness { value, .. } => {
                let mut out: Vec<[u8; 20]> = Vec::new();
                if self.needs_sync {
                    let color = match self.color {
                        Some(c) => c,
                        None => {
                            let rgb = match parse_hex_color(default_color) {
                                Ok(rgb) => rgb,
                                Err(e) => {
                                    return Err(message(e));
                                },
                            };
                            color_frame(profile, rgb)
                        },
                    };
                    out.push(color);
                    self.color = Some(color);
                }
                assert(frames_view(frames@)[0] == frames@[0]@);
                out.push(frames[0]);
                self.brightness = Some(*value);
                self.needs_sync = false;
                assert(frames_view(out@) =~= if old(self).needs_sync {
                    seq![self.color->0@, brightness_bytes(*value)]
                } else {
                    seq![brightness_bytes(*value)]
                });
                Ok(out)
            },
            _ => Ok(frames),
        }
    }
}

/// Presets are looked up by name ignoring ASCII case; the first match wins.
pub open spec fn preset_match(presets: Seq<Preset>, name: Seq<char>) -> Option<nat>
    decreases presets.len(),
{
    if presets.len() == 0 {
        None
    } else {
        match preset_match(presets.drop_last(), name) {
            Some(i) => Some(i),
            None => if eq_ignore_case(presets.last().name@, name) {
                Some((presets.len() - 1) as nat)
            } else {
                None
            },
        }
    }
}

proof fn lemma_preset_match_prefix(presets: Seq<Preset>, name: Seq<char>, n: int)
    requires
        0 <= n <= presets.len(),
        preset_match(presets.take(n), name) is Some,
    ensures
        preset_match(presets, name) == preset_match(presets.take(n), name),
    decreases presets.len() - n,
{
    if n < presets.len() {
        assert(presets.take(n + 1).drop_last() =~= presets.take(n));
        lemma_preset_match_prefix(presets, name, n + 1);
    } else {
        assert(presets.take(n) =~= presets);
    }
}

/// The preset a `Preset` command names.
pub fn find_preset(presets: &Vec<Preset>, name: &str) -> (r: Result<usize, String>)
    ensures
        match r {
            Ok(i) => i < presets@.len() && preset_match(presets@, name@) == Some(i as nat),
            Err(m) => preset_match(presets@, name@) is None && m@ == "preset "@
                + crate::text::debug_text(name@) + " was not found"@,
        },
{
    let wanted = chars_of(name);
    let mut i: usize = 0;
    while i < presets.len()
        invariant
            i <= presets.len(),
            wanted@ == name@,
            preset_match(presets@.take(i as int), name@) is None,
        decreases presets.len() - i,
    {
        assert(presets@.take(i + 1).drop_last() =~= presets@.take(i as int));
        if eq_ignore_ascii_case(&chars_of(presets[i].name.as_str()), &wanted) {
            proof {
                lemma_preset_match_prefix(presets@, name@, (i + 1) as int);
            }
            return Ok(i);
        }
        i += 1;
    }
    assert(presets@.take(presets.len() as int) =~= presets@);
    let mut m = chars_of("preset ");
    push_str(&mut m, crate::text::debug_quoted(name).as_str());
    push_str(&mut m, " was not found");
    Err(string_of(&m))
}


/// The answer to a command-line request.
#[derive(Debug, Clone)]
pub struct CommandResponse {
    pub ok: bool,
    pub message: String,
}

pub fn command_response(result: Result<String, String>) -> (r: CommandResponse)
    ensures
        match result {
            Ok(m) => r.ok && r.message == m,
            Err(m) => !r.ok && r.message == m,
        },
{
    match result {
        Ok(message) => CommandResponse { ok: true, message },
        Err(message) => CommandResponse { ok: false, message },
    }
}

}
