//! The running application's effect bookkeeping: which effect runs and under
//! which generation, the breathing playback it publishes, seeking, idle
//! timers, the party palette, and what an automation does.
//!
//! The application keeps one `EffectState` behind its locks and performs the
//! Bluetooth writes, sleeps and processes these functions decide on.
use vstd::prelude::*;
use crate::breathing::{
    advance_travelled, color_at_position, color_step_error, color_text, valid_color_step, wheel_rgb,
    ColorCycle,
};
use crate::command::{find_preset, preset_match, ControlCommand};
use crate::settings::{LightMode, Preset, Settings};
use crate::text::debug_text;

verus! {

/// The breathing frame last shown, for the interface's wheel.
#[derive(Debug, Clone, Copy, PartialEq, Eq, Structural)]
pub struct BreathingPlayback {
    pub position: u16,
    pub generation: u64,
    pub request_id: u64,
    pub frame_id: u64,
}

/// A pending jump of the running breathing effect to a wheel position.
#[derive(Debug, Clone, Copy, PartialEq, Eq, Structural)]
pub struct BreathingSeek {
    pub position: u16,
    pub generation: u64,
    pub request_id: u64,
}

/// What the interface shows about the lights: how many are linked (unknown
/// while a command holds the controller), whether an effect runs, and the
/// breathing frame it last showed.
#[derive(Debug, Clone, Copy)]
pub struct ConnectionStatus {
    pub connected_count: Option<usize>,
    pub effect_active: bool,
    pub breathing: Option<BreathingPlayback>,
}

/// Flags and counters shared by every task of the application.
/// `party_generation` changes whenever an effect starts or must stop;
/// `activity_generation` whenever an idle-disconnect timer is superseded.
#[derive(Debug, Clone, Copy)]
pub struct EffectState {
    pub party_active: bool,
    pub party_generation: u64,
    pub activity_generation: u64,
    pub disconnecting: bool,
    pub playback: Option<BreathingPlayback>,
    pub seek: Option<BreathingSeek>,
}

/// The successor of a generation counter, which wraps like an atomic add.
pub open spec fn next_generation(g: u64) -> u64 {
    if g == u64::MAX {
        0
    } else {
        (g + 1) as u64
    }
}

fn bump(g: u64) -> (r: u64)
    ensures
        r == next_generation(g),
{
    if g == u64::MAX {
        0
    } else {
        g + 1
    }
}

/// Stops any effect and supersedes every idle timer.
pub open spec fn ended(s: EffectState) -> EffectState {
    EffectState {
        party_active: false,
        party_generation: next_generation(s.party_generation),
        activity_generation: next_generation(s.activity_generation),
        playback: None,
        ..s
    }
}

/// Ending activity stops every effect: nothing is shown as playing, and a
/// task that runs under the previous generation sees that it is stale.
pub proof fn lemma_ended_stops_effects(s: EffectState, running: u64)
    requires
        running == s.party_generation,
    ensures
        ended(s).spec_current_breathing() is None,
        !ended(s).party_active,
        ended(s).party_generation != running,
        ended(s).activity_generation != s.activity_generation,
{
}

impl EffectState {
    pub fn new() -> (s: Self)
        ensures
            !s.party_active,
            s.party_generation == 0,
            s.activity_generation == 0,
            !s.disconnecting,
            s.playback is None,
            s.seek is None,
    {
        EffectState {
            party_active: false,
            party_generation: 0,
            activity_generation: 0,
            disconnecting: false,
            playback: None,
            seek: None,
        }
    }

    /// The published frame, if it belongs to the effect that runs now.
    pub open spec fn spec_current_breathing(self) -> Option<BreathingPlayback> {
        match self.playback {
            Some(p) => if self.party_active && p.generation == self.party_generation {
                Some(p)
            } else {
                None
            },
            None => None,
        }
    }

    pub fn current_breathing(&self) -> (r: Option<BreathingPlayback>)
        ensures
            r == self.spec_current_breathing(),
    {
        match self.playback {
            Some(p) => if self.party_active && p.generation == self.party_generation {
                Some(p)
            } else {
                None
            },
            None => None,
        }
    }

    /// Publishes a breathing frame of effect `generation`, numbered one
    /// after the last published frame (the first is 1). A frame of an effect
    /// that no longer runs is dropped.
    pub fn publish_breathing(&mut self, position: u16, generation: u64, request_id: u64)
        requires
            old(self).playback matches Some(p) ==> p.frame_id < u64::MAX,
        ensures
            *final(self) == (if old(self).party_active && old(self).party_generation
                == generation {
                EffectState {
                    playback: Some(
                        BreathingPlayback {
                            position,
                            generation,
                            request_id,
                            frame_id: match old(self).playback {
                                Some(p) => (p.frame_id + 1) as u64,
                                None => 1,
                            },
                        },
                    ),
                    ..*old(self)
                }
            } else {
                *old(self)
            }),
    {
        if self.party_active && self.party_generation == generation {
            let frame_id = match self.playback {
                Some(p) => p.frame_id + 1,
                None => 1,
            };
            self.playback = Some(BreathingPlayback { position, generation, request_id, frame_id });
        }
    }

    /// Stops any effect and supersedes every idle timer, as a plain light
    /// command, a stop request and a disconnect do first.
    pub fn end_activity(&mut self)
        ensures
            *final(self) == ended(*old(self)),
    {
        self.party_active = false;
        self.playback = None;
        self.party_generation = bump(self.party_generation);
        self.activity_generation = bump(self.activity_generation);
    }

    /// Refuses new work while a disconnect runs.
    pub fn check_available(&self) -> (r: Result<(), String>)
        ensures
            match r {
                Ok(()) => !self.disconnecting,
                Err(m) => self.disconnecting && m@ == "Disconnect in progress"@,
            },
    {
        if self.disconnecting {
            Err("Disconnect in progress".to_string())
        } else {
            Ok(())
        }
    }

    /// Starts a disconnect: refused while one runs; otherwise it ends every
    /// effect and timer before the links are released.
    pub fn begin_disconnect(&mut self) -> (r: Result<(), String>)
        ensures
            match r {
                Ok(()) => !old(self).disconnecting && *final(self) == (EffectState {
                    disconnecting: true,
                    ..ended(*old(self))
                }),
                Err(m) => old(self).disconnecting && *final(self) == *old(self) && m@
                    == "Disconnect already in progress"@,
            },
    {
        if self.disconnecting {
            return Err("Disconnect already in progress".to_string());
        }
        self.disconnecting = true;
        self.end_activity();
        Ok(())
    }

    /// Ends a disconnect with what releasing the links answered.
    pub fn finish_disconnect(&mut self, released: Result<(), String>) -> (r: Result<String, String>)
        ensures
            *final(self) == (EffectState { disconnecting: false, ..*old(self) }),
            match released {
                Ok(()) => r matches Ok(m) && m@ == "Disconnected from lights"@,
                Err(e) => r == Err::<String, String>(e),
            },
    {
        self.disconnecting = false;
        match released {
            Ok(()) => Ok("Disconnected from lights".to_string()),
            Err(e) => Err(e),
        }
    }

    /// Claims the effect slot. When an effect already runs nothing changes
    /// and `None` comes back; otherwise the new effect's generation.
    pub fn begin_effect(&mut self) -> (r: Option<u64>)
        ensures
            old(self).party_active ==> r is None && *final(self) == *old(self),
            !old(self).party_active ==> r == Some(next_generation(old(self).party_generation))
                && *final(self) == (EffectState {
                party_active: true,
                party_generation: next_generation(old(self).party_generation),
                activity_generation: next_generation(old(self).activity_generation),
                ..*old(self)
            }),
    {
        if self.party_active {
            return None;
        }
        self.party_active = true;
        self.party_generation = bump(self.party_generation);
        self.activity_generation = bump(self.activity_generation);
        Some(self.party_generation)
    }

    /// Releases the effect slot after the effect failed to start.
    pub fn cancel_effect(&mut self)
        ensures
            *final(self) == (EffectState { party_active: false, playback: None, ..*old(self) }),
    {
        self.party_active = false;
        self.playback = None;
    }

    /// Stops a running effect whose light write failed.
    pub fn fail_effect(&mut self)
        ensures
            *final(self) == (EffectState {
                party_active: false,
                party_generation: next_generation(old(self).party_generation),
                playback: None,
                ..*old(self)
            }),
    {
        self.party_generation = bump(self.party_generation);
        self.party_active = false;
        self.playback = None;
    }

    /// Supersedes the idle timers and returns the generation of a new one.
    pub fn arm_idle(&mut self) -> (g: u64)
        ensures
            g == next_generation(old(self).activity_generation),
            *final(self) == (EffectState { activity_generation: g, ..*old(self) }),
    {
        self.activity_generation = bump(self.activity_generation);
        self.activity_generation
    }

    /// What the interface is told.
    pub fn status(&self, connected_count: Option<usize>) -> (s: ConnectionStatus)
        ensures
            s.connected_count == connected_count,
            s.effect_active == self.party_active,
            s.breathing == self.spec_current_breathing(),
    {
        ConnectionStatus {
            connected_count,
            effect_active: self.party_active,
            breathing: self.current_breathing(),
        }
    }

    /// Asks the running breathing effect to jump to `position`. Positions
    /// must lie on the wheel, and an effect must be showing frames.
    pub fn seek_breathing(&mut self, position: u16, request_id: u64) -> (r: Result<String, String>)
        ensures
            if position >= 1530 {
                &&& *final(self) == *old(self)
                &&& r matches Err(m) && m@ == "breathing position must be between 0 and 1529"@
            } else {
                match old(self).spec_current_breathing() {
                    None => {
                        &&& *final(self) == *old(self)
                        &&& r matches Err(m) && m@ == "Breathing is not running"@
                    },
                    Some(p) => {
                        &&& *final(self) == (EffectState {
                            seek: Some(
                                BreathingSeek { position, generation: p.generation, request_id },
                            ),
                            ..*old(self)
                        })
                        &&& r matches Ok(m) && m@ == "Breathing"@
                    },
                }
            },
    {
        if position >= 1530 {
            return Err("breathing position must be between 0 and 1529".to_string());
        }
        match self.current_breathing() {
            None => Err("Breathing is not running".to_string()),
            Some(p) => {
                self.seek = Some(BreathingSeek { position, generation: p.generation, request_id });
                Ok("Breathing".to_string())
            },
        }
    }
}

/// One running breathing effect: its lap, its generation, and the last seek
/// request it followed.
pub struct BreathingRun {
    pub cycle: ColorCycle,
    pub generation: u64,
    pub request_id: u64,
}

impl BreathingRun {
    pub fn new(origin: u16, color_step: u16, generation: u64) -> (r: Result<Self, String>)
        ensures
            match r {
                Ok(run) => {
                    &&& valid_color_step(color_step as int)
                    &&& run.cycle.origin() == origin % 1530
                    &&& run.cycle.travelled() == 0
                    &&& run.cycle.step() == color_step
                    &&& run.generation == generation
                    &&& run.request_id == 0
                },
                Err(m) => !valid_color_step(color_step as int) && m@ == color_step_error(),
            },
    {
        let cycle = ColorCycle::new(origin, color_step)?;
        Ok(BreathingRun { cycle, generation, request_id: 0 })
    }

    /// One turn of the effect after its wait ended: when the wait timed out
    /// (`moved` is false) the lap advances one update; then the latest seek
    /// request, if one came and belongs to this effect, moves the lap to its
    /// position. Returns the position to show.
    pub fn step(&mut self, moved: bool, latest: Option<BreathingSeek>) -> (p: u16)
        requires
            latest matches Some(s) ==> s.position < 1530,
        ensures
            final(self).generation == old(self).generation,
            final(self).cycle.step() == old(self).cycle.step(),
            p == final(self).cycle.position(),
            if latest is Some && latest->0.generation == old(self).generation {
                &&& final(self).cycle.origin() == latest->0.position
                &&& final(self).cycle.travelled() == 0
                &&& final(self).request_id == latest->0.request_id
            } else {
                &&& final(self).request_id == old(self).request_id
                &&& final(self).cycle.origin() == old(self).cycle.origin()
                &&& final(self).cycle.travelled() == (if moved {
                    old(self).cycle.travelled()
                } else {
                    advance_travelled(old(self).cycle.travelled(), old(self).cycle.step())
                })
            },
    {
        if !moved {
            self.cycle.advance();
        }
        if let Some(s) = latest {
            if s.generation == self.generation {
                self.cycle.seek(s.position);
                self.request_id = s.request_id;
            }
        }
        self.cycle.current()
    }
}

/// The command that shows wheel position `position` on the effect's lights.
pub fn breathing_frame_command(position: u16, device: Option<String>) -> (c: ControlCommand)
    ensures
        c matches ControlCommand::BreathingFrame { value, device: d } && value@ == color_text(
            wheel_rgb(position as nat),
        ) && d == device,
{
    ControlCommand::BreathingFrame { value: color_at_position(position), device }
}

/// The party palette, cycled every 180 ms; it ends where it starts.
pub open spec fn party_palette(i: int) -> Seq<char> {
    if i == 0 {
        "#ff3040"@
    } else if i == 1 {
        "#ff7a21"@
    } else if i == 2 {
        "#ffd52b"@
    } else if i == 3 {
        "#7cff31"@
    } else if i == 4 {
        "#24e6a8"@
    } else if i == 5 {
        "#23d7ff"@
    } else if i == 6 {
        "#2670ff"@
    } else if i == 7 {
        "#673cff"@
    } else if i == 8 {
        "#b72cff"@
    } else if i == 9 {
        "#ff2bba"@
    } else if i == 10 {
        "#ff315e"@
    } else {
        "#ff3040"@
    }
}

pub const PARTY_COLOR_COUNT: usize = 12;

pub fn party_color(index: usize) -> (c: &'static str)
    requires
        index < 12,
    ensures
        c@ == party_palette(index as int),
{
    if index == 0 {
        "#ff3040"
    } else if index == 1 {
        "#ff7a21"
    } else if index == 2 {
        "#ffd52b"
    } else if index == 3 {
        "#7cff31"
    } else if index == 4 {
        "#24e6a8"
    } else if index == 5 {
        "#23d7ff"
    } else if index == 6 {
        "#2670ff"
    } else if index == 7 {
        "#673cff"
    } else if index == 8 {
        "#b72cff"
    } else if index == 9 {
        "#ff2bba"
    } else if index == 10 {
        "#ff315e"
    } else {
        "#ff3040"
    }
}

/// The palette entry after `index`, wrapping at the end.
pub fn next_party_index(index: usize) -> (n: usize)
    requires
        index < 12,
    ensures
        n == (index + 1) % 12,
        n < 12,
{
    (index + 1) % PARTY_COLOR_COUNT
}

/// The party frame of palette entry `index`; the first frame of a party
/// (`enter`) switches the lights into the effect.
pub fn party_frame_command(index: usize, enter: bool, device: Option<String>) -> (c: ControlCommand)
    requires
        index < 12,
    ensures
        c matches ControlCommand::PartyFrame { value, enter: e, device: d } && value@
            == party_palette(index as int) && e == enter && d == device,
{
    ControlCommand::PartyFrame { value: party_color(index).to_string(), enter, device }
}

/// What an idle-disconnect timer does once it holds the controller.
#[derive(Debug, Clone, Copy, PartialEq, Eq, Structural)]
pub enum IdleAction {
    /// A newer command superseded this timer.
    Stop,
    /// The hold time is over: release every light.
    Disconnect,
    /// Keep the links alive and wait again.
    KeepAlive,
}

pub const IDLE_POLL_NANOS: u64 = 2_000_000_000;

/// The deadline of a timer armed at `now` (nanoseconds) for `hold_seconds`.
pub fn idle_deadline(now: u64, hold_seconds: u64) -> (d: u64)
    requires
        now + hold_seconds * 1_000_000_000 <= u64::MAX,
    ensures
        d == now + hold_seconds * 1_000_000_000,
{
    now + hold_seconds * 1_000_000_000
}

/// How long the timer sleeps before it looks again: until the deadline,
/// but never more than two seconds.
pub fn idle_wait(now: u64, deadline: u64) -> (w: u64)
    ensures
        w == (if deadline <= now {
            0
        } else if deadline - now < IDLE_POLL_NANOS {
            deadline - now
        } else {
            IDLE_POLL_NANOS as int
        }),
{
    let remaining = if deadline <= now {
        0
    } else {
        deadline - now
    };
    if remaining < IDLE_POLL_NANOS {
        remaining
    } else {
        IDLE_POLL_NANOS
    }
}

pub fn idle_action(timer_generation: u64, activity_generation: u64, now: u64, deadline: u64) -> (a:
    IdleAction)
    ensures
        a == (if activity_generation != timer_generation {
            IdleAction::Stop
        } else if now >= deadline {
            IdleAction::Disconnect
        } else {
            IdleAction::KeepAlive
        }),
{
    if activity_generation != timer_generation {
        IdleAction::Stop
    } else if now >= deadline {
        IdleAction::Disconnect
    } else {
        IdleAction::KeepAlive
    }
}

/// What a preset command becomes: the named preset's color or white
/// command at its brightness, for the same light. Other commands pass
/// through unchanged.
pub fn resolve_preset(presets: &Vec<Preset>, command: ControlCommand) -> (r: Result<
    ControlCommand,
    String,
>)
    ensures
        match command {
            ControlCommand::Preset { name, device } => match preset_match(presets@, name@) {
                None => r matches Err(m) && m@ == "preset "@ + debug_text(name@)
                    + " was not found"@,
                Some(i) => {
                    let p = presets@[i as int];
                    match p.mode {
                        LightMode::Color => r matches Ok(
                            ControlCommand::Color { value, brightness, device: d },
                        ) && value@ == p.value@ && brightness == Some(p.brightness) && d
                            == device,
                        LightMode::White => r matches Ok(
                            ControlCommand::White { value, kelvin, brightness, device: d },
                        ) && value@ == p.value@ && kelvin is None && brightness == Some(
                            p.brightness,
                        ) && d == device,
                    }
                },
            },
            _ => r == Ok::<ControlCommand, String>(command),
        },
{
    match command {
        ControlCommand::Preset { name, device } => {
            let i = find_preset(presets, name.as_str())?;
            let p = &presets[i];
            match p.mode {
                LightMode::Color => Ok(
                    ControlCommand::Color {
                        value: p.value.clone(),
                        brightness: Some(p.brightness),
                        device,
                    },
                ),
                LightMode::White => Ok(
                    ControlCommand::White {
                        value: p.value.clone(),
                        kelvin: None,
                        brightness: Some(p.brightness),
                        device,
                    },
                ),
            }
        },
        _ => Ok(command),
    }
}

/// Stopping an effect restores the saved color and brightness on every light.
pub fn stop_effect_command(settings: &Settings) -> (c: ControlCommand)
    ensures
        c matches ControlCommand::Color { value, brightness, device } && value@ == settings.color@
            && brightness == Some(settings.brightness) && device is None,
{
    ControlCommand::Color {
        value: settings.color.clone(),
        brightness: Some(settings.brightness),
        device: None,
    }
}

/// How the application carries out a command.
#[derive(Debug, Clone)]
pub enum ExecutionPlan {
    /// Answer with this error and touch nothing.
    Reject(String),
    /// Move the running breathing effect.
    Seek { position: u16, request_id: u64 },
    /// Start the party effect.
    StartParty { device: Option<String> },
    /// Start breathing with these (still unresolved) parameters.
    StartBreathing {
        interval_ms: Option<u32>,
        cycle_seconds: Option<u32>,
        pace_seconds: Option<u32>,
        color_step: u16,
        hue_step_degrees: Option<u32>,
        device: Option<String>,
    },
    /// Stop the running effect and restore the saved look.
    StopEffect,
    /// End any effect, resolve presets and send the command to the lights.
    Apply(ControlCommand),
}

pub fn plan_execution(command: ControlCommand) -> (p: ExecutionPlan)
    ensures
        match command {
            ControlCommand::Experiment { device: None, .. } => p matches ExecutionPlan::Reject(m)
                && m@ == "experimental commands must target one named light"@,
            ControlCommand::SeekBreathing { position, request_id } => p == (ExecutionPlan::Seek {
                position,
                request_id,
            }),
            ControlCommand::Party { device } => p == (ExecutionPlan::StartParty { device }),
            ControlCommand::Breathe {
                interval_ms,
                cycle_seconds,
                pace_seconds,
                color_step,
                hue_step_degrees,
                device,
            } => p == (ExecutionPlan::StartBreathing {
                interval_ms,
                cycle_seconds,
                pace_seconds,
                color_step,
                hue_step_degrees,
                device,
            }),
            ControlCommand::StopParty => p == ExecutionPlan::StopEffect,
            ControlCommand::StopEffect => p == ExecutionPlan::StopEffect,
            _ => p == ExecutionPlan::Apply(command),
        },
{
    match command {
        ControlCommand::Experiment { device: None, .. } => ExecutionPlan::Reject(
            "experimental commands must target one named light".to_string(),
        ),
        ControlCommand::SeekBreathing { position, request_id } => ExecutionPlan::Seek {
            position,
            request_id,
        },
        ControlCommand::Party { device } => ExecutionPlan::StartParty { device },
        ControlCommand::Breathe {
            interval_ms,
            cycle_seconds,
            pace_seconds,
            color_step,
            hue_step_degrees,
            device,
        } => ExecutionPlan::StartBreathing {
            interval_ms,
            cycle_seconds,
            pace_seconds,
            color_step,
            hue_step_degrees,
            device,
        },
        ControlCommand::StopParty | ControlCommand::StopEffect => ExecutionPlan::StopEffect,
        _ => ExecutionPlan::Apply(command),
    }
}

} // verus!
