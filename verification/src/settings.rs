//! Saved configuration: lights, presets and daily automations, with the
//! rules that a configuration must satisfy before it is used or saved.
//!
//! Brightness values are stored as `BrightnessValue`: the bit pattern of the
//! IEEE-754 `f32` (`f32::to_bits`) and its packet level; the application
//! converts at its edge.
use vstd::prelude::*;
use crate::command::BrightnessValue;
use crate::breathing::{
    average_frame_interval, color_step_error, color_text, cycle_range_error, default_color_step,
    default_cycle_seconds, lemma_color_text_parses, spec_frames_per_cycle,
    spec_minimum_cycle_seconds, valid_color_step, valid_cycle, MAX_COLOR_STEP,
};
use crate::protocol::{hex_color_error, is_hex_color, parse_hex_color, DeviceProfile};
use crate::text::{
    char_vecs, chars_eq, chars_of, debug_quoted, debug_text, is_alphanumeric, is_ascii_alphanumeric,
    is_ascii_digit, is_blank, is_whitespace, lemma_trim_fixed, lemma_upper_trim_idempotent, push_chars, push_str, string_of, trim, trim_str,
    upper, upper_chars,
};

verus! {

/// A configured light.
#[derive(Debug, Clone, PartialEq, Eq)]
pub struct DeviceConfig {
    pub name: String,
    pub identifier: String,
    pub profile: DeviceProfile,
    pub enabled: bool,
}

/// Whether a preset drives the RGB LEDs or the dedicated white LEDs.
#[derive(Debug, Clone, Copy, PartialEq, Eq, Structural)]
pub enum LightMode {
    Color,
    White,
}

/// A named color, mode and brightness.
#[derive(Debug, Clone, PartialEq)]
pub struct Preset {
    pub name: String,
    pub mode: LightMode,
    pub value: String,
    /// Brightness, meant to lie in `0.0..=1.0`.
    pub brightness: BrightnessValue,
}

/// What an automation does with the floodlights.
#[derive(Debug, Clone, Copy, PartialEq, Eq, Structural)]
pub enum FloodlightAction {
    Unchanged,
    On,
    Off,
    OnHomeNetwork,
}

impl Default for FloodlightAction {
    fn default() -> (r: Self)
        ensures
            r == FloodlightAction::Unchanged,
    {
        FloodlightAction::Unchanged
    }
}

/// A daily automation.
#[derive(Debug, Clone, PartialEq)]
pub struct Schedule {
    pub id: String,
    pub name: String,
    /// Local wall-clock time in 24-hour HH:MM form.
    pub time: String,
    pub enabled: bool,
    /// Temporary override of `enabled`, as Unix epoch milliseconds. Expiry needs no write.
    pub disabled_until: Option<i64>,
    pub lights: Vec<String>,
    pub preset: String,
    pub floodlights: FloodlightAction,
    pub floodlight_network: Option<String>,
    pub shell_command: String,
    pub run_as_administrator: bool,
    pub privileged_approved_command: String,
    pub privileged_approved_at: String,
}

impl Schedule {
    pub open spec fn spec_is_enabled_at(self, now_millis: i64) -> bool {
        self.enabled && match self.disabled_until {
            None => true,
            Some(until) => now_millis >= until,
        }
    }

    /// Whether the automation runs at `now_millis`: it is enabled and any
    /// temporary pause has reached its deadline.
    pub fn is_enabled_at(&self, now_millis: i64) -> (b: bool)
        ensures
            b == self.spec_is_enabled_at(now_millis),
    {
        self.enabled && match self.disabled_until {
            None => true,
            Some(until) => now_millis >= until,
        }
    }
}

/// All saved configuration.
#[derive(Debug, Clone, PartialEq)]
pub struct Settings {
    pub devices: Vec<DeviceConfig>,
    pub color: String,
    pub white: String,
    /// Static brightness.
    pub brightness: BrightnessValue,
    pub connection_hold_seconds: u64,
    pub breathing_cycle_seconds: u32,
    pub breathing_color_step: u16,
    pub breathing_defaults_version: u8,
    pub presets: Vec<Preset>,
    pub schedules: Vec<Schedule>,
}

/// Whether `f32` bits encode a number in `0.0..=1.0`: `+0.0` through `1.0`
/// (bits `0` to `0x3f80_0000`, which order like the numbers) or `-0.0`.
/// NaN and every other value are outside.
pub open spec fn unit_interval(bits: u32) -> bool {
    bits <= 0x3f80_0000 || bits == 0x8000_0000
}

pub fn is_unit_interval(bits: u32) -> (b: bool)
    ensures
        b == unit_interval(bits),
{
    bits <= 0x3f80_0000 || bits == 0x8000_0000
}

/// The stored form of a Bluetooth identifier: trimmed and ASCII-uppercased.
pub open spec fn canonical(id: Seq<char>) -> Seq<char> {
    upper(trim(id))
}

pub fn canonical_chars(value: &str) -> (r: Vec<char>)
    ensures
        r@ == canonical(value@),
{
    let t = trim_str(value);
    upper_chars(&t)
}

/// Bluetooth identifiers are stored trimmed and in uppercase.
pub fn canonical_identifier(value: &str) -> (r: String)
    ensures
        r@ == canonical(value@),
{
    string_of(&canonical_chars(value))
}

pub open spec fn canonical_ids(devices: Seq<DeviceConfig>) -> Seq<Seq<char>> {
    Seq::new(devices.len(), |i: int| canonical(devices[i].identifier@))
}

/// Index of the first occurrence of `x` in `s`.
pub open spec fn first_index(s: Seq<Seq<char>>, x: Seq<char>) -> Option<nat>
    decreases s.len(),
{
    if s.len() == 0 {
        None
    } else {
        match first_index(s.drop_last(), x) {
            Some(i) => Some(i),
            None => if s.last() == x {
                Some((s.len() - 1) as nat)
            } else {
                None
            },
        }
    }
}

/// Indices of the first occurrence of every distinct identifier, in order.
pub open spec fn kept_indices(ids: Seq<Seq<char>>) -> Seq<nat>
    decreases ids.len(),
{
    if ids.len() == 0 {
        seq![]
    } else {
        let k = kept_indices(ids.drop_last());
        if first_index(ids.drop_last(), ids.last()) is Some {
            k
        } else {
            k.push((ids.len() - 1) as nat)
        }
    }
}

/// Drops repeated entries, keeping the first occurrence of each.
pub open spec fn dedup(s: Seq<Seq<char>>) -> Seq<Seq<char>>
    decreases s.len(),
{
    if s.len() == 0 {
        seq![]
    } else {
        let d = dedup(s.drop_last());
        if d.contains(s.last()) {
            d
        } else {
            d.push(s.last())
        }
    }
}

pub open spec fn rename(s: Seq<Seq<char>>, from: Seq<char>, to: Seq<char>) -> Seq<Seq<char>> {
    Seq::new(s.len(), |i: int| if s[i] == from { to } else { s[i] })
}

pub open spec fn light_names(lights: Seq<String>) -> Seq<Seq<char>> {
    Seq::new(lights.len(), |i: int| lights[i]@)
}

/// How an automation's light list changes while devices are merged: each
/// later device whose identifier repeats an earlier one has its name replaced
/// by the earlier device's name, after which repeated names are dropped.
pub open spec fn merged_lights(devices: Seq<DeviceConfig>, lights: Seq<Seq<char>>) -> Seq<Seq<char>>
    decreases devices.len(),
{
    if devices.len() == 0 {
        lights
    } else {
        let earlier = devices.drop_last();
        let prev = merged_lights(earlier, lights);
        match first_index(canonical_ids(earlier), canonical(devices.last().identifier@)) {
            Some(f) => dedup(rename(prev, devices.last().name@, devices[f as int].name@)),
            None => prev,
        }
    }
}

/// Two automations agree on everything but their light lists.
pub open spec fn same_but_lights(a: Schedule, b: Schedule) -> bool {
    &&& a.id == b.id
    &&& a.name == b.name
    &&& a.time == b.time
    &&& a.enabled == b.enabled
    &&& a.disabled_until == b.disabled_until
    &&& a.preset == b.preset
    &&& a.floodlights == b.floodlights
    &&& a.floodlight_network == b.floodlight_network
    &&& a.shell_command == b.shell_command
    &&& a.run_as_administrator == b.run_as_administrator
    &&& a.privileged_approved_command == b.privileged_approved_command
    &&& a.privileged_approved_at == b.privileged_approved_at
}

fn find_first(ids: &Vec<Vec<char>>, x: &Vec<char>) -> (r: Option<usize>)
    ensures
        r matches Some(i) ==> first_index(char_vecs(ids@), x@) == Some(
            i as nat,
        ),
        r is None ==> first_index(char_vecs(ids@), x@) is None,
{
    let ghost all = char_vecs(ids@);
    let mut i: usize = 0;
    while i < ids.len()
        invariant
            i <= ids.len(),
            all == char_vecs(ids@),
            first_index(all.take(i as int), x@) is None,
        decreases ids.len() - i,
    {
        assert(all.take(i + 1).drop_last() =~= all.take(i as int));
        if chars_eq(&ids[i], x) {
            assert(first_index(all.take(i + 1), x@) == Some(i as nat));
            proof {
                lemma_first_index_prefix(all, x@, (i + 1) as int);
            }
            return Some(i);
        }
        i += 1;
    }
    assert(all.take(ids.len() as int) =~= all);
    None
}

/// A first occurrence inside a prefix is the first occurrence overall.
proof fn lemma_first_index_prefix(s: Seq<Seq<char>>, x: Seq<char>, n: int)
    requires
        0 <= n <= s.len(),
        first_index(s.take(n), x) is Some,
    ensures
        first_index(s, x) == first_index(s.take(n), x),
    decreases s.len() - n,
{
    if n < s.len() {
        assert(s.take(n + 1).drop_last() =~= s.take(n));
        lemma_first_index_prefix(s, x, n + 1);
    } else {
        assert(s.take(n) =~= s);
    }
}

pub proof fn lemma_first_index_contains(s: Seq<Seq<char>>, x: Seq<char>)
    ensures
        first_index(s, x) is None <==> !s.contains(x),
        first_index(s, x) matches Some(i) ==> i < s.len() && s[i as int] == x && !s.take(
            i as int,
        ).contains(x),
    decreases s.len(),
{
    if s.len() > 0 {
        lemma_first_index_contains(s.drop_last(), x);
        if s.contains(x) {
            let j = choose|j: int| 0 <= j < s.len() && s[j] == x;
            if j < s.len() - 1 {
                assert(s.drop_last()[j] == x);
            }
        }
        if first_index(s.drop_last(), x) is None && s.last() == x {
            assert(s.take(s.len() - 1) =~= s.drop_last());
        }
        if let Some(i) = first_index(s.drop_last(), x) {
            assert(s.take(i as int) =~= s.drop_last().take(i as int));
        }
    }
}

/// Renames then drops repeated names, over live `String`s.
fn rename_dedup(lights: &Vec<String>, from: &Vec<char>, to: &Vec<char>) -> (r: Vec<String>)
    ensures
        light_names(r@) == dedup(rename(light_names(lights@), from@, to@)),
{
    let ghost renamed = rename(light_names(lights@), from@, to@);
    let mut out: Vec<String> = Vec::new();
    let mut seen: Vec<Vec<char>> = Vec::new();
    let mut i: usize = 0;
    while i < lights.len()
        invariant
            i <= lights.len(),
            renamed == rename(light_names(lights@), from@, to@),
            light_names(out@) == dedup(renamed.take(i as int)),
            char_vecs(seen@) == light_names(out@),
        decreases lights.len() - i,
    {
        let current = chars_of(lights[i].as_str());
        let value = if chars_eq(&current, from) {
            copy_chars(to)
        } else {
            current
        };
        assert(value@ == renamed[i as int]);
        assert(renamed.take(i + 1).drop_last() =~= renamed.take(i as int));
        let found = find_first(&seen, &value);
        proof {
            lemma_first_index_contains(char_vecs(seen@), value@);
        }
        if found.is_none() {
            let s = string_of(&value);
            out.push(s);
            seen.push(value);
            assert(light_names(out@) =~= dedup(renamed.take(i as int)).push(renamed[i as int]));
            assert(char_vecs(seen@) =~= light_names(out@));
        }
        i += 1;
    }
    assert(renamed.take(lights.len() as int) =~= renamed);
    out
}

fn copy_chars(v: &Vec<char>) -> (r: Vec<char>)
    ensures
        r@ == v@,
{
    let mut r: Vec<char> = Vec::new();
    push_chars(&mut r, v);
    r
}

impl Settings {
    /// Stores identifiers in canonical form and merges devices whose
    /// identifiers differ only by case or surrounding whitespace: the first
    /// such device is kept, and automations that named a later duplicate
    /// name the kept device instead (each light listed once).
    pub fn canonicalize_identifiers(&mut self)
        ensures
            ({
                let ids = canonical_ids(old(self).devices@);
                let kept = kept_indices(ids);
                &&& final(self).devices@.len() == kept.len()
                &&& forall|j: int|
                    0 <= j < kept.len() ==> {
                        let d = #[trigger] final(self).devices@[j];
                        let o = old(self).devices@[kept[j] as int];
                        &&& d.name@ == o.name@
                        &&& d.identifier@ == ids[kept[j] as int]
                        &&& d.profile == o.profile
                        &&& d.enabled == o.enabled
                    }
            }),
            forall|a: int, b: int|
                0 <= a < b < final(self).devices@.len() ==> final(self).devices@[a].identifier@
                    != final(self).devices@[b].identifier@,
            forall|j: int|
                0 <= j < final(self).devices@.len() ==> canonical(
                    #[trigger] final(self).devices@[j].identifier@,
                ) == final(self).devices@[j].identifier@,
            final(self).schedules@.len() == old(self).schedules@.len(),
            forall|k: int|
                0 <= k < final(self).schedules@.len() ==> {
                    &&& same_but_lights(
                        #[trigger] final(self).schedules@[k],
                        old(self).schedules@[k],
                    )
                    &&& light_names(final(self).schedules@[k].lights@) == merged_lights(
                        old(self).devices@,
                        light_names(old(self).schedules@[k].lights@),
                    )
                },
            final(self).color == old(self).color,
            final(self).white == old(self).white,
            final(self).brightness == old(self).brightness,
            final(self).connection_hold_seconds == old(self).connection_hold_seconds,
            final(self).breathing_cycle_seconds == old(self).breathing_cycle_seconds,
            final(self).breathing_color_step == old(self).breathing_color_step,
            final(self).breathing_defaults_version == old(self).breathing_defaults_version,
            final(self).presets == old(self).presets,
    {
        let mut devices: Vec<DeviceConfig> = Vec::new();
        std::mem::swap(&mut devices, &mut self.devices);
        let ghost devs = devices@;
        let ghost ids = canonical_ids(devs);
        let ghost old_schedules = self.schedules@;
        let mut seen_ids: Vec<Vec<char>> = Vec::new();
        let mut kept: Vec<DeviceConfig> = Vec::new();
        let mut i: usize = 0;
        while i < devices.len()
            invariant
                i <= devices.len(),
                devs == devices@,
                ids == canonical_ids(devs),
                char_vecs(seen_ids@) == ids.take(i as int),
                kept@.len() == kept_indices(ids.take(i as int)).len(),
                forall|j: int|
                    0 <= j < kept@.len() ==> {
                        let d = #[trigger] kept@[j];
                        let ki = kept_indices(ids.take(i as int))[j] as int;
                        &&& d.name@ == devs[ki].name@
                        &&& d.identifier@ == ids[ki]
                        &&& d.profile == devs[ki].profile
                        &&& d.enabled == devs[ki].enabled
                    },
                forall|j: int|
                    0 <= j < kept_indices(ids.take(i as int)).len() ==> #[trigger] kept_indices(
                        ids.take(i as int),
                    )[j] < i,
                self.schedules@.len() == old_schedules.len(),
                forall|k: int|
                    0 <= k < self.schedules@.len() ==> {
                        &&& same_but_lights(#[trigger] self.schedules@[k], old_schedules[k])
                        &&& light_names(self.schedules@[k].lights@) == merged_lights(
                            devs.take(i as int),
                            light_names(old_schedules[k].lights@),
                        )
                    },
                self.color == old(self).color,
                self.white == old(self).white,
                self.brightness == old(self).brightness,
                self.connection_hold_seconds == old(self).connection_hold_seconds,
                self.breathing_cycle_seconds == old(self).breathing_cycle_seconds,
                self.breathing_color_step == old(self).breathing_color_step,
                self.breathing_defaults_version == old(self).breathing_defaults_version,
                self.presets == old(self).presets,
                old_schedules == old(self).schedules@,
                devs == old(self).devices@,
            decreases devices.len() - i,
        {
            let id = canonical_chars(devices[i].identifier.as_str());
            assert(id@ == ids[i as int]);
            assert(ids.take(i + 1).drop_last() =~= ids.take(i as int));
            assert(devs.take(i + 1).drop_last() =~= devs.take(i as int));
            assert(canonical_ids(devs.take(i as int)) =~= ids.take(i as int));
            assert(devs.take(i + 1).last() == devs[i as int]);
            let found = find_first(&seen_ids, &id);
            if let Some(f) = found {
                proof {
                    lemma_first_index_contains(ids.take(i as int), id@);
                }
                let configured = chars_of(devices[f].name.as_str());
                let from = chars_of(devices[i].name.as_str());
                assert(configured@ == devs.take(i + 1)[f as int].name@);
                let mut k: usize = 0;
                while k < self.schedules.len()
                    invariant
                        k <= self.schedules@.len(),
                        self.schedules@.len() == old_schedules.len(),
                        i < devs.len(),
                        first_index(canonical_ids(devs.take(i as int)), id@) == Some(f as nat),
                        devs.take(i + 1).drop_last() == devs.take(i as int),
                        devs.take(i + 1).last() == devs[i as int],
                        id@ == canonical(devs[i as int].identifier@),
                        configured@ == devs.take(i + 1)[f as int].name@,
                        from@ == devs[i as int].name@,
                        forall|q: int|
                            0 <= q < self.schedules@.len() ==> same_but_lights(
                                #[trigger] self.schedules@[q],
                                old_schedules[q],
                            ),
                        forall|q: int|
                            0 <= q < k ==> light_names(#[trigger] self.schedules@[q].lights@)
                                == merged_lights(
                                devs.take(i + 1),
                                light_names(old_schedules[q].lights@),
                            ),
                        forall|q: int|
                            k <= q < self.schedules@.len() ==> light_names(
                                #[trigger] self.schedules@[q].lights@,
                            ) == merged_lights(
                                devs.take(i as int),
                                light_names(old_schedules[q].lights@),
                            ),
                        self.color == old(self).color,
                        self.white == old(self).white,
                        self.brightness == old(self).brightness,
                        self.connection_hold_seconds == old(self).connection_hold_seconds,
                        self.breathing_cycle_seconds == old(self).breathing_cycle_seconds,
                        self.breathing_color_step == old(self).breathing_color_step,
                        self.breathing_defaults_version == old(self).breathing_defaults_version,
                        self.presets == old(self).presets,
                    decreases self.schedules@.len() - k,
                {
                    let merged = rename_dedup(&self.schedules[k].lights, &from, &configured);
                    self.schedules[k].lights = merged;
                    k += 1;
                }
            } else {
                proof {
                    lemma_first_index_contains(ids.take(i as int), id@);
                }
                let d = DeviceConfig {
                    name: string_of(&chars_of(devices[i].name.as_str())),
                    identifier: string_of(&id),
                    profile: devices[i].profile,
                    enabled: devices[i].enabled,
                };
                kept.push(d);
                assert forall|q: int|
                    0 <= q < self.schedules@.len() implies light_names(
                    #[trigger] self.schedules@[q].lights@,
                ) == merged_lights(devs.take(i + 1), light_names(old_schedules[q].lights@)) by {}
            }
            seen_ids.push(id);
            assert(char_vecs(seen_ids@) =~= ids.take(i + 1));
            i += 1;
        }
        assert(ids.take(devices.len() as int) =~= ids);
        assert(devs.take(devices.len() as int) =~= devs);
        proof {
            lemma_kept_identifiers_distinct(devs);
        }
        self.devices = kept;
    }
}


proof fn lemma_kept_indices(ids: Seq<Seq<char>>)
    ensures
        forall|j: int| 0 <= j < kept_indices(ids).len() ==> #[trigger] kept_indices(ids)[j] < ids.len(),
        forall|a: int, b: int|
            0 <= a < b < kept_indices(ids).len() ==> kept_indices(ids)[a] < kept_indices(ids)[b],
        forall|j: int|
            0 <= j < kept_indices(ids).len() ==> !ids.take(#[trigger] kept_indices(ids)[j] as int).contains(
                ids[kept_indices(ids)[j] as int],
            ),
    decreases ids.len(),
{
    if ids.len() > 0 {
        let prev = ids.drop_last();
        lemma_kept_indices(prev);
        let k = kept_indices(prev);
        assert forall|j: int| 0 <= j < k.len() implies !ids.take(#[trigger] k[j] as int).contains(
            ids[k[j] as int],
        ) by {
            assert(ids.take(k[j] as int) =~= prev.take(k[j] as int));
        }
        if first_index(prev, ids.last()) is None {
            lemma_first_index_contains(prev, ids.last());
            assert(ids.take(ids.len() - 1) =~= prev);
        }
    }
}

/// After merging, stored identifiers are canonical and pairwise distinct.
pub proof fn lemma_kept_identifiers_distinct(devices: Seq<DeviceConfig>)
    ensures
        forall|a: int, b: int|
            0 <= a < b < kept_indices(canonical_ids(devices)).len() ==> canonical_ids(
                devices,
            )[kept_indices(canonical_ids(devices))[a] as int] != canonical_ids(
                devices,
            )[kept_indices(canonical_ids(devices))[b] as int],
        forall|j: int|
            0 <= j < kept_indices(canonical_ids(devices)).len() ==> canonical(
                #[trigger] canonical_ids(devices)[kept_indices(canonical_ids(devices))[j] as int],
            ) == canonical_ids(devices)[kept_indices(canonical_ids(devices))[j] as int],
{
    let ids = canonical_ids(devices);
    let kept = kept_indices(ids);
    lemma_kept_indices(ids);
    assert forall|a: int, b: int| 0 <= a < b < kept.len() implies ids[kept[a] as int]
        != ids[kept[b] as int] by {
        assert(kept[a] < kept[b]);
        assert(ids.take(kept[b] as int)[kept[a] as int] == ids[kept[a] as int]);
    }
    assert forall|j: int| 0 <= j < kept.len() implies canonical(#[trigger] ids[kept[j] as int])
        == ids[kept[j] as int] by {
        lemma_upper_trim_idempotent(devices[kept[j] as int].identifier@);
    }
}


/// Light identifiers that are already canonical and pairwise distinct.
pub open spec fn identifiers_canonical(devices: Seq<DeviceConfig>) -> bool {
    &&& forall|j: int|
        0 <= j < devices.len() ==> canonical(#[trigger] devices[j].identifier@)
            == devices[j].identifier@
    &&& forall|a: int, b: int|
        0 <= a < b < devices.len() ==> devices[a].identifier@ != devices[b].identifier@
}

/// Canonicalizing settings whose identifiers are already canonical and
/// distinct (as every canonicalized configuration's are) keeps every device
/// and every automation's light list: canonicalizing twice is canonicalizing
/// once, so saved settings load back unchanged.
pub proof fn lemma_canonical_settings_are_fixed(devices: Seq<DeviceConfig>, lights: Seq<Seq<char>>)
    requires
        identifiers_canonical(devices),
    ensures
        kept_indices(canonical_ids(devices)) == Seq::new(devices.len(), |i: int| i as nat),
        canonical_ids(devices) == Seq::new(devices.len(), |i: int| devices[i].identifier@),
        merged_lights(devices, lights) == lights,
    decreases devices.len(),
{
    let ids = canonical_ids(devices);
    assert(ids =~= Seq::new(devices.len(), |i: int| devices[i].identifier@));
    if devices.len() > 0 {
        let earlier = devices.drop_last();
        assert(identifiers_canonical(earlier)) by {
            assert forall|j: int| 0 <= j < earlier.len() implies canonical(
                #[trigger] earlier[j].identifier@,
            ) == earlier[j].identifier@ by {
                assert(earlier[j] == devices[j]);
            }
            assert forall|a: int, b: int|
                0 <= a < b < earlier.len() implies earlier[a].identifier@
                != earlier[b].identifier@ by {
                assert(earlier[a] == devices[a] && earlier[b] == devices[b]);
            }
        }
        lemma_canonical_settings_are_fixed(earlier, lights);
        let last = devices.last();
        let n = devices.len() - 1;
        assert(canonical_ids(earlier) =~= ids.drop_last());
        lemma_first_index_contains(ids.drop_last(), ids.last());
        assert(!ids.drop_last().contains(ids.last())) by {
            if ids.drop_last().contains(ids.last()) {
                let j = choose|j: int| 0 <= j < ids.drop_last().len() && ids.drop_last()[j]
                    == ids.last();
                assert(devices[j].identifier@ == devices[n].identifier@);
            }
        }
        assert(canonical(last.identifier@) == ids.last());
        assert(kept_indices(ids) =~= Seq::new(devices.len(), |i: int| i as nat));
    } else {
        assert(kept_indices(ids) =~= Seq::new(devices.len(), |i: int| i as nat));
    }
}

pub open spec fn digit_value(c: char) -> nat {
    (c as nat - 48) as nat
}

/// The number two ASCII digits spell.
pub open spec fn two_digit_value(a: char, b: char) -> Option<nat> {
    if is_ascii_digit(a) && is_ascii_digit(b) {
        Some(digit_value(a) * 10 + digit_value(b))
    } else {
        None
    }
}

/// `HH:MM` in 24-hour form: two ASCII digits for an hour below 24, a colon,
/// and two ASCII digits for a minute below 60.
pub open spec fn valid_time(t: Seq<char>) -> bool {
    &&& t.len() == 5
    &&& t[2] == ':'
    &&& (two_digit_value(t[0], t[1]) matches Some(h) && h < 24)
    &&& (two_digit_value(t[3], t[4]) matches Some(m) && m < 60)
}

/// Automation identifiers: at most 64 ASCII letters, digits or hyphens.
pub open spec fn valid_schedule_id(id: Seq<char>) -> bool {
    &&& id.len() <= 64
    &&& forall|i: int| 0 <= i < id.len() ==> is_ascii_alphanumeric(#[trigger] id[i]) || id[i] == '-'
}

pub open spec fn quoted(prefix: Seq<char>, name: Seq<char>, suffix: Seq<char>) -> Seq<char> {
    prefix + debug_text(name) + suffix
}

pub open spec fn device_error(devices: Seq<DeviceConfig>) -> Option<Seq<char>>
    decreases devices.len(),
{
    if devices.len() == 0 {
        None
    } else {
        match device_error(devices.drop_last()) {
            Some(e) => Some(e),
            None => {
                let d = devices.last();
                if trim(d.name@).len() == 0 || trim(d.identifier@).len() == 0 {
                    Some("every device needs a name and Bluetooth identifier"@)
                } else if canonical_ids(devices.drop_last()).contains(canonical(d.identifier@)) {
                    Some(
                        quoted("Bluetooth identifier for "@, d.name@, " is already configured"@),
                    )
                } else {
                    None
                }
            },
        }
    }
}

pub open spec fn preset_error(presets: Seq<Preset>) -> Option<Seq<char>>
    decreases presets.len(),
{
    if presets.len() == 0 {
        None
    } else {
        match preset_error(presets.drop_last()) {
            Some(e) => Some(e),
            None => {
                let p = presets.last();
                if trim(p.name@).len() == 0 {
                    Some("every preset needs a name"@)
                } else if !is_hex_color(p.value@) {
                    Some(hex_color_error(p.value@))
                } else if !unit_interval(p.brightness.bits) {
                    Some(quoted("preset "@, p.name@, " has invalid brightness"@))
                } else {
                    None
                }
            },
        }
    }
}

pub open spec fn preset_names(presets: Seq<Preset>) -> Seq<Seq<char>> {
    Seq::new(presets.len(), |i: int| presets[i].name@)
}

pub open spec fn schedule_error(schedules: Seq<Schedule>, presets: Seq<Preset>) -> Option<Seq<char>>
    decreases schedules.len(),
{
    if schedules.len() == 0 {
        None
    } else {
        match schedule_error(schedules.drop_last(), presets) {
            Some(e) => Some(e),
            None => {
                let s = schedules.last();
                if trim(s.id@).len() == 0 || trim(s.name@).len() == 0 {
                    Some("every schedule needs an ID and name"@)
                } else if !valid_schedule_id(s.id@) {
                    Some(quoted("schedule "@, s.name@, " has an invalid ID"@))
                } else if !valid_time(s.time@) {
                    Some(quoted("schedule "@, s.name@, " needs an HH:MM time"@))
                } else if !preset_names(presets).contains(s.preset@) {
                    Some(
                        quoted("schedule "@, s.name@, " references missing preset "@) + debug_text(
                            s.preset@,
                        ),
                    )
                } else {
                    None
                }
            },
        }
    }
}

pub open spec fn breathing_error(cycle_seconds: u32, step: u16) -> Option<Seq<char>> {
    if valid_cycle(cycle_seconds as int, step as int) {
        None
    } else if valid_color_step(step as int) {
        Some(cycle_range_error(spec_minimum_cycle_seconds(step as int) as nat, step as nat))
    } else {
        Some(color_step_error())
    }
}

/// The first rule a configuration breaks, in the order they are checked.
pub open spec fn settings_error(s: Settings) -> Option<Seq<char>> {
    if !unit_interval(s.brightness.bits) {
        Some("brightness must be between 0 and 1"@)
    } else if !(1 <= s.connection_hold_seconds <= 60) {
        Some("connection hold time must be between 1 and 60 seconds"@)
    } else if breathing_error(s.breathing_cycle_seconds, s.breathing_color_step) is Some {
        breathing_error(s.breathing_cycle_seconds, s.breathing_color_step)
    } else if !is_hex_color(s.color@) {
        Some(hex_color_error(s.color@))
    } else if !is_hex_color(s.white@) {
        Some(hex_color_error(s.white@))
    } else if device_error(s.devices@) is Some {
        device_error(s.devices@)
    } else if preset_error(s.presets@) is Some {
        preset_error(s.presets@)
    } else {
        schedule_error(s.schedules@, s.presets@)
    }
}

fn quoted_message(prefix: &str, name: &str, suffix: &str) -> (m: String)
    ensures
        m@ == quoted(prefix@, name@, suffix@),
{
    let mut v = chars_of(prefix);
    let q = debug_quoted(name);
    push_str(&mut v, q.as_str());
    push_str(&mut v, suffix);
    string_of(&v)
}

fn digit_of(c: char) -> (d: u32)
    requires
        is_ascii_digit(c),
    ensures
        d == digit_value(c),
{
    c as u32 - 48
}

fn two_digits(a: char, b: char) -> (r: Option<u32>)
    ensures
        match r {
            Some(v) => two_digit_value(a, b) == Some(v as nat),
            None => two_digit_value(a, b) is None,
        },
{
    let b_digit = '0' <= b && b <= '9';
    if '0' <= a && a <= '9' && b_digit {
        Some(digit_of(a) * 10 + digit_of(b))
    } else {
        None
    }
}

pub fn is_valid_time(time: &str) -> (b: bool)
    ensures
        b == valid_time(time@),
{
    let t = chars_of(time);
    if t.len() != 5 || t[2] != ':' {
        return false;
    }
    let hour = match two_digits(t[0], t[1]) {
        Some(h) => h < 24,
        None => false,
    };
    let minute = match two_digits(t[3], t[4]) {
        Some(m) => m < 60,
        None => false,
    };
    hour && minute
}

pub fn is_valid_schedule_id(id: &str) -> (b: bool)
    ensures
        b == valid_schedule_id(id@),
{
    let v = chars_of(id);
    if v.len() > 64 {
        return false;
    }
    let mut i: usize = 0;
    while i < v.len()
        invariant
            i <= v.len() <= 64,
            v@ == id@,
            forall|k: int| 0 <= k < i ==> is_ascii_alphanumeric(#[trigger] v@[k]) || v@[k] == '-',
        decreases v.len() - i,
    {
        if !(is_alphanumeric(v[i]) || v[i] == '-') {
            assert(!(is_ascii_alphanumeric(id@[i as int]) || id@[i as int] == '-'));
            assert(!valid_schedule_id(id@));
            return false;
        }
        i += 1;
    }
    true
}

fn has_preset(presets: &Vec<Preset>, name: &str) -> (b: bool)
    ensures
        b == preset_names(presets@).contains(name@),
{
    let wanted = chars_of(name);
    let mut i: usize = 0;
    while i < presets.len()
        invariant
            i <= presets.len(),
            wanted@ == name@,
            forall|k: int| 0 <= k < i ==> presets@[k].name@ != wanted@,
        decreases presets.len() - i,
    {
        let candidate = chars_of(presets[i].name.as_str());
        assert(candidate@ == presets@[i as int].name@);
        if chars_eq(&candidate, &wanted) {
            assert(candidate@ == wanted@);
            assert(wanted@ == name@);
            assert(preset_names(presets@).len() == presets@.len());
            assert(preset_names(presets@)[i as int] == name@);
            return true;
        }
        i += 1;
    }
    assert forall|k: int| 0 <= k < preset_names(presets@).len() implies preset_names(presets@)[k]
        != name@ by {}
    false
}

fn validate_devices(devices: &Vec<DeviceConfig>) -> (r: Result<(), String>)
    ensures
        match r {
            Ok(()) => device_error(devices@) is None,
            Err(m) => device_error(devices@) == Some(m@),
        },
{
    let ghost devs = devices@;
    let mut seen: Vec<Vec<char>> = Vec::new();
    let mut i: usize = 0;
    while i < devices.len()
        invariant
            i <= devices.len(),
            devs == devices@,
            device_error(devs.take(i as int)) is None,
            char_vecs(seen@) == canonical_ids(devs.take(i as int)),
        decreases devices.len() - i,
    {
        let d = &devices[i];
        assert(devs.take(i + 1).drop_last() =~= devs.take(i as int));
        assert(devs.take(i + 1).last() == devs[i as int]);
        if is_blank(d.name.as_str()) || is_blank(d.identifier.as_str()) {
            proof {
                lemma_device_error_prefix(devs, (i + 1) as int);
            }
            return Err("every device needs a name and Bluetooth identifier".to_string());
        }
        let id = canonical_chars(d.identifier.as_str());
        let found = find_first(&seen, &id);
        proof {
            lemma_first_index_contains(canonical_ids(devs.take(i as int)), id@);
        }
        if found.is_some() {
            proof {
                lemma_device_error_prefix(devs, (i + 1) as int);
            }
            return Err(
                quoted_message("Bluetooth identifier for ", d.name.as_str(), " is already configured"),
            );
        }
        assert(id@ == canonical(devs[i as int].identifier@));
        let ghost before = seen@;
        seen.push(id);
        assert(seen@ == before.push(id));
        assert forall|k: int| 0 <= k < i + 1 implies #[trigger] char_vecs(seen@)[k]
            == canonical_ids(devs.take(i + 1))[k] by {
            if k < i {
                assert(seen@[k] == before[k]);
                assert(char_vecs(before)[k] == canonical_ids(devs.take(i as int))[k]);
            }
        }
        assert(char_vecs(seen@) =~= canonical_ids(devs.take(i + 1)));
        i += 1;
    }
    assert(devs.take(devices.len() as int) =~= devs);
    Ok(())
}

proof fn lemma_device_error_prefix(devs: Seq<DeviceConfig>, n: int)
    requires
        0 <= n <= devs.len(),
        device_error(devs.take(n)) is Some,
    ensures
        device_error(devs) == device_error(devs.take(n)),
    decreases devs.len() - n,
{
    if n < devs.len() {
        assert(devs.take(n + 1).drop_last() =~= devs.take(n));
        lemma_device_error_prefix(devs, n + 1);
    } else {
        assert(devs.take(n) =~= devs);
    }
}

proof fn lemma_preset_error_prefix(presets: Seq<Preset>, n: int)
    requires
        0 <= n <= presets.len(),
        preset_error(presets.take(n)) is Some,
    ensures
        preset_error(presets) == preset_error(presets.take(n)),
    decreases presets.len() - n,
{
    if n < presets.len() {
        assert(presets.take(n + 1).drop_last() =~= presets.take(n));
        lemma_preset_error_prefix(presets, n + 1);
    } else {
        assert(presets.take(n) =~= presets);
    }
}

proof fn lemma_schedule_error_prefix(schedules: Seq<Schedule>, presets: Seq<Preset>, n: int)
    requires
        0 <= n <= schedules.len(),
        schedule_error(schedules.take(n), presets) is Some,
    ensures
        schedule_error(schedules, presets) == schedule_error(schedules.take(n), presets),
    decreases schedules.len() - n,
{
    if n < schedules.len() {
        assert(schedules.take(n + 1).drop_last() =~= schedules.take(n));
        lemma_schedule_error_prefix(schedules, presets, n + 1);
    } else {
        assert(schedules.take(n) =~= schedules);
    }
}

fn validate_presets(presets: &Vec<Preset>) -> (r: Result<(), String>)
    ensures
        match r {
            Ok(()) => preset_error(presets@) is None,
            Err(m) => preset_error(presets@) == Some(m@),
        },
{
    let ghost ps = presets@;
    let mut i: usize = 0;
    while i < presets.len()
        invariant
            i <= presets.len(),
            ps == presets@,
            preset_error(ps.take(i as int)) is None,
        decreases presets.len() - i,
    {
        let p = &presets[i];
        assert(ps.take(i + 1).drop_last() =~= ps.take(i as int));
        assert(ps.take(i + 1).last() == ps[i as int]);
        if is_blank(p.name.as_str()) {
            proof {
                lemma_preset_error_prefix(ps, (i + 1) as int);
            }
            return Err("every preset needs a name".to_string());
        }
        if let Err(e) = parse_hex_color(p.value.as_str()) {
            proof {
                lemma_preset_error_prefix(ps, (i + 1) as int);
            }
            return Err(e);
        }
        if !is_unit_interval(p.brightness.bits) {
            proof {
                lemma_preset_error_prefix(ps, (i + 1) as int);
            }
            return Err(quoted_message("preset ", p.name.as_str(), " has invalid brightness"));
        }
        i += 1;
    }
    assert(ps.take(presets.len() as int) =~= ps);
    Ok(())
}

fn validate_schedules(schedules: &Vec<Schedule>, presets: &Vec<Preset>) -> (r: Result<(), String>)
    ensures
        match r {
            Ok(()) => schedule_error(schedules@, presets@) is None,
            Err(m) => schedule_error(schedules@, presets@) == Some(m@),
        },
{
    let ghost ss = schedules@;
    let mut i: usize = 0;
    while i < schedules.len()
        invariant
            i <= schedules.len(),
            ss == schedules@,
            schedule_error(ss.take(i as int), presets@) is None,
        decreases schedules.len() - i,
    {
        let s = &schedules[i];
        assert(ss.take(i + 1).drop_last() =~= ss.take(i as int));
        assert(ss.take(i + 1).last() == ss[i as int]);
        if is_blank(s.id.as_str()) || is_blank(s.name.as_str()) {
            proof {
                lemma_schedule_error_prefix(ss, presets@, (i + 1) as int);
            }
            return Err("every schedule needs an ID and name".to_string());
        }
        if !is_valid_schedule_id(s.id.as_str()) {
            proof {
                lemma_schedule_error_prefix(ss, presets@, (i + 1) as int);
            }
            return Err(quoted_message("schedule ", s.name.as_str(), " has an invalid ID"));
        }
        if !is_valid_time(s.time.as_str()) {
            proof {
                lemma_schedule_error_prefix(ss, presets@, (i + 1) as int);
            }
            return Err(quoted_message("schedule ", s.name.as_str(), " needs an HH:MM time"));
        }
        if !has_preset(presets, s.preset.as_str()) {
            proof {
                lemma_schedule_error_prefix(ss, presets@, (i + 1) as int);
            }
            let mut v = chars_of(
                quoted_message("schedule ", s.name.as_str(), " references missing preset ").as_str(),
            );
            let q = debug_quoted(s.preset.as_str());
            push_str(&mut v, q.as_str());
            return Err(string_of(&v));
        }
        i += 1;
    }
    assert(ss.take(schedules.len() as int) =~= ss);
    Ok(())
}

impl Settings {
    /// Checks every rule a configuration must satisfy and reports the first
    /// one broken.
    pub fn validate(&self) -> (r: Result<(), String>)
        ensures
            match r {
                Ok(()) => settings_error(*self) is None,
                Err(m) => settings_error(*self) == Some(m@),
            },
    {
        if !is_unit_interval(self.brightness.bits) {
            return Err("brightness must be between 0 and 1".to_string());
        }
        if !(1 <= self.connection_hold_seconds && self.connection_hold_seconds <= 60) {
            return Err("connection hold time must be between 1 and 60 seconds".to_string());
        }
        average_frame_interval(self.breathing_cycle_seconds, self.breathing_color_step)?;
        parse_hex_color(self.color.as_str())?;
        parse_hex_color(self.white.as_str())?;
        validate_devices(&self.devices)?;
        validate_presets(&self.presets)?;
        validate_schedules(&self.schedules, &self.presets)
    }
}


/// The five built-in presets: name, mode, color, brightness bits (`1.0`,
/// `0.35`, `0.35`, `0.03` and `0.0` as `f32`) and packet level.
pub open spec fn default_preset(i: int) -> (Seq<char>, LightMode, Seq<char>, u32, u8) {
    if i == 0 {
        ("daytime"@, LightMode::White, "#d6e1ff"@, 0x3f80_0000u32, 255u8)
    } else if i == 1 {
        ("eveningtime"@, LightMode::White, "#ff8912"@, 0x3eb3_3333u32, 89u8)
    } else if i == 2 {
        ("nighttime"@, LightMode::Color, "#ff4500"@, 0x3eb3_3333u32, 89u8)
    } else if i == 3 {
        ("nighttimedark"@, LightMode::Color, "#ff4500"@, 0x3cf5_c28fu32, 8u8)
    } else {
        ("crashtime"@, LightMode::Color, "#ff4500"@, 0u32, 0u8)
    }
}

fn preset(name: &str, mode: LightMode, value: &str, bits: u32, level: u8) -> (p: Preset)
    ensures
        p.name@ == name@,
        p.mode == mode,
        p.value@ == value@,
        p.brightness == (BrightnessValue { bits, level }),
{
    Preset {
        name: name.to_string(),
        mode,
        value: value.to_string(),
        brightness: BrightnessValue { bits, level },
    }
}

proof fn lemma_literal_color(text: Seq<char>, rgb: Seq<u8>)
    requires
        rgb.len() == 3,
        text == color_text(rgb),
    ensures
        is_hex_color(text),
{
    lemma_color_text_parses(rgb);
}

proof fn lemma_literal_name(name: Seq<char>)
    requires
        name.len() > 0,
        !is_whitespace(name[0]),
        !is_whitespace(name.last()),
    ensures
        trim(name).len() > 0,
{
    lemma_trim_fixed(name);
}

impl Default for Settings {
    /// The configuration used when none has been saved: no lights, a warm
    /// orange color, 40% brightness (`0.4f32`), a six-second connection hold,
    /// a ten-minute breathing lap at step 1, the five built-in presets, and no
    /// automations. It satisfies every rule of `validate`.
    fn default() -> (s: Self)
        ensures
            s.devices@.len() == 0,
            s.color@ == "#ff4f22"@,
            s.white@ == "#ffd5ad"@,
            s.brightness == (BrightnessValue { bits: 0x3ecc_cccd, level: 102 }),
            s.connection_hold_seconds == 6,
            s.breathing_cycle_seconds == 600,
            s.breathing_color_step == 1,
            s.breathing_defaults_version == 2,
            s.schedules@.len() == 0,
            s.presets@.len() == 5,
            forall|i: int|
                0 <= i < 5 ==> {
                    let p = #[trigger] s.presets@[i];
                    (p.name@, p.mode, p.value@, p.brightness.bits, p.brightness.level)
                        == default_preset(i)
                },
            settings_error(s) is None,
    {
        let mut presets: Vec<Preset> = Vec::new();
        presets.push(preset("daytime", LightMode::White, "#d6e1ff", 0x3f80_0000, 255));
        presets.push(preset("eveningtime", LightMode::White, "#ff8912", 0x3eb3_3333, 89));
        presets.push(preset("nighttime", LightMode::Color, "#ff4500", 0x3eb3_3333, 89));
        presets.push(preset("nighttimedark", LightMode::Color, "#ff4500", 0x3cf5_c28f, 8));
        presets.push(preset("crashtime", LightMode::Color, "#ff4500", 0, 0));
        let s = Settings {
            devices: Vec::new(),
            color: "#ff4f22".to_string(),
            white: "#ffd5ad".to_string(),
            brightness: BrightnessValue { bits: 0x3ecc_cccd, level: 102 },
            connection_hold_seconds: 6,
            breathing_cycle_seconds: default_cycle_seconds(),
            breathing_color_step: default_color_step(),
            breathing_defaults_version: 2,
            presets,
            schedules: Vec::new(),
        };
        proof {
            reveal_strlit("#ff4f22");
            reveal_strlit("#ffd5ad");
            reveal_strlit("#d6e1ff");
            reveal_strlit("#ff8912");
            reveal_strlit("#ff4500");
            reveal_strlit("daytime");
            reveal_strlit("eveningtime");
            reveal_strlit("nighttime");
            reveal_strlit("nighttimedark");
            reveal_strlit("crashtime");
            assert("#ff4f22"@ =~= color_text(seq![0xffu8, 0x4fu8, 0x22u8]));
            lemma_literal_color("#ff4f22"@, seq![0xffu8, 0x4fu8, 0x22u8]);
            assert("#ffd5ad"@ =~= color_text(seq![0xffu8, 0xd5u8, 0xadu8]));
            lemma_literal_color("#ffd5ad"@, seq![0xffu8, 0xd5u8, 0xadu8]);
            assert("#d6e1ff"@ =~= color_text(seq![0xd6u8, 0xe1u8, 0xffu8]));
            lemma_literal_color("#d6e1ff"@, seq![0xd6u8, 0xe1u8, 0xffu8]);
            assert("#ff8912"@ =~= color_text(seq![0xffu8, 0x89u8, 0x12u8]));
            lemma_literal_color("#ff8912"@, seq![0xffu8, 0x89u8, 0x12u8]);
            assert("#ff4500"@ =~= color_text(seq![0xffu8, 0x45u8, 0x00u8]));
            lemma_literal_color("#ff4500"@, seq![0xffu8, 0x45u8, 0x00u8]);
            lemma_literal_name("daytime"@);
            lemma_literal_name("eveningtime"@);
            lemma_literal_name("nighttime"@);
            lemma_literal_name("nighttimedark"@);
            lemma_literal_name("crashtime"@);
            let ps = s.presets@;
            assert(ps.take(5) =~= ps);
            assert(ps.take(4).drop_last() =~= ps.take(3));
            assert(ps.take(5).drop_last() =~= ps.take(4));
            assert(ps.take(3).drop_last() =~= ps.take(2));
            assert(ps.take(2).drop_last() =~= ps.take(1));
            assert(ps.take(1).drop_last() =~= ps.take(0));
            assert(preset_error(ps.take(0)) is None);
            assert(preset_error(ps.take(1)) is None);
            assert(preset_error(ps.take(2)) is None);
            assert(preset_error(ps.take(3)) is None);
            assert(preset_error(ps.take(4)) is None);
            assert(preset_error(ps.take(5)) is None);
            assert(device_error(s.devices@) is None);
            assert(schedule_error(s.schedules@, s.presets@) is None);
            assert(spec_frames_per_cycle(1) == 1530);
            assert(spec_minimum_cycle_seconds(1) == 459);
        }
        s
    }
}

/// Migrates the color step of settings saved before cycle durations existed:
/// the old default 9 becomes 1, larger steps are capped at 100, and steps
/// outside `1..=510` are rejected.
pub fn migrate_color_step(old_step: u64) -> (r: Result<u16, String>)
    ensures
        match r {
            Ok(step) => 1 <= old_step <= 510 && step == (if old_step == 9 {
                1
            } else if old_step > 100 {
                100
            } else {
                old_step
            }),
            Err(m) => !(1 <= old_step <= 510) && m@ == "invalid legacy breathing color step"@,
        },
{
    if !(1 <= old_step && old_step <= 510) {
        return Err("invalid legacy breathing color step".to_string());
    }
    if old_step == 9 {
        Ok(default_color_step())
    } else if old_step > MAX_COLOR_STEP as u64 {
        Ok(MAX_COLOR_STEP)
    } else {
        Ok(old_step as u16)
    }
}


/// Bit patterns of the single-precision values that the migration of legacy
/// breathing fields compares against (IEEE-754 binary32).
pub const F32_THREE_QUARTERS_BITS: u32 = 0x3f40_0000;
pub const F32_TWO_BITS: u32 = 0x4000_0000;
pub const F32_TWELVE_BITS: u32 = 0x4140_0000;
pub const F32_INFINITY_BITS: u32 = 0x7f80_0000;

/// Whether the binary32 value with these bits compares greater than 2.0: the
/// positive values above it up to and including infinity. Negative values
/// carry the sign bit and NaNs lie above infinity; neither compares greater.
pub open spec fn f32_bits_above_two(bits: u32) -> bool {
    F32_TWO_BITS < bits <= F32_INFINITY_BITS
}

/// The legacy hue step in degrees (binary32 bits) that the color step is
/// converted from: in a file without a defaults version the original 12°
/// default stands for 2°.
pub open spec fn spec_migrated_hue_degrees(defaults_version: u64, bits: u32) -> u32 {
    if defaults_version == 0 && bits == F32_TWELVE_BITS {
        F32_TWO_BITS
    } else {
        bits
    }
}

/// The legacy per-update pace (binary32 bits) that a cycle duration is
/// derived from: in a file without a defaults version the old 2 s default
/// becomes 0.75 s, and a pace slower than 2 s is held at 2 s.
pub open spec fn spec_migrated_pace(defaults_version: u64, bits: u32) -> u32 {
    let pace = if defaults_version == 0 && bits == F32_TWO_BITS {
        F32_THREE_QUARTERS_BITS
    } else {
        bits
    };
    if f32_bits_above_two(pace) {
        F32_TWO_BITS
    } else {
        pace
    }
}

/// Whether the migrated cycle is the default one rather than a conversion of
/// the pace: the pace is the 0.75 s default and the old step was the old
/// default 9, or the file held no legacy breathing field at all.
pub open spec fn spec_keeps_default_cycle(
    pace_bits: u32,
    old_step: u64,
    has_legacy_breathing: bool,
) -> bool {
    pace_bits == F32_THREE_QUARTERS_BITS && (old_step == 9 || !has_legacy_breathing)
}

/// Applies the rule of [`spec_migrated_hue_degrees`] to a legacy hue step
/// given by its binary32 bits.
pub fn migrated_hue_degrees_bits(defaults_version: u64, bits: u32) -> (r: u32)
    ensures
        r == spec_migrated_hue_degrees(defaults_version, bits),
{
    if defaults_version == 0 && bits == F32_TWELVE_BITS {
        F32_TWO_BITS
    } else {
        bits
    }
}

/// Applies the rule of [`spec_migrated_pace`] to a legacy pace given by its
/// binary32 bits.
pub fn migrated_pace_bits(defaults_version: u64, bits: u32) -> (r: u32)
    ensures
        r == spec_migrated_pace(defaults_version, bits),
{
    let mut pace = bits;
    if defaults_version == 0 && pace == F32_TWO_BITS {
        pace = F32_THREE_QUARTERS_BITS;
    }
    if F32_TWO_BITS < pace && pace <= F32_INFINITY_BITS {
        pace = F32_TWO_BITS;
    }
    pace
}

/// Decides between the default cycle and a conversion of the migrated pace
/// (see [`spec_keeps_default_cycle`]).
pub fn keeps_default_cycle(pace_bits: u32, old_step: u64, has_legacy_breathing: bool) -> (b: bool)
    ensures
        b == spec_keeps_default_cycle(pace_bits, old_step, has_legacy_breathing),
{
    pace_bits == F32_THREE_QUARTERS_BITS && (old_step == 9 || !has_legacy_breathing)
}


/// A breathing field of a saved settings file, as the migration reads it:
/// missing, present but not a number of the expected kind, or its value.
#[derive(Debug, Clone, Copy, PartialEq, Eq)]
pub enum LegacyField<T> {
    Absent,
    Invalid,
    Value(T),
}

/// The breathing fields of a saved settings file before migration. Numbers
/// read as floating point are given by the bits of their binary32 value.
#[derive(Debug, Clone, Copy, PartialEq, Eq)]
pub struct LegacyBreathing {
    /// `breathingDefaultsVersion`, or 0 where it is missing or not an integer.
    pub defaults_version: u64,
    /// `breathingColorStep`.
    pub color_step: LegacyField<u64>,
    /// `breathingHueStepDegrees`, as binary32 bits.
    pub hue_step_degrees: LegacyField<u32>,
    /// `breathingPaceSeconds`, as binary32 bits.
    pub pace_seconds: LegacyField<u32>,
    /// Whether `breathingCycleSeconds` is present.
    pub has_cycle_seconds: bool,
}

/// What migration writes back: the color step and cycle duration to store
/// (`None` leaves the field as it is), and whether the defaults version
/// becomes 2.
#[derive(Debug, Clone, Copy, PartialEq, Eq)]
pub struct BreathingMigration {
    pub color_step: Option<u64>,
    pub cycle_seconds: Option<u32>,
    pub marks_current_version: bool,
}

/// The next thing the migration needs: the color step of a legacy hue step
/// (binary32 bits), the cycle duration of a legacy pace at a color step, or
/// nothing more, with the values to write.
#[derive(Debug, Clone, Copy, PartialEq, Eq)]
pub enum MigrationAction {
    ConvertHueStep(u32),
    ConvertPace { pace_bits: u32, color_step: u16 },
    Write(BreathingMigration),
}

/// Whether the file holds any breathing field of the earlier formats.
pub open spec fn has_legacy_breathing(raw: LegacyBreathing) -> bool {
    raw.color_step !is Absent || raw.hue_step_degrees !is Absent || raw.pace_seconds !is Absent
}

/// Whether the color step must come from the legacy hue step.
pub open spec fn needs_hue_conversion(raw: LegacyBreathing) -> bool {
    raw.color_step is Absent && raw.hue_step_degrees !is Absent
}

/// The color step that version-2 migration starts from once a converted hue
/// step (if one was needed) is known: the stored step, the converted one, or
/// 1 where there is none.
pub open spec fn spec_old_color_step(raw: LegacyBreathing, converted_step: u16) -> Result<u64, Seq<char>> {
    if needs_hue_conversion(raw) {
        Ok(converted_step as u64)
    } else {
        match raw.color_step {
            LegacyField::Absent => Ok(1),
            LegacyField::Invalid => Err("invalid breathing color step"@),
            LegacyField::Value(v) => Ok(v),
        }
    }
}

/// The migration of the breathing fields of a saved settings file, given the
/// results of the floating-point conversions asked for so far (`None` where
/// a conversion has not been made). In order:
/// - a legacy hue step stands in for a missing color step (after
///   [`spec_migrated_hue_degrees`]), and must be a number;
/// - files before version 2 migrate the color step by
///   [`migrate_color_step`], starting from 1 where none is stored;
/// - where no cycle duration is stored, it is the default 600 s when
///   [`spec_keeps_default_cycle`] holds of the migrated pace
///   ([`spec_migrated_pace`], 0.75 s where no pace is stored), and the
///   conversion of that pace at the migrated step otherwise;
/// - the version becomes 2.
pub open spec fn spec_migrate_breathing(
    raw: LegacyBreathing,
    converted_step: Option<u16>,
    converted_cycle: Option<u32>,
) -> Result<MigrationAction, Seq<char>> {
    if needs_hue_conversion(raw) && raw.hue_step_degrees is Invalid {
        Err("invalid legacy breathing hue step"@)
    } else if needs_hue_conversion(raw) && converted_step is None {
        Ok(MigrationAction::ConvertHueStep(
            spec_migrated_hue_degrees(raw.defaults_version, raw.hue_step_degrees->0),
        ))
    } else {
        let from_hue: Option<u64> = if needs_hue_conversion(raw) {
            Some(converted_step->0 as u64)
        } else {
            None
        };
        if raw.defaults_version >= 2 {
            Ok(
                MigrationAction::Write(
                    BreathingMigration {
                        color_step: from_hue,
                        cycle_seconds: None,
                        marks_current_version: false,
                    },
                ),
            )
        } else {
            match spec_old_color_step(raw, converted_step.unwrap_or(0)) {
                Err(e) => Err(e),
                Ok(old_step) => if !(1 <= old_step <= 510) {
                    Err("invalid legacy breathing color step"@)
                } else {
                    let step: u16 = if old_step == 9 {
                        1
                    } else if old_step > 100 {
                        100
                    } else {
                        old_step as u16
                    };
                    let written = |cycle: Option<u32>|
                        MigrationAction::Write(
                            BreathingMigration {
                                color_step: Some(step as u64),
                                cycle_seconds: cycle,
                                marks_current_version: true,
                            },
                        );
                    if raw.has_cycle_seconds {
                        Ok(written(None))
                    } else {
                        match raw.pace_seconds {
                            LegacyField::Invalid => Err("invalid legacy breathing pace"@),
                            _ => {
                                let stored = match raw.pace_seconds {
                                    LegacyField::Value(b) => b,
                                    _ => F32_THREE_QUARTERS_BITS,
                                };
                                let pace = spec_migrated_pace(raw.defaults_version, stored);
                                if spec_keeps_default_cycle(pace, old_step, has_legacy_breathing(raw)) {
                                    Ok(written(Some(600)))
                                } else {
                                    match converted_cycle {
                                        None => Ok(
                                            MigrationAction::ConvertPace { pace_bits: pace, color_step: step },
                                        ),
                                        Some(c) => Ok(written(Some(c))),
                                    }
                                }
                            },
                        }
                    }
                },
            }
        }
    }
}

/// Decides the next step of [`spec_migrate_breathing`]. Called first with no
/// conversion results and then again with each conversion it asks for, it
/// ends in `Write` or an error.
pub fn migrate_breathing(
    raw: &LegacyBreathing,
    converted_step: Option<u16>,
    converted_cycle: Option<u32>,
) -> (r: Result<MigrationAction, String>)
    ensures
        match (r, spec_migrate_breathing(*raw, converted_step, converted_cycle)) {
            (Ok(a), Ok(b)) => a == b,
            (Err(m), Err(e)) => m@ == e,
            _ => false,
        },
{
    let needs_hue = match (raw.color_step, raw.hue_step_degrees) {
        (LegacyField::Absent, LegacyField::Absent) => false,
        (LegacyField::Absent, _) => true,
        _ => false,
    };
    let mut from_hue: Option<u64> = None;
    if needs_hue {
        match raw.hue_step_degrees {
            LegacyField::Value(bits) => match converted_step {
                None => {
                    return Ok(
                        MigrationAction::ConvertHueStep(
                            migrated_hue_degrees_bits(raw.defaults_version, bits),
                        ),
                    );
                },
                Some(step) => {
                    from_hue = Some(step as u64);
                },
            },
            _ => {
                return Err("invalid legacy breathing hue step".to_string());
            },
        }
    }
    if raw.defaults_version >= 2 {
        return Ok(
            MigrationAction::Write(
                BreathingMigration {
                    color_step: from_hue,
                    cycle_seconds: None,
                    marks_current_version: false,
                },
            ),
        );
    }
    let old_step: u64 = match from_hue {
        Some(v) => v,
        None => match raw.color_step {
            LegacyField::Absent => 1,
            LegacyField::Invalid => {
                return Err("invalid breathing color step".to_string());
            },
            LegacyField::Value(v) => v,
        },
    };
    let step = migrate_color_step(old_step)?;
    let written = BreathingMigration {
        color_step: Some(step as u64),
        cycle_seconds: None,
        marks_current_version: true,
    };
    if raw.has_cycle_seconds {
        return Ok(MigrationAction::Write(written));
    }
    let stored: u32 = match raw.pace_seconds {
        LegacyField::Absent => F32_THREE_QUARTERS_BITS,
        LegacyField::Invalid => {
            return Err("invalid legacy breathing pace".to_string());
        },
        LegacyField::Value(b) => b,
    };
    let pace = migrated_pace_bits(raw.defaults_version, stored);
    let has_legacy = match (raw.color_step, raw.hue_step_degrees, raw.pace_seconds) {
        (LegacyField::Absent, LegacyField::Absent, LegacyField::Absent) => false,
        _ => true,
    };
    if keeps_default_cycle(pace, old_step, has_legacy) {
        return Ok(
            MigrationAction::Write(
                BreathingMigration { cycle_seconds: Some(default_cycle_seconds()), ..written },
            ),
        );
    }
    match converted_cycle {
        None => Ok(MigrationAction::ConvertPace { pace_bits: pace, color_step: step }),
        Some(c) => Ok(MigrationAction::Write(BreathingMigration { cycle_seconds: Some(c), ..written })),
    }
}

/// The migration asks for each conversion at most once: answered, a request
/// for the hue step is not made again, and once the pace conversion is
/// answered the migration ends in `Write` or an error.
pub proof fn lemma_migration_ends(raw: LegacyBreathing, step: u16, cycle: u32)
    ensures
        !(spec_migrate_breathing(raw, Some(step), None) matches Ok(MigrationAction::ConvertHueStep(_))),
        !(spec_migrate_breathing(raw, Some(step), Some(cycle)) matches Ok(MigrationAction::ConvertHueStep(_))),
        !(spec_migrate_breathing(raw, Some(step), Some(cycle)) matches Ok(MigrationAction::ConvertPace { .. })),
        !(spec_migrate_breathing(raw, None, Some(cycle)) matches Ok(MigrationAction::ConvertPace { .. })),
{
}


/// A character allowed in an automation ID: an ASCII letter, an ASCII digit
/// or a hyphen.
pub open spec fn schedule_id_char(c: char) -> bool {
    ('a' <= c && c <= 'z') || ('A' <= c && c <= 'Z') || ('0' <= c && c <= '9') || c == '-'
}

/// A wall-clock time written `HH:MM`: two ASCII digits for an hour from 00 to
/// 23, a colon, and two ASCII digits for a minute from 00 to 59.
pub open spec fn clock_time(t: Seq<char>) -> bool {
    &&& t.len() == 5
    &&& t[2] == ':'
    &&& '0' <= t[0] <= '9' && '0' <= t[1] <= '9' && '0' <= t[3] <= '9' && '0' <= t[4] <= '9'
    &&& (t[0] as int - '0' as int) * 10 + (t[1] as int - '0' as int) < 24
    &&& (t[3] as int - '0' as int) * 10 + (t[4] as int - '0' as int) < 60
}

/// An automation as the documentation asks for it: a non-blank name, an ID
/// of 1 to 64 ASCII letters, digits and hyphens (a hyphenated UUID, say), an
/// `HH:MM` time, and the name of an existing preset.
pub open spec fn documented_schedule(s: Schedule, presets: Seq<Preset>) -> bool {
    &&& trim(s.name@).len() > 0
    &&& 1 <= s.id@.len() <= 64
    &&& forall|i: int| 0 <= i < s.id@.len() ==> schedule_id_char(#[trigger] s.id@[i])
    &&& clock_time(s.time@)
    &&& exists|j: int| 0 <= j < presets.len() && #[trigger] presets[j].name@ == s.preset@
}

proof fn lemma_documented_schedule_passes(s: Schedule, presets: Seq<Preset>)
    requires
        documented_schedule(s, presets),
    ensures
        trim(s.id@).len() > 0,
        valid_schedule_id(s.id@),
        valid_time(s.time@),
        preset_names(presets).contains(s.preset@),
{
    let id = s.id@;
    assert(!is_whitespace(id[0]) && !is_whitespace(id.last())) by {
        assert(schedule_id_char(id[0]));
        assert(schedule_id_char(id[id.len() - 1]));
    }
    lemma_trim_fixed(id);
    assert forall|i: int| 0 <= i < id.len() implies is_ascii_alphanumeric(#[trigger] id[i])
        || id[i] == '-' by {
        assert(schedule_id_char(id[i]));
    }
    let j = choose|j: int| 0 <= j < presets.len() && #[trigger] presets[j].name@ == s.preset@;
    assert(preset_names(presets)[j] == s.preset@);
}

/// Every list of documented automations passes the automation rules.
pub proof fn lemma_documented_schedules_accepted(schedules: Seq<Schedule>, presets: Seq<Preset>)
    requires
        forall|i: int| 0 <= i < schedules.len() ==> documented_schedule(#[trigger] schedules[i], presets),
    ensures
        schedule_error(schedules, presets) is None,
    decreases schedules.len(),
{
    if schedules.len() > 0 {
        let rest = schedules.drop_last();
        assert forall|i: int| 0 <= i < rest.len() implies documented_schedule(#[trigger] rest[i], presets) by {
            assert(rest[i] == schedules[i]);
        }
        lemma_documented_schedules_accepted(rest, presets);
        lemma_documented_schedule_passes(schedules.last(), presets);
    }
}

/// Adding documented automations to valid settings that have none keeps them
/// valid: `validate` then returns `Ok`, whatever the automations' IDs are
/// made of among letters, digits and hyphens.
pub proof fn lemma_documented_schedules_keep_settings_valid(s: Settings, t: Settings)
    requires
        settings_error(s) is None,
        s.schedules@.len() == 0,
        t.brightness == s.brightness,
        t.connection_hold_seconds == s.connection_hold_seconds,
        t.breathing_cycle_seconds == s.breathing_cycle_seconds,
        t.breathing_color_step == s.breathing_color_step,
        t.color@ == s.color@,
        t.white@ == s.white@,
        t.devices@ == s.devices@,
        t.presets@ == s.presets@,
        forall|i: int| 0 <= i < t.schedules@.len() ==> documented_schedule(#[trigger] t.schedules@[i], t.presets@),
    ensures
        settings_error(t) is None,
{
    lemma_documented_schedules_accepted(t.schedules@, t.presets@);
}

/// An automation whose ID holds any character other than an ASCII letter,
/// digit or hyphen, or more than 64 characters, makes validation fail.
pub proof fn lemma_foreign_schedule_id_refused(schedules: Seq<Schedule>, presets: Seq<Preset>, k: int)
    requires
        0 <= k < schedules.len(),
        schedules[k].id@.len() > 64 || exists|i: int|
            0 <= i < schedules[k].id@.len() && !schedule_id_char(#[trigger] schedules[k].id@[i]),
    ensures
        schedule_error(schedules, presets) is Some,
    decreases schedules.len(),
{
    let rest = schedules.drop_last();
    if k < schedules.len() - 1 {
        assert(rest[k] == schedules[k]);
        lemma_foreign_schedule_id_refused(rest, presets, k);
    } else if schedule_error(rest, presets) is None {
        let id = schedules[k].id@;
        if id.len() <= 64 {
            let i = choose|i: int| 0 <= i < id.len() && !schedule_id_char(#[trigger] id[i]);
            assert(!(is_ascii_alphanumeric(id[i]) || id[i] == '-'));
        }
        assert(!valid_schedule_id(id));
    }
}

}
