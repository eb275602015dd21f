use grindlewald::command::BrightnessValue;
use grindlewald::protocol::DeviceProfile;
use grindlewald::settings::{
    canonical_identifier, keeps_default_cycle, migrate_breathing, migrate_color_step,
    migrated_hue_degrees_bits, migrated_pace_bits, BreathingMigration, DeviceConfig, LegacyBreathing,
    LegacyField, MigrationAction, FloodlightAction, LightMode, Schedule,
    Settings,
};

fn schedule(id: &str) -> Schedule {
    Schedule {
        id: id.into(),
        name: "Test".into(),
        time: "12:00".into(),
        enabled: true,
        disabled_until: None,
        lights: Vec::new(),
        preset: "daytime".into(),
        floodlights: FloodlightAction::default(),
        floodlight_network: None,
        shell_command: String::new(),
        run_as_administrator: false,
        privileged_approved_command: String::new(),
        privileged_approved_at: String::new(),
    }
}

fn device(name: &str, identifier: &str) -> DeviceConfig {
    DeviceConfig {
        name: name.into(),
        identifier: identifier.into(),
        profile: DeviceProfile::Classic,
        enabled: true,
    }
}

#[test]
fn new_cycle_settings_are_preserved_and_invalid_rates_are_rejected() {
    let mut settings = Settings::default();
    assert!(settings.validate().is_ok());
    settings.breathing_cycle_seconds = 458;
    assert!(settings.validate().is_err());
    settings.breathing_cycle_seconds = 459;
    assert!(settings.validate().is_ok());
    settings.breathing_color_step = 100;
    settings.breathing_cycle_seconds = 5;
    assert!(settings.validate().is_ok());
    settings.breathing_cycle_seconds = 4;
    assert!(settings.validate().is_err());
    settings.breathing_cycle_seconds = 3601;
    assert!(settings.validate().is_err());
    settings.breathing_cycle_seconds = 600;
    settings.breathing_color_step = 101;
    assert!(settings.validate().is_err());
    settings.breathing_color_step = 0;
    assert!(settings.validate().is_err());
    settings.breathing_color_step = 9;
    let saved = settings.clone();
    settings.canonicalize_identifiers();
    assert!(settings.validate().is_ok());
    assert_eq!(settings, saved);
}

#[test]
fn identifiers_are_stored_uppercase_and_compared_case_insensitively() {
    let mut settings = Settings::default();
    settings.devices.push(device("Test lamp", "aabb-ccdd"));
    let mut stored = settings.clone();
    stored.canonicalize_identifiers();
    assert!(stored.validate().is_ok());
    assert_eq!(stored.devices[0].identifier, "AABB-CCDD");

    settings.devices.push(device("Duplicate lamp", "AABB-CCDD"));
    assert!(settings.validate().is_err());
}

#[test]
fn loading_merges_case_only_duplicates_and_migrates_schedule_names() {
    let mut s = schedule("test");
    s.lights = vec!["Re-added lamp".into(), "Original lamp".into()];
    let mut settings = Settings {
        devices: vec![device("Original lamp", "AABB-CCDD"), device("Re-added lamp", "aabb-ccdd")],
        schedules: vec![s],
        ..Settings::default()
    };
    settings.canonicalize_identifiers();
    assert_eq!(settings.devices.len(), 1);
    assert_eq!(settings.devices[0].name, "Original lamp");
    assert_eq!(settings.devices[0].identifier, "AABB-CCDD");
    assert_eq!(settings.schedules[0].lights, ["Original lamp"]);
}

#[test]
fn legacy_schedules_leave_floodlights_unchanged() {
    let schedule = schedule("legacy");
    assert_eq!(schedule.floodlights, FloodlightAction::Unchanged);
    assert_eq!(schedule.floodlight_network, None);
    assert_eq!(schedule.disabled_until, None);
    assert!(schedule.is_enabled_at(0));
}

#[test]
fn schedule_pause_survives_reload_and_expires_at_its_deadline() {
    let deadline = 1_800_000_000_000_i64;
    let mut restored = schedule("paused");
    restored.disabled_until = Some(deadline);
    let settings = Settings { schedules: vec![restored.clone()], ..Settings::default() };
    assert!(settings.validate().is_ok());
    assert_eq!(restored.disabled_until, Some(deadline));
    assert!(!restored.is_enabled_at(deadline - 1));
    assert!(restored.is_enabled_at(deadline));
    assert!(restored.is_enabled_at(deadline + 1));
    restored.enabled = false;
    assert!(!restored.is_enabled_at(deadline + 1));
    restored.disabled_until = None;
    assert!(!restored.is_enabled_at(deadline + 1));
}

#[test]
fn home_network_selection_survives_settings_reload() {
    let network =
        "router-sha256:0000000000000000000000000000000000000000000000000000000000000000";
    let mut s = schedule("wifi");
    s.floodlights = FloodlightAction::OnHomeNetwork;
    s.floodlight_network = Some(network.into());
    let mut settings = Settings { schedules: vec![s], ..Settings::default() };
    settings.canonicalize_identifiers();
    assert!(settings.validate().is_ok());
    assert_eq!(settings.schedules[0].floodlights, FloodlightAction::OnHomeNetwork);
    assert_eq!(settings.schedules[0].floodlight_network.as_deref(), Some(network));
}

#[test]
fn default_settings_hold_the_built_in_presets() {
    let settings = Settings::default();
    assert_eq!(settings.color, "#ff4f22");
    assert_eq!(settings.white, "#ffd5ad");
    assert_eq!(settings.brightness, BrightnessValue { bits: 0.4f32.to_bits(), level: 102 });
    assert_eq!(settings.connection_hold_seconds, 6);
    assert_eq!(settings.breathing_cycle_seconds, 600);
    assert_eq!(settings.breathing_color_step, 1);
    let names: Vec<&str> = settings.presets.iter().map(|p| p.name.as_str()).collect();
    assert_eq!(names, ["daytime", "eveningtime", "nighttime", "nighttimedark", "crashtime"]);
    assert_eq!(settings.presets[0].mode, LightMode::White);
    for preset in &settings.presets {
        let value = f32::from_bits(preset.brightness.bits);
        assert_eq!(preset.brightness.level, (value * 255.0).round() as u8);
    }
    assert_eq!(f32::from_bits(settings.presets[3].brightness.bits), 0.03);
}

#[test]
fn validation_reports_the_first_broken_rule() {
    let mut settings = Settings::default();
    settings.brightness = BrightnessValue { bits: 1.5f32.to_bits(), level: 255 };
    assert_eq!(settings.validate().unwrap_err(), "brightness must be between 0 and 1");
    let mut settings = Settings::default();
    settings.connection_hold_seconds = 61;
    assert_eq!(
        settings.validate().unwrap_err(),
        "connection hold time must be between 1 and 60 seconds"
    );
    let mut settings = Settings::default();
    settings.color = "orange".into();
    assert!(settings.validate().is_err());
    let mut settings = Settings::default();
    let mut s = schedule("bad");
    s.time = "24:00".into();
    settings.schedules.push(s);
    assert!(settings.validate().is_err());
    let mut settings = Settings::default();
    let mut s = schedule("case");
    s.preset = "NightTime".into();
    settings.schedules.push(s);
    assert_eq!(
        settings.validate().unwrap_err(),
        "schedule \"Test\" references missing preset \"NightTime\""
    );
    for time in ["+9:05", "09:+5", "9:05", "09:60", "23:59x"] {
        let mut settings = Settings::default();
        let mut s = schedule("signed");
        s.time = time.into();
        settings.schedules.push(s);
        assert_eq!(
            settings.validate().unwrap_err(),
            "schedule \"Test\" needs an HH:MM time",
            "{time}"
        );
    }
    let mut settings = Settings::default();
    let mut s = schedule("ok");
    s.time = "23:59".into();
    settings.schedules.push(s);
    assert!(settings.validate().is_ok());
}

#[test]
fn canonical_identifiers_are_trimmed_and_uppercase() {
    assert_eq!(canonical_identifier("  ab-cd\t"), "AB-CD");
    assert_eq!(canonical_identifier("AB-CD"), "AB-CD");
}

#[test]
fn legacy_color_steps_migrate() {
    assert_eq!(migrate_color_step(9).unwrap(), 1);
    assert_eq!(migrate_color_step(510).unwrap(), 100);
    assert_eq!(migrate_color_step(10).unwrap(), 10);
    assert_eq!(migrate_color_step(0).unwrap_err(), "invalid legacy breathing color step");
    assert!(migrate_color_step(511).is_err());
}

#[test]
fn canonicalizing_twice_changes_nothing() {
    let mut s = schedule("test");
    s.lights = vec!["b".into(), "a".into(), "b".into()];
    let mut settings = Settings {
        devices: vec![device("a", " aa-1 "), device("b", "AA-1"), device("c", "bb-2")],
        schedules: vec![s],
        ..Settings::default()
    };
    settings.canonicalize_identifiers();
    let once = settings.clone();
    settings.canonicalize_identifiers();
    assert_eq!(settings, once);
    assert_eq!(once.devices.len(), 2);
    assert_eq!(once.devices[0].identifier, "AA-1");
    assert_eq!(once.schedules[0].lights, ["a"]);
}

#[test]
fn legacy_hue_default_of_unversioned_files_becomes_two_degrees() {
    let twelve = 12.0f32.to_bits();
    assert_eq!(f32::from_bits(migrated_hue_degrees_bits(0, twelve)), 2.0);
    assert_eq!(f32::from_bits(migrated_hue_degrees_bits(1, twelve)), 12.0);
    assert_eq!(f32::from_bits(migrated_hue_degrees_bits(0, 15.0f32.to_bits())), 15.0);
}

#[test]
fn legacy_pace_migrates_to_the_bounded_range() {
    let pace = |version: u64, value: f32| f32::from_bits(migrated_pace_bits(version, value.to_bits()));
    assert_eq!(pace(0, 2.0), 0.75);
    assert_eq!(pace(1, 2.0), 2.0);
    assert_eq!(pace(1, 3.5), 2.0);
    assert_eq!(pace(0, f32::INFINITY), 2.0);
    assert_eq!(pace(0, 1.25), 1.25);
    assert_eq!(pace(0, -3.0), -3.0);
    assert!(pace(0, f32::NAN).is_nan());
}

#[test]
fn default_cycle_is_kept_only_for_the_old_defaults() {
    let default_pace = 0.75f32.to_bits();
    assert!(keeps_default_cycle(default_pace, 9, true));
    assert!(keeps_default_cycle(default_pace, 4, false));
    assert!(!keeps_default_cycle(default_pace, 4, true));
    assert!(!keeps_default_cycle(1.0f32.to_bits(), 9, true));
}

fn legacy(
    defaults_version: u64,
    color_step: LegacyField<u64>,
    hue: LegacyField<u32>,
    pace: LegacyField<u32>,
) -> LegacyBreathing {
    LegacyBreathing {
        defaults_version,
        color_step,
        hue_step_degrees: hue,
        pace_seconds: pace,
        has_cycle_seconds: false,
    }
}

fn written(color_step: Option<u64>, cycle_seconds: Option<u32>, current: bool) -> MigrationAction {
    MigrationAction::Write(BreathingMigration {
        color_step,
        cycle_seconds,
        marks_current_version: current,
    })
}

#[test]
fn legacy_defaults_migrate_to_one_step_and_the_ten_minute_cycle() {
    // Unversioned pace 2 s and hue step 12 degrees: the hue step is read as
    // 2 degrees, which the application rounds to the old default step 9.
    let raw = legacy(
        0,
        LegacyField::Absent,
        LegacyField::Value(12.0f32.to_bits()),
        LegacyField::Value(2.0f32.to_bits()),
    );
    assert_eq!(
        migrate_breathing(&raw, None, None),
        Ok(MigrationAction::ConvertHueStep(2.0f32.to_bits()))
    );
    assert_eq!(migrate_breathing(&raw, Some(9), None), Ok(written(Some(1), Some(600), true)));
    let raw = legacy(1, LegacyField::Value(9), LegacyField::Absent, LegacyField::Value(0.75f32.to_bits()));
    assert_eq!(migrate_breathing(&raw, None, None), Ok(written(Some(1), Some(600), true)));
    let empty = legacy(0, LegacyField::Absent, LegacyField::Absent, LegacyField::Absent);
    assert_eq!(migrate_breathing(&empty, None, None), Ok(written(Some(1), Some(600), true)));
}

#[test]
fn legacy_custom_paces_are_converted_at_the_migrated_step() {
    let raw = legacy(1, LegacyField::Value(510), LegacyField::Absent, LegacyField::Value(1.25f32.to_bits()));
    assert_eq!(
        migrate_breathing(&raw, None, None),
        Ok(MigrationAction::ConvertPace { pace_bits: 1.25f32.to_bits(), color_step: 100 })
    );
    assert_eq!(migrate_breathing(&raw, None, Some(20)), Ok(written(Some(100), Some(20), true)));
    // A pace above 2 s is held at 2 s before conversion.
    let raw = legacy(1, LegacyField::Value(1), LegacyField::Absent, LegacyField::Value(2.75f32.to_bits()));
    assert_eq!(
        migrate_breathing(&raw, None, None),
        Ok(MigrationAction::ConvertPace { pace_bits: 2.0f32.to_bits(), color_step: 1 })
    );
    // The 0.75 s pace of a file that set its own step is converted too.
    let raw = legacy(1, LegacyField::Value(4), LegacyField::Absent, LegacyField::Value(0.75f32.to_bits()));
    assert_eq!(
        migrate_breathing(&raw, None, None),
        Ok(MigrationAction::ConvertPace { pace_bits: 0.75f32.to_bits(), color_step: 4 })
    );
}

#[test]
fn current_files_and_stored_cycles_are_left_alone() {
    let mut raw = legacy(2, LegacyField::Value(4), LegacyField::Absent, LegacyField::Invalid);
    assert_eq!(migrate_breathing(&raw, None, None), Ok(written(None, None, false)));
    raw.defaults_version = 1;
    raw.has_cycle_seconds = true;
    assert_eq!(migrate_breathing(&raw, None, None), Ok(written(Some(4), None, true)));
    // A version-2 file with only a hue step still takes its converted step.
    let raw = legacy(2, LegacyField::Absent, LegacyField::Value(30.0f32.to_bits()), LegacyField::Absent);
    assert_eq!(
        migrate_breathing(&raw, None, None),
        Ok(MigrationAction::ConvertHueStep(30.0f32.to_bits()))
    );
    assert_eq!(migrate_breathing(&raw, Some(100), None), Ok(written(Some(100), None, false)));
}

#[test]
fn malformed_legacy_fields_are_reported() {
    let raw = legacy(0, LegacyField::Absent, LegacyField::Invalid, LegacyField::Absent);
    assert_eq!(migrate_breathing(&raw, None, None).unwrap_err(), "invalid legacy breathing hue step");
    let raw = legacy(0, LegacyField::Invalid, LegacyField::Absent, LegacyField::Absent);
    assert_eq!(migrate_breathing(&raw, None, None).unwrap_err(), "invalid breathing color step");
    let raw = legacy(0, LegacyField::Value(511), LegacyField::Absent, LegacyField::Absent);
    assert_eq!(migrate_breathing(&raw, None, None).unwrap_err(), "invalid legacy breathing color step");
    let raw = legacy(0, LegacyField::Value(3), LegacyField::Absent, LegacyField::Invalid);
    assert_eq!(migrate_breathing(&raw, None, None).unwrap_err(), "invalid legacy breathing pace");
}
