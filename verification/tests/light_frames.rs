use grindlewald::ble::{
    apply_outcome, arrange_discovered, is_light_name, normalize, observation_matches, select_devices,
    DiscoveredDevice,
};
use grindlewald::command::{
    brightness_frame, command_response, frames_for, BrightnessValue, ControlCommand, FrameError,
    LightState,
};
use grindlewald::protocol::{color_frame, parse_hex_color, DeviceProfile};
use grindlewald::settings::{DeviceConfig, Settings};

fn level(value: f32) -> BrightnessValue {
    BrightnessValue { bits: value.to_bits(), level: (value * 255.0).round() as u8 }
}

fn frames(
    state: &mut LightState,
    settings: &Settings,
    command: &ControlCommand,
    profile: DeviceProfile,
) -> Result<Vec<[u8; 20]>, FrameError> {
    state.frames(command, profile, settings.color.as_str(), settings.brightness)
}

#[test]
fn reconnect_syncs_both_once_for_color_and_white_on_each_profile() {
    for profile in [DeviceProfile::Classic, DeviceProfile::H6005] {
        for command in [
            ControlCommand::Color {
                value: "#123456".into(),
                brightness: Some(level(0.0)),
                device: None,
            },
            ControlCommand::White {
                value: "#ffccaa".into(),
                kelvin: Some(2700),
                brightness: Some(level(0.0)),
                device: None,
            },
        ] {
            let settings = Settings::default();
            let mut state = LightState::default();
            let expected = frames_for(&command, profile).unwrap();
            assert_eq!(frames(&mut state, &settings, &command, profile).unwrap(), expected);
            assert_eq!(frames(&mut state, &settings, &command, profile).unwrap(), expected[..1]);
            state.needs_sync = true;
            let brightness = ControlCommand::Brightness { value: level(0.7), device: None };
            assert_eq!(
                frames(&mut state, &settings, &brightness, profile).unwrap(),
                vec![expected[0], brightness_frame(level(0.7)).unwrap()]
            );
            assert_eq!(
                frames(&mut state, &settings, &brightness, profile).unwrap(),
                vec![brightness_frame(level(0.7)).unwrap()]
            );
            // An explicitly changed brightness must still apply.
            assert_eq!(frames(&mut state, &settings, &command, profile).unwrap(), expected);
            state.needs_sync = true;
            assert_eq!(frames(&mut state, &settings, &command, profile).unwrap(), expected);
        }
    }
}

#[test]
fn first_brightness_uses_saved_color_and_power_does_not_consume_sync() {
    let settings = Settings::default();
    let profile = DeviceProfile::Classic;
    let mut state = LightState::default();
    frames(&mut state, &settings, &ControlCommand::Power { on: true, device: None }, profile)
        .unwrap();
    let command = ControlCommand::Brightness { value: level(0.2), device: None };
    assert_eq!(
        frames(&mut state, &settings, &command, profile).unwrap(),
        vec![
            color_frame(profile, parse_hex_color(&settings.color).unwrap()),
            brightness_frame(level(0.2)).unwrap()
        ]
    );
    let mut other_light = LightState::default();
    assert_eq!(frames(&mut other_light, &settings, &command, profile).unwrap().len(), 2);
    assert_eq!(frames(&mut state, &settings, &command, profile).unwrap().len(), 1);
}

#[test]
fn color_without_brightness_restores_last_brightness_after_reconnect() {
    let settings = Settings::default();
    let profile = DeviceProfile::Classic;
    let mut state = LightState::default();
    let command = ControlCommand::Color { value: "#abcdef".into(), brightness: None, device: None };
    assert_eq!(
        frames(&mut state, &settings, &command, profile).unwrap()[1],
        brightness_frame(settings.brightness).unwrap()
    );
    frames(
        &mut state,
        &settings,
        &ControlCommand::Brightness { value: level(0.1), device: None },
        profile,
    )
    .unwrap();
    assert_eq!(frames(&mut state, &settings, &command, profile).unwrap().len(), 1);
    state.needs_sync = true;
    assert_eq!(
        frames(&mut state, &settings, &command, profile).unwrap()[1],
        brightness_frame(level(0.1)).unwrap()
    );
}

#[test]
fn bluetooth_identifiers_are_matched_case_insensitively() {
    assert_eq!(normalize("AA11-BB22-CC33"), normalize("aa11-bb22-cc33"));
}

#[test]
fn normalizing_drops_punctuation_and_lowercases() {
    assert_eq!(normalize("AA11-BB22:cc33"), "aa11bb22cc33");
    assert_eq!(normalize("--"), "");
}

#[test]
fn a_failed_command_leaves_the_link_state_unchanged() {
    let settings = Settings::default();
    let profile = DeviceProfile::H6005;
    let mut state = LightState::default();
    let bad = ControlCommand::Color { value: "orange".into(), brightness: None, device: None };
    assert!(matches!(frames(&mut state, &settings, &bad, profile), Err(FrameError::Message(_))));
    assert!(state.needs_sync);
    assert!(state.color.is_none());
    let too_bright = ControlCommand::Brightness { value: level(1.5), device: None };
    match frames(&mut state, &settings, &too_bright, profile) {
        Err(FrameError::BrightnessOutOfRange(bits)) => assert_eq!(bits, 1.5f32.to_bits()),
        other => panic!("unexpected {other:?}"),
    }
    assert!(state.needs_sync);
    assert!(state.brightness.is_none());
}

#[test]
fn brightness_packets_carry_the_rounded_level() {
    let frame = brightness_frame(level(0.4)).unwrap();
    assert_eq!(&frame[..3], &[0x33, 0x04, 102]);
    assert_eq!(frame.iter().fold(0u8, |acc, byte| acc ^ byte), 0);
    assert!(brightness_frame(level(-0.5)).is_err());
    assert!(brightness_frame(level(f32::NAN)).is_err());
    assert!(brightness_frame(level(-0.0)).is_ok());
}

#[test]
fn commands_become_their_documented_packets() {
    let profile = DeviceProfile::Classic;
    match frames_for(&ControlCommand::Preset { name: "daytime".into(), device: None }, profile) {
        Err(FrameError::Message(m)) => {
            assert_eq!(m, "preset commands must be resolved before reaching Bluetooth")
        }
        other => panic!("unexpected {other:?}"),
    }
    match frames_for(&ControlCommand::Party { device: None }, profile) {
        Err(FrameError::Message(m)) => {
            assert_eq!(m, "effect commands must be resolved before reaching Bluetooth")
        }
        other => panic!("unexpected {other:?}"),
    }
    let party = frames_for(
        &ControlCommand::PartyFrame { value: "#ff3040".into(), enter: true, device: None },
        DeviceProfile::H6005,
    )
    .unwrap();
    assert_eq!(party, vec![color_frame(DeviceProfile::H6005, [0xff, 0x30, 0x40])]);
    let experiment = frames_for(
        &ControlCommand::Experiment { payload: "04 08".into(), device: Some("Desk".into()) },
        profile,
    )
    .unwrap();
    assert_eq!(&experiment[0][..4], &[0x33, 0x05, 0x04, 0x08]);
    assert!(matches!(
        frames_for(&ControlCommand::Experiment { payload: "nope".into(), device: None }, profile),
        Err(FrameError::Message(_))
    ));
    let white = frames_for(
        &ControlCommand::White {
            value: "#ffa957".into(),
            kelvin: Some(2700),
            brightness: None,
            device: None,
        },
        DeviceProfile::H6005,
    )
    .unwrap();
    assert_eq!(&white[0][2..11], &[0x0d, 0xff, 0xa9, 0x57, 0x0a, 0x8c, 0xff, 0xa9, 0x57]);
    let power = frames_for(&ControlCommand::Power { on: false, device: None }, profile).unwrap();
    assert_eq!(&power[0][..3], &[0x33, 0x01, 0x00]);
}

#[test]
fn commands_name_their_target_light() {
    let command = ControlCommand::Color {
        value: "#ffffff".into(),
        brightness: None,
        device: Some("Desk".into()),
    };
    assert_eq!(command.device(), Some("Desk"));
    assert_eq!(ControlCommand::StopEffect.device(), None);
}

fn device(name: &str, identifier: &str, enabled: bool) -> DeviceConfig {
    DeviceConfig {
        name: name.into(),
        identifier: identifier.into(),
        profile: DeviceProfile::Classic,
        enabled,
    }
}

#[test]
fn selection_keeps_enabled_lights_matching_the_name_case_insensitively() {
    let devices = vec![
        device("Desk", "AA", true),
        device("Shelf", "BB", false),
        device("desk", "CC", true),
    ];
    assert_eq!(select_devices(&devices, None).unwrap(), vec![0, 2]);
    assert_eq!(select_devices(&devices, Some("DESK")).unwrap(), vec![0, 2]);
    assert_eq!(
        select_devices(&devices, Some("Shelf")).unwrap_err(),
        "no enabled device named \"Shelf\""
    );
    assert_eq!(select_devices(&Vec::new(), None).unwrap_err(), "No lights connected.");
}

#[test]
fn light_writes_report_a_count_or_every_error() {
    assert_eq!(apply_outcome(2, &Vec::new()).unwrap(), "Updated 2 light(s)");
    assert_eq!(
        apply_outcome(0, &vec!["Desk: gone".to_string(), "Shelf: busy".to_string()]).unwrap_err(),
        "Desk: gone; Shelf: busy"
    );
}

#[test]
fn responses_carry_the_outcome() {
    let ok = command_response(Ok("done".into()));
    assert!(ok.ok);
    assert_eq!(ok.message, "done");
    let failed = command_response(Err("nope".into()));
    assert!(!failed.ok);
    assert_eq!(failed.message, "nope");
}

fn seen(name: &str, identifier: &str) -> DiscoveredDevice {
    DiscoveredDevice { name: name.into(), identifier: identifier.into() }
}

#[test]
fn discovered_lights_are_sorted_by_name_and_repeats_collapsed() {
    let arranged = arrange_discovered(vec![
        seen("Shelf", "B"),
        seen("Desk", "A"),
        seen("Desk", "A"),
        seen("Bed", "C"),
        seen("Desk", "D"),
    ]);
    let pairs: Vec<(&str, &str)> =
        arranged.iter().map(|d| (d.name.as_str(), d.identifier.as_str())).collect();
    assert_eq!(pairs, [("Bed", "C"), ("Desk", "A"), ("Desk", "D"), ("Shelf", "B")]);
    let ordered = arrange_discovered(vec![seen("b", "1"), seen("B", "2"), seen("ab", "3"), seen("a", "4")]);
    let names: Vec<&str> = ordered.iter().map(|d| d.name.as_str()).collect();
    assert_eq!(names, ["B", "a", "ab", "b"]);
    assert!(arrange_discovered(Vec::new()).is_empty());
}

#[test]
fn advertisements_match_by_identifier_or_advertised_name() {
    assert!(observation_matches("AA11-BB22", "aa11bb22", None));
    assert!(observation_matches("Named-Light", "other", Some("named-light")));
    assert!(!observation_matches("AA11", "BB22", Some("Desk")));
    assert!(is_light_name("Govee_H6005"));
    assert!(is_light_name("ihoment_H6001"));
    assert!(is_light_name("H6001"));
    assert!(!is_light_name("Speaker"));
}

#[test]
fn brightness_is_resent_whenever_its_value_changes() {
    let settings = Settings::default();
    let profile = DeviceProfile::Classic;
    let mut state = LightState::default();
    let at = |value: f32| ControlCommand::Color {
        value: "#102030".into(),
        brightness: Some(level(value)),
        device: None,
    };
    assert_eq!(frames(&mut state, &settings, &at(0.5), profile).unwrap().len(), 2);
    assert_eq!(frames(&mut state, &settings, &at(0.5), profile).unwrap().len(), 1);
    // Same 8-bit level, different value: the packet is sent again.
    let nudged = f32::from_bits(0x3f00_0083);
    assert_eq!(level(nudged).level, level(0.5).level);
    assert_eq!(frames(&mut state, &settings, &at(nudged), profile).unwrap().len(), 2);
    assert_eq!(frames(&mut state, &settings, &at(0.0), profile).unwrap().len(), 2);
    // Zeros of either sign compare equal.
    assert_eq!(frames(&mut state, &settings, &at(-0.0), profile).unwrap().len(), 1);
}
