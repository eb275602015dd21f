use grindlewald::protocol::{
    brightness_level_frame, color_frame, experiment_frame, control_characteristic_uuid, control_uuid_from,
    parse_hex_color, power_frame, white_frame, DeviceProfile, CONTROL_CHARACTERISTIC,
};

#[test]
fn packet_is_twenty_bytes_with_xor_checksum() {
    let packet = color_frame(DeviceProfile::H6005, [0xff, 0x6b, 0x2c]);
    assert_eq!(&packet[..6], &[0x33, 0x05, 0x0d, 0xff, 0x6b, 0x2c]);
    assert_eq!(packet.iter().fold(0_u8, |checksum, byte| checksum ^ byte), 0);
}

#[test]
fn white_mode_uses_the_dedicated_white_led_flag() {
    let packet = white_frame(DeviceProfile::Classic, [0xff, 0xd5, 0xad], None);
    assert_eq!(&packet[2..10], &[0x02, 0xff, 0xff, 0xff, 0x01, 0xff, 0xd5, 0xad]);
}

#[test]
fn parses_css_hex_colors() {
    assert_eq!(parse_hex_color("#00a1FF").unwrap(), [0, 161, 255]);
    assert!(parse_hex_color("orange").is_err());
}

#[test]
fn classic_color_packets_use_manual_mode_two() {
    let packet = color_frame(DeviceProfile::Classic, [1, 2, 3]);
    assert_eq!(&packet[..6], &[0x33, 0x05, 0x02, 1, 2, 3]);
    assert!(packet[6..19].iter().all(|byte| *byte == 0));
    assert_eq!(packet[19], 0x33 ^ 0x05 ^ 0x02 ^ 1 ^ 2 ^ 3);
}

#[test]
fn power_and_brightness_packets() {
    let on = power_frame(true);
    assert_eq!(&on[..3], &[0x33, 0x01, 0x01]);
    assert_eq!(on[19], 0x33 ^ 0x01 ^ 0x01);
    let level = brightness_level_frame(200);
    assert_eq!(&level[..3], &[0x33, 0x04, 200]);
    assert_eq!(level.iter().fold(0_u8, |c, b| c ^ b), 0);
}

#[test]
fn hex_colors_accept_surrounding_space_and_reject_malformed_text() {
    assert_eq!(parse_hex_color("  #FFffFF ").unwrap(), [255, 255, 255]);
    assert!(parse_hex_color("#12345").is_err());
    assert_eq!(parse_hex_color("123456").unwrap(), [0x12, 0x34, 0x56]);
    assert_eq!(
        parse_hex_color("#ff6b2").unwrap_err(),
        "expected a color like #ff6b2c, got \"#ff6b2\""
    );
    assert!(parse_hex_color("#12345g").is_err());
}

#[test]
fn the_control_characteristic_parses_to_its_uuid() {
    let expected = u128::from_str_radix(&CONTROL_CHARACTERISTIC.replace('-', ""), 16).unwrap();
    assert_eq!(control_characteristic_uuid().unwrap(), expected);
    assert_eq!(
        control_uuid_from(Err("bad".into())).unwrap_err(),
        "invalid control UUID: bad"
    );
    assert_eq!(control_uuid_from(Ok(7)).unwrap(), 7);
}

#[test]
fn keep_alive_is_the_captured_no_op() {
    let frame = grindlewald::protocol::keep_alive_frame();
    assert_eq!(frame[0], 0xaa);
    assert_eq!(frame[1], 0x01);
    assert!(frame[2..19].iter().all(|byte| *byte == 0));
    assert_eq!(frame[19], 0xab);
    assert_eq!(frame.iter().fold(0_u8, |c, b| c ^ b), 0);
}

#[test]
fn h6005_white_carries_rgb_kelvin_and_rgb_again() {
    let packet = white_frame(DeviceProfile::H6005, [0xff, 0xa9, 0x57], Some(2700));
    assert_eq!(
        &packet[..11],
        &[0x33, 0x05, 0x0d, 0xff, 0xa9, 0x57, 0x0a, 0x8c, 0xff, 0xa9, 0x57]
    );
    assert!(packet[11..19].iter().all(|byte| *byte == 0));
    assert_eq!(packet.iter().fold(0_u8, |c, b| c ^ b), 0);
    let untempered = white_frame(DeviceProfile::H6005, [1, 2, 3], None);
    assert_eq!(&untempered[2..11], &[0x0d, 1, 2, 3, 0, 0, 1, 2, 3]);
    let classic = white_frame(DeviceProfile::Classic, [1, 2, 3], Some(9000));
    assert_eq!(&classic[2..10], &[0x02, 0xff, 0xff, 0xff, 0x01, 1, 2, 3]);
}

#[test]
fn experimental_payloads_follow_the_fixed_prefix() {
    let packet = experiment_frame("04 08").unwrap();
    assert_eq!(&packet[..4], &[0x33, 0x05, 0x04, 0x08]);
    assert!(packet[4..19].iter().all(|byte| *byte == 0));
    assert_eq!(packet.iter().fold(0_u8, |c, b| c ^ b), 0);
    assert_eq!(&experiment_frame("  0A\tff ").unwrap()[2..4], &[0x0a, 0xff]);
    let seventeen = vec!["01"; 17].join(" ");
    assert_eq!(experiment_frame(&seventeen).unwrap()[18], 0x01);
    let eighteen = vec!["01"; 18].join(" ");
    for invalid in ["", "   ", "0408", "4 8", "zz", "04 0", &eighteen] {
        assert_eq!(
            experiment_frame(invalid).unwrap_err(),
            "experimental payload must be 1 to 17 hexadecimal bytes, such as 04 08",
            "{invalid:?}"
        );
    }
}

#[test]
fn every_spelling_of_a_color_parses_back() {
    for rgb in [[0u8, 0, 0], [255, 255, 255], [0x12, 0xab, 0xf0]] {
        let lower = format!("{:02x}{:02x}{:02x}", rgb[0], rgb[1], rgb[2]);
        for text in [lower.clone(), lower.to_uppercase(), format!("#{lower}"), format!("#{}", lower.to_uppercase())] {
            assert_eq!(parse_hex_color(&text).unwrap(), rgb, "{text}");
        }
    }
}
