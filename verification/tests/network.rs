use grindlewald::digest::sha256_hex;
use grindlewald::network::{
    matches_saved_network, router_address, router_fingerprint, wifi_interfaces,
};

#[test]
fn discovers_wifi_without_assuming_en0() {
    assert_eq!(
        wifi_interfaces(
            "Hardware Port: Ethernet\nDevice: en0\n\nHardware Port: Wi-Fi\nDevice: en7\nEthernet Address: ignored\n"
        ),
        vec!["en7"]
    );
    assert!(wifi_interfaces("Hardware Port: Wi-Fi\nDevice: en0;invalid\n").is_empty());
}

#[test]
fn rejects_vpn_and_invalid_routes() {
    assert_eq!(
        router_address(" gateway: 192.0.2.1\n interface: en7\n", "en7"),
        Some([192, 0, 2, 1])
    );
    assert_eq!(router_address(" gateway: 192.0.2.1\n interface: utun0\n", "en7"), None);
    assert_eq!(router_address(" gateway: link#7\n interface: en7\n", "en7"), None);
}

#[test]
fn normalizes_router_mac_and_requires_the_correct_route_and_interface() {
    let router = [192, 0, 2, 1];
    let fingerprint =
        router_fingerprint("? (192.0.2.1) at 2:0:0:ab:cd:ef on en7 ifscope [ethernet]", router, "en7");
    assert!(fingerprint.is_some());
    assert_eq!(
        fingerprint,
        router_fingerprint(
            "? (192.0.2.1) at 02:00:00:AB:CD:EF on en7 ifscope [ethernet]",
            router,
            "en7"
        )
    );
    for invalid in ["(incomplete)", "ff:ff:ff:ff:ff:ff", "00:00:00:00:00:00", "02:00:00:00:00:zz"] {
        assert!(router_fingerprint(&format!("? (192.0.2.1) at {invalid} on en7"), router, "en7")
            .is_none());
    }
    assert!(router_fingerprint("? (192.0.2.1) at 02:00:00:ab:cd:ef on en0", router, "en7").is_none());
    assert!(router_fingerprint("? (192.0.2.2) at 02:00:00:ab:cd:ef on en7", router, "en7").is_none());
    let other = router_fingerprint("? (192.0.2.1) at 02:00:00:ab:cd:ee on en7", router, "en7");
    assert!(matches_saved_network(fingerprint.as_deref(), fingerprint.as_deref()));
    assert!(!matches_saved_network(fingerprint.as_deref(), other.as_deref()));
    assert!(!matches_saved_network(fingerprint.as_deref(), None));
    assert!(!matches_saved_network(None, None));
    assert!(!matches_saved_network(Some("Old SSID"), Some("Old SSID")));
}

#[test]
fn router_fingerprint_is_the_sha256_of_the_mac_bytes() {
    let fingerprint =
        router_fingerprint("? (192.0.2.1) at 2:0:0:ab:cd:ef on en7 ifscope [ethernet]", [192, 0, 2, 1], "en7")
            .unwrap();
    assert_eq!(fingerprint, format!("router-sha256:{}", sha256_hex(&[0x02, 0x00, 0x00, 0xab, 0xcd, 0xef])));
}

#[test]
fn router_address_picks_the_default_gateway_of_the_wifi_interface() {
    assert_eq!(
        router_address("   route to: default\ndestination: default\n    gateway: 10.0.0.1\n  interface: en0\n", "en0"),
        Some([10, 0, 0, 1])
    );
    assert_eq!(router_address(" gateway: 256.0.0.1\n interface: en0\n", "en0"), None);
    assert_eq!(router_address(" interface: en0\n", "en0"), None);
}
