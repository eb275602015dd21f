use grindlewald::wifi::{matches_saved_ssid, state_from_code, WifiState, WifiStatus};

#[test]
fn permission_failures_are_distinct_from_disconnected_wifi() {
    for state in [
        WifiState::PermissionNeeded,
        WifiState::PermissionDenied,
        WifiState::LocationDisabled,
        WifiState::Restricted,
    ] {
        assert!(WifiStatus { state, ssid: None }.into_ssid().is_err());
    }
    assert_eq!(WifiStatus { state: WifiState::NotConnected, ssid: None }.into_ssid().unwrap(), None);
    assert_eq!(
        WifiStatus { state: WifiState::Connected, ssid: Some("Test Network".into()) }
            .into_ssid()
            .unwrap()
            .as_deref(),
        Some("Test Network")
    );
}

#[test]
fn requires_an_exact_nonempty_network_match() {
    assert!(matches_saved_ssid(Some("Test Wi-Fi"), Some("Test Wi-Fi")));
    assert!(!matches_saved_ssid(Some("Test Wi-Fi"), Some("Test Wi-Fi guest")));
    assert!(!matches_saved_ssid(Some("Test Wi-Fi"), None));
    assert!(!matches_saved_ssid(None, None));
    assert!(!matches_saved_ssid(Some(""), Some("")));
}

#[test]
fn bridge_codes_map_to_states() {
    assert_eq!(state_from_code(0).unwrap(), WifiState::Connected);
    assert!(state_from_code(99).is_err());
}
