//! Wi-Fi name (SSID) state reported by the macOS location-gated bridge.
use vstd::prelude::*;
use crate::text::{chars_eq, chars_of};

verus! {

#[derive(Debug, Clone, Copy, PartialEq, Eq, Structural)]
pub enum WifiState {
    Connected,
    NotConnected,
    PermissionNeeded,
    PermissionDenied,
    LocationDisabled,
    Restricted,
}

#[derive(Debug)]
pub struct WifiStatus {
    pub state: WifiState,
    pub ssid: Option<String>,
}

/// The explanation shown when location permission keeps the Wi-Fi name hidden.
pub open spec fn permission_message(state: WifiState) -> Seq<char> {
    match state {
        WifiState::PermissionNeeded => "Open Automations and allow Grindlewald to use Location Services to read Wi-Fi names."@,
        WifiState::PermissionDenied => "Allow Grindlewald in System Settings > Privacy & Security > Location Services to read Wi-Fi names."@,
        WifiState::LocationDisabled => "Enable Location Services in System Settings > Privacy & Security to read Wi-Fi names."@,
        _ => "Location access is restricted on this Mac; Grindlewald cannot read Wi-Fi names."@,
    }
}

impl WifiStatus {
    /// The network name, or why it cannot be read. A disconnected Mac is not
    /// an error: it has no name.
    pub fn into_ssid(self) -> (r: Result<Option<String>, String>)
        ensures
            match self.state {
                WifiState::Connected | WifiState::NotConnected => r == Ok::<
                    Option<String>,
                    String,
                >(self.ssid),
                _ => r matches Err(m) && m@ == permission_message(self.state),
            },
    {
        match self.state {
            WifiState::Connected | WifiState::NotConnected => Ok(self.ssid),
            WifiState::PermissionNeeded => Err(
                "Open Automations and allow Grindlewald to use Location Services to read Wi-Fi names.".to_string(),
            ),
            WifiState::PermissionDenied => Err(
                "Allow Grindlewald in System Settings > Privacy & Security > Location Services to read Wi-Fi names.".to_string(),
            ),
            WifiState::LocationDisabled => Err(
                "Enable Location Services in System Settings > Privacy & Security to read Wi-Fi names.".to_string(),
            ),
            WifiState::Restricted => Err(
                "Location access is restricted on this Mac; Grindlewald cannot read Wi-Fi names.".to_string(),
            ),
        }
    }
}

/// The state a status code of the native bridge stands for.
pub fn state_from_code(code: i32) -> (r: Result<WifiState, String>)
    ensures
        code == 0 ==> r == Ok::<WifiState, String>(WifiState::Connected),
        code == 1 ==> r == Ok::<WifiState, String>(WifiState::NotConnected),
        code == 2 ==> r == Ok::<WifiState, String>(WifiState::PermissionNeeded),
        code == 3 ==> r == Ok::<WifiState, String>(WifiState::PermissionDenied),
        code == 4 ==> r == Ok::<WifiState, String>(WifiState::LocationDisabled),
        code == 5 ==> r == Ok::<WifiState, String>(WifiState::Restricted),
        !(0 <= code <= 5) ==> (r matches Err(m) && m@ == "Could not read Wi-Fi information"@),
{
    match code {
        0 => Ok(WifiState::Connected),
        1 => Ok(WifiState::NotConnected),
        2 => Ok(WifiState::PermissionNeeded),
        3 => Ok(WifiState::PermissionDenied),
        4 => Ok(WifiState::LocationDisabled),
        5 => Ok(WifiState::Restricted),
        _ => Err("Could not read Wi-Fi information".to_string()),
    }
}

pub open spec fn ssid_matches(saved: Option<Seq<char>>, current: Option<Seq<char>>) -> bool {
    match (saved, current) {
        (Some(s), Some(c)) => s.len() > 0 && s == c,
        _ => false,
    }
}

pub open spec fn opt_view(s: Option<&str>) -> Option<Seq<char>> {
    match s {
        Some(t) => Some(t@),
        None => None,
    }
}

/// A saved Wi-Fi name matches only an identical, non-empty current name.
pub fn matches_saved_ssid(saved: Option<&str>, current: Option<&str>) -> (b: bool)
    ensures
        b == ssid_matches(opt_view(saved), opt_view(current)),
{
    match (saved, current) {
        (Some(saved), Some(current)) => {
            let s = chars_of(saved);
            s.len() > 0 && chars_eq(&s, &chars_of(current))
        },
        _ => false,
    }
}

}
