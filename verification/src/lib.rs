//! Verified core of the Grindlewald light controller.
pub mod automation;
pub mod ble;
pub mod breathing;
pub mod command;
pub mod digest;
pub mod icon;
pub mod privileged;
pub mod network;
pub mod protocol;
pub mod settings;
pub mod state;
pub mod text;
pub mod timing;
pub mod wifi;
