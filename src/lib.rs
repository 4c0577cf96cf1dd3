//! Verified core of a handheld control panel: a privileged request broker
//! with its line protocol, and a thermal-curve fan controller.
pub mod broker;
pub mod controls;
pub mod curve;
pub mod fan;
pub mod hardware;
pub mod protocol;
pub mod text;
