//! The server's own rules: runtime configuration defaults, serial-port
//! discovery naming, request defaults, device pairing, the tune menus as
//! shown, and the comms worker's decisions.

pub mod config;
pub mod api;
pub mod auth;
pub mod comms;
pub mod definition;
pub mod menus;

