//! Verified core of a motion-capture to MAVLink bridge: mocap packet parsers,
//! settings persistence, the setup portal's form and page, and the bridge's
//! tracking decisions.

pub mod wire;
pub mod natnet;
pub mod text;
pub mod qtmrt;
pub mod portal;
pub mod mavbridge;
pub mod bridge;
pub mod config;
pub mod button;
pub mod server;
pub mod qtm_session;
