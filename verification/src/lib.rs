//! Verified core of a host that shares a screen with viewers on the local network.
//!
//! The crate holds the rules of the host: its configuration, the capture and encoding
//! decisions, packet routing, viewer groups and the state of the host window. Processes,
//! sockets, devices and drawing belong to the program around it, which hands the library
//! plain values and carries out the actions that the library returns.

pub mod adaptive;
pub mod audio;
pub mod capture;
pub mod cli;
pub mod config;
pub mod control;
pub mod encoder;
pub mod exact;
pub mod float;
pub mod groups;
pub mod list;
pub mod media;
pub mod metrics;
pub mod network;
pub mod noise;
pub mod offer_gates;
pub mod packaging;
pub mod preferences;
pub mod preview;
pub mod profile;
pub mod random;
pub mod runtime;
pub mod sdp;
pub mod sessions;
pub mod settings_change;
pub mod shared_capture;
pub mod status;
pub mod table;
pub mod text;
pub mod udp_mux;
pub mod ui;
pub mod web;
pub mod window_reader;
pub mod window_resize;
