//! The desktop program: its settings, windows, recordings, clipboard and the
//! engine that keeps devices in step.

pub mod actions;
pub mod capture;
pub mod clipboard;
pub mod commands;
pub mod engine;
pub mod hub;
pub mod overlay;
pub mod plugins;
pub mod preview;
pub mod recording;
pub mod settings;
pub mod shortcuts;
pub mod transfer;
