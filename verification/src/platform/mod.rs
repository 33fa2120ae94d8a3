//! The machine that the program runs on: paths, network, identity and trust.

pub mod atomic;
pub mod foreground;
pub mod hardening;
pub mod identity;
pub mod net;
pub mod paths;
pub mod trust;
