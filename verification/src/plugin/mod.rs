//! What plugins may do: permissions, grants and actions.

pub mod action;
pub mod grant;
pub mod ids;
