//! Verified core of a screen-dimming overlay: synthesis of the ARGB pixel
//! buffer shown on each display output, the per-surface configure handshake,
//! and the registry that keeps one overlay surface per live output.

pub mod pixels;
pub mod registry;
pub mod view;
