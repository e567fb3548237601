//! Verified core of the Model Radar desktop companion.
pub mod domain;
pub mod geometry;
pub mod position_state;
pub mod preferences;
pub mod service;
pub mod source;
pub mod taskbar;
pub mod text;
