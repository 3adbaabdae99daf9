//! Verified core of an automatic screen-brightness daemon for Linux laptops.

pub mod ambient;
pub mod backlight;
pub mod chord;
pub mod echo;
pub mod features;
pub mod ipc;
pub mod location;
pub mod model;
pub mod sources;
pub mod store;
pub mod text;
