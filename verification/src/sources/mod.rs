pub mod backoff;
pub mod hyprland;
pub mod media;
pub mod nightlight;
pub mod screen;
pub mod power;
