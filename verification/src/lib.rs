//! Verified core of a Wayland wallpaper daemon, its control tool and its manager.

pub mod manager;
pub mod text;
pub mod config;
pub mod ipc;
pub mod engine;
pub mod wallpaper;
pub mod ctl;
pub mod runner;
