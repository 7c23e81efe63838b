//! Process lifecycle control for a desktop game launcher: version discovery,
//! the launch sequence with its anti-cheat gate and tool injection, and the
//! liveness watcher that reports running/stopped transitions.

pub mod config;
pub mod error;
pub mod game;
pub mod launch;
pub mod paths;
pub mod state;
pub mod storage;
pub mod system;
pub mod version;
pub mod watcher;
