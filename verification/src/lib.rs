//! Lycan: a lightweight PWA manager. This crate holds the verified core of the
//! application; the executable that drives windows, terminals and files lives
//! beside it.

pub mod blocker;
pub mod config;
pub mod desktop;
pub mod favicon;
pub mod fs_private;
pub mod numparse;
pub mod runner;
pub mod text;
pub mod tui;
pub mod tuning;
pub mod ui;
pub mod weburl;
