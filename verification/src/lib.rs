//! Verified core of a terminal tool that browses a game library on a remote
//! platform and launches owned titles through the platform's installed
//! client: the persistent configuration store (credentials and launcher
//! executable paths), the first-run setup sequence, extraction of profile and
//! owned-game data from remote JSON payloads, the interactive menu's state
//! machine, and the fallback policy for spawning the client.

pub mod api_methods;
pub mod config;
pub mod menu;
pub mod steam;
pub mod text;
