//! The verified core of the Ludex desktop client: file-name rules for game
//! releases, Windows path handling, download and install decisions, the
//! controls of running downloads, and the server API as text.

pub mod text;
pub mod names;
pub mod paths;
pub mod rar;
pub mod scan;
pub mod slug_map;
pub mod config;
pub mod registry;
pub mod download;
pub mod finalize;
pub mod launch;
pub mod http;
pub mod media;
pub mod session;
pub mod walk;
