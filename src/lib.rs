//! Supervision core for a Node.js version manager that drives fnm or nvm:
//! the version model and the parsers of the tools' listings, the
//! classification of install output into progress events, the operation
//! queue that runs installs in parallel and everything else one at a time,
//! the command lines of each tool, and the per-environment state.

pub mod text;
pub mod version;
pub mod progress;
pub mod queue;
pub mod backend;
pub mod schedule;
pub mod update;
pub mod environment;
pub mod shell;
pub mod shell_config;
pub mod state;
pub mod settings;
pub mod nvm;
pub mod client;
pub mod manager;
pub mod latest;
pub mod search;
pub mod wsl;
