//! A project-scoped manager for precompiled command-line tools: the
//! manifest and version-specification language, the known-tool catalog,
//! the per-host source templates, the install pipeline's decisions, and
//! the cross-platform lock file, each with a verified contract.  Network,
//! disk and process work belongs to the surrounding program, which hands
//! plain values in and takes plain values back.
pub mod cli;
pub mod config;
pub mod custom_tools;
pub mod diagnose;
pub mod installer;
pub mod known_tools;
pub mod lock;
pub mod migrate;
pub mod ops;
pub mod platform;
pub mod specs;
pub mod text;
pub mod toml_model;
pub mod unknown_tools;
pub mod version;
pub mod versioning;
pub mod vreq;
