//! The rules of a program that converts videos with HandBrakeCLI: what runs next, which file stays,
//! who may ask for it, and what is said of it.

pub mod text;
pub mod paths;
pub mod converter;
pub mod diagnostics;
pub mod types;
pub mod queue_run;
pub mod progress;
pub mod updater;
pub mod update_cycle;
pub mod json;
pub mod handbrake;
pub mod failure_class;
pub mod media_skip;
pub mod probe;
pub mod probe_cache;
pub mod watcher;
pub mod net;
pub mod throttle;
pub mod auth;
pub mod config;
pub mod embed;
pub mod listing;
pub mod tray;
pub mod commands;
pub mod db;
pub mod routes;
pub mod info;
pub mod add_progress;
pub mod startup;
