//! Verified core of a DPI-bypass controller.
pub mod archive;
pub mod autoselect;
pub mod bat;
pub mod cli;
pub mod config;
pub mod diagnostics;
pub mod icon;
pub mod logging;
pub mod operation;
pub mod order;
pub mod pick;
pub mod platform;
pub mod probe;
pub mod script;
pub mod state;
pub mod strategies;
pub mod text;
pub mod updater;
pub mod upgrade;
pub mod view;
