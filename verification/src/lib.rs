use vstd::prelude::*;

pub mod text;
pub mod clock;
pub mod script_utils;
pub mod prompt;
pub mod self_update;
pub mod job;
pub mod array;
pub mod executor;
pub mod menu;
pub mod completion;
pub mod cli;
pub mod script;
pub mod blocks;
pub mod config;
pub mod doctor;
pub mod plugin;
pub mod chain;
pub mod winpath;
pub mod runtime;
pub mod history;
pub mod builtins;
pub mod games;

verus! {
} // verus!
