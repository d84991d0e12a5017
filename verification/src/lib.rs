//! A script runner core: it resolves named scripts, each made of dependency
//! scripts and an optional shell command, runs each cacheable script's command
//! at most once per run, and composes the shell line that a driver hands to
//! the system shell.

pub mod autocorrection;
pub mod cache;
pub mod engine;
pub mod laws;
pub mod cmdline;
pub mod registry;
