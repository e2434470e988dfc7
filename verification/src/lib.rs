//! Build recipes as a dependency graph of targets.
//!
//! The library holds the decisions of the build tool: how a target's run
//! advances, in which order the dependency tree is listed, what the built-in
//! tasks do on what they observe, and how progress is reported.
pub mod builder;
pub mod configurator;
pub mod paths;
pub mod target;
pub mod task;
pub mod text;
pub mod ui;
pub mod utils;

