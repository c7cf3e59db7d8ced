//! Loader for textual grid path-finding scenarios.
//!
//! A scenario file is line oriented: each line is `key ":" value`, where the
//! recognized keys are `rows`, `cols`, `ini`, `end`, `blocked` and `paths`.
//! Values are decimal numbers, points `(x,y)`, point lists, or bracketed
//! frame lists. The library parses such text into a validated
//! [`scenario::ScenarioDescriptor`]; rendering the scenario is left to the
//! embedding program.

pub mod chars;
pub mod error;
pub mod lines;
pub mod loader;
pub mod parse;
pub mod props;
pub mod scan;
pub mod scenario;
pub mod text;
