//! Search logic of a desktop launcher: fuzzy scoring of names, ranking of
//! applications, files and quick actions, and recognition of calculator,
//! time-zone and unit-conversion queries.
pub mod text;
pub mod score;
pub mod fuzzy;
pub mod rank;
pub mod results;
pub mod scoring;
pub mod apps;
pub mod files;
pub mod actions;
pub mod evaluator;
pub mod units;
pub mod search;
pub mod collect;
pub mod everything;
pub mod hotkey;
