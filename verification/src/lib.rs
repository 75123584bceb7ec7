//! Core logic of the ARTIFACT disk-space analyzer: the artifact rule
//! registry, scan decisions and disk-usage tallies, re-validation and cleanup
//! runs, deletion history, configuration defaults, the results / browser
//! state machines, notices and display text, each with a verified contract.

pub mod text;
pub mod paths;
pub mod clock;
pub mod history;
pub mod rules;
pub mod directory_item;
pub mod error;
pub mod config;
pub mod scanner;
pub mod database;
pub mod session;
pub mod browse;
pub mod settings;
pub mod utils;
pub mod display;
pub mod notices;
pub mod cleanup;
pub mod sizing;
