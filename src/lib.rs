//! Fuzzy search over the commands, packages, aliases and shell functions
//! found on a machine.

pub mod category;
pub mod command;
pub mod listing;
pub mod matcher;
pub mod scan;
pub mod search;
pub mod text;

pub use category::{Category, FilterFlags};
pub use command::BentoCommand;
pub use matcher::fuzzy_match;
pub use search::{search, MAX_RESULTS};
