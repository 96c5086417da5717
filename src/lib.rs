//! A small line search: pick out the lines of a text that contain a query,
//! either exactly or ignoring case, and the configuration that chooses between
//! the two.
pub mod config;
pub mod search;
pub mod text;

pub use config::Config;
pub use search::{search, search_case_insensitive};
pub use text::{contains, lines};
