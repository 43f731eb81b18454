//! Locating Python virtual environments by name.
//!
//! The library decides; it never touches the machine. Its caller looks at
//! the file system and hands over what it saw:
//!
//! - [`classifier`] tells whether a directory holds an environment, and of
//!   which kind;
//! - [`dirs`] lists the directories in which environments are looked for;
//! - [`scanner`] holds the rules of the scan of a whole directory tree;
//! - [`cache`] writes a list of environments as text and reads it back;
//! - [`resolver`] finds one environment by name, first among the cached
//!   records, then below the search directories;
//! - [`select`] and [`cli`] read what the user typed;
//! - [`paths`] and [`text`] are what the others are built on.

pub mod cache;
pub mod classifier;
pub mod cli;
pub mod dirs;
pub mod environment;
pub mod paths;
pub mod resolver;
pub mod scanner;
pub mod select;
pub mod text;
