//! Configuration bundles and the environment variables they need.
//!
//! A bundle is a directory that may hold a service-definition file and an
//! environment file. The library finds the bundles of a listing, extracts
//! the names of the variables that each requires, renders the environment
//! file that assigns their values, and steers a run from its first step to
//! its last. It touches neither disk, network nor terminal: the program
//! around it does, and tells the library what it found.

pub mod config;
pub mod docker;
pub mod envfile;
pub mod error;
pub mod extract;
pub mod session;
pub mod text;
pub mod utils;
