//! A configuration bundle: one directory of a bundle root, with the
//! variables that it needs.

use crate::extract::is_variable_list;
use vstd::prelude::*;

verus! {

/// The value of a bundle: its texts as character sequences.
pub struct Bundle {
    /// The base name of the bundle's directory.
    pub name: Seq<char>,
    /// The path of the bundle's directory.
    pub path: Seq<char>,
    /// The names of the variables that the bundle requires, in order.
    pub env_vars: Seq<Seq<char>>,
}

/// A configuration bundle with its metadata.
#[derive(Debug)]
pub struct DockerConfig {
    /// Name of the bundle: the base name of its directory.
    pub name: String,
    /// Path of the bundle's directory.
    pub path: String,
    /// Names of the variables that the bundle requires.
    pub env_vars: Vec<String>,
}

impl View for DockerConfig {
    type V = Bundle;

    open spec fn view(&self) -> Bundle {
        Bundle { name: self.name@, path: self.path@, env_vars: self.env_vars.deep_view() }
    }
}

impl DeepView for DockerConfig {
    type V = Bundle;

    open spec fn deep_view(&self) -> Bundle {
        self@
    }
}

impl Bundle {
    /// Whether the required variables have the form that extraction gives
    /// them: no built-in name, and no name twice in a row.
    pub open spec fn well_formed(self) -> bool {
        is_variable_list(self.env_vars)
    }
}

impl DockerConfig {
    /// A bundle of the given name, directory and required variables. The
    /// variables are taken as they are given; `well_formed` says whether they
    /// have the form that extraction gives them.
    pub fn new(name: String, path: String, env_vars: Vec<String>) -> (config: Self)
        ensures
            config.name == name,
            config.path == path,
            config.env_vars == env_vars,
            config@ == (Bundle { name: name@, path: path@, env_vars: env_vars.deep_view() }),
    {
        Self { name, path, env_vars }
    }
}

} // verus!
