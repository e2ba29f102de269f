//! Finds the packages that a Python project declares in its manifest but
//! never imports from its source tree.
pub mod domain;
pub mod formatters;
pub mod poetry;
pub mod python_ast;
pub mod python_std_lib;
pub mod text;
pub mod validators;

use vstd::prelude::*;

use crate::validators::{path_verdict, valid_python_path, PathChecks, PathError};

verus! {

/// How the application runs.
#[derive(Debug)]
pub struct Config {
    /// The project directory.
    pub src_path: String,
    /// Development dependencies are declared packages too.
    pub dev: bool,
    /// The run is timed.
    pub timer: bool,
    /// Extras are reported as they are found.
    pub verbose: bool,
}

/// The project directory: the path given, or the current directory.
pub open spec fn project_path_of(path: Option<String>) -> Seq<char> {
    match path {
        Some(p) => p@,
        None => "."@,
    }
}

/// The project directory: the path given, or the current directory.
pub fn project_path(path: Option<String>) -> (r: String)
    ensures
        r@ == project_path_of(path),
{
    match path {
        Some(p) => p,
        None => String::from_str("."),
    }
}

/// Builds the configuration from the command line's values, once `checks`
/// tells what the file system holds at the project directory.
pub fn get_args(path: Option<String>, checks: PathChecks, dev: bool, timer: bool, verbose: bool) -> (r:
    Result<Config, PathError>)
    ensures
        match path_verdict(checks) {
            Some(e) => r matches Err(x) && x == e,
            None => r matches Ok(c) && c.src_path@ == project_path_of(path) && c.dev == dev
                && c.timer == timer && c.verbose == verbose,
        },
{
    let path = project_path(path);
    let src_path = valid_python_path(&path, checks)?;
    Ok(Config { src_path, dev, timer, verbose })
}

} // verus!
