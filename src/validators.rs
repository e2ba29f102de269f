//! Checks that a path names a Poetry project that can be inspected.
use vstd::prelude::*;

verus! {

/// Why a path cannot be inspected.
#[derive(Debug, PartialEq, Eq, Structural)]
pub enum PathError {
    InvalidPath,
    MissingPyprojectToml,
    NonSupportedTooling,
}

/// The message that reports each error.
pub open spec fn path_error_message(e: PathError) -> Seq<char> {
    match e {
        PathError::InvalidPath => "Invalid path provided"@,
        PathError::MissingPyprojectToml => "Unable to find a pyproject.toml file"@,
        PathError::NonSupportedTooling => "This does not appear to be a Poetry project (no poetry.lock file). Only Poetry is supported at this time. Isn't Python packaging fun? :)"@,
    }
}

impl PathError {
    /// The message that reports this error.
    pub fn message(&self) -> (r: String)
        ensures
            r@ == path_error_message(*self),
    {
        match self {
            PathError::InvalidPath => String::from_str("Invalid path provided"),
            PathError::MissingPyprojectToml => String::from_str("Unable to find a pyproject.toml file"),
            PathError::NonSupportedTooling => String::from_str(
                "This does not appear to be a Poetry project (no poetry.lock file). Only Poetry is supported at this time. Isn't Python packaging fun? :)",
            ),
        }
    }
}

/// What the file system says of a path.
#[derive(Debug, Clone, Copy, PartialEq, Eq, Structural)]
pub struct PathChecks {
    /// The path exists.
    pub exists: bool,
    /// It holds a `pyproject.toml` file.
    pub has_pyproject_toml: bool,
    /// It holds a `poetry.lock` file.
    pub has_poetry_lock: bool,
}

/// The first check that a path fails, if any.
pub open spec fn path_verdict(checks: PathChecks) -> Option<PathError> {
    if !checks.exists {
        Some(PathError::InvalidPath)
    } else if !checks.has_pyproject_toml {
        Some(PathError::MissingPyprojectToml)
    } else if !checks.has_poetry_lock {
        Some(PathError::NonSupportedTooling)
    } else {
        None
    }
}

/// Validates the path provided by the user: it must exist, hold a
/// `pyproject.toml` file, and be a Poetry project (hold a `poetry.lock` file);
/// the first check that fails gives the error.
pub fn valid_python_path(source_code_path: &String, checks: PathChecks) -> (r: Result<
    String,
    PathError,
>)
    ensures
        match path_verdict(checks) {
            Some(e) => r == Err::<String, PathError>(e),
            None => r matches Ok(p) && p@ == source_code_path@,
        },
{
    if !checks.exists {
        return Err(PathError::InvalidPath);
    }
    if !checks.has_pyproject_toml {
        return Err(PathError::MissingPyprojectToml);
    }
    if !checks.has_poetry_lock {
        return Err(PathError::NonSupportedTooling);
    }
    Ok(source_code_path.clone())
}

} // verus!
