use deptr::validators::{valid_python_path, PathChecks, PathError};
use deptr::{get_args, project_path};

fn checks(exists: bool, has_pyproject_toml: bool, has_poetry_lock: bool) -> PathChecks {
    PathChecks {
        exists,
        has_pyproject_toml,
        has_poetry_lock,
    }
}

#[test]
fn valid_path_is_returned() {
    let path = "tests/fixtures".to_string();
    assert_eq!(valid_python_path(&path, checks(true, true, true)), Ok(path.clone()));
}

#[test]
fn each_failed_check_gives_its_error() {
    let path = "bad/path".to_string();
    assert_eq!(
        valid_python_path(&path, checks(false, false, false)),
        Err(PathError::InvalidPath)
    );
    assert_eq!(
        valid_python_path(&path, checks(false, true, true)),
        Err(PathError::InvalidPath)
    );
    assert_eq!(
        valid_python_path(&path, checks(true, false, true)),
        Err(PathError::MissingPyprojectToml)
    );
    assert_eq!(
        valid_python_path(&path, checks(true, true, false)),
        Err(PathError::NonSupportedTooling)
    );
}

#[test]
fn error_messages() {
    assert_eq!(PathError::InvalidPath.message(), "Invalid path provided");
    assert_eq!(
        PathError::MissingPyprojectToml.message(),
        "Unable to find a pyproject.toml file"
    );
    assert!(PathError::NonSupportedTooling
        .message()
        .starts_with("This does not appear to be a Poetry project (no poetry.lock file)."));
}

#[test]
fn path_defaults_to_current_directory() {
    assert_eq!(project_path(None), ".");
    assert_eq!(project_path(Some("proj".to_string())), "proj");
}

#[test]
fn args_build_config_or_fail() {
    let config = get_args(None, checks(true, true, true), true, false, true).unwrap();
    assert_eq!(config.src_path, ".");
    assert!(config.dev && !config.timer && config.verbose);
    let err = get_args(Some("x".to_string()), checks(true, false, false), false, false, false)
        .unwrap_err();
    assert_eq!(err, PathError::MissingPyprojectToml);
}
