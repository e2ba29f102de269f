use deptr::poetry::{
    check_lock_file_for_package_extras, get_dependencies_from_pyproject, get_dev_dependencies,
    LockPackage, PoetryManifest,
};

fn strings(items: &[&str]) -> Vec<String> {
    items.iter().map(|s| s.to_string()).collect()
}

fn has(v: &[String], name: &str) -> bool {
    v.iter().any(|s| s == name)
}

/// The manifest of the example FastAPI service: twelve packages besides
/// python, three more in the dev group.
fn example_manifest() -> PoetryManifest {
    PoetryManifest {
        dependencies: strings(&[
            "python",
            "fastapi",
            "redis",
            "sqlalchemy",
            "pydantic",
            "requests",
            "tenacity",
            "alembic",
            "python-dotenv",
            "scikit-learn",
            "mako",
            "email-validator",
            "sentry-sdk",
        ]),
        dev_dependencies: None,
        group_dev_dependencies: Some(strings(&["pytest", "black", "mypy"])),
    }
}

/// A manifest in the layout of Poetry before 1.2: eleven packages besides
/// python, three in the old dev-dependencies table.
fn old_manifest() -> PoetryManifest {
    PoetryManifest {
        dependencies: strings(&[
            "python", "fastapi", "redis", "sqlalchemy", "pydantic", "requests", "tenacity",
            "alembic", "python-dotenv", "scikit-learn", "mako", "sentry-sdk",
        ]),
        dev_dependencies: Some(strings(&["pytest", "black", "mypy"])),
        group_dev_dependencies: None,
    }
}

/// A manifest without any dev table.
fn no_dev_manifest() -> PoetryManifest {
    PoetryManifest {
        dependencies: strings(&[
            "python", "fastapi", "redis", "sqlalchemy", "pydantic", "requests", "tenacity",
            "alembic", "python-dotenv", "scikit-learn", "mako", "sentry-sdk",
        ]),
        dev_dependencies: None,
        group_dev_dependencies: None,
    }
}

#[test]
fn test_get_dependencies_from_pyproject() {
    let dependencies = get_dependencies_from_pyproject(&example_manifest(), false);
    assert_eq!(dependencies.len(), 12);
    for name in [
        "fastapi",
        "redis",
        "sqlalchemy",
        "pydantic",
        "requests",
        "tenacity",
        "alembic",
        "python-dotenv",
        "scikit-learn",
        "mako",
    ] {
        assert!(has(&dependencies, name), "{} is declared", name);
    }
    assert!(!has(&dependencies, "python"));
}

#[test]
fn test_get_dependencies_from_pyproject_with_dev() {
    let dependencies = get_dependencies_from_pyproject(&example_manifest(), true);
    assert_eq!(dependencies.len(), 15);
    assert!(has(&dependencies, "fastapi"));
    assert!(has(&dependencies, "pytest"));
}

#[test]
fn test_get_dependencies_from_pyproject_with_dev_from_old_poetry() {
    let dependencies = get_dependencies_from_pyproject(&old_manifest(), true);
    assert_eq!(dependencies.len(), 14);
    assert!(has(&dependencies, "fastapi"));
    assert!(has(&dependencies, "pytest"));
}

#[test]
fn test_get_dependencies_from_pyproject_with_dev_no_dev_in_poetry() {
    let dependencies = get_dependencies_from_pyproject(&no_dev_manifest(), true);
    assert_eq!(dependencies.len(), 11);
    assert!(has(&dependencies, "fastapi"));
}

#[test]
fn dev_dependencies_merge_both_tables_without_duplicates() {
    let manifest = PoetryManifest {
        dependencies: strings(&["python", "requests"]),
        dev_dependencies: Some(strings(&["pytest", "black"])),
        group_dev_dependencies: Some(strings(&["pytest", "mypy"])),
    };
    let mut dev = get_dev_dependencies(&manifest);
    dev.sort();
    assert_eq!(dev, strings(&["black", "mypy", "pytest"]));
    let mut all = get_dependencies_from_pyproject(&manifest, true);
    all.sort();
    assert_eq!(all, strings(&["black", "mypy", "pytest", "requests"]));
}

fn lock(name: &str, groups: Option<Vec<Vec<String>>>) -> LockPackage {
    LockPackage {
        name: name.to_string(),
        extras: groups,
    }
}

#[test]
fn test_check_lock_file_for_package_extras() {
    let manifest_packages: Vec<String> = [
        "pydantic".to_string(),
        "sci-kit-learn".to_string(),
        "python-dotenv".to_string(),
        "tenacity".to_string(),
        "fastapi".to_string(),
        "alembic".to_string(),
        "sqlalchemy".to_string(),
        "requests".to_string(),
        "email-validator".to_string(),
        "sentry-sdk".to_string(),
        "mako".to_string(),
        "redis".to_string(),
    ]
    .iter()
    .cloned()
    .collect();
    let lock_packages = vec![
        lock("alembic", None),
        lock(
            "anyio",
            Some(vec![
                strings(&["packaging", "sphinx-rtd-theme"]),
                strings(&["coverage[toml] (>=4.5)", "hypothesis (>=4.0)"]),
            ]),
        ),
        lock(
            "pydantic",
            Some(vec![
                strings(&["python-dotenv (>=0.10.4)"]),
                strings(&["email-validator (>=1.0.3)"]),
            ]),
        ),
        lock("redis", None),
    ];

    let mut extras = check_lock_file_for_package_extras(&lock_packages, &manifest_packages);
    for entry in extras.iter_mut() {
        entry.1.sort();
    }

    assert_eq!(extras.len(), 1);
    assert_eq!(
        extras.iter().find(|e| e.0 == "pydantic").map(|e| &e.1),
        Some(&vec![
            "email-validator".to_string(),
            "python-dotenv".to_string(),
        ])
    );
}

#[test]
fn lock_extras_keep_order_trim_and_merge_records_of_one_name() {
    let manifest = strings(&["redis"]);
    let lock_packages = vec![
        lock("celery", Some(vec![strings(&["  redis (>=4.5.2,!=4.5.5)", "pymongo"])])),
        lock("kombu", Some(vec![strings(&["redis>=4.5.2 ; extra == \"redis\""])])),
        lock("celery", Some(vec![strings(&["python-redis\t"])])),
    ];
    let extras = check_lock_file_for_package_extras(&lock_packages, &manifest);
    assert_eq!(extras.len(), 2);
    let celery = extras.iter().find(|e| e.0 == "celery").expect("celery has extras");
    assert_eq!(celery.1, strings(&["redis", "python-redis"]));
    let kombu = extras.iter().find(|e| e.0 == "kombu").expect("kombu has extras");
    assert_eq!(kombu.1, strings(&["redis>=4.5.2 ; extra == \"redis\""]));
}

#[test]
fn no_lock_records_or_no_declared_names_give_no_extras() {
    let none: Vec<LockPackage> = Vec::new();
    assert!(check_lock_file_for_package_extras(&none, &strings(&["redis"])).is_empty());
    let lock_packages = vec![lock("celery", Some(vec![strings(&["redis"])]))];
    assert!(check_lock_file_for_package_extras(&lock_packages, &Vec::new()).is_empty());
}

#[test]
fn python_is_never_declared_even_in_dev_tables() {
    let manifest = PoetryManifest {
        dependencies: strings(&["python", "requests"]),
        dev_dependencies: Some(strings(&["python", "pytest"])),
        group_dev_dependencies: Some(strings(&["python"])),
    };
    let mut all = get_dependencies_from_pyproject(&manifest, true);
    all.sort();
    assert_eq!(all, strings(&["pytest", "requests"]));
    assert_eq!(get_dependencies_from_pyproject(&manifest, false), strings(&["requests"]));
}
