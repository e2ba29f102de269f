use std::collections::HashSet;

use deptr::domain::{PackageManager, PythonProject};
use deptr::poetry::{LockPackage, PoetryManifest};
use deptr::python_ast::{ScanError, SourceFile};

fn strings(items: &[&str]) -> Vec<String> {
    items.iter().map(|s| s.to_string()).collect()
}

fn set(items: &[&str]) -> HashSet<String> {
    items.iter().map(|s| s.to_string()).collect()
}

fn source(dirs: &[&str], name: &str, text: &str) -> SourceFile {
    let mut path: Vec<&str> = dirs.to_vec();
    path.push(name);
    SourceFile {
        path: path.join("/"),
        dirs: strings(dirs),
        name: name.to_string(),
        source: text.to_string(),
    }
}

fn manifest(deps: &[&str]) -> PoetryManifest {
    PoetryManifest {
        dependencies: strings(deps),
        dev_dependencies: None,
        group_dev_dependencies: None,
    }
}

fn lock(name: &str, groups: &[&[&str]]) -> LockPackage {
    LockPackage {
        name: name.to_string(),
        extras: if groups.is_empty() {
            None
        } else {
            Some(groups.iter().map(|g| strings(g)).collect())
        },
    }
}

/// A FastAPI service that declares twelve packages and imports six of them.
fn example_project() -> Result<PythonProject, ScanError> {
    let manifest = PoetryManifest {
        dependencies: strings(&[
            "python",
            "fastapi",
            "redis",
            "sqlalchemy",
            "pydantic",
            "requests",
            "tenacity",
            "alembic",
            "python-dotenv",
            "scikit-learn",
            "mako",
            "email-validator",
            "sentry-sdk",
        ]),
        dev_dependencies: None,
        group_dev_dependencies: Some(strings(&["pytest", "black", "mypy"])),
    };
    let lock_packages = Some(vec![
        lock("fastapi", &[]),
        lock(
            "pydantic",
            &[&["email-validator (>=1.0.3)"], &["python-dotenv (>=0.10.4)"]],
        ),
        lock("requests", &[&["PySocks (>=1.5.6,!=1.5.7)"], &["chardet (>=3.0.2,<6)"]]),
        lock("redis", &[]),
    ]);
    let sources = vec![
        source(
            &[],
            "main.py",
            "import os\nimport requests\nfrom fastapi import FastAPI\nfrom pydantic import BaseModel\n\napp = FastAPI()\n",
        ),
        source(&["app"], "db.py", "import typing\nfrom sqlalchemy.orm import Session\n"),
        source(
            &["migrations"],
            "env.py",
            "from alembic import context\nfrom mako.template import Template\nfrom . import models\n",
        ),
        source(&["venv", "lib"], "site.py", "import numpy\n"),
        source(&[], "README.md", "import not_python\n"),
    ];
    PythonProject::new(PackageManager::Poetry, &manifest, &lock_packages, &sources, false)
}

/// A project whose sources import nothing that it declares.
fn example_project_2() -> Result<PythonProject, ScanError> {
    let manifest = manifest(&["python", "requests", "pydantic", "email-validator"]);
    let lock_packages = Some(vec![lock("pydantic", &[&["email-validator (>=1.0.3)"]])]);
    let sources = vec![source(&[], "main.py", "import json\nprint(json.dumps({}))\n")];
    PythonProject::new(PackageManager::Poetry, &manifest, &lock_packages, &sources, false)
}

#[test]
fn test_get_unused_packages() {
    let project = example_project();
    let result = project
        .expect("expected to get unused deps")
        .get_unused_packages();
    let expected = [
        "tenacity".to_string(),
        "sentry_sdk".to_string(),
        "redis".to_string(),
        "scikit_learn".to_string(),
    ];
    let result: HashSet<String> = result.into_iter().collect();
    assert_eq!(result, expected.iter().cloned().collect());
}

#[test]
fn test_find_unused_manifest_packages() {
    let project = example_project();
    let result = project
        .expect("expected to get unused deps")
        .find_unused_manifest_packages();
    let expected = [
        "tenacity".to_string(),
        "dotenv".to_string(),
        "email_validator".to_string(),
        "sentry_sdk".to_string(),
        "redis".to_string(),
        "scikit_learn".to_string(),
    ];
    let result: HashSet<String> = result.into_iter().collect();
    assert_eq!(result, expected.iter().cloned().collect());
}

#[test]
fn test_filter_package_extras() {
    let project = example_project();
    let unused_packages = project
        .as_ref()
        .expect("expected to get unused deps")
        .get_unused_packages();
    let result = project
        .expect("expected to filter extra deps")
        .filter_package_extras(unused_packages);
    let expected = [
        "tenacity".to_string(),
        "sentry_sdk".to_string(),
        "redis".to_string(),
        "scikit_learn".to_string(),
    ];
    let result: HashSet<String> = result.into_iter().collect();
    assert_eq!(result, expected.iter().cloned().collect());
}

#[test]
fn test_filter_package_extras_returns_annotated_package() {
    let project = example_project_2();
    let unused_packages = project
        .as_ref()
        .expect("expected to get unused deps")
        .get_unused_packages();
    let result = project
        .expect("expected to filter extra deps")
        .filter_package_extras(unused_packages);
    let expected = [
        "requests".to_string(),
        "pydantic".to_string(),
        "email-validator - an extra of pydantic".to_string(),
    ];
    let result: HashSet<String> = result.into_iter().collect();
    assert_eq!(result, expected.iter().cloned().collect());
}

#[test]
fn prefixed_package_is_matched_by_its_module() {
    let manifest = manifest(&["python-redis", "requests"]);
    let sources = vec![source(&[], "app.py", "import requests\n")];
    let project = PythonProject::new(PackageManager::Poetry, &manifest, &None, &sources, false)
        .expect("sources parse");
    let result: HashSet<String> = project.get_unused_packages().into_iter().collect();
    assert_eq!(result, set(&["redis"]));
}

#[test]
fn unused_parent_and_extra_are_annotated() {
    let manifest = manifest(&["pydantic", "email-validator"]);
    let lock_packages = Some(vec![lock("pydantic", &[&["email-validator"]])]);
    let sources: Vec<SourceFile> = Vec::new();
    let project =
        PythonProject::new(PackageManager::Poetry, &manifest, &lock_packages, &sources, false)
            .expect("no sources to parse");
    let result: HashSet<String> = project.get_unused_packages().into_iter().collect();
    assert_eq!(result, set(&["pydantic", "email-validator - an extra of pydantic"]));
}

#[test]
fn extra_of_used_parent_is_dropped() {
    let manifest = manifest(&["pydantic", "email-validator"]);
    let lock_packages = Some(vec![lock("pydantic", &[&["email-validator"]])]);
    let sources = vec![source(&[], "models.py", "from pydantic import BaseModel\n")];
    let project =
        PythonProject::new(PackageManager::Poetry, &manifest, &lock_packages, &sources, false)
            .expect("sources parse");
    assert!(project.get_unused_packages().is_empty());
}

#[test]
fn everything_imported_leaves_nothing_unused() {
    let manifest = manifest(&["python-redis", "scikit-learn", "requests"]);
    let lock_packages = Some(vec![lock("requests", &[&["redis (>=4)"]])]);
    let sources = vec![source(
        &["pkg"],
        "core.py",
        "import redis.client\nimport scikit_learn\nfrom requests import get\n",
    )];
    let project =
        PythonProject::new(PackageManager::Poetry, &manifest, &lock_packages, &sources, false)
            .expect("sources parse");
    assert!(project.find_unused_manifest_packages().is_empty());
    assert!(project.get_unused_packages().is_empty());
}

#[test]
fn nothing_imported_and_no_extras_reports_all_normalized() {
    let manifest = manifest(&["python-redis", "scikit-learn", "requests", "python"]);
    let sources = vec![source(&[], "cli.py", "import sys\nimport numpy\n")];
    let project = PythonProject::new(PackageManager::Poetry, &manifest, &None, &sources, false)
        .expect("sources parse");
    let result: HashSet<String> = project.get_unused_packages().into_iter().collect();
    assert_eq!(result, set(&["redis", "scikit_learn", "requests"]));
}

#[test]
fn unparsable_source_fails_the_project() {
    let manifest = manifest(&["requests"]);
    let sources = vec![
        source(&[], "ok.py", "import requests\n"),
        source(&["pkg"], "broken.py", "def f(:\n    pass\n"),
    ];
    let result = PythonProject::new(PackageManager::Poetry, &manifest, &None, &sources, false);
    match result {
        Err(ScanError::Parse { path, .. }) => assert_eq!(path, "pkg/broken.py"),
        Ok(_) => panic!("a file that does not parse must fail the scan"),
    }
}

#[test]
fn dev_dependencies_count_when_asked() {
    let manifest = PoetryManifest {
        dependencies: strings(&["python", "requests"]),
        dev_dependencies: Some(strings(&["pytest"])),
        group_dev_dependencies: None,
    };
    let sources = vec![source(&[], "a.py", "import requests\n")];
    let without = PythonProject::new(PackageManager::Poetry, &manifest, &None, &sources, false)
        .expect("sources parse");
    assert!(without.get_unused_packages().is_empty());
    let with = PythonProject::new(PackageManager::Poetry, &manifest, &None, &sources, true)
        .expect("sources parse");
    let result: HashSet<String> = with.get_unused_packages().into_iter().collect();
    assert_eq!(result, set(&["pytest"]));
}

#[test]
fn hyphenated_extra_is_matched_after_normalization() {
    let manifest = manifest(&["celery", "python-redis"]);
    let lock_packages = Some(vec![lock("celery", &[&["python-redis (>=4.5.2)"]])]);
    let sources = vec![source(&[], "tasks.py", "from celery import Celery\n")];
    let project =
        PythonProject::new(PackageManager::Poetry, &manifest, &lock_packages, &sources, false)
            .expect("sources parse");
    assert!(project.get_unused_packages().is_empty());
}

#[test]
fn imported_extra_of_unused_parent_is_left_alone() {
    let manifest = manifest(&["pydantic", "email-validator", "redis"]);
    let lock_packages = Some(vec![lock("pydantic", &[&["email-validator (>=2)"]])]);
    let sources = vec![source(&[], "mail.py", "import email_validator
")];
    let project =
        PythonProject::new(PackageManager::Poetry, &manifest, &lock_packages, &sources, false)
            .expect("sources parse");
    let result: HashSet<String> = project.get_unused_packages().into_iter().collect();
    assert_eq!(result, set(&["pydantic", "redis"]));
}

#[test]
fn extras_mapping_is_kept_by_the_project() {
    let project = example_project().expect("sources parse");
    let extras = project.extra_packages();
    assert_eq!(extras.len(), 1);
    assert_eq!(extras[0].0, "pydantic");
    let mut names = extras[0].1.clone();
    names.sort();
    assert_eq!(names, strings(&["email-validator", "python-dotenv"]));
}
