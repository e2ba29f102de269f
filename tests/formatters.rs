use deptr::formatters::reformat_package_name;

#[test]
fn test_reformat_package_name() {
    let dep = "python-redis";
    let transformed_dep = reformat_package_name(dep);
    assert_eq!(transformed_dep, "redis");

    let dep = "python-redis-abc";
    let transformed_dep = reformat_package_name(dep);
    assert_eq!(transformed_dep, "redis_abc");

    let dep = "redis-abc";
    let transformed_dep = reformat_package_name(dep);
    assert_eq!(transformed_dep, "redis_abc");

    let dep = "redis";
    let transformed_dep = reformat_package_name(dep);
    assert_eq!(transformed_dep, "redis");
}

#[test]
fn reformat_keeps_names_without_prefix_or_hyphen() {
    assert_eq!(reformat_package_name(""), "");
    assert_eq!(reformat_package_name("python"), "python");
    assert_eq!(reformat_package_name("python-"), "");
    assert_eq!(reformat_package_name("pythonic-tools"), "pythonic_tools");
}

#[test]
fn reformat_strips_prefix_once_and_only_at_start() {
    assert_eq!(reformat_package_name("python-python-x"), "python_x");
    assert_eq!(reformat_package_name("my-python-lib"), "my_python_lib");
    assert_eq!(reformat_package_name("a--b-"), "a__b_");
}

#[test]
fn reformat_is_idempotent_on_examples() {
    for name in ["python-redis-abc", "python-python-x", "scikit-learn", "python-", "x"] {
        let once = reformat_package_name(name);
        let twice = reformat_package_name(&once);
        assert_eq!(once, twice);
    }
}

#[test]
fn reformat_handles_non_ascii_names() {
    assert_eq!(reformat_package_name("python-café-ü"), "café_ü");
}
