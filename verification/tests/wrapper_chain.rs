use abrasive::cache_plan::{classify, crate_name_from_argv, ChainShape};

fn osv(parts: &[&str]) -> Vec<String> {
    parts.iter().map(|s| s.to_string()).collect()
}

#[test]
fn workspace_chain_matches_env() {
    let argv = osv(&[
        "/usr/local/bin/drop-point",
        "/usr/local/bin/drop-point-skip",
        "/opt/rust/bin/rustc",
        "--crate-name",
        "my_app",
        "src/lib.rs",
    ]);
    let shape = classify(&argv, Some("/usr/local/bin/drop-point-skip")).unwrap();
    assert_eq!(
        shape,
        ChainShape::Workspace {
            rustc: "/opt/rust/bin/rustc".to_string(),
            rest: osv(&["--crate-name", "my_app", "src/lib.rs"]),
        }
    );
}

#[test]
fn cache_chain_when_env_unset() {
    let argv = osv(&["/usr/local/bin/drop-point", "/opt/rust/bin/rustc", "--crate-name", "serde", "src/lib.rs"]);
    let shape = classify(&argv, None).unwrap();
    assert_eq!(
        shape,
        ChainShape::Cache {
            rustc: "/opt/rust/bin/rustc".to_string(),
            rest: osv(&["--crate-name", "serde", "src/lib.rs"]),
        }
    );
}

#[test]
fn cache_chain_when_env_set_but_argv1_doesnt_match() {
    let argv = osv(&["/usr/local/bin/drop-point", "/opt/rust/bin/rustc", "--crate-name", "serde"]);
    let shape = classify(&argv, Some("/usr/local/bin/drop-point-skip")).unwrap();
    assert_eq!(
        shape,
        ChainShape::Cache { rustc: "/opt/rust/bin/rustc".to_string(), rest: osv(&["--crate-name", "serde"]) }
    );
}

#[test]
fn no_args_returns_none() {
    let argv = osv(&["/usr/local/bin/drop-point"]);
    assert!(classify(&argv, None).is_none());
}

#[test]
fn workspace_with_no_rustc_returns_none() {
    let argv = osv(&["/usr/local/bin/drop-point", "/usr/local/bin/drop-point-skip"]);
    assert!(classify(&argv, Some("/usr/local/bin/drop-point-skip")).is_none());
}

#[test]
fn workspace_with_no_rustc_args_yields_empty_rest() {
    let argv = osv(&["/usr/local/bin/drop-point", "/usr/local/bin/drop-point-skip", "/opt/rust/bin/rustc"]);
    let shape = classify(&argv, Some("/usr/local/bin/drop-point-skip")).unwrap();
    assert_eq!(shape, ChainShape::Workspace { rustc: "/opt/rust/bin/rustc".to_string(), rest: vec![] });
}

#[test]
fn crate_name_is_found_in_either_form() {
    assert_eq!(crate_name_from_argv(&osv(&["--edition=2021", "--crate-name=serde", "x"])), "serde");
    assert_eq!(crate_name_from_argv(&osv(&["a", "--crate-name", "libc", "--crate-name=x"])), "libc");
    assert_eq!(crate_name_from_argv(&osv(&["a", "--crate-name"])), "?");
    assert_eq!(crate_name_from_argv(&osv(&[])), "?");
}
